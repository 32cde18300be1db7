//! The message model and the mathematical model of the aggregate store.
//!
//! `Msg` is the closed sum type that flows through every queue of the
//! pipeline; `Data` is one per-source aggregate entry. The ghost type
//! `EntrySpec` models an entry with unbounded integers, and `apply_msg` /
//! `apply_msgs` say, purely mathematically, what applying messages to the
//! store means. Every executable component is specified against this model.

use vstd::prelude::*;

verus! {

/// A message of the pipeline: a unit of work for one source, the signal
/// that a source is finished, or the global shutdown signal.
#[derive(Clone, Copy, Debug)]
pub enum Msg {
    Data { producer: i32, value: i32 },
    Done { producer: i32 },
    Shutdown,
}

/// One aggregate entry: the running sum for a source, and whether the
/// source has been closed by a `Done` message.
#[derive(Clone, Copy, Debug)]
pub struct Data {
    pub sum: i32,
    pub closed: bool,
}

/// The mathematical model of one aggregate entry.
pub ghost struct EntrySpec {
    pub sum: int,
    pub closed: bool,
}

/// The model of an executable entry.
pub open spec fn entry_spec(d: Data) -> EntrySpec {
    EntrySpec { sum: d.sum as int, closed: d.closed }
}

/// The model of the whole aggregate store.
pub open spec fn store_spec(m: Map<i32, Data>) -> Map<i32, EntrySpec> {
    Map::new(|k: i32| m.contains_key(k), |k: i32| entry_spec(m[k]))
}

/// The entry for `k`, or the lazily created initial entry when `k` has not
/// been observed yet.
pub open spec fn entry_or(s: Map<i32, EntrySpec>, k: i32) -> EntrySpec {
    if s.contains_key(k) {
        s[k]
    } else {
        EntrySpec { sum: 0, closed: false }
    }
}

/// What one message does to the store:
/// - `Data` adds its value to the source's sum while the source is open,
///   and is discarded once the source is closed;
/// - `Done` closes the source; a second `Done` is a no-op;
/// - `Shutdown` leaves the store untouched.
pub open spec fn apply_msg(s: Map<i32, EntrySpec>, m: Msg) -> Map<i32, EntrySpec> {
    match m {
        Msg::Data { producer, value } => {
            let e = entry_or(s, producer);
            if e.closed {
                s
            } else {
                s.insert(producer, EntrySpec { sum: e.sum + value, closed: false })
            }
        },
        Msg::Done { producer } => {
            let e = entry_or(s, producer);
            if e.closed {
                s
            } else {
                s.insert(producer, EntrySpec { sum: e.sum, closed: true })
            }
        },
        Msg::Shutdown => s,
    }
}

/// Folding a whole sequence of messages into the store, in order.
pub open spec fn apply_msgs(s: Map<i32, EntrySpec>, msgs: Seq<Msg>) -> Map<i32, EntrySpec>
    decreases msgs.len(),
{
    if msgs.len() == 0 {
        s
    } else {
        apply_msgs(apply_msg(s, msgs[0]), msgs.drop_first())
    }
}

/// Folding distributes over concatenation.
pub proof fn lemma_apply_msgs_concat(s: Map<i32, EntrySpec>, a: Seq<Msg>, b: Seq<Msg>)
    ensures
        apply_msgs(s, a + b) == apply_msgs(apply_msgs(s, a), b),
    decreases a.len(),
{
    if a.len() == 0 {
        assert(a + b =~= b);
    } else {
        assert((a + b)[0] == a[0]);
        assert((a + b).drop_first() =~= a.drop_first() + b);
        lemma_apply_msgs_concat(apply_msg(s, a[0]), a.drop_first(), b);
    }
}

/// Folding a singleton sequence is one application.
pub proof fn lemma_apply_msgs_one(s: Map<i32, EntrySpec>, m: Msg)
    ensures
        apply_msgs(s, seq![m]) == apply_msg(s, m),
{
    let b = seq![m];
    assert(b.drop_first() =~= Seq::<Msg>::empty());
    assert(apply_msgs(apply_msg(s, b[0]), b.drop_first()) == apply_msg(s, m));
}

/// A singleton sequence holds pending value only for a `Data` message.
pub proof fn lemma_pending_sum_one(k: i32, m: Msg)
    ensures
        pending_sum(k, seq![m]) == (match m {
            Msg::Data { producer, value } => if producer == k { value as int } else { 0 },
            _ => 0,
        }),
{
    let b = seq![m];
    assert(b.drop_first() =~= Seq::<Msg>::empty());
    assert(pending_sum(k, b.drop_first()) == 0);
}

/// Folding one message more extends the fold of the prefix by one step.
pub proof fn lemma_apply_msgs_snoc(s: Map<i32, EntrySpec>, q: Seq<Msg>, j: int)
    requires
        0 <= j < q.len(),
    ensures
        apply_msgs(s, q.subrange(0, j + 1)) == apply_msg(apply_msgs(s, q.subrange(0, j)), q[j]),
{
    let a = q.subrange(0, j);
    let b = seq![q[j]];
    assert(q.subrange(0, j + 1) =~= a + b);
    lemma_apply_msgs_concat(s, a, b);
    let x = apply_msgs(s, a);
    assert(b.drop_first() =~= Seq::<Msg>::empty());
    assert(apply_msgs(apply_msg(x, b[0]), b.drop_first()) == apply_msg(x, q[j]));
    assert(apply_msgs(x, b) == apply_msg(x, q[j]));
}

/// The total value still to arrive for source `k` in a sequence of
/// messages: the sum of the values of all `Data` messages for `k`.
pub open spec fn pending_sum(k: i32, msgs: Seq<Msg>) -> int
    decreases msgs.len(),
{
    if msgs.len() == 0 {
        0
    } else {
        (match msgs[0] {
            Msg::Data { producer, value } => if producer == k { value as int } else { 0 },
            _ => 0,
        }) + pending_sum(k, msgs.drop_first())
    }
}

/// When every `Data` value in the sequence is non-negative, so is the
/// pending total of every source.
pub proof fn lemma_pending_sum_nonneg(k: i32, msgs: Seq<Msg>)
    requires
        forall|j: int| 0 <= j < msgs.len() ==> (#[trigger] msgs[j] matches Msg::Data { value, .. } ==> value >= 0),
    ensures
        pending_sum(k, msgs) >= 0,
    decreases msgs.len(),
{
    if msgs.len() > 0 {
        assert(forall|j: int| 0 <= j < msgs.drop_first().len() ==> #[trigger] msgs.drop_first()[j] == msgs[j + 1]);
        lemma_pending_sum_nonneg(k, msgs.drop_first());
    }
}

/// `pending_sum` distributes over concatenation.
pub proof fn lemma_pending_sum_concat(k: i32, a: Seq<Msg>, b: Seq<Msg>)
    ensures
        pending_sum(k, a + b) == pending_sum(k, a) + pending_sum(k, b),
    decreases a.len(),
{
    if a.len() == 0 {
        assert(a + b =~= b);
    } else {
        assert((a + b)[0] == a[0]);
        assert((a + b).drop_first() =~= a.drop_first() + b);
        lemma_pending_sum_concat(k, a.drop_first(), b);
    }
}

/// Once a source is closed, no message changes its entry again: `closed`
/// is monotonic and the sum is immutable from that point on.
pub proof fn lemma_closed_stable(s: Map<i32, EntrySpec>, m: Msg, k: i32)
    requires
        entry_or(s, k).closed,
    ensures
        entry_or(apply_msg(s, m), k) == entry_or(s, k),
{
}

/// An entry only ever moves forward: with non-negative values, a sum never
/// decreases, and a closed source never reopens.
pub proof fn lemma_entry_monotonic(s: Map<i32, EntrySpec>, m: Msg, k: i32)
    requires
        m matches Msg::Data { value, .. } ==> value >= 0,
    ensures
        entry_or(apply_msg(s, m), k).sum >= entry_or(s, k).sum,
        entry_or(s, k).closed ==> entry_or(apply_msg(s, m), k).closed,
{
}

/// Closing a source is idempotent: once a `Done` for a source has been
/// applied, applying another `Done` for the same source leaves the whole
/// store exactly as it was — `closed` never toggles back and the sum is
/// not disturbed.
pub proof fn lemma_completion_idempotent(s: Map<i32, EntrySpec>, source: i32)
    ensures
        apply_msg(apply_msg(s, Msg::Done { producer: source }), Msg::Done { producer: source })
            == apply_msg(s, Msg::Done { producer: source }),
{
}

/// Messages about different sources commute: which worker processes a
/// message first never changes the final store, only who touches it.
pub proof fn lemma_apply_msg_commute(s: Map<i32, EntrySpec>, m1: Msg, m2: Msg)
    requires
        match (m1, m2) {
            (Msg::Data { producer: p1, .. }, Msg::Data { producer: p2, .. }) => p1 != p2,
            (Msg::Data { producer: p1, .. }, Msg::Done { producer: p2 }) => p1 != p2,
            (Msg::Done { producer: p1 }, Msg::Data { producer: p2, .. }) => p1 != p2,
            (Msg::Done { producer: p1 }, Msg::Done { producer: p2 }) => p1 != p2,
            _ => true,
        },
    ensures
        apply_msg(apply_msg(s, m1), m2) == apply_msg(apply_msg(s, m2), m1),
{
    assert(apply_msg(apply_msg(s, m1), m2) =~= apply_msg(apply_msg(s, m2), m1));
}

} // verus!
