//! A producer's message stream.
//!
//! Producer `id` emits `msgs_per_producer` `Data` messages whose values are
//! the deterministic `10 * id + n` for index `n`, followed by one trailing
//! `Done`. With early completion injected, an additional `Done` is emitted
//! just before the `Data` message of index 3, while the producer keeps
//! sending the rest of its stream regardless. `producer_seq` is the exact
//! mathematical description of that stream, and `eff_sum` is the sum that
//! the aggregation core ends up keeping for the source.

use vstd::prelude::*;
use crate::msg::EntrySpec;
use crate::msg::Msg;
use crate::msg::apply_msg;
use crate::msg::apply_msgs;
use crate::msg::entry_or;
use crate::msg::lemma_apply_msgs_concat;
use crate::msg::lemma_apply_msgs_one;
use crate::msg::lemma_pending_sum_one;
use crate::msg::lemma_pending_sum_concat;
use crate::msg::pending_sum;

verus! {

/// The sum of the values a producer generates for indices in `[lo, hi)`.
pub open spec fn block_sum(id: i32, lo: int, hi: int) -> int
    decreases hi - lo,
{
    if lo >= hi {
        0
    } else {
        (10 * id + lo) + block_sum(id, lo + 1, hi)
    }
}

/// The `Data` messages a producer generates for indices in `[lo, hi)`.
pub open spec fn data_block(id: i32, lo: int, hi: int) -> Seq<Msg>
    decreases hi - lo,
{
    if lo >= hi {
        Seq::empty()
    } else {
        seq![Msg::Data { producer: id, value: (10 * id + lo) as i32 }] + data_block(id, lo + 1, hi)
    }
}

/// The whole stream of producer `id`: its `Data` messages in index order
/// with the trailing `Done`, and, when early completion is injected and the
/// stream is long enough to reach index 3, an extra `Done` just before the
/// `Data` message of index 3.
pub open spec fn producer_seq(id: i32, m: int, early: bool) -> Seq<Msg> {
    if early && m > 3 {
        data_block(id, 0, 3) + seq![Msg::Done { producer: id }] + data_block(id, 3, m)
            + seq![Msg::Done { producer: id }]
    } else {
        data_block(id, 0, m) + seq![Msg::Done { producer: id }]
    }
}

/// The sum the store finally keeps for producer `id`: everything the
/// producer generated, unless an early `Done` cut the stream off at index
/// 3, in which case only the first three values count.
pub open spec fn eff_sum(id: i32, m: int, early: bool) -> int {
    if early && m > 3 {
        block_sum(id, 0, 3)
    } else {
        block_sum(id, 0, m)
    }
}

/// `block_sum` splits at any midpoint.
pub proof fn lemma_block_sum_split(id: i32, lo: int, mid: int, hi: int)
    requires
        lo <= mid <= hi,
    ensures
        block_sum(id, lo, hi) == block_sum(id, lo, mid) + block_sum(id, mid, hi),
    decreases mid - lo,
{
    if lo < mid {
        lemma_block_sum_split(id, lo + 1, mid, hi);
    }
}

/// A producer with a non-negative identity generates only non-negative
/// values, so its block sums are non-negative.
pub proof fn lemma_block_sum_nonneg(id: i32, lo: int, hi: int)
    requires
        0 <= id,
        0 <= lo,
    ensures
        block_sum(id, lo, hi) >= 0,
    decreases hi - lo,
{
    if lo < hi {
        lemma_block_sum_nonneg(id, lo + 1, hi);
    }
}

/// Shape of a data block: its length and each message in it.
pub proof fn lemma_data_block_elems(id: i32, lo: int, hi: int)
    requires
        0 <= id,
        0 <= lo <= hi,
        10 * id + hi <= i32::MAX,
    ensures
        data_block(id, lo, hi).len() == hi - lo,
        forall|j: int| 0 <= j < hi - lo ==> #[trigger] data_block(id, lo, hi)[j]
            == (Msg::Data { producer: id, value: (10 * id + lo + j) as i32 }),
    decreases hi - lo,
{
    if lo < hi {
        lemma_data_block_elems(id, lo + 1, hi);
        let head = seq![Msg::Data { producer: id, value: (10 * id + lo) as i32 }];
        let rest = data_block(id, lo + 1, hi);
        assert(forall|j: int| 1 <= j < hi - lo ==> #[trigger] (head + rest)[j] == rest[j - 1]);
    }
}

/// Appending the next data message extends the block by one index.
pub proof fn lemma_data_block_snoc(id: i32, lo: int, hi: int)
    requires
        lo <= hi,
    ensures
        data_block(id, lo, hi + 1) == data_block(id, lo, hi)
            + seq![Msg::Data { producer: id, value: (10 * id + hi) as i32 }],
    decreases hi - lo,
{
    if lo >= hi {
        assert(data_block(id, lo + 1, hi + 1) =~= Seq::<Msg>::empty());
        assert(data_block(id, lo, hi) =~= Seq::<Msg>::empty());
        assert(data_block(id, lo, hi + 1) =~= data_block(id, lo, hi)
            + seq![Msg::Data { producer: id, value: (10 * id + hi) as i32 }]);
    } else {
        lemma_data_block_snoc(id, lo + 1, hi);
        let head = seq![Msg::Data { producer: id, value: (10 * id + lo) as i32 }];
        assert(head + (data_block(id, lo + 1, hi)
            + seq![Msg::Data { producer: id, value: (10 * id + hi) as i32 }])
            =~= (head + data_block(id, lo + 1, hi))
            + seq![Msg::Data { producer: id, value: (10 * id + hi) as i32 }]);
    }
}

/// Folding a data block into the store: discarded entirely if the source is
/// already closed, otherwise it adds the block's sum to the source's sum
/// and touches nothing else.
pub proof fn lemma_apply_data_block(s: Map<i32, EntrySpec>, id: i32, lo: int, hi: int)
    requires
        0 <= id,
        0 <= lo <= hi,
        10 * id + hi <= i32::MAX,
    ensures
        entry_or(s, id).closed ==> apply_msgs(s, data_block(id, lo, hi)) == s,
        !entry_or(s, id).closed ==> apply_msgs(s, data_block(id, lo, hi)) == (if lo == hi {
            s
        } else {
            s.insert(id, EntrySpec { sum: entry_or(s, id).sum + block_sum(id, lo, hi), closed: false })
        }),
    decreases hi - lo,
{
    if lo < hi {
        let v = (10 * id + lo) as i32;
        let head = Msg::Data { producer: id, value: v };
        let hseq = seq![head];
        let rest = data_block(id, lo + 1, hi);
        assert((hseq + rest)[0] == head);
        assert((hseq + rest).drop_first() =~= rest);
        let s1 = apply_msg(s, head);
        lemma_apply_data_block(s1, id, lo + 1, hi);
        if !entry_or(s, id).closed {
            let e = entry_or(s, id);
            assert(v as int == 10 * id + lo);
            assert(s1 == s.insert(id, EntrySpec { sum: e.sum + (10 * id + lo), closed: false }));
            if lo + 1 < hi {
                assert(s1.insert(id, EntrySpec {
                    sum: entry_or(s1, id).sum + block_sum(id, lo + 1, hi),
                    closed: false,
                }) =~= s.insert(id, EntrySpec { sum: e.sum + block_sum(id, lo, hi), closed: false }));
            }
        }
    }
}

/// Folding one full producer stream into a store that has not seen the
/// source yet: the source gets exactly its effective sum and is closed, and
/// no other entry is touched.
pub proof fn lemma_apply_producer_seq(s: Map<i32, EntrySpec>, id: i32, m: int, early: bool)
    requires
        0 <= id,
        0 <= m,
        10 * id + m <= i32::MAX,
        !s.contains_key(id),
    ensures
        apply_msgs(s, producer_seq(id, m, early))
            == s.insert(id, EntrySpec { sum: eff_sum(id, m, early), closed: true }),
{
    let done = Msg::Done { producer: id };
    let dseq = seq![done];
    assert(dseq.drop_first() =~= Seq::<Msg>::empty());
    if early && m > 3 {
        let b1 = data_block(id, 0, 3);
        let b2 = data_block(id, 3, m);
        lemma_apply_msgs_concat(s, b1 + dseq + b2, dseq);
        lemma_apply_msgs_concat(s, b1 + dseq, b2);
        lemma_apply_msgs_concat(s, b1, dseq);
        assert(b1 + dseq + b2 + dseq =~= ((b1 + dseq) + b2) + dseq);
        lemma_apply_data_block(s, id, 0, 3);
        let s1 = apply_msgs(s, b1);
        assert(s1 == s.insert(id, EntrySpec { sum: block_sum(id, 0, 3), closed: false }));
        let s2 = apply_msg(s1, done);
        lemma_apply_msgs_one(s1, done);
        assert(s2 =~= s.insert(id, EntrySpec { sum: block_sum(id, 0, 3), closed: true }));
        lemma_apply_data_block(s2, id, 3, m);
        assert(apply_msgs(s2, b2) == s2);
        lemma_apply_msgs_one(s2, done);
        assert(apply_msg(s2, done) == s2);
    } else {
        let b = data_block(id, 0, m);
        lemma_apply_msgs_concat(s, b, dseq);
        lemma_apply_data_block(s, id, 0, m);
        let s1 = apply_msgs(s, b);
        let s2 = apply_msg(s1, done);
        lemma_apply_msgs_one(s1, done);
        if m == 0 {
            assert(s2 == s.insert(id, EntrySpec { sum: 0, closed: true }));
        } else {
            assert(s2 =~= s.insert(id, EntrySpec { sum: block_sum(id, 0, m), closed: true }));
        }
    }
}

/// Every message of a producer's stream carries that producer's identity,
/// with a non-negative value; in particular the stream holds no `Shutdown`.
pub open spec fn msg_from(msg: Msg, id: i32) -> bool {
    match msg {
        Msg::Data { producer, value } => producer == id && value >= 0,
        Msg::Done { producer } => producer == id,
        Msg::Shutdown => false,
    }
}

/// Shape of a whole producer stream: its length and the origin of each
/// message in it.
pub proof fn lemma_producer_seq_elems(id: i32, m: int, early: bool)
    requires
        0 <= id,
        0 <= m,
        10 * id + m <= i32::MAX,
    ensures
        producer_seq(id, m, early).len() == (if early && m > 3 { m + 2 } else { m + 1 }),
        forall|j: int| 0 <= j < producer_seq(id, m, early).len()
            ==> msg_from(#[trigger] producer_seq(id, m, early)[j], id),
{
    let done = Msg::Done { producer: id };
    let dseq = seq![done];
    if early && m > 3 {
        lemma_data_block_elems(id, 0, 3);
        lemma_data_block_elems(id, 3, m);
        let b1 = data_block(id, 0, 3);
        let b2 = data_block(id, 3, m);
        let whole = ((b1 + dseq) + b2) + dseq;
        assert(producer_seq(id, m, early) =~= whole);
        assert forall|j: int| 0 <= j < whole.len() implies msg_from(#[trigger] whole[j], id) by {
            if j < 3 {
                assert(whole[j] == b1[j]);
            } else if j == 3 {
                assert(whole[j] == done);
            } else if j < m + 1 {
                assert(whole[j] == b2[j - 4]);
            } else {
                assert(whole[j] == done);
            }
        }
    } else {
        lemma_data_block_elems(id, 0, m);
        let b = data_block(id, 0, m);
        let whole = b + dseq;
        assert forall|j: int| 0 <= j < whole.len() implies msg_from(#[trigger] whole[j], id) by {
            if j < m {
                assert(whole[j] == b[j]);
            } else {
                assert(whole[j] == done);
            }
        }
    }
}

/// The pending total of a producer's stream: the producer's own full block
/// sum for itself, nothing for any other source.
pub proof fn lemma_pending_producer_seq(k: i32, id: i32, m: int, early: bool)
    requires
        0 <= id,
        0 <= m,
        10 * id + m <= i32::MAX,
    ensures
        pending_sum(k, producer_seq(id, m, early)) == (if k == id { block_sum(id, 0, m) } else { 0 }),
{
    let done = Msg::Done { producer: id };
    let dseq = seq![done];
    lemma_pending_sum_one(k, done);
    if early && m > 3 {
        let b1 = data_block(id, 0, 3);
        let b2 = data_block(id, 3, m);
        assert(producer_seq(id, m, early) =~= ((b1 + dseq) + b2) + dseq);
        lemma_pending_sum_concat(k, (b1 + dseq) + b2, dseq);
        lemma_pending_sum_concat(k, b1 + dseq, b2);
        lemma_pending_sum_concat(k, b1, dseq);
        lemma_pending_data_block(k, id, 0, 3);
        lemma_pending_data_block(k, id, 3, m);
        lemma_block_sum_split(id, 0, 3, m);
    } else {
        lemma_pending_sum_concat(k, data_block(id, 0, m), dseq);
        lemma_pending_data_block(k, id, 0, m);
    }
}

/// The pending total of one data block.
pub proof fn lemma_pending_data_block(k: i32, id: i32, lo: int, hi: int)
    requires
        0 <= id,
        0 <= lo <= hi,
        10 * id + hi <= i32::MAX,
    ensures
        pending_sum(k, data_block(id, lo, hi)) == (if k == id { block_sum(id, lo, hi) } else { 0 }),
    decreases hi - lo,
{
    if lo < hi {
        let head = seq![Msg::Data { producer: id, value: (10 * id + lo) as i32 }];
        let rest = data_block(id, lo + 1, hi);
        assert((head + rest)[0] == head[0]);
        assert((head + rest).drop_first() =~= rest);
        lemma_pending_data_block(k, id, lo + 1, hi);
    }
}

/// Generate producer `id`'s whole stream, in the exact order it would be
/// sent: its `Data` messages with the trailing `Done`, and the extra early
/// `Done` before index 3 when `inject_early_done` is set.
pub fn producer_messages(id: i32, msgs_per_producer: i32, inject_early_done: bool) -> (msgs: Vec<Msg>)
    requires
        0 <= id,
        0 <= msgs_per_producer,
        10 * id + msgs_per_producer <= i32::MAX,
    ensures
        msgs@ == producer_seq(id, msgs_per_producer as int, inject_early_done),
{
    let m = msgs_per_producer;
    let mut msgs: Vec<Msg> = Vec::new();
    let mut n: i32 = 0;
    proof {
        assert(msgs@ =~= data_block(id, 0, 0));
    }
    while n < m
        invariant
            0 <= n <= m,
            0 <= id,
            10 * id + m <= i32::MAX,
            inject_early_done && m > 3 && n > 3 ==> msgs@ == data_block(id, 0, 3)
                + seq![Msg::Done { producer: id }] + data_block(id, 3, n as int),
            !(inject_early_done && m > 3 && n > 3) ==> msgs@ == data_block(id, 0, n as int),
        decreases m - n,
    {
        if inject_early_done && n == 3 {
            msgs.push(Msg::Done { producer: id });
        }
        msgs.push(Msg::Data { producer: id, value: 10 * id + n });
        proof {
            lemma_data_block_snoc(id, 0, n as int);
            if inject_early_done && m > 3 && n >= 3 {
                lemma_data_block_snoc(id, 3, n as int);
                if n == 3 {
                    assert(data_block(id, 3, 3) =~= Seq::<Msg>::empty());
                    assert(msgs@ =~= data_block(id, 0, 3) + seq![Msg::Done { producer: id }]
                        + data_block(id, 3, n + 1));
                } else {
                    assert(msgs@ =~= data_block(id, 0, 3) + seq![Msg::Done { producer: id }]
                        + data_block(id, 3, n + 1));
                }
            } else {
                assert(msgs@ =~= data_block(id, 0, n + 1));
            }
        }
        n = n + 1;
    }
    msgs.push(Msg::Done { producer: id });
    proof {
        if inject_early_done && m > 3 {
            assert(msgs@ =~= producer_seq(id, m as int, inject_early_done));
        } else {
            assert(msgs@ =~= producer_seq(id, m as int, inject_early_done));
        }
    }
    msgs
}

/// Idempotent completion, at stream level: a producer's stream with the
/// early `Done` injected leaves the store exactly as if the stream had
/// ended at that first `Done` — the later messages, the discarded `Data`
/// and the second `Done`, change nothing.
pub proof fn lemma_early_stream_equivalent(s: Map<i32, EntrySpec>, id: i32, m: int)
    requires
        0 <= id,
        3 < m,
        10 * id + m <= i32::MAX,
        !s.contains_key(id),
    ensures
        apply_msgs(s, producer_seq(id, m, true))
            == apply_msgs(s, data_block(id, 0, 3) + seq![Msg::Done { producer: id }]),
{
    lemma_apply_producer_seq(s, id, m, true);
    let done = Msg::Done { producer: id };
    let dseq = seq![done];
    let b1 = data_block(id, 0, 3);
    lemma_apply_msgs_concat(s, b1, dseq);
    lemma_apply_data_block(s, id, 0, 3);
    let s1 = apply_msgs(s, b1);
    lemma_apply_msgs_one(s1, done);
    assert(apply_msg(s1, done) =~= s.insert(id, EntrySpec { sum: block_sum(id, 0, 3), closed: true }));
}

} // verus!
