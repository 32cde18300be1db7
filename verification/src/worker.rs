//! The worker's step: applying one message to the shared aggregate store.
//!
//! A worker drains its private queue strictly in order and calls
//! `process_msg` once per message; in the concurrent arrangement it does so
//! while holding the store's single lock, so each call is one atomic
//! read-modify-write of the store. `bounds_ok` is the invariant a drain
//! loop carries to know that no running sum ever leaves the `i32` range.

use vstd::prelude::*;
use crate::msg::Data;
use crate::msg::EntrySpec;
use crate::msg::Msg;
use crate::msg::apply_msg;
use crate::msg::entry_or;
use crate::msg::entry_spec;
use crate::msg::pending_sum;
use crate::msg::store_spec;
use std::collections::HashMap;

verus! {

broadcast use vstd::std_specs::hash::group_hash_axioms;

/// Every running sum is non-negative and, together with everything still
/// to arrive for its source, stays within `i32`; and every `Data` value
/// still to arrive is non-negative.
pub open spec fn bounds_ok(s: Map<i32, EntrySpec>, rest: Seq<Msg>) -> bool {
    &&& forall|k: i32| (#[trigger] entry_or(s, k)).sum >= 0
        && entry_or(s, k).sum + pending_sum(k, rest) <= i32::MAX
    &&& forall|j: int| 0 <= j < rest.len()
        ==> (#[trigger] rest[j] matches Msg::Data { value, .. } ==> value >= 0)
}

/// `bounds_ok` survives applying the head message, and it guarantees that
/// the addition the head message asks for fits in an `i32`.
pub proof fn lemma_bounds_step(s: Map<i32, EntrySpec>, rest: Seq<Msg>)
    requires
        bounds_ok(s, rest),
        rest.len() > 0,
    ensures
        bounds_ok(apply_msg(s, rest[0]), rest.drop_first()),
        rest[0] matches Msg::Data { producer, value } ==> !entry_or(s, producer).closed
            ==> i32::MIN <= entry_or(s, producer).sum + value <= i32::MAX,
{
    let s2 = apply_msg(s, rest[0]);
    let rest2 = rest.drop_first();
    assert(forall|j: int| 0 <= j < rest2.len() ==> #[trigger] rest2[j] == rest[j + 1]);
    assert forall|k: i32| (#[trigger] entry_or(s2, k)).sum >= 0
        && entry_or(s2, k).sum + pending_sum(k, rest2) <= i32::MAX by {
        crate::msg::lemma_pending_sum_nonneg(k, rest2);
        assert(pending_sum(k, rest) == (match rest[0] {
            Msg::Data { producer, value } => if producer == k { value as int } else { 0 },
            _ => 0,
        }) + pending_sum(k, rest2));
        assert(entry_or(s, k).sum >= 0 && entry_or(s, k).sum + pending_sum(k, rest) <= i32::MAX);
    }
    let p = match rest[0] {
        Msg::Data { producer, .. } => producer,
        Msg::Done { producer } => producer,
        Msg::Shutdown => 0,
    };
    crate::msg::lemma_pending_sum_nonneg(p, rest2);
    assert(entry_or(s, p).sum >= 0 && entry_or(s, p).sum + pending_sum(p, rest) <= i32::MAX);
}

/// Apply one message to the aggregate store, exactly as `apply_msg`
/// describes: `Data` adds to the sum of an open source and is discarded for
/// a closed one, `Done` closes a source (idempotently), and `Shutdown`
/// leaves the store untouched. Returns whether the worker must stop.
pub fn process_msg(msg: Msg, state: &mut HashMap<i32, Data>) -> (is_shutdown: bool)
    requires
        msg matches Msg::Data { producer, value } ==> !entry_or(store_spec(old(state)@), producer).closed
            ==> i32::MIN <= entry_or(store_spec(old(state)@), producer).sum + value <= i32::MAX,
    ensures
        store_spec(final(state)@) == apply_msg(store_spec(old(state)@), msg),
        is_shutdown == (msg is Shutdown),
{
    let ghost s0 = store_spec(state@);
    match msg {
        Msg::Data { producer, value } => {
            let cur: Data = match state.get(&producer) {
                Some(e) => *e,
                None => Data { sum: 0, closed: false },
            };
            proof {
                assert(entry_spec(cur) == entry_or(s0, producer));
            }
            if !cur.closed {
                state.insert(producer, Data { sum: cur.sum + value, closed: false });
            }
            proof {
                assert(store_spec(state@) =~= apply_msg(s0, msg));
            }
            false
        },
        Msg::Done { producer } => {
            let cur: Data = match state.get(&producer) {
                Some(e) => *e,
                None => Data { sum: 0, closed: false },
            };
            if !cur.closed {
                state.insert(producer, Data { sum: cur.sum, closed: true });
            }
            proof {
                assert(store_spec(state@) =~= apply_msg(s0, msg));
            }
            false
        },
        Msg::Shutdown => true,
    }
}

} // verus!
