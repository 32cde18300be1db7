//! The orchestrated run: producers, dispatcher, workers, shutdown.
//!
//! `run_system` performs one whole run of the pipeline: it generates every
//! producer's stream in order, dispatches each message to the per-worker
//! queue chosen by the routing table, ends every queue with one `Shutdown`,
//! and then lets each worker drain its queue into the shared aggregate
//! store until it meets its `Shutdown`. Its contract pins the final store
//! down completely as `run_spec`, which depends on the producer count, the
//! per-producer message count and the early-completion flag alone — not on
//! the worker count. Routing decides only who applies a message, never
//! whether or how often it is applied.

use vstd::prelude::*;
use crate::msg::Data;
use crate::msg::EntrySpec;
use crate::msg::Msg;
use crate::msg::apply_msgs;
use crate::msg::entry_or;
use crate::msg::lemma_apply_msgs_concat;
use crate::msg::lemma_apply_msgs_one;
use crate::msg::lemma_apply_msgs_snoc;
use crate::msg::lemma_pending_sum_concat;
use crate::msg::lemma_pending_sum_one;
use crate::msg::pending_sum;
use crate::msg::store_spec;
use crate::producer::block_sum;
use crate::producer::eff_sum;
use crate::producer::lemma_apply_producer_seq;
use crate::producer::lemma_block_sum_nonneg;
use crate::producer::lemma_block_sum_split;
use crate::producer::lemma_pending_producer_seq;
use crate::producer::lemma_producer_seq_elems;
use crate::producer::msg_from;
use crate::producer::producer_messages;
use crate::producer::producer_seq;
use crate::routing::route;
use crate::routing::route_spec;
use crate::worker::bounds_ok;
use crate::worker::lemma_bounds_step;
use crate::worker::process_msg;
use std::collections::HashMap;

verus! {

/// The final aggregate entry of one producer: closed, holding its
/// effective sum.
pub open spec fn final_entry(id: i32, m: int, early: bool) -> EntrySpec {
    EntrySpec { sum: eff_sum(id, m, early), closed: true }
}

/// The final aggregate store of a whole run: one closed entry per
/// producer, holding that producer's effective sum. Note that the worker
/// count is no argument of this function: the result of a run does not
/// depend on it.
pub open spec fn run_spec(num_producers: int, m: int, early: bool) -> Map<i32, EntrySpec> {
    Map::new(|k: i32| 0 <= k < num_producers, |k: i32| final_entry(k, m, early))
}

/// The store after the first `workers_done` workers have drained their
/// queues: exactly the producers routed to those workers have their final
/// entries.
pub open spec fn partial_run(workers_done: int, num_workers: i32, num_producers: int, m: int, early: bool) -> Map<i32, EntrySpec> {
    Map::new(
        |k: i32| 0 <= k < num_producers && route_spec(k, num_workers) < workers_done,
        |k: i32| final_entry(k, m, early),
    )
}

/// The private queue of worker `w` once the dispatcher has forwarded the
/// streams of the first `num_producers` producers: the concatenation, in
/// producer order, of the streams of the producers routed to `w`.
pub open spec fn assigned_concat(w: int, num_workers: i32, num_producers: int, m: int, early: bool) -> Seq<Msg>
    decreases num_producers,
{
    if num_producers <= 0 {
        Seq::empty()
    } else {
        assigned_concat(w, num_workers, num_producers - 1, m, early) + (
        if route_spec((num_producers - 1) as i32, num_workers) == w {
            producer_seq((num_producers - 1) as i32, m, early)
        } else {
            Seq::empty()
        })
    }
}

/// A message that belongs on worker `w`'s queue: a `Data` or `Done` of a
/// producer routed to `w`, with a non-negative value.
pub open spec fn routed_msg(msg: Msg, w: int, num_workers: i32, num_producers: int) -> bool {
    match msg {
        Msg::Data { producer, value } => 0 <= producer < num_producers
            && route_spec(producer, num_workers) == w && value >= 0,
        Msg::Done { producer } => 0 <= producer < num_producers
            && route_spec(producer, num_workers) == w,
        Msg::Shutdown => false,
    }
}

/// Every message on a dispatched queue belongs there.
pub proof fn lemma_assigned_elems(w: int, num_workers: i32, num_producers: int, m: int, early: bool)
    requires
        1 <= num_workers,
        0 <= num_producers,
        0 <= m,
        10 * num_producers + m <= i32::MAX,
    ensures
        forall|j: int| 0 <= j < assigned_concat(w, num_workers, num_producers, m, early).len()
            ==> routed_msg(#[trigger] assigned_concat(w, num_workers, num_producers, m, early)[j], w, num_workers, num_producers),
    decreases num_producers,
{
    if num_producers > 0 {
        let p = (num_producers - 1) as i32;
        let prefix = assigned_concat(w, num_workers, num_producers - 1, m, early);
        lemma_assigned_elems(w, num_workers, num_producers - 1, m, early);
        if route_spec(p, num_workers) == w {
            lemma_producer_seq_elems(p, m, early);
            let seg = producer_seq(p, m, early);
            assert forall|j: int| 0 <= j < (prefix + seg).len()
                implies routed_msg(#[trigger] (prefix + seg)[j], w, num_workers, num_producers) by {
                if j < prefix.len() {
                    assert((prefix + seg)[j] == prefix[j]);
                    assert(routed_msg(prefix[j], w, num_workers, num_producers - 1));
                } else {
                    assert((prefix + seg)[j] == seg[j - prefix.len()]);
                    assert(msg_from(seg[j - prefix.len()], p));
                }
            }
        } else {
            let seg = Seq::<Msg>::empty();
            assert forall|j: int| 0 <= j < (prefix + seg).len()
                implies routed_msg(#[trigger] (prefix + seg)[j], w, num_workers, num_producers) by {
                assert((prefix + seg)[j] == prefix[j]);
                assert(routed_msg(prefix[j], w, num_workers, num_producers - 1));
            }
        }
    }
}

/// The pending total of a dispatched queue: the full block sum of each
/// producer routed to this worker, nothing for anyone else.
pub proof fn lemma_pending_assigned(k: i32, w: int, num_workers: i32, num_producers: int, m: int, early: bool)
    requires
        1 <= num_workers,
        0 <= num_producers,
        0 <= m,
        10 * num_producers + m <= i32::MAX,
    ensures
        pending_sum(k, assigned_concat(w, num_workers, num_producers, m, early)) == (
        if 0 <= k < num_producers && route_spec(k, num_workers) == w {
            block_sum(k, 0, m)
        } else {
            0
        }),
    decreases num_producers,
{
    if num_producers <= 0 {
        assert(pending_sum(k, Seq::<Msg>::empty()) == 0);
    } else {
        let p = (num_producers - 1) as i32;
        let prefix = assigned_concat(w, num_workers, num_producers - 1, m, early);
        lemma_pending_assigned(k, w, num_workers, num_producers - 1, m, early);
        if route_spec(p, num_workers) == w {
            let seg = producer_seq(p, m, early);
            lemma_pending_sum_concat(k, prefix, seg);
            lemma_pending_producer_seq(k, p, m, early);
        } else {
            lemma_pending_sum_concat(k, prefix, Seq::<Msg>::empty());
            assert(pending_sum(k, Seq::<Msg>::empty()) == 0);
        }
    }
}

/// The store `s` with every producer routed to worker `w` given its final
/// entry.
pub open spec fn with_worker_finals(s: Map<i32, EntrySpec>, w: int, num_workers: i32, num_producers: int, m: int, early: bool) -> Map<i32, EntrySpec> {
    Map::new(
        |k: i32| s.contains_key(k) || (0 <= k < num_producers && route_spec(k, num_workers) == w),
        |k: i32| if 0 <= k < num_producers && route_spec(k, num_workers) == w {
            final_entry(k, m, early)
        } else {
            s[k]
        },
    )
}

/// Draining a dispatched queue into a store that has no entry yet for any
/// producer routed to this worker: exactly those producers get their final
/// entries, and nothing else changes.
pub proof fn lemma_apply_assigned(s: Map<i32, EntrySpec>, w: int, num_workers: i32, num_producers: int, m: int, early: bool)
    requires
        1 <= num_workers,
        0 <= num_producers,
        0 <= m,
        10 * num_producers + m <= i32::MAX,
        forall|k: i32| 0 <= k < num_producers && #[trigger] route_spec(k, num_workers) == w
            ==> !s.contains_key(k),
    ensures
        apply_msgs(s, assigned_concat(w, num_workers, num_producers, m, early))
            == with_worker_finals(s, w, num_workers, num_producers, m, early),
    decreases num_producers,
{
    if num_producers <= 0 {
        assert(apply_msgs(s, Seq::<Msg>::empty()) == s);
        assert(with_worker_finals(s, w, num_workers, num_producers, m, early) =~= s);
    } else {
        let p = (num_producers - 1) as i32;
        let prefix = assigned_concat(w, num_workers, num_producers - 1, m, early);
        lemma_apply_assigned(s, w, num_workers, num_producers - 1, m, early);
        let r1 = apply_msgs(s, prefix);
        let r = apply_msgs(s, assigned_concat(w, num_workers, num_producers, m, early));
        if route_spec(p, num_workers) == w {
            let seg = producer_seq(p, m, early);
            lemma_apply_msgs_concat(s, prefix, seg);
            assert(!r1.contains_key(p));
            lemma_apply_producer_seq(r1, p, m, early);
            assert(r == r1.insert(p, final_entry(p, m, early)));
            assert(r1.insert(p, final_entry(p, m, early))
                =~= with_worker_finals(s, w, num_workers, num_producers, m, early));
        } else {
            lemma_apply_msgs_concat(s, prefix, Seq::<Msg>::empty());
            assert(apply_msgs(r1, Seq::<Msg>::empty()) == r1);
            assert(r == r1);
            assert(with_worker_finals(s, w, num_workers, num_producers - 1, m, early)
                =~= with_worker_finals(s, w, num_workers, num_producers, m, early));
        }
    }
}

/// Perform one whole run of the pipeline and return the final aggregate
/// store: one entry per producer, closed, holding that producer's
/// effective sum. The worker count chooses only how the work is divided;
/// the ensured result is `run_spec`, which does not mention it.
pub fn run_system(num_producers: i32, num_consumers: i32, msgs_per_producer: i32, inject_early_done: bool) -> (r: HashMap<i32, Data>)
    requires
        0 <= num_producers,
        1 <= num_consumers,
        0 <= msgs_per_producer,
        10 * num_producers + msgs_per_producer <= i32::MAX,
        forall|k: i32| 0 <= k < num_producers
            ==> block_sum(k, 0, msgs_per_producer as int) <= i32::MAX,
    ensures
        store_spec(r@) == run_spec(num_producers as int, msgs_per_producer as int, inject_early_done),
{
    let p_count = num_producers;
    let w_count = num_consumers;
    let m = msgs_per_producer;
    let early = inject_early_done;
    let wcount: usize = w_count as usize;

    // One private queue per worker.
    let mut queues: Vec<Vec<Msg>> = Vec::new();
    while queues.len() < wcount
        invariant
            queues@.len() <= wcount,
            forall|w: int| 0 <= w < queues@.len() ==> (#[trigger] queues@[w])@ == Seq::<Msg>::empty(),
        decreases wcount - queues.len(),
    {
        queues.push(Vec::new());
    }

    // The dispatcher: read the producers' streams in order and forward
    // every message to the worker its source is routed to.
    let mut i: i32 = 0;
    while i < p_count
        invariant
            0 <= i <= p_count,
            1 <= w_count,
            0 <= m,
            10 * p_count + m <= i32::MAX,
            wcount == w_count as int,
            queues@.len() == wcount,
            forall|w: int| 0 <= w < wcount ==> (#[trigger] queues@[w])@
                == assigned_concat(w, w_count, i as int, m as int, early),
        decreases p_count - i,
    {
        let msgs = producer_messages(i, m, early);
        proof {
            lemma_producer_seq_elems(i, m as int, early);
        }
        let ghost qs0 = queues@;
        let ghost home = route_spec(i, w_count);
        let mut j: usize = 0;
        while j < msgs.len()
            invariant
                0 <= i < p_count,
                1 <= w_count,
                0 <= m,
                10 * p_count + m <= i32::MAX,
                wcount == w_count as int,
                msgs@ == producer_seq(i, m as int, early),
                forall|jj: int| 0 <= jj < msgs@.len() ==> msg_from(#[trigger] msgs@[jj], i),
                j <= msgs@.len(),
                home == route_spec(i, w_count),
                0 <= home < wcount,
                queues@.len() == wcount,
                qs0.len() == wcount,
                forall|w: int| 0 <= w < wcount && w != home ==> #[trigger] queues@[w] == qs0[w],
                (queues@[home])@ == (qs0[home])@ + msgs@.subrange(0, j as int),
                forall|w: int| 0 <= w < wcount ==> (#[trigger] qs0[w])@
                    == assigned_concat(w, w_count, i as int, m as int, early),
            decreases msgs@.len() - j,
        {
            let msg = msgs[j];
            match msg {
                Msg::Data { producer, .. } => {
                    let w = route(producer, w_count);
                    queues[w].push(msg);
                },
                Msg::Done { producer } => {
                    let w = route(producer, w_count);
                    queues[w].push(msg);
                },
                Msg::Shutdown => {
                    // Producers never emit `Shutdown`; a stray one would be
                    // defensively ignored, exactly as the dispatcher does.
                },
            }
            proof {
                assert(msg_from(msgs@[j as int], i));
                assert(msgs@.subrange(0, j + 1) =~= msgs@.subrange(0, j as int) + seq![msgs@[j as int]]);
                assert((queues@[home])@ =~= (qs0[home])@ + msgs@.subrange(0, j + 1));
            }
            j = j + 1;
        }
        proof {
            assert(msgs@.subrange(0, msgs@.len() as int) =~= msgs@);
            assert forall|w: int| 0 <= w < wcount implies (#[trigger] queues@[w])@
                == assigned_concat(w, w_count, i + 1, m as int, early) by {
                assert(assigned_concat(w, w_count, i + 1, m as int, early)
                    == assigned_concat(w, w_count, i as int, m as int, early) + (
                    if route_spec(i, w_count) == w {
                        producer_seq(i, m as int, early)
                    } else {
                        Seq::<Msg>::empty()
                    }));
                if w == home {
                    assert((queues@[w])@ == (qs0[w])@ + msgs@);
                } else {
                    assert((queues@[w])@ =~= (qs0[w])@ + Seq::<Msg>::empty());
                }
            }
        }
        i = i + 1;
    }

    // End of input: the dispatcher forwards one `Shutdown` to every worker.
    let mut w: usize = 0;
    while w < wcount
        invariant
            w <= wcount,
            1 <= w_count,
            0 <= m,
            wcount == w_count as int,
            queues@.len() == wcount,
            forall|w2: int| 0 <= w2 < w ==> (#[trigger] queues@[w2])@
                == assigned_concat(w2, w_count, p_count as int, m as int, early) + seq![Msg::Shutdown],
            forall|w2: int| w <= w2 < wcount ==> (#[trigger] queues@[w2])@
                == assigned_concat(w2, w_count, p_count as int, m as int, early),
        decreases wcount - w,
    {
        queues[w].push(Msg::Shutdown);
        w = w + 1;
    }

    // The workers: each drains its own queue, in order, into the shared
    // store, and stops at its `Shutdown`.
    let mut state: HashMap<i32, Data> = HashMap::new();
    proof {
        assert(store_spec(state@) =~= partial_run(0, w_count, p_count as int, m as int, early));
    }
    let mut w: usize = 0;
    while w < wcount
        invariant
            w <= wcount,
            0 <= p_count,
            1 <= w_count,
            0 <= m,
            10 * p_count + m <= i32::MAX,
            forall|k: i32| 0 <= k < p_count ==> block_sum(k, 0, m as int) <= i32::MAX,
            wcount == w_count as int,
            queues@.len() == wcount,
            forall|w2: int| 0 <= w2 < wcount ==> (#[trigger] queues@[w2])@
                == assigned_concat(w2, w_count, p_count as int, m as int, early) + seq![Msg::Shutdown],
            store_spec(state@) == partial_run(w as int, w_count, p_count as int, m as int, early),
        decreases wcount - w,
    {
        let ghost s_w = store_spec(state@);
        let ghost q = queues@[w as int]@;
        let ghost body = assigned_concat(w as int, w_count, p_count as int, m as int, early);
        proof {
            lemma_assigned_elems(w as int, w_count, p_count as int, m as int, early);
            assert(q.len() == body.len() + 1);
            assert(forall|idx: int| 0 <= idx < body.len() ==> #[trigger] q[idx] == body[idx]);
            assert(q[q.len() - 1] == Msg::Shutdown);
            // The store together with everything still queued stays within
            // `i32` bounds.
            assert forall|k: i32| (#[trigger] entry_or(s_w, k)).sum >= 0
                && entry_or(s_w, k).sum + pending_sum(k, q) <= i32::MAX by {
                lemma_pending_assigned(k, w as int, w_count, p_count as int, m as int, early);
                lemma_pending_sum_concat(k, body, seq![Msg::Shutdown]);
                lemma_pending_sum_one(k, Msg::Shutdown);
                if s_w.contains_key(k) {
                    lemma_block_sum_nonneg(k, 0, m as int);
                    if early && m > 3 {
                        lemma_block_sum_split(k, 0, 3, m as int);
                        lemma_block_sum_nonneg(k, 0, 3);
                        lemma_block_sum_nonneg(k, 3, m as int);
                    }
                }
            }
            assert(bounds_ok(s_w, q.subrange(0, q.len() as int))) by {
                assert(q.subrange(0, q.len() as int) =~= q);
            }
        }
        let mut j: usize = 0;
        let qn: usize = queues[w].len();
        let ghost qlen = q.len();
        loop
            invariant_except_break
                0 <= (j as int) < qlen,
                store_spec(state@) == apply_msgs(s_w, q.subrange(0, j as int)),
                bounds_ok(store_spec(state@), q.subrange(j as int, qlen as int)),
            invariant
                qlen == q.len(),
                qlen == qn as int,
                w < wcount,
                wcount == w_count as int,
                queues@.len() == wcount,
                queues@[w as int]@ == q,
                q == body + seq![Msg::Shutdown],
                forall|idx: int| 0 <= idx < qlen - 1 ==> routed_msg(#[trigger] q[idx], w as int, w_count, p_count as int),
                q[qlen - 1] == Msg::Shutdown,
            ensures
                store_spec(state@) == apply_msgs(s_w, body),
            decreases qlen - j,
        {
            let msg = queues[w][j];
            proof {
                let rest = q.subrange(j as int, qlen as int);
                assert(rest[0] == q[j as int]);
                lemma_bounds_step(store_spec(state@), rest);
                assert(rest.drop_first() =~= q.subrange(j + 1, qlen as int));
            }
            let stop = process_msg(msg, &mut state);
            proof {
                lemma_apply_msgs_snoc(s_w, q, j as int);
            }
            if stop {
                proof {
                    // Only the last message of the queue is a `Shutdown`.
                    assert(j as int == qlen - 1);
                    assert(q.subrange(0, qlen as int) =~= q);
                    lemma_apply_msgs_concat(s_w, body, seq![Msg::Shutdown]);
                    lemma_apply_msgs_one(apply_msgs(s_w, body), Msg::Shutdown);
                    assert(store_spec(state@) == apply_msgs(s_w, body));
                }
                break;
            }
            j = j + 1;
        }
        proof {
            lemma_apply_assigned(s_w, w as int, w_count, p_count as int, m as int, early);
            assert(with_worker_finals(s_w, w as int, w_count, p_count as int, m as int, early)
                =~= partial_run(w + 1, w_count, p_count as int, m as int, early));
        }
        w = w + 1;
    }
    proof {
        assert(store_spec(state@) =~= run_spec(p_count as int, m as int, early));
    }
    state
}

/// Completeness: with no early completion injected, every producer's final
/// entry exists, is closed, and holds the sum of all `m` values that the
/// producer generated; and no entry exists for anything but a producer.
pub proof fn lemma_completeness(num_producers: int, m: int, k: i32)
    ensures
        run_spec(num_producers, m, false).contains_key(k) <==> 0 <= k < num_producers,
        0 <= k < num_producers ==> run_spec(num_producers, m, false)[k].closed,
        0 <= k < num_producers ==> run_spec(num_producers, m, false)[k].sum == block_sum(k, 0, m),
{
}

/// Early-completion truncation: when early completion is injected and the
/// stream reaches index 3, the final sum holds only the first three
/// generated values — whatever the configured message count — and the
/// entry is still closed.
pub proof fn lemma_early_truncation(num_producers: int, m: int, k: i32)
    requires
        0 <= k < num_producers,
        m > 3,
    ensures
        run_spec(num_producers, m, true)[k].closed,
        run_spec(num_producers, m, true)[k].sum == block_sum(k, 0, 3),
{
}

/// Non-negativity: every entry of a final store has a non-negative sum.
pub proof fn lemma_sums_nonneg(num_producers: int, m: int, early: bool, k: i32)
    requires
        0 <= m,
        run_spec(num_producers, m, early).contains_key(k),
    ensures
        run_spec(num_producers, m, early)[k].sum >= 0,
{
    lemma_block_sum_nonneg(k, 0, m);
    lemma_block_sum_nonneg(k, 0, 3);
}

} // verus!
