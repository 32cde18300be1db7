//! The routing table: a total, deterministic function from source identity
//! to worker index.
//!
//! Routing is by residue, never by raw indexing, so it is defined for every
//! non-negative source identity whatever the worker count: worker count and
//! producer count are fully decoupled, and all messages of one source land
//! on one worker.

use vstd::prelude::*;

verus! {

/// The worker index that source `source` is routed to among `num_workers`
/// workers.
pub open spec fn route_spec(source: i32, num_workers: i32) -> int {
    (source as int) % (num_workers as int)
}

/// Resolve the worker for a source. Total over all non-negative sources,
/// and always in range for the configured worker count.
pub fn route(source: i32, num_workers: i32) -> (w: usize)
    requires
        0 <= source,
        1 <= num_workers,
    ensures
        w == route_spec(source, num_workers),
        w < num_workers,
{
    (source as usize) % (num_workers as usize)
}

} // verus!
