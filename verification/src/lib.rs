//! A fan-out aggregation pipeline: producers emit per-source streams of
//! `Data` messages followed by a closing `Done`, a dispatcher routes every
//! message to a worker chosen by source identity, and workers fold the
//! messages into a shared store of per-source running sums.
//!
//! The functional core is fully sequential and verified: message model,
//! producer generation, routing, dispatch, and the worker fold. A caller
//! that wants the concurrent arrangement (one thread per producer, per
//! worker, and for the dispatcher) drives these same functions from its
//! own threads; `run_system`'s contract pins the final store to a function
//! of the producer configuration alone, so how the work is divided cannot
//! change it.

pub mod msg;
pub mod producer;
pub mod routing;
pub mod pipeline;
pub mod worker;

pub use msg::Data;
pub use msg::Msg;
pub use producer::producer_messages;
pub use routing::route;
pub use pipeline::run_system;
pub use worker::process_msg;
