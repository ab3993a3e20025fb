//! A per-client sliding-window request-rate gate, together with the small
//! pure computations of the benchmark tool it fronts.
//!
//! The heart of the crate is [`limiter::RateLimiter`]: a shared mapping from
//! client key to the timestamps of its recent requests, with one operation,
//! decide-and-record, that prunes expired entries, compares the remainder
//! against the quota, and either records the request (ALLOW) or leaves the
//! log untouched (DENY). [`model`] gives the mathematical account of that
//! state machine and [`laws`] proves its guarantees over it: the
//! quota bound over any window, independence of distinct keys, that denied
//! attempts consume nothing, and that a corrupted critical section fails
//! closed.

pub mod model;
pub mod laws;
pub mod limiter;
pub mod gate;
pub mod responder;
pub mod bench;
pub mod report;
pub mod cpuinfo;
pub mod prompt;
