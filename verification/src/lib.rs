//! A connection pool for a single shared network resource type.
//!
//! The pool owns a bounded set of opaque connections, lends them out under a
//! checkout/checkin discipline, keeps a warm floor of `min_connections`,
//! reclaims idle connections past `idle_timeout`, revalidates stale ones at
//! checkout, and serves blocked acquirers in FIFO order.
//!
//! All network work (opening, probing, closing connections) is performed by
//! the caller: the pool is a state machine whose operations are atomic
//! bookkeeping transitions. Where the original design would block or perform
//! I/O, an operation instead hands the caller a ticket describing the work to
//! do, and a follow-up operation accepts the outcome.

pub mod config;
pub mod counting;
pub mod pool;
pub mod laws;
