//! Pool configuration.

use vstd::prelude::*;

verus! {

/// Configuration for a [`crate::pool::Pool`].
///
/// Durations are in milliseconds on the caller's monotonic clock.
///
/// As a documented policy choice, checkout-time validation is tied to
/// `validation_interval_ms`: when it is `Some(v)`, an idle connection that has
/// not been used for more than `v` milliseconds is probed before being handed
/// out; when it is `None`, idle connections are handed out without a probe.
#[derive(Clone, Copy, Debug)]
pub struct PoolConfig {
    /// Warm floor: the pool keeps at least this many connections open once
    /// warm-up completes, replacing broken ones.
    pub min_connections: usize,
    /// Hard ceiling on connections, counting ones currently being opened.
    /// Must be positive.
    pub max_connections: usize,
    /// How long an acquirer may wait in the queue; `0` means wait forever.
    pub acquire_timeout_ms: u64,
    /// Idle connections unused for longer than this are reclaimed by the
    /// reaper, down to the warm floor.
    pub idle_timeout_ms: u64,
    /// Bound the caller should apply to a single connection-open attempt.
    /// The pool itself only records it; the caller's opener enforces it.
    pub connect_timeout_ms: u64,
    /// Staleness threshold for checkout-time validation; `None` disables it.
    pub validation_interval_ms: Option<u64>,
    /// How many fresh open attempts follow a failed open or a failed
    /// validation before the failure is surfaced.
    pub max_retries: u64,
}

impl PoolConfig {
    /// A configuration the pool accepts: a positive ceiling at or above the
    /// warm floor.
    pub open spec fn wf(self) -> bool {
        &&& self.max_connections > 0
        &&& self.min_connections <= self.max_connections
    }

    /// Whether this configuration is acceptable; mirrors [`PoolConfig::wf`].
    pub fn is_valid(&self) -> (r: bool)
        ensures
            r == self.wf(),
    {
        self.max_connections > 0 && self.min_connections <= self.max_connections
    }
}

} // verus!
