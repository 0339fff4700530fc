//! Reconnect backoff policy of the agent session driver.
//!
//! The first reconnect delay is one second; every further failure in the same
//! streak doubles the delay up to a ceiling of sixty seconds. Any session that
//! reached the connected state and then closed cleanly resets the streak.

use vstd::prelude::*;

verus! {

/// Delay before the first reconnect attempt of a failure streak, in milliseconds.
pub const INITIAL_BACKOFF_MS: u64 = 1000;

/// Largest reconnect delay, in milliseconds.
pub const MAX_BACKOFF_MS: u64 = 60000;

/// Delay to wait after the next failure, given the delay waited after the
/// current one: doubled, capped at the ceiling.
pub fn next_backoff(current_ms: u64) -> (r: u64)
    requires
        current_ms <= MAX_BACKOFF_MS,
    ensures
        r == spec_next_backoff(current_ms),
        current_ms <= r <= MAX_BACKOFF_MS,
{
    if current_ms >= MAX_BACKOFF_MS / 2 {
        MAX_BACKOFF_MS
    } else {
        current_ms * 2
    }
}

/// The backoff that follows `current_ms` within one failure streak.
pub open spec fn spec_next_backoff(current_ms: u64) -> u64 {
    if current_ms * 2 >= MAX_BACKOFF_MS {
        MAX_BACKOFF_MS
    } else {
        (current_ms * 2) as u64
    }
}

} // verus!
