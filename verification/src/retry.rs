//! Delays between attempts.

use vstd::prelude::*;

verus! {

/// How the daemon spaces its attempts to connect.
#[derive(Debug, Clone, Copy)]
pub struct RetryConfig {
    pub base_ms: u64,
    pub max_ms: u64,
    /// The share of a delay by which it is varied at random: the bits of an IEEE 754 double.
    pub jitter_ratio_bits: u64,
    pub storm_guard: StormGuardConfig,
}

/// When a series of failures is answered by a longer pause.
#[derive(Debug, Clone, Copy)]
pub struct StormGuardConfig {
    pub failure_window_ms: u64,
    pub consecutive_failure_threshold: u32,
    pub cooldown_ms: u64,
    pub max_cooldown_ms: u64,
}

impl Default for StormGuardConfig {
    fn default() -> (guard: Self)
        ensures
            guard.failure_window_ms == 300_000,
            guard.consecutive_failure_threshold == 10,
            guard.cooldown_ms == 300_000,
            guard.max_cooldown_ms == 3_600_000,
    {
        StormGuardConfig {
            failure_window_ms: 300_000,
            consecutive_failure_threshold: 10,
            cooldown_ms: 300_000,
            max_cooldown_ms: 3_600_000,
        }
    }
}

/// Twice `ms`, or the largest value there is.
pub open spec fn doubled(ms: u64) -> u64 {
    if ms * 2 > u64::MAX {
        u64::MAX
    } else {
        (ms * 2) as u64
    }
}

/// Twice `ms`, or the largest value there is.
pub fn double(ms: u64) -> (twice: u64)
    ensures
        twice == doubled(ms),
{
    if ms > u64::MAX / 2 {
        u64::MAX
    } else {
        ms * 2
    }
}

/// The delay that follows a delay of `ms`: twice as long, and no longer than `max_ms`.
pub open spec fn backoff_after(ms: u64, max_ms: u64) -> u64 {
    if doubled(ms) <= max_ms {
        doubled(ms)
    } else {
        max_ms
    }
}

/// The delay that follows a delay of `ms`: twice as long, and no longer than `max_ms`.
pub fn next_backoff(ms: u64, max_ms: u64) -> (next: u64)
    ensures
        next == backoff_after(ms, max_ms),
{
    let twice = double(ms);
    if twice <= max_ms {
        twice
    } else {
        max_ms
    }
}

/// A delay of `base_ms` moved by `delta` milliseconds, and not below zero.
pub fn offset_delay(base_ms: u64, delta: i64) -> (ms: u64)
    requires
        base_ms <= i64::MAX,
        base_ms + delta <= i64::MAX,
    ensures
        ms == if base_ms + delta < 0 { 0int } else { base_ms + delta },
{
    let moved: i64 = base_ms as i64 + delta;
    if moved < 0 {
        0
    } else {
        moved as u64
    }
}

/// After `n` failures in a row the delay has grown from `base_ms` by doubling, up to `max_ms`.
pub open spec fn backoff_series(base_ms: u64, max_ms: u64, n: nat) -> u64
    decreases n,
{
    if n == 0 {
        base_ms
    } else {
        backoff_after(backoff_series(base_ms, max_ms, (n - 1) as nat), max_ms)
    }
}

/// From the first repetition on, no delay is longer than `max_ms`; and a delay never shrinks while
/// it is below that.
pub proof fn law_backoff_is_bounded(base_ms: u64, max_ms: u64, n: nat)
    ensures
        n > 0 ==> backoff_series(base_ms, max_ms, n) <= max_ms,
        backoff_series(base_ms, max_ms, n) <= max_ms ==> backoff_series(base_ms, max_ms, n)
            <= backoff_series(base_ms, max_ms, n + 1),
{
}

/// A delay doubles as long as twice the delay is within the limit, and is the limit from then on.
pub proof fn law_backoff_doubles_up_to_the_limit(ms: u64, max_ms: u64)
    ensures
        ms <= max_ms / 2 ==> backoff_after(ms, max_ms) == 2 * ms,
        ms > max_ms / 2 ==> backoff_after(ms, max_ms) == max_ms,
{
}

} // verus!
