//! Bumping the named counters kept for paths that discard work.
use vstd::prelude::*;
use std::sync::atomic::AtomicU64;

verus! {

/// The counter's value after adding `n` to `prev`, wrapping as the atomic
/// addition does.
pub open spec fn wrapped_add(prev: u64, n: u64) -> u64 {
    ((prev + n) % 0x1_0000_0000_0000_0000) as u64
}

/// The value an addition of `n` to `prev` leaves behind.
pub fn added(prev: u64, n: u64) -> (r: u64)
    ensures
        r == wrapped_add(prev, n),
{
    prev.wrapping_add(n)
}

/// Bumps a counter and returns its new value, for callers that rate-limit
/// their logging on it. The value before the bump is whatever other threads
/// left in the shared counter, so nothing is promised of the result beyond
/// the step `added` states.
pub fn bump(c: &AtomicU64) -> (r: u64) {
    let prev = c.fetch_add(1, std::sync::atomic::Ordering::Relaxed);
    added(prev, 1)
}

/// Bumps a counter by a batch count and returns its new value (see `bump`
/// for what is promised of it).
pub fn bump_by(c: &AtomicU64, n: u64) -> (r: u64) {
    let prev = c.fetch_add(n, std::sync::atomic::Ordering::Relaxed);
    added(prev, n)
}

} // verus!
