//! Randomness and the wall clock the library draws on: whatever comes back is
//! used as given, so nothing is promised of it beyond its size and range.
use vstd::prelude::*;
use rand::seq::SliceRandom;
use rand::Rng;
use rand::RngCore;

verus! {

/// `rand::random::<u16>()`.
#[verifier::external_body]
pub(crate) fn random_u16() -> u16 {
    rand::random::<u16>()
}

/// `rand::random::<u64>()`.
#[verifier::external_body]
pub(crate) fn random_u64() -> u64 {
    rand::random::<u64>()
}

/// `n` bytes from `rand::thread_rng().fill_bytes`.
#[verifier::external_body]
pub(crate) fn random_bytes(n: usize) -> (r: Vec<u8>)
    ensures
        r@.len() == n,
{
    let mut v = vec![0u8; n];
    rand::thread_rng().fill_bytes(&mut v);
    v
}

/// `rand::thread_rng().gen_range(0..n)`: a draw below `n` (the range must
/// not be empty, or the call panics).
#[verifier::external_body]
pub(crate) fn random_below(n: usize) -> (r: usize)
    requires
        n > 0,
    ensures
        r < n,
{
    rand::thread_rng().gen_range(0..n)
}

/// `rand::thread_rng().gen_range(lo..=hi)` on `usize`: a draw in `[lo, hi]`
/// (an empty range panics).
#[verifier::external_body]
pub(crate) fn random_between(lo: usize, hi: usize) -> (r: usize)
    requires
        lo <= hi,
    ensures
        lo <= r <= hi,
{
    rand::thread_rng().gen_range(lo..=hi)
}

/// `rand::thread_rng().gen_range(lo..=hi)` on `u64`.
#[verifier::external_body]
pub(crate) fn random_between_u64(lo: u64, hi: u64) -> (r: u64)
    requires
        lo <= hi,
    ensures
        lo <= r <= hi,
{
    rand::thread_rng().gen_range(lo..=hi)
}

/// Whole seconds since the UNIX epoch from `SystemTime::now()`, or 0 when
/// the clock reads earlier than the epoch (`duration_since` fails).
#[verifier::external_body]
pub(crate) fn unix_time_secs() -> u64 {
    match std::time::SystemTime::now().duration_since(std::time::UNIX_EPOCH) {
        Ok(d) => d.as_secs(),
        Err(_) => 0,
    }
}

/// `rand::random::<u32>()`.
#[verifier::external_body]
pub(crate) fn random_u32() -> u32 {
    rand::random::<u32>()
}

/// `SliceRandom::shuffle` with `thread_rng()`: the same values in a random
/// order.
#[verifier::external_body]
pub(crate) fn shuffle_u32(v: Vec<u32>) -> (r: Vec<u32>)
    ensures
        r@.to_multiset() == v@.to_multiset(),
{
    let mut v = v;
    v.shuffle(&mut rand::thread_rng());
    v
}

/// `SliceRandom::shuffle` with `thread_rng()` on 128-bit values.
#[verifier::external_body]
pub(crate) fn shuffle_u128(v: Vec<u128>) -> (r: Vec<u128>)
    ensures
        r@.to_multiset() == v@.to_multiset(),
{
    let mut v = v;
    v.shuffle(&mut rand::thread_rng());
    v
}

} // verus!
