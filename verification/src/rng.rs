//! The randomness the computer opponents draw on.

use rand::Rng;
use vstd::prelude::*;

verus! {

/// Relies on rand::random: a fresh seed from the thread-local
/// generator.  Nothing is promised of the value; every caller must
/// work with any seed.
#[verifier::external_body]
pub fn random_seed() -> u64 {
    rand::random::<u64>()
}

/// Relies on rand::Rng::gen_range on rand::thread_rng: a uniformly
/// random index in `0..n`, which its documentation promises for a
/// non-empty range.
#[verifier::external_body]
pub fn random_below(n: usize) -> (r: usize)
    requires
        n > 0,
    ensures
        r < n,
{
    rand::thread_rng().gen_range(0..n)
}

} // verus!
