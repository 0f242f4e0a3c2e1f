//! Randomness, drawn from the `rand` crate's thread-local generator.

use rand::seq::SliceRandom;
use rand::Rng;
use vstd::prelude::*;

verus! {

/// Draws a uniform number in `0..n` with `rand::Rng::gen_range(0, n)` on `rand::thread_rng()`.
/// Claimed: the result lies in `0..n`. `gen_range` panics when its range is empty, hence
/// `n > 0` is required. Which number comes is left open.
#[verifier::external_body]
pub(crate) fn random_below(n: usize) -> (r: usize)
    requires
        n > 0,
    ensures
        r < n,
{
    rand::thread_rng().gen_range(0, n)
}

/// Draws a random `usize` with `rand::Rng::gen` on `rand::thread_rng()`. Nothing is claimed of
/// the value.
#[verifier::external_body]
pub(crate) fn random_usize() -> usize {
    rand::thread_rng().gen::<usize>()
}

/// Shuffles the vector in place with `rand::seq::SliceRandom::shuffle` and the thread-local
/// generator. Claimed: the result is a permutation of the input (the source only swaps
/// elements). Which permutation comes is left open.
#[verifier::external_body]
pub(crate) fn shuffle_ids(v: &mut Vec<u64>)
    ensures
        final(v)@.to_multiset() == old(v)@.to_multiset(),
{
    v.shuffle(&mut rand::thread_rng());
}

} // verus!
