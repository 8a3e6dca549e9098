//! Random choices, drawn from the thread-local generator of `rand`. What is
//! drawn depends on chance: the contracts below state what holds of every
//! outcome, and nothing more.

use vstd::prelude::*;
use rand::rngs::ThreadRng;
use rand::Rng;
use rand::seq::SliceRandom;

verus! {

/// The thread-local random generator of `rand`.
#[verifier::external_type_specification]
#[verifier::external_body]
pub struct ExThreadRng(rand::rngs::ThreadRng);

/// Calls `rand::thread_rng`, which hands out the thread's generator; the
/// contract says nothing of it.
#[verifier::external_body]
pub(crate) fn new_rng() -> ThreadRng {
    rand::thread_rng()
}

/// Calls `Rng::gen::<u32>`; any `u32` may come back.
#[verifier::external_body]
pub(crate) fn random_u32(rng: &mut ThreadRng) -> u32 {
    rng.gen::<u32>()
}

/// Calls `Rng::gen_range(0..bound)`, which panics on an empty range (hence
/// `bound > 0`) and returns a number below `bound`.
#[verifier::external_body]
pub(crate) fn random_below(rng: &mut ThreadRng, bound: usize) -> (r: usize)
    requires
        bound > 0,
    ensures
        r < bound,
{
    rng.gen_range(0..bound)
}

/// Calls `Rng::gen_range(0..bound)` on `u64`, which panics on an empty
/// range (hence `bound > 0`) and returns a number below `bound`.
#[verifier::external_body]
pub(crate) fn random_below_u64(rng: &mut ThreadRng, bound: u64) -> (r: u64)
    requires
        bound > 0,
    ensures
        r < bound,
{
    rng.gen_range(0..bound)
}

/// Calls `Rng::gen_ratio(numerator, denominator)`, which panics unless
/// `0 < denominator` and `numerator <= denominator`; it never returns true
/// for a numerator of 0 and always does when the numerator equals the
/// denominator. Which of the two it returns otherwise is left open.
#[verifier::external_body]
pub(crate) fn random_ratio(rng: &mut ThreadRng, numerator: u32, denominator: u32) -> (r: bool)
    requires
        0 < denominator,
        numerator <= denominator,
    ensures
        numerator == 0 ==> !r,
        numerator == denominator ==> r,
{
    rng.gen_ratio(numerator, denominator)
}

/// Calls `SliceRandom::shuffle`, which swaps the elements of the vector in
/// place: the same elements come back, in an order left to chance.
#[verifier::external_body]
pub(crate) fn shuffle_positions(rng: &mut ThreadRng, v: &mut Vec<usize>)
    ensures
        final(v)@.to_multiset() == old(v)@.to_multiset(),
{
    v.shuffle(rng);
}

/// A probability, in millionths, is certain.
pub open spec fn certain(ppm: u32) -> bool {
    ppm >= 1_000_000
}

/// Draws true with the probability `ppm` millionths, clamped to one.
pub fn should_add(ppm: u32, rng: &mut ThreadRng) -> (r: bool)
    ensures
        ppm == 0 ==> !r,
        certain(ppm) ==> r,
{
    let p = if ppm > 1_000_000 { 1_000_000 } else { ppm };
    random_ratio(rng, p, 1_000_000)
}

} // verus!
