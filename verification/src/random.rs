//! The random draws the world's physics makes, taken from the `rand` crate.
//!
//! Nothing here is proved: each function states only what the crate's
//! documentation promises of every outcome.

use vstd::prelude::*;
use rand::Rng;
use rand::seq::SliceRandom;


verus! {

#[verifier::external_type_specification]
#[verifier::external_body]
pub struct ExThreadRng(rand::rngs::ThreadRng);

/// `rand::thread_rng`: a handle on the thread's generator. Nothing is
/// claimed of it.
#[verifier::external_body]
pub(crate) fn thread_rng() -> rand::rngs::ThreadRng {
    rand::thread_rng()
}

/// `Rng::gen_ratio`: true with chance `numerator / denominator`. The crate
/// panics unless `0 < denominator` and `numerator <= denominator`; it
/// promises `true` when the two are equal and `false` when the numerator is
/// zero. Which value comes back otherwise is left open.
#[verifier::external_body]
pub(crate) fn gen_ratio(rng: &mut rand::rngs::ThreadRng, numerator: u32, denominator: u32) -> (b: bool)
    requires
        0 < denominator,
        numerator <= denominator,
    ensures
        numerator == denominator ==> b,
        numerator == 0 ==> !b,
{
    rng.gen_ratio(numerator, denominator)
}

/// `Rng::gen_range` on the inclusive range `low..=high` of `u32`: some value
/// of the range. The crate panics on an empty range.
#[verifier::external_body]
pub(crate) fn gen_range(rng: &mut rand::rngs::ThreadRng, low: u32, high: u32) -> (r: u32)
    requires
        low <= high,
    ensures
        low <= r <= high,
{
    rng.gen_range(low..=high)
}

/// `SliceRandom::shuffle` on a vector of indices: the same values in some
/// order. Which order is left open.
#[verifier::external_body]
pub(crate) fn shuffle(rng: &mut rand::rngs::ThreadRng, v: &mut Vec<usize>)
    ensures
        final(v)@.len() == old(v)@.len(),
        final(v)@.to_multiset() == old(v)@.to_multiset(),
{
    v.as_mut_slice().shuffle(rng)
}

} // verus!
