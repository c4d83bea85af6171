//! Randomness, as the `rand` crate provides it.
//!
//! Nothing here is proved: each function hands the work to `rand`, and its
//! contract states the little that holds of every outcome.

use rand::rngs::StdRng;
use rand::Rng;
use rand::SeedableRng;
use vstd::prelude::*;

verus! {

/// The generator of `rand` that a seed determines, `rand::rngs::StdRng`.
/// Nothing is known of what it holds.
#[verifier::external_type_specification]
#[verifier::external_body]
pub struct ExStdRng(StdRng);

/// Thirty-two bytes from `rand::random`, which draws them from the
/// generator of the thread. Nothing is claimed of the bytes.
///
/// `rand::random` panics when the operating system has no entropy to seed
/// that generator with.
#[verifier::external_body]
pub(crate) fn random_seed() -> (seed: [u8; 32]) {
    rand::random()
}

/// The generator that `StdRng::from_seed` makes of `seed`. Nothing is claimed
/// of it.
#[verifier::external_body]
pub(crate) fn seeded_generator(seed: [u8; 32]) -> (generator: StdRng) {
    StdRng::from_seed(seed)
}

/// A number from `low` up to, but not including, `high`, drawn with
/// `Rng::gen_range` over `low..high`.
///
/// `gen_range` panics on an empty range, hence the demand on the bounds. Of
/// the number only the range is claimed, and of the generator afterwards
/// nothing.
#[verifier::external_body]
pub(crate) fn random_in_range(generator: &mut StdRng, low: usize, high: usize) -> (drawn: usize)
    requires
        low < high,
    ensures
        low <= drawn < high,
{
    generator.gen_range(low..high)
}

} // verus!
