//! The pseudo-random generator that contracts draw from.
//!
//! The generator is `Xoshiro256PlusPlus`, seeded once per slot and advanced by each draw. It is a
//! deterministic function of its seed, so every node draws the same numbers. It is opaque here:
//! what it computes goes by the names below.

use rand::distributions::Uniform;
use rand::{Rng, SeedableRng};
use rand_xoshiro::Xoshiro256PlusPlus;
use vstd::prelude::*;

verus! {

/// The state of the generator, a value of `rand_xoshiro`.
#[verifier::external_type_specification]
#[verifier::external_body]
pub struct ExXoshiro256PlusPlus(Xoshiro256PlusPlus);

/// The generator that `Xoshiro256PlusPlus::from_seed` makes of the 32 bytes `seed`.
pub uninterp spec fn generator_of(seed: Seq<u8>) -> Xoshiro256PlusPlus;

/// What one uniform draw over all of `i64` takes from `generator`: the number, and the generator
/// as the draw leaves it.
pub uninterp spec fn drawn_from(generator: Xoshiro256PlusPlus) -> (i64, Xoshiro256PlusPlus);

/// `Xoshiro256PlusPlus::from_seed`: the generator is a function of the seed alone.
#[verifier::external_body]
pub(crate) fn generator_from_seed(seed: [u8; 32]) -> (generator: Xoshiro256PlusPlus)
    ensures
        generator == generator_of(seed@),
{
    Xoshiro256PlusPlus::from_seed(seed)
}

/// `Rng::sample` with the uniform distribution over all of `i64`: the number and the next state
/// are functions of the current state alone.
#[verifier::external_body]
pub(crate) fn draw(generator: &mut Xoshiro256PlusPlus) -> (number: i64)
    ensures
        (number, *final(generator)) == drawn_from(*old(generator)),
{
    generator.sample(Uniform::new_inclusive(i64::MIN, i64::MAX))
}

/// `Xoshiro256PlusPlus::clone`: the copy is in the same state.
pub assume_specification[ <Xoshiro256PlusPlus as Clone>::clone ](
    generator: &Xoshiro256PlusPlus,
) -> (copy: Xoshiro256PlusPlus)
    ensures
        copy == *generator,
;

} // verus!
