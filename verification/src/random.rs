//! The random-number generator of the `rand` crate, as the samplers use it.
use vstd::prelude::*;
use rand::rngs::StdRng;
use rand::{RngExt, SeedableRng};

verus! {

/// `rand::rngs::StdRng`, carried through the library as an opaque value.
#[verifier::external_type_specification]
#[verifier::external_body]
pub struct ExStdRng(StdRng);

/// `SeedableRng::seed_from_u64` for `StdRng`: a generator whose stream is
/// determined by the seed. Nothing is claimed of the stream.
#[verifier::external_body]
pub(crate) fn seeded_rng(seed: u64) -> StdRng {
    StdRng::seed_from_u64(seed)
}

/// `RngExt::random_ratio`: true with probability `numerator / denominator`.
/// It panics unless `numerator <= denominator` and `denominator > 0`, which
/// `requires` rules out. Its documentation promises `false` when the numerator
/// is 0 and `true` when it equals the denominator; nothing else is claimed of
/// the outcome, which rests on the generator's state.
#[verifier::external_body]
pub(crate) fn random_ratio(rng: &mut StdRng, numerator: u32, denominator: u32) -> (b: bool)
    requires
        0 < denominator,
        numerator <= denominator,
    ensures
        numerator == 0 ==> !b,
        numerator == denominator ==> b,
{
    rng.random_ratio(numerator, denominator)
}

/// `RngExt::random_range` on the range `0..bound` of `u8`: a value below
/// `bound`. It panics on an empty range, which `requires` rules out. Which
/// value comes out rests on the generator's state.
#[verifier::external_body]
pub(crate) fn random_below(rng: &mut StdRng, bound: u8) -> (r: u8)
    requires
        bound > 0,
    ensures
        r < bound,
{
    rng.random_range(0..bound)
}

} // verus!
