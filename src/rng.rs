use vstd::prelude::*;
use rltk::RandomNumberGenerator;

verus! {

/// The random number generator of `rltk`, carried through as an opaque value.
#[verifier::external_type_specification]
#[verifier::external_body]
pub struct ExRandomNumberGenerator(RandomNumberGenerator);

/// Relies on `RandomNumberGenerator::new`: a generator seeded from the operating system.
#[verifier::external_body]
pub(crate) fn new_rng() -> RandomNumberGenerator {
    RandomNumberGenerator::new()
}

/// Relies on `RandomNumberGenerator::range`: a value drawn from `lo` inclusive to `hi`
/// exclusive. The draw panics on an empty range, hence `lo < hi`.
#[verifier::external_body]
pub(crate) fn rng_range(rng: &mut RandomNumberGenerator, lo: i32, hi: i32) -> (r: i32)
    requires
        lo < hi,
    ensures
        lo <= r < hi,
{
    rng.range(lo, hi)
}

/// Relies on `RandomNumberGenerator::roll_dice`: the sum of `n` draws, each from 1 to
/// `die_type` inclusive. Each draw asks for the range `1..die_type + 1`, and the sum is
/// an `i32`, hence the bounds.
#[verifier::external_body]
pub(crate) fn rng_roll_dice(rng: &mut RandomNumberGenerator, n: i32, die_type: i32) -> (r: i32)
    requires
        1 <= n,
        1 <= die_type < i32::MAX,
        n * die_type <= i32::MAX,
    ensures
        n <= r <= n * die_type,
{
    rng.roll_dice(n, die_type)
}

} // verus!
