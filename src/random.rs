use rand::Rng;
use rand::SeedableRng;
use vstd::prelude::*;

verus! {

/// The small, fast generator of `rand` that a simulation draws from.
#[verifier::external_type_specification]
#[verifier::external_body]
pub struct ExSmallRng(rand::rngs::SmallRng);

/// Relies on `rand::Rng::random_range`: on `0..n` it yields some value below
/// `n`; it panics on an empty range, which `requires` leaves out.
#[verifier::external_body]
pub(crate) fn draw_below(rng: &mut rand::rngs::SmallRng, n: usize) -> (r: usize)
    requires
        0 < n,
    ensures
        r < n,
{
    rng.random_range(0..n)
}

/// Relies on `rand::SeedableRng::seed_from_u64` for `SmallRng`: a generator
/// whose draws follow from the seed alone.
#[verifier::external_body]
pub(crate) fn seeded_rng(seed: u64) -> rand::rngs::SmallRng {
    rand::rngs::SmallRng::seed_from_u64(seed)
}

/// Relies on `rand::random`: a seed drawn from the thread-local generator,
/// which the operating system seeds.
#[verifier::external_body]
pub(crate) fn fresh_seed() -> u64 {
    rand::random()
}

} // verus!
