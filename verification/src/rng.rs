use vstd::prelude::*;

verus! {

#[verifier::external_type_specification]
#[verifier::external_body]
/// rand's standard random number generator, carried opaquely.
pub struct ExStdRng(rand::rngs::StdRng);

/// Relies on rand's `StdRng::from_entropy` to build a generator seeded from
/// the operating system's entropy source. Nothing can be promised about the
/// generator's future output.
#[verifier::external_body]
pub(crate) fn entropy_rng() -> rand::rngs::StdRng {
    <rand::rngs::StdRng as rand::SeedableRng>::from_entropy()
}

/// Relies on rand's `StdRng::seed_from_u64` to build a generator
/// deterministically from a caller-supplied seed, for reproducible runs.
/// Nothing is claimed about the generator's output.
#[verifier::external_body]
pub(crate) fn seeded_rng(seed: u64) -> rand::rngs::StdRng {
    <rand::rngs::StdRng as rand::SeedableRng>::seed_from_u64(seed)
}

/// Relies on rand's `Rng::gen_range`, documented to return a value inside
/// the given bounds and to panic only when the range is empty; the empty
/// range is excluded here. Which value comes back is random, so only
/// membership in the range is stated.
#[verifier::external_body]
pub(crate) fn draw_inclusive(rng: &mut rand::rngs::StdRng, low: i64, high: i64) -> (r: i64)
    requires
        low <= high,
    ensures
        low <= r <= high,
{
    rand::Rng::gen_range(rng, low..=high)
}

} // verus!
