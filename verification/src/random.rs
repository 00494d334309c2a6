//! The pseudo-random generator behind placement of snakes and food.

use rand::rngs::StdRng;
use rand::Rng;
use rand::SeedableRng;
use vstd::prelude::*;

verus! {

/// `rand::rngs::StdRng`, carried as an opaque value: nothing is known of its
/// state.
#[verifier::external_type_specification]
#[verifier::external_body]
pub struct ExStdRng(rand::rngs::StdRng);

/// Calls `StdRng::seed_from_u64`. Nothing is claimed of the generator that
/// comes back.
#[verifier::external_body]
pub(crate) fn seeded_rng(seed: u64) -> (rng: StdRng) {
    StdRng::seed_from_u64(seed)
}

/// Calls `Rng::gen_range` on the half-open range `0..n`. The range must not
/// be empty, since the call panics on an empty range; the value drawn lies in
/// the range, and nothing else is claimed of it.
#[verifier::external_body]
pub(crate) fn random_index(rng: &mut StdRng, n: usize) -> (i: usize)
    requires
        n > 0,
    ensures
        i < n,
{
    rng.gen_range(0..n)
}

} // verus!
