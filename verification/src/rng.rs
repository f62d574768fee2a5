//! The source of randomness that pieces are drawn from.
//!
//! The generator is the `StdRng` of the `rand` crate. Nothing is proved of
//! the numbers it hands out: every function that draws one is verified for
//! whatever number comes back.

use rand::rngs::StdRng;
use rand::Rng;
use rand::SeedableRng;
use vstd::prelude::*;

verus! {

/// `rand::rngs::StdRng`, carried through as an opaque value.
#[verifier::external_type_specification]
#[verifier::external_body]
pub struct ExStdRng(rand::rngs::StdRng);

/// Calls `SeedableRng::from_entropy` for `StdRng`: a generator seeded by the
/// operating system. Nothing is claimed of the generator. The call panics
/// where the operating system cannot provide the seed.
#[verifier::external_body]
pub(crate) fn entropy_rng() -> StdRng {
    StdRng::from_entropy()
}

/// Calls `Rng::gen::<usize>` on the generator: the next number of its
/// stream. Nothing is claimed of the number.
#[verifier::external_body]
pub(crate) fn next_usize(rng: &mut StdRng) -> usize {
    rng.gen()
}

} // verus!
