//! The random source that mesh generation and colour sampling draw from.
use vstd::prelude::*;
use rand::Rng;
use rand::rngs::StdRng;

verus! {

/// A seedable generator of rand; seed it for reproducible meshes.
#[verifier::external_type_specification]
#[verifier::external_body]
pub struct ExStdRng(StdRng);

/// Relies on rand's `Rng::gen::<bool>` (the `Standard` distribution on
/// `bool`): a coin flip drawn from `rng`. Nothing is promised of its value.
#[verifier::external_body]
pub(crate) fn coin(rng: &mut StdRng) -> bool {
    rng.gen::<bool>()
}

/// Relies on rand's `Rng::gen::<u32>` (the `Standard` distribution on
/// `u32`, that is `next_u32`): 32 random bits drawn from `rng`. Nothing is
/// promised of its value.
#[verifier::external_body]
pub(crate) fn random_u32(rng: &mut StdRng) -> u32 {
    rng.gen::<u32>()
}

} // verus!
