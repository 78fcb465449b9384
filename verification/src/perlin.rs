use vstd::prelude::*;

verus! {

/// Perlin noise generators of the `noise` crate, carried through the library opaque.
#[verifier::external_type_specification]
#[verifier::external_body]
pub struct ExPerlin(noise::Perlin);

/// The generator that `noise::Perlin::new` builds from a seed; its permutation table is a
/// function of the seed alone.
pub uninterp spec fn perlin_for_seed(seed: u32) -> noise::Perlin;

/// `noise::Perlin::new`.
#[verifier::external_body]
pub(crate) fn new_perlin(seed: u32) -> (p: noise::Perlin)
    ensures
        p == perlin_for_seed(seed),
{
    noise::Perlin::new(seed)
}

} // verus!
