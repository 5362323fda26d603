//! The random inputs of a Metropolis update, drawn from rand's standard
//! generator.

use rand::rngs::StdRng;
use rand::Rng;
use vstd::prelude::*;

verus! {

#[verifier::external_type_specification]
#[verifier::external_body]
pub struct ExStdRng(StdRng);

/// Relies on rand's `Rng::gen_range(0, n)` for `u16`: a value in `[0, n)`;
/// it panics on an empty range, which `n > 0` excludes.
#[verifier::external_body]
pub(crate) fn draw_below(rng: &mut StdRng, n: u16) -> (r: u16)
    requires
        n > 0,
    ensures
        r < n,
{
    rng.gen_range(0, n)
}

/// Relies on rand's `Rng::gen` for `u32`: any value may come.
#[verifier::external_body]
pub(crate) fn draw_u32(rng: &mut StdRng) -> u32 {
    rng.gen::<u32>()
}

} // verus!
