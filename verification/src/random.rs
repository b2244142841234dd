//! The one place where chance enters: a seeded or entropy-fed `StdRng` that the
//! caller owns and hands in.

use rand::rngs::StdRng;
use rand::Rng;
use vstd::prelude::*;

verus! {

/// `rand`'s standard generator. It is carried through to the draws as it is:
/// nothing is known of its state.
#[verifier::external_type_specification]
#[verifier::external_body]
pub struct ExStdRng(StdRng);

/// `Rng::gen_range` over the half-open range from zero up to `bound`. The
/// contract claims only what holds of every draw: the value lies in the range.
/// An empty range makes `gen_range` panic, so `bound` must be positive.
#[verifier::external_body]
pub(crate) fn draw_below(rng: &mut StdRng, bound: u32) -> (r: u32)
    requires
        bound > 0,
    ensures
        r < bound,
{
    rng.gen_range(0..bound)
}

} // verus!
