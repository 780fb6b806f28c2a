//! The random source, and the two kinds of draw that the search makes.

use rand::Rng;
use vstd::prelude::*;

verus! {

/// The seedable random source of the `rand` crate. Nothing is known of its
/// state: every draw may come out as any value of its range.
#[verifier::external_type_specification]
#[verifier::external_body]
pub struct ExStdRng(rand::rngs::StdRng);

/// Draws an index below `bound` with `rand::Rng::gen_range(0, bound)`.
///
/// Trusted: the draw lies in the half-open range from 0 to `bound`. The call
/// panics on an empty range, which the precondition excludes.
#[verifier::external_body]
pub(crate) fn random_below(rng: &mut rand::rngs::StdRng, bound: usize) -> (index: usize)
    requires
        bound > 0,
    ensures
        index < bound,
{
    rng.gen_range(0, bound)
}

/// Decides an event of probability `numer / denom` with
/// `rand::Rng::gen_ratio(numer, denom)`.
///
/// Trusted: the event never happens where `numer` is 0 and always where
/// `numer` equals `denom`. The call panics where `denom` is 0 or less than
/// `numer`, which the precondition excludes.
#[verifier::external_body]
pub(crate) fn random_event(rng: &mut rand::rngs::StdRng, numer: u32, denom: u32) -> (hit: bool)
    requires
        0 < denom,
        numer <= denom,
    ensures
        numer == 0 ==> !hit,
        numer == denom ==> hit,
{
    rng.gen_ratio(numer, denom)
}

} // verus!
