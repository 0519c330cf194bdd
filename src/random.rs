//! The random source that drives the animation, and the two draws made from it.

use rand::rngs::StdRng;
use rand::seq::SliceRandom;
use rand::Rng;
use vstd::prelude::*;

verus! {

/// A seedable generator; the same seed gives the same sequence of draws.
#[verifier::external_type_specification]
#[verifier::external_body]
pub struct ExStdRng(StdRng);

/// Relies on `rand::Rng::gen_range`: for a non-empty range `lo..hi` it returns
/// a value of that range (it panics only on an empty range).
#[verifier::external_body]
pub(crate) fn random_in(rng: &mut StdRng, lo: usize, hi: usize) -> (r: usize)
    requires
        lo < hi,
    ensures
        lo <= r < hi,
{
    rng.gen_range(lo..hi)
}

/// Relies on `rand::seq::SliceRandom::choose` on a slice: `None` exactly when
/// the slice is empty, else one of its elements.
#[verifier::external_body]
pub(crate) fn random_choice(rng: &mut StdRng, pool: &Vec<char>) -> (r: Option<char>)
    ensures
        r is None <==> pool@.len() == 0,
        r matches Some(c) ==> pool@.contains(c),
{
    pool.as_slice().choose(rng).copied()
}

} // verus!
