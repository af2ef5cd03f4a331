//! The library's only window onto the process-wide random source.  Both
//! functions call into the `rand` crate; everything that interprets their
//! results is verified code.

use crate::PROB_ONE;
use rand::seq::SliceRandom;
use rand::Rng;
use vstd::prelude::*;

verus! {

/// Relies on `rand::Rng::gen_range(0..n)`: a value drawn uniformly from
/// `[0, n)`; the call panics only on an empty range, which `n > 0` rules out.
#[verifier::external_body]
pub(crate) fn random_below(n: u64) -> (r: u64)
    requires
        0 < n,
    ensures
        r < n,
{
    rand::thread_rng().gen_range(0u64..n)
}

/// Relies on `rand::seq::SliceRandom::shuffle`: a Fisher-Yates pass that
/// rearranges the slice in place, so the elements afterwards are exactly the
/// elements before, in some order.
#[verifier::external_body]
pub(crate) fn shuffle_ids(v: &mut Vec<usize>)
    ensures
        final(v)@.to_multiset() == old(v)@.to_multiset(),
{
    v.shuffle(&mut rand::thread_rng())
}

/// A Bernoulli draw with success probability `ppm` parts per million: the
/// draw is uniform below `PROB_ONE`, so a zero numerator never succeeds and
/// a full one always does.
pub(crate) fn bernoulli(ppm: u32) -> (r: bool)
    ensures
        ppm == 0 ==> !r,
        ppm >= PROB_ONE ==> r,
{
    let draw = random_below(PROB_ONE as u64);
    (draw as u32) < ppm
}

} // verus!
