//! The engine's only source of randomness: a seedable generator and a
//! weighted index distribution, both of the `rand` crate, reached through
//! trusted declarations. Everything that depends on a drawn value is
//! verified for every value the contracts here allow.

use vstd::prelude::*;
use crate::helpers::sum_dists;
use rand::Rng;
use rand::distributions::Distribution;
use rand::distributions::WeightedIndex;

verus! {

#[verifier::external_type_specification]
#[verifier::external_body]
pub struct ExStdRng(rand::rngs::StdRng);

/// A weighted index distribution of the `rand` crate, held opaquely.
#[verifier::external_body]
pub struct WeightedDist {
    inner: WeightedIndex<u64>,
}

/// The weights a `WeightedDist` distribution was built from.
pub uninterp spec fn weighted_index_weights(w: WeightedDist) -> Seq<u64>;

/// Relies on `Rng::gen_range` over `0..n`: the draw lies below `n`. The call
/// panics on an empty range, so `n` must be positive.
#[verifier::external_body]
pub(crate) fn rand_below(rng: &mut rand::rngs::StdRng, n: usize) -> (r: usize)
    requires
        n >= 1,
    ensures
        r < n,
{
    rng.gen_range(0..n)
}

/// Relies on `WeightedIndex::new`: it returns `Ok` whenever some weight is
/// positive (a `u64` weight cannot be negative, and a positive total means
/// the weights are not empty and not all zero), and the distribution it
/// builds is over exactly the given weights. `new` sums the weights in
/// `u64`, so their total must fit.
#[verifier::external_body]
pub(crate) fn weighted_index_new(weights: &Vec<u64>) -> (r: Option<WeightedDist>)
    requires
        sum_dists(weights@) <= u64::MAX,
    ensures
        r is Some <== sum_dists(weights@) > 0,
        r matches Some(w) ==> weighted_index_weights(w) == weights@,
{
    match WeightedIndex::new(weights) {
        Ok(w) => Some(WeightedDist { inner: w }),
        Err(_) => None,
    }
}

/// Relies on `WeightedIndex::sample`: the drawn index is in range and its
/// weight is positive (the draw falls strictly inside the cumulative total,
/// so a zero-weight index can never be hit).
#[verifier::external_body]
pub(crate) fn weighted_index_sample(rng: &mut rand::rngs::StdRng, w: &WeightedDist) -> (r: usize)
    ensures
        r < weighted_index_weights(*w).len(),
        weighted_index_weights(*w)[r as int] > 0,
{
    w.inner.sample(rng)
}

} // verus!
