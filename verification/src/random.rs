//! The calls into the random number generator. Their contracts are
//! believed, not proved; they claim only what holds of every outcome.

use rand::distributions::{IndependentSample, Weighted, WeightedChoice};
use rand::Rng;
use vstd::prelude::*;

verus! {

/// The sum of a list of weights.
pub open spec fn total_weight(weights: Seq<u32>) -> int
    decreases weights.len(),
{
    if weights.len() == 0 {
        0
    } else {
        total_weight(weights.drop_last()) + weights.last()
    }
}

/// Draws an integer from `low..high` with the thread's generator.
///
/// Calls `rand::Rng::gen_range`, which panics unless `low < high` and
/// samples the half-open range. Nothing is claimed about which number comes
/// out, only that it lies in the range.
#[verifier::external_body]
pub(crate) fn random_range(low: i32, high: i32) -> (n: i32)
    requires
        low < high,
    ensures
        low <= n < high,
{
    rand::thread_rng().gen_range(low, high)
}

/// Draws `true` or `false` with the thread's generator.
///
/// Calls `rand::random`. Nothing is claimed about the outcome.
#[verifier::external_body]
pub(crate) fn random_bool() -> (b: bool) {
    rand::random()
}

/// Draws a position of `weights`, each with a chance in proportion to its
/// weight.
///
/// Builds a `rand::distributions::WeightedChoice` over the positions and
/// samples it once. Its constructor panics on an empty list, on a total
/// weight of 0 and on one that does not fit in a `u32`. The sample is the
/// first position whose running total exceeds a number drawn below the
/// total, so it is a position of the list, and its own weight is not 0.
#[verifier::external_body]
pub(crate) fn weighted_index(weights: &Vec<u32>) -> (i: usize)
    requires
        weights@.len() > 0,
        0 < total_weight(weights@) <= u32::MAX,
    ensures
        i < weights@.len(),
        weights@[i as int] > 0,
{
    let mut items: Vec<Weighted<usize>> =
        weights.iter().enumerate().map(|(item, w)| Weighted { weight: *w, item }).collect();
    let choice = WeightedChoice::new(&mut items);
    choice.ind_sample(&mut rand::thread_rng())
}

} // verus!
