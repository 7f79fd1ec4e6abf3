//! The random choices of the simulation, drawn from the `rand` crate.

use vstd::prelude::*;
use rand::distributions::{Distribution, WeightedIndex};
use rand::Rng;

verus! {

/// The sum of a list of weights.
pub open spec fn total_weight(weights: Seq<u32>) -> int
    decreases weights.len(),
{
    if weights.len() == 0 {
        0
    } else {
        total_weight(weights.drop_last()) + weights.last()
    }
}

/// Calls `rand::Rng::gen_range` on the thread's generator. The crate
/// documents that the result lies in `low..high` and that it panics unless
/// `low < high`; which number of the range comes back is left open.
#[verifier::external_body]
pub(crate) fn random_range(low: i32, high: i32) -> (n: i32)
    requires
        low < high,
    ensures
        low <= n < high,
{
    rand::thread_rng().gen_range(low, high)
}

/// Calls `rand::random` for a `bool`. Nothing is claimed of the result.
#[verifier::external_body]
pub(crate) fn random_bool() -> bool {
    rand::random()
}

/// Builds a `rand::distributions::WeightedIndex` over `weights` and samples
/// it once on the thread's generator. Building fails on an empty list and on
/// a total of zero, and adds the weights up as `u32`. A sample is an index
/// into the list, and never one whose weight is zero; which one is left open.
#[verifier::external_body]
pub(crate) fn weighted_index(weights: &Vec<u32>) -> (i: usize)
    requires
        weights@.len() > 0,
        0 < total_weight(weights@) <= u32::MAX,
    ensures
        i < weights@.len(),
        weights@[i as int] > 0,
{
    WeightedIndex::new(weights).unwrap().sample(&mut rand::thread_rng())
}

} // verus!
