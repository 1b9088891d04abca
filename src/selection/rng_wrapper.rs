use vstd::prelude::*;
use rand::distributions::{Distribution, WeightedError, WeightedIndex};
use rand::rngs::StdRng;
use rand::Rng;

use crate::selection::SelectionError;

verus! {

/// The only way the algorithms of this library reach randomness: pick an
/// index in a range, or sample one from a discrete weighted distribution.
/// Any source meeting these contracts can stand in, a scripted one included.
pub trait RngWrapper {
    /// An index in `[low, high)`.
    fn gen_range(&mut self, low: usize, high: usize) -> (r: usize)
        requires
            low < high,
        ensures
            low <= r < high,
    ;

    /// An index into the weights that `distribution` was built from.
    fn sample_from_distribution(&mut self, distribution: &WeightedDistribution) -> (r: usize)
        ensures
            r < distribution_weights(*distribution).len(),
    ;
}

#[verifier::external_type_specification]
#[verifier::external_body]
pub struct ExStdRng(StdRng);

/// A discrete weighted distribution over indices: rand's `WeightedIndex`
/// over integer weights, seen by proofs only through `distribution_weights`.
#[verifier::external_body]
pub struct WeightedDistribution {
    inner: WeightedIndex<i64>,
}

#[verifier::external_type_specification]
#[verifier::external_body]
pub struct ExWeightedError(WeightedError);

/// The weights that a weighted-index distribution was built from.
pub uninterp spec fn distribution_weights(d: WeightedDistribution) -> Seq<i64>;

/// The sum of the positive entries of `w`.
pub open spec fn positive_total(w: Seq<i64>) -> int
    decreases w.len(),
{
    if w.len() == 0 {
        0
    } else {
        positive_total(w.drop_last()) + if w.last() > 0 { w.last() as int } else { 0 }
    }
}

/// Whether rand accepts `w` as the weights of a distribution: at least one,
/// none negative, and a positive total.
pub open spec fn valid_weights(w: Seq<i64>) -> bool {
    &&& w.len() > 0
    &&& forall|i: int| 0 <= i < w.len() ==> w[i] >= 0
    &&& positive_total(w) > 0
}

/// Relies on rand's `WeightedIndex::new`: it fails exactly on an empty list,
/// a negative weight or a zero total, and keeps the weights it was given.
/// Its running total must not overflow.
#[verifier::external_body]
pub(crate) fn new_distribution(weights: &Vec<i64>) -> (r: Result<WeightedDistribution, WeightedError>)
    requires
        positive_total(weights@) <= i64::MAX,
    ensures
        r is Ok <==> valid_weights(weights@),
        r matches Ok(d) ==> distribution_weights(d) == weights@,
{
    match WeightedIndex::new(weights) {
        Ok(inner) => Ok(WeightedDistribution { inner }),
        Err(e) => Err(e),
    }
}

proof fn lemma_positive_total_prefix(w: Seq<i64>, i: int)
    requires
        0 <= i <= w.len(),
    ensures
        positive_total(w.take(i)) <= positive_total(w),
    decreases w.len(),
{
    if i < w.len() {
        assert(w.drop_last().take(i) =~= w.take(i));
        lemma_positive_total_prefix(w.drop_last(), i);
    } else {
        assert(w.take(i) =~= w);
    }
}

impl WeightedDistribution {
    /// The distribution of `weights`: it needs at least one weight, none
    /// negative, and a positive total that an `i64` can hold.
    pub fn new(weights: &Vec<i64>) -> (r: Result<WeightedDistribution, SelectionError>)
        ensures
            positive_total(weights@) <= i64::MAX ==> (r is Ok <==> valid_weights(weights@)),
            r matches Ok(d) ==> distribution_weights(d) == weights@,
            r matches Err(e) ==> e is InvalidWeights,
    {
        let mut total: i128 = 0;
        let mut i: usize = 0;
        while i < weights.len()
            invariant
                i <= weights@.len(),
                total == positive_total(weights@.take(i as int)),
                total <= i64::MAX,
            decreases weights@.len() - i,
        {
            assert(weights@.take(i + 1).drop_last() =~= weights@.take(i as int));
            if weights[i] > 0 {
                total = total + weights[i] as i128;
            }
            if total > i64::MAX as i128 {
                proof {
                    lemma_positive_total_prefix(weights@, i + 1);
                }
                return Err(SelectionError::InvalidWeights("the total weight overflows".to_string()));
            }
            i = i + 1;
        }
        assert(weights@.take(i as int) =~= weights@);
        match new_distribution(weights) {
            Ok(d) => Ok(d),
            Err(e) => Err(SelectionError::InvalidWeights(weight_error_text(&e))),
        }
    }
}

/// Relies on the `Display` text of rand's `WeightedError`.
#[verifier::external_body]
pub(crate) fn weight_error_text(e: &WeightedError) -> String {
    e.to_string()
}

/// Relies on rand's `Rng::gen_range`: a value in the half-open range, which
/// must not be empty.
#[verifier::external_body]
fn std_gen_range(rng: &mut StdRng, low: usize, high: usize) -> (r: usize)
    requires
        low < high,
    ensures
        low <= r < high,
{
    rng.gen_range(low..high)
}

/// Relies on rand's `WeightedIndex::sample`: a binary search over the
/// cumulative weights, which returns an index of the weights.
#[verifier::external_body]
fn std_sample(distribution: &WeightedDistribution, rng: &mut StdRng) -> (r: usize)
    ensures
        r < distribution_weights(*distribution).len(),
{
    distribution.inner.sample(rng)
}

/// The production source of randomness: a generator of the rand crate.
pub struct Random<'a> {
    rng: &'a mut StdRng,
}

impl<'a> Random<'a> {
    pub fn new(rng: &'a mut StdRng) -> (r: Self) {
        Random { rng }
    }
}

impl<'a> RngWrapper for Random<'a> {
    fn gen_range(&mut self, low: usize, high: usize) -> (r: usize) {
        std_gen_range(self.rng, low, high)
    }

    fn sample_from_distribution(&mut self, distribution: &WeightedDistribution) -> (r: usize) {
        std_sample(distribution, self.rng)
    }
}

} // verus!
