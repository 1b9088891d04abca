use vstd::prelude::*;

use crate::selection::rng_wrapper::{
    new_distribution, positive_total, valid_weights, weight_error_text, RngWrapper,
};
use crate::selection::{
    fitnesses_of, forward_positions, identity, index_range, is_selection, is_shuffled_selection,
    lemma_partial_shuffle_step, lemma_prefix_is_selection, lemma_swap_keeps_arrangement,
    partial_shuffle, prefix, shuffle_steps, swap_entries, SelectionError,
};
use crate::{Evaluation, Fitness};

verus! {

/// The floor added to every fitness to weigh it (0.01), so that an individual
/// of zero fitness keeps a chance to be picked.
pub const MIN_WEIGHT: i64 = 10_000;

/// The weight of an individual of fitness `f`.
pub open spec fn weight_of(f: Fitness) -> int {
    MIN_WEIGHT + f
}

/// The largest weight that lets any `len` weights be summed in an `i64`.
pub open spec fn weight_bound(len: nat) -> int {
    i64::MAX as int / len as int
}

/// Every weight of `f` stays within `weight_bound`.
pub open spec fn weights_bounded(f: Seq<Fitness>) -> bool {
    forall|i: int| 0 <= i < f.len() ==> weight_of(f[i]) <= weight_bound(f.len())
}

/// Every weight of `f` is positive.
pub open spec fn weights_positive(f: Seq<Fitness>) -> bool {
    forall|i: int| 0 <= i < f.len() ==> weight_of(f[i]) > 0
}

/// Every weight of `f` is zero.
pub open spec fn all_weights_zero(f: Seq<Fitness>) -> bool {
    forall|i: int| 0 <= i < f.len() ==> weight_of(f[i]) == 0
}

/// Some weight of `f` is negative.
pub open spec fn some_weight_negative(f: Seq<Fitness>) -> bool {
    exists|i: int| 0 <= i < f.len() && weight_of(f[i]) < 0
}

proof fn lemma_positive_total_bounds(w: Seq<i64>, bound: int)
    requires
        bound >= 0,
        forall|k: int| 0 <= k < w.len() ==> w[k] <= bound,
    ensures
        0 <= positive_total(w) <= w.len() * bound,
        (w.len() > 0 && forall|k: int| 0 <= k < w.len() ==> w[k] > 0) ==> positive_total(w) > 0,
    decreases w.len(),
{
    if w.len() > 0 {
        lemma_positive_total_bounds(w.drop_last(), bound);
        assert(w.len() * bound == (w.len() - 1) * bound + bound) by (nonlinear_arith);
    }
}

/// Fitness-proportionate sampling of `expected_count` distinct indices,
/// without replacement: the weight of an individual is `MIN_WEIGHT` plus its
/// fitness, and each of `min(expected_count, len - 1)` draws picks among the
/// individuals not yet picked. The weights must form a distribution at each
/// draw, and be small enough to be summed.
pub fn select_by_weight<R: RngWrapper>(
    evaluations: &[Evaluation],
    expected_count: usize,
    rng: &mut R,
) -> (r: Result<Vec<usize>, SelectionError>)
    ensures
        expected_count > evaluations@.len() ==> r == Err::<Vec<usize>, SelectionError>(
            SelectionError::OutOfRange(expected_count, evaluations@.len() as usize),
        ),
        r matches Ok(v) ==> is_selection(v@, evaluations@.len(), expected_count as nat),
        r matches Ok(v) ==> is_shuffled_selection(
            v@,
            evaluations@.len(),
            expected_count as nat,
            shuffle_steps(expected_count as nat, evaluations@.len()),
        ),
        r matches Err(e) ==> (e is OutOfRange && expected_count > evaluations@.len())
            || e is InvalidWeights,
        expected_count <= evaluations@.len() && (expected_count == 0 || evaluations@.len() == 1
            || (weights_bounded(fitnesses_of(evaluations@)) && weights_positive(
            fitnesses_of(evaluations@),
        ))) ==> r is Ok,
        1 <= expected_count <= evaluations@.len() && evaluations@.len() >= 2 && (
        !weights_bounded(fitnesses_of(evaluations@)) || some_weight_negative(
            fitnesses_of(evaluations@),
        ) || all_weights_zero(fitnesses_of(evaluations@))) ==> (r matches Err(e) && e is InvalidWeights),
        expected_count == 0 || expected_count > evaluations@.len() ==> *final(rng) == *old(rng),
{
    let len = evaluations.len();
    if expected_count > len {
        return Err(SelectionError::OutOfRange(expected_count, len));
    }
    if expected_count == 0 {
        proof {
            let positions = Seq::<usize>::empty();
            assert(Seq::<usize>::empty() =~= partial_shuffle(index_range(len as nat), positions).take(0));
        }
        return Ok(Vec::new());
    }
    let ghost f = fitnesses_of(evaluations@);
    let mut indexes = identity(len);
    let selection_count = if expected_count < len - 1 {
        expected_count
    } else {
        len - 1
    };
    let mut values: Vec<i64> = Vec::new();
    let mut bound: i64 = 0;
    if selection_count > 0 {
        bound = (i64::MAX as u64 / len as u64) as i64;
        let mut j: usize = 0;
        while j < len
            invariant
                1 <= expected_count <= len,
                len == evaluations@.len() == f.len() >= 2,
                f == fitnesses_of(evaluations@),
                bound == weight_bound(len as nat),
                j <= len,
                values@.len() == j,
                forall|k: int| 0 <= k < j ==> values@[k] == weight_of(#[trigger] f[k]),
                forall|k: int| 0 <= k < j ==> weight_of(#[trigger] f[k]) <= bound,
            decreases len - j,
        {
            let fitness = evaluations[j].fitness;
            assert(fitness == f[j as int]);
            if fitness > bound - MIN_WEIGHT {
                return Err(
                    SelectionError::InvalidWeights(
                        "a weight exceeds the share of the total that an i64 can hold".to_string(),
                    ),
                );
            }
            values.push(fitness + MIN_WEIGHT);
            j = j + 1;
        }
    }
    let ghost mut positions = Seq::<usize>::empty();
    let mut i: usize = 0;
    while i < selection_count
        invariant
            positions.len() == i,
            forward_positions(positions, len as nat),
            indexes@ == partial_shuffle(index_range(len as nat), positions),
            1 <= expected_count <= len,
            selection_count < len == evaluations@.len() == f.len(),
            selection_count > 0 <==> len >= 2,
            f == fitnesses_of(evaluations@),
            i <= selection_count,
            selection_count > 0 ==> bound == weight_bound(len as nat),
            is_selection(indexes@, len as nat, len as nat),
            i == 0 ==> forall|k: int| 0 <= k < len ==> indexes@[k] == k,
            i > 0 ==> !some_weight_negative(f),
            i > 0 ==> !all_weights_zero(f),
            selection_count > 0 ==> weights_bounded(f),
            selection_count > 0 ==> values@.len() == len - i,
            selection_count > 0 ==> forall|k: int| 0 <= k < values@.len() ==> values@[k] == weight_of(f[indexes@[i + k] as int]),
        decreases selection_count - i,
    {
        proof {
            assert forall|k: int| 0 <= k < values@.len() implies values@[k] <= bound by {
                assert(values@[k] == weight_of(f[indexes@[i + k] as int]));
            }
            lemma_positive_total_bounds(values@, bound as int);
            assert(values@.len() * bound <= len * bound) by (nonlinear_arith)
                requires values@.len() <= len, bound >= 0;
            assert(len * bound <= i64::MAX) by (nonlinear_arith)
                requires bound == i64::MAX as int / len as int, len > 0;
            if i == 0 && all_weights_zero(f) {
                assert forall|k: int| 0 <= k < values@.len() implies values@[k] <= 0 by {
                    assert(values@[k] == weight_of(f[k]));
                }
                lemma_positive_total_bounds(values@, 0);
            }
            if i == 0 && some_weight_negative(f) {
                let j = choose|j: int| 0 <= j < f.len() && weight_of(f[j]) < 0;
                assert(values@[j] == weight_of(f[j]));
            }
            if weights_positive(f) {
                assert forall|k: int| 0 <= k < values@.len() implies values@[k] > 0 by {
                    assert(values@[k] == weight_of(f[indexes@[i + k] as int]));
                }
            }
        }
        let distribution = match new_distribution(&values) {
            Ok(d) => d,
            Err(e) => {
                return Err(SelectionError::InvalidWeights(weight_error_text(&e)));
            },
        };
        let index = rng.sample_from_distribution(&distribution);
        proof {
            if i == 0 {
                assert forall|j: int| 0 <= j < f.len() implies weight_of(f[j]) >= 0 by {
                    assert(values@[j] == weight_of(f[j]));
                }
                if all_weights_zero(f) {
                    assert forall|k: int| 0 <= k < values@.len() implies values@[k] <= 0 by {
                        assert(values@[k] == weight_of(f[k]));
                    }
                    lemma_positive_total_bounds(values@, 0);
                }
            }
            lemma_swap_keeps_arrangement(indexes@, len as nat, i as int, (i + index) as int);
            lemma_partial_shuffle_step(index_range(len as nat), positions, (i + index) as usize);
            positions = positions.push((i + index) as usize);
        }
        let ghost old_values = values@;
        let ghost old_indexes = indexes@;
        swap_entries(&mut indexes, i, i + index);
        let front = values[0];
        values.set(index, front);
        values.remove(0);
        proof {
            assert forall|k: int| 0 <= k < values@.len() implies values@[k] == weight_of(
                f[indexes@[i + 1 + k] as int],
            ) by {
                if k + 1 == index {
                    assert(indexes@[i + 1 + k] == old_indexes[i as int]);
                } else {
                    assert(indexes@[i + 1 + k] == old_indexes[i + 1 + k]);
                    assert(values@[k] == old_values[k + 1]);
                }
            }
        }
        i = i + 1;
    }
    proof {
        lemma_prefix_is_selection(indexes@, len as nat, expected_count as int);
    }
    let r = prefix(&indexes, expected_count);
    proof {
        assert(r@ == partial_shuffle(index_range(len as nat), positions).take(expected_count as int));
    }
    Ok(r)
}

} // verus!
