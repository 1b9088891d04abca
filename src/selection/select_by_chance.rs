use vstd::prelude::*;

use crate::selection::rng_wrapper::RngWrapper;
use crate::selection::{
    forward_positions, identity, index_range, is_selection, is_shuffled_selection,
    lemma_partial_shuffle_step, lemma_prefix_is_selection, lemma_swap_keeps_arrangement,
    partial_shuffle, prefix, shuffle_steps, swap_entries, SelectionError,
};
use crate::Evaluation;

verus! {

/// Uniform sampling of `expected_count` distinct indices, by a partial
/// Fisher-Yates shuffle: rank `i` swaps with a position drawn in `[i, len)`.
/// The source of randomness is consulted `min(expected_count, len - 1)` times.
pub fn select_by_chance<R: RngWrapper>(
    evaluations: &[Evaluation],
    expected_count: usize,
    rng: &mut R,
) -> (r: Result<Vec<usize>, SelectionError>)
    ensures
        expected_count > evaluations@.len() ==> r == Err::<Vec<usize>, SelectionError>(
            SelectionError::OutOfRange(expected_count, evaluations@.len() as usize),
        ),
        expected_count <= evaluations@.len() ==> (r matches Ok(v) && is_selection(
            v@,
            evaluations@.len(),
            expected_count as nat,
        )),
        r matches Ok(v) ==> is_shuffled_selection(
            v@,
            evaluations@.len(),
            expected_count as nat,
            shuffle_steps(expected_count as nat, evaluations@.len()),
        ),
        expected_count == 0 || expected_count > evaluations@.len() ==> *final(rng) == *old(rng),
{
    let len = evaluations.len();
    if expected_count > len {
        return Err(SelectionError::OutOfRange(expected_count, len));
    }
    if expected_count == 0 {
        proof {
            let positions = Seq::<usize>::empty();
            assert(Seq::<usize>::empty() =~= partial_shuffle(index_range(len as nat), positions).take(0));
        }
        return Ok(Vec::new());
    }
    let mut indexes = identity(len);
    let selection_count = if expected_count < len - 1 {
        expected_count
    } else {
        len - 1
    };
    let ghost mut positions = Seq::<usize>::empty();
    let mut i: usize = 0;
    while i < selection_count
        invariant
            selection_count < len,
            i <= selection_count,
            is_selection(indexes@, len as nat, len as nat),
            positions.len() == i,
            forward_positions(positions, len as nat),
            indexes@ == partial_shuffle(index_range(len as nat), positions),
        decreases selection_count - i,
    {
        let selected_index = rng.gen_range(i, len);
        proof {
            lemma_swap_keeps_arrangement(indexes@, len as nat, i as int, selected_index as int);
            lemma_partial_shuffle_step(index_range(len as nat), positions, selected_index);
            positions = positions.push(selected_index);
        }
        swap_entries(&mut indexes, i, selected_index);
        i = i + 1;
    }
    proof {
        lemma_prefix_is_selection(indexes@, len as nat, expected_count as int);
    }
    let r = prefix(&indexes, expected_count);
    proof {
        assert(r@ == partial_shuffle(index_range(len as nat), positions).take(expected_count as int));
    }
    Ok(r)
}

} // verus!
