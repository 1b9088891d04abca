use vstd::prelude::*;

use crate::selection::rng_wrapper::RngWrapper;
use crate::selection::{
    fitnesses_of, identity, is_arrangement, is_top_ranked, lemma_swap_keeps_arrangement, prefix,
    ranks_before, swap_entries, SelectionError,
};
use crate::{Evaluation, Fitness};

verus! {

/// The `expected_count` best individuals, best first: indices sorted by
/// descending fitness, equal fitness in index order. The selection is
/// deterministic; `rng` is never consulted.
pub fn select_by_rank<R: RngWrapper>(
    evaluations: &[Evaluation],
    expected_count: usize,
    max_rank: usize,
    rng: &mut R,
) -> (r: Result<Vec<usize>, SelectionError>)
    ensures
        expected_count > max_rank ==> r == Err::<Vec<usize>, SelectionError>(
            SelectionError::OutOfRank(expected_count, max_rank),
        ),
        expected_count <= max_rank && expected_count > evaluations@.len() ==> r == Err::<
            Vec<usize>,
            SelectionError,
        >(SelectionError::OutOfRange(expected_count, evaluations@.len() as usize)),
        expected_count <= max_rank && expected_count <= evaluations@.len() ==> (r matches Ok(v)
            && v@.len() == expected_count && is_top_ranked(fitnesses_of(evaluations@), v@)),
        *final(rng) == *old(rng),
{
    if expected_count > max_rank {
        return Err(SelectionError::OutOfRank(expected_count, max_rank));
    }
    let len = evaluations.len();
    if expected_count > len {
        return Err(SelectionError::OutOfRange(expected_count, len));
    }
    let ghost f = fitnesses_of(evaluations@);
    let mut indexes = identity(len);
    let mut k: usize = 0;
    while k < expected_count
        invariant
            expected_count <= len == evaluations@.len() == f.len(),
            f == fitnesses_of(evaluations@),
            k <= expected_count,
            is_arrangement(indexes@, len as nat),
            forall|p: int, q: int| 0 <= p < q < len && p < k ==> ranks_before(f, indexes@[p], indexes@[q]),
        decreases expected_count - k,
    {
        // The best ranked index among positions k..len.
        let mut best: usize = k;
        let mut i: usize = k + 1;
        while i < len
            invariant
                expected_count <= len == evaluations@.len() == f.len(),
                f == fitnesses_of(evaluations@),
                k < expected_count,
                k <= best < len,
                best < i <= len,
                is_arrangement(indexes@, len as nat),
                forall|q: int| k <= q < i && q != best ==> ranks_before(f, indexes@[best as int], indexes@[q]),
            decreases len - i,
        {
            let a = indexes[i];
            let b = indexes[best];
            if evaluations[a].fitness > evaluations[b].fitness || (evaluations[a].fitness
                == evaluations[b].fitness && a < b) {
                best = i;
            }
            i = i + 1;
        }
        proof {
            lemma_swap_keeps_arrangement(indexes@, len as nat, k as int, best as int);
        }
        let ghost before = indexes@;
        swap_entries(&mut indexes, k, best);
        proof {
            let s = indexes@;
            assert forall|p: int, q: int| 0 <= p < q < len && p < k + 1 implies ranks_before(
                f,
                s[p],
                s[q],
            ) by {
                if p < k {
                    let oq = if q == best {
                        k as int
                    } else if q == k {
                        best as int
                    } else {
                        q
                    };
                    assert(s[q] == before[oq]);
                    assert(ranks_before(f, before[p], before[oq]));
                } else {
                    let oq = if q == best {
                        k as int
                    } else {
                        q
                    };
                    assert(s[q] == before[oq]);
                    assert(oq != best);
                }
            }
        }
        k = k + 1;
    }
    let r = prefix(&indexes, expected_count);
    proof {
        let s = indexes@;
        assert forall|x: usize, p: int|
            x < len && !r@.contains(x) && 0 <= p < r@.len() implies ranks_before(f, r@[p], x) by {
            assert(s.contains(x));
            let q = choose|q: int| 0 <= q < s.len() && s[q] == x;
            if q < expected_count {
                assert(r@[q] == x);
            }
        }
    }
    Ok(r)
}

proof fn lemma_top_ranked_prefix_upto(f: Seq<Fitness>, sorted: Seq<usize>, v: Seq<usize>, k: int)
    requires
        is_arrangement(sorted, f.len()),
        forall|p: int, q: int| 0 <= p < q < sorted.len() ==> ranks_before(f, sorted[p], sorted[q]),
        is_top_ranked(f, v),
        v.len() <= f.len(),
        0 <= k < v.len(),
    ensures
        forall|j: int| 0 <= j <= k ==> v[j] == sorted[j],
    decreases k,
{
    if k > 0 {
        lemma_top_ranked_prefix_upto(f, sorted, v, k - 1);
    }
    if v[k] != sorted[k] {
        let x = v[k];
        assert(sorted.contains(x));
        let n = choose|n: int| 0 <= n < sorted.len() && sorted[n] == x;
        if n < k {
            assert(v[n] == sorted[n]);
        }
        assert(n > k);
        assert(ranks_before(f, sorted[k], x));
        let y = sorted[k];
        if v.contains(y) {
            let m = choose|m: int| 0 <= m < v.len() && v[m] == y;
            if m < k {
                assert(v[m] == sorted[m]);
            }
            assert(m > k);
            assert(ranks_before(f, x, y));
        } else {
            assert(ranks_before(f, v[k], y));
        }
    }
}

/// Ranking selection gives the population sorted by descending fitness
/// (equal fitness in index order), truncated to the requested count: every
/// such ordering of all the indices starts with the selection.
pub proof fn lemma_top_ranked_is_sorted_prefix(f: Seq<Fitness>, sorted: Seq<usize>, v: Seq<usize>)
    requires
        is_arrangement(sorted, f.len()),
        forall|p: int, q: int| 0 <= p < q < sorted.len() ==> ranks_before(f, sorted[p], sorted[q]),
        is_top_ranked(f, v),
        v.len() <= f.len(),
    ensures
        v == sorted.take(v.len() as int),
{
    if v.len() > 0 {
        lemma_top_ranked_prefix_upto(f, sorted, v, v.len() - 1);
    }
    assert(v =~= sorted.take(v.len() as int));
}

} // verus!
