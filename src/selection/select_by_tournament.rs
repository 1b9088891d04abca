use vstd::prelude::*;

use crate::selection::rng_wrapper::RngWrapper;
use crate::selection::{
    distinct, fitnesses_of, forward_positions, identity, index_range, is_arrangement, is_selection,
    is_shuffled_selection, lemma_partial_shuffle_step, lemma_prefix_is_selection,
    lemma_swap_keeps_arrangement, partial_shuffle, prefix, shuffle_steps, swap_entries,
    SelectionError,
};
use crate::{Evaluation, Fitness};

verus! {

/// Each selected index is at least as fit as those after it, and as any
/// index left out.
pub open spec fn fittest_first(f: Seq<Fitness>, v: Seq<usize>) -> bool {
    &&& forall|p: int, q: int| 0 <= p < q < v.len() ==> f[v[p] as int] >= f[v[q] as int]
    &&& forall|p: int, x: usize| 0 <= p < v.len() && x < f.len() && !v.contains(x) ==> f[v[p] as int] >= f[x as int]
}

/// The number of candidates of a pool of `pool_size` when `remaining`
/// positions are left: never fewer than one nor more than remain.
pub open spec fn pool_draws(pool_size: usize, remaining: int) -> int {
    if pool_size == 0 {
        1
    } else if pool_size < remaining {
        pool_size as int
    } else {
        remaining
    }
}

/// Round `i` of a tournament over `arrangement`: `pool` holds distinct
/// positions not yet selected, as many as `pool_draws` gives, and the
/// position `winner` of the pool holds an individual at least as fit as any
/// other of the pool.
pub open spec fn won_round(
    f: Seq<Fitness>,
    arrangement: Seq<usize>,
    i: int,
    pool: Seq<usize>,
    winner: usize,
    pool_size: usize,
) -> bool {
    &&& pool.len() == pool_draws(pool_size, f.len() - i)
    &&& distinct(pool)
    &&& forall|k: int| 0 <= k < pool.len() ==> i <= #[trigger] pool[k] < f.len()
    &&& pool.contains(winner)
    &&& forall|k: int| 0 <= k < pool.len() ==> f[arrangement[winner as int] as int] >= f[arrangement[#[trigger] pool[k] as int] as int]
}

/// `v` is the first `count` indices of a partial shuffle of the population in
/// `steps` steps, each won by the fittest of a tournament pool.
pub open spec fn is_tournament_selection(f: Seq<Fitness>, v: Seq<usize>, count: nat, steps: nat, pool_size: usize) -> bool {
    exists|positions: Seq<usize>, pools: Seq<Seq<usize>>|
        positions.len() == steps && #[trigger] pools.len() == steps && forward_positions(positions, f.len()) && v
            == #[trigger] partial_shuffle(index_range(f.len()), positions).take(count as int) && forall|i: int|
            0 <= i < steps ==> won_round(
                f,
                partial_shuffle(index_range(f.len()), positions.take(i)),
                i,
                #[trigger] pools[i],
                positions[i],
                pool_size,
            )
}

proof fn lemma_swap_remove_keeps_distinct(s: Seq<usize>, c: int)
    requires
        0 <= c < s.len(),
        distinct(s),
    ensures
        distinct(s.update(c, s.last()).drop_last()),
        !s.update(c, s.last()).drop_last().contains(s[c]),
        forall|y: usize| s.update(c, s.last()).drop_last().contains(y) ==> s.contains(y),
{
    let t = s.update(c, s.last()).drop_last();
    let last = s.len() - 1;
    assert forall|k: int| 0 <= k < t.len() implies t[k] == s[if k == c { last } else { k }] by {}
    assert forall|a: int, b: int| 0 <= a < t.len() && 0 <= b < t.len() && a != b implies t[a] != t[b] by {
        assert(t[a] == s[if a == c { last } else { a }]);
        assert(t[b] == s[if b == c { last } else { b }]);
    }
    if t.contains(s[c]) {
        let k = choose|k: int| 0 <= k < t.len() && t[k] == s[c];
        assert(t[k] == s[if k == c { last } else { k }]);
    }
    assert forall|y: usize| t.contains(y) implies s.contains(y) by {
        let k = choose|k: int| 0 <= k < t.len() && t[k] == y;
        assert(t[k] == s[if k == c { last } else { k }]);
    }
}

/// Tournament selection of `expected_count` distinct indices. For each rank
/// `i` below `min(expected_count, len - 1)`, a pool of distinct candidates is
/// drawn among the positions not yet selected, and the fittest of the pool
/// (the first drawn on equal fitness) takes position `i`. A pool holds
/// `pool_size` candidates, but never fewer than one nor more than remain.
pub fn select_by_tournament<R: RngWrapper>(
    evaluations: &[Evaluation],
    expected_count: usize,
    pool_size: usize,
    rng: &mut R,
) -> (r: Result<Vec<usize>, SelectionError>)
    ensures
        expected_count > evaluations@.len() ==> r == Err::<Vec<usize>, SelectionError>(
            SelectionError::OutOfRange(expected_count, evaluations@.len() as usize),
        ),
        expected_count <= evaluations@.len() ==> (r matches Ok(v) && is_selection(
            v@,
            evaluations@.len(),
            expected_count as nat,
        )),
        r matches Ok(v) ==> is_shuffled_selection(
            v@,
            evaluations@.len(),
            expected_count as nat,
            shuffle_steps(expected_count as nat, evaluations@.len()),
        ),
        r matches Ok(v) ==> is_tournament_selection(
            fitnesses_of(evaluations@),
            v@,
            expected_count as nat,
            shuffle_steps(expected_count as nat, evaluations@.len()),
            pool_size,
        ),
        r matches Ok(v) ==> (pool_size >= evaluations@.len() ==> fittest_first(
            fitnesses_of(evaluations@),
            v@,
        )),
        expected_count == 0 || expected_count > evaluations@.len() ==> *final(rng) == *old(rng),
{
    let len = evaluations.len();
    if expected_count > len {
        return Err(SelectionError::OutOfRange(expected_count, len));
    }
    if expected_count == 0 {
        proof {
            let positions = Seq::<usize>::empty();
            let pools = Seq::<Seq<usize>>::empty();
            assert(Seq::<usize>::empty() =~= partial_shuffle(index_range(len as nat), positions).take(0));
            assert(pools.len() == 0);
            let fs = fitnesses_of(evaluations@);
            assert(fs.len() == len);
            assert(Seq::<usize>::empty() =~= partial_shuffle(index_range(fs.len()), positions).take(0));
            assert(forward_positions(positions, fs.len()));
            assert(is_tournament_selection(fitnesses_of(evaluations@), Seq::<usize>::empty(), 0, 0, pool_size));
        }
        return Ok(Vec::new());
    }
    let ghost f = fitnesses_of(evaluations@);
    let ghost full_pool = pool_size >= len;
    let mut indexes = identity(len);
    let selection_count = if expected_count < len - 1 {
        expected_count
    } else {
        len - 1
    };
    let ghost mut positions = Seq::<usize>::empty();
    let ghost mut pools = Seq::<Seq<usize>>::empty();
    let mut i: usize = 0;
    while i < selection_count
        invariant
            selection_count < len == evaluations@.len() == f.len(),
            f == fitnesses_of(evaluations@),
            full_pool == (pool_size >= len),
            i <= selection_count,
            is_arrangement(indexes@, len as nat),
            positions.len() == i,
            forward_positions(positions, len as nat),
            indexes@ == partial_shuffle(index_range(len as nat), positions),
            pools.len() == i,
            forall|j: int| 0 <= j < i ==> won_round(
                f,
                partial_shuffle(index_range(len as nat), positions.take(j)),
                j,
                #[trigger] pools[j],
                positions[j],
                pool_size,
            ),
            full_pool ==> forall|p: int, q: int| 0 <= p < i && p <= q < len ==> f[indexes@[p] as int] >= f[indexes@[q] as int],
        decreases selection_count - i,
    {
        let remaining = len - i;
        let draws = if pool_size == 0 {
            1
        } else if pool_size < remaining {
            pool_size
        } else {
            remaining
        };
        // Positions i..len, from which the pool is drawn without replacement.
        let mut candidates: Vec<usize> = Vec::new();
        let mut p: usize = i;
        while p < len
            invariant
                i <= p <= len,
                candidates@.len() == p - i,
                forall|k: int| 0 <= k < candidates@.len() ==> #[trigger] candidates@[k] == i + k,
            decreases len - p,
        {
            candidates.push(p);
            p = p + 1;
        }
        let first = rng.gen_range(0, candidates.len());
        let ghost fresh = candidates@;
        let mut winner = candidates.swap_remove(first);
        let ghost mut drawn = seq![winner];
        proof {
            assert(distinct(fresh));
            lemma_swap_remove_keeps_distinct(fresh, first as int);
            assert(winner == fresh[first as int]);
            assert(drawn[0] == winner);
            assert(!candidates@.contains(winner));
            assert forall|q: int| i <= q < len && q != winner implies #[trigger] candidates@.contains(q as usize) by {
                let k = q - i;
                if k == candidates@.len() {
                    assert(candidates@[first as int] == q);
                } else {
                    assert(candidates@[k] == q);
                }
            }
        }
        let mut t: usize = 1;
        while t < draws
            invariant
                i < len == evaluations@.len() == f.len(),
                f == fitnesses_of(evaluations@),
                1 <= draws <= len - i,
                full_pool ==> draws == len - i,
                1 <= t <= draws,
                candidates@.len() == len - i - t,
                forall|k: int| 0 <= k < candidates@.len() ==> i <= #[trigger] candidates@[k] < len,
                i <= winner < len,
                is_arrangement(indexes@, len as nat),
                forall|q: int| i <= q < len && !(#[trigger] candidates@.contains(q as usize)) ==> f[indexes@[winner as int] as int] >= f[indexes@[q] as int],
                distinct(candidates@),
                drawn.len() == t,
                distinct(drawn),
                drawn.contains(winner),
                forall|k: int| 0 <= k < drawn.len() ==> i <= #[trigger] drawn[k] < len && !candidates@.contains(drawn[k]),
            decreases draws - t,
        {
            let c = rng.gen_range(0, candidates.len());
            let ghost before = candidates@;
            let candidate = candidates.swap_remove(c);
            proof {
                lemma_swap_remove_keeps_distinct(before, c as int);
                assert(candidate == before[c as int]);
                assert(!candidates@.contains(candidate));
                let old_drawn = drawn;
                drawn = drawn.push(candidate);
                assert forall|a: int, b: int| 0 <= a < drawn.len() && 0 <= b < drawn.len() && a != b implies drawn[a] != drawn[b] by {
                    if a == old_drawn.len() {
                        assert(!before.contains(old_drawn[b]));
                    } else if b == old_drawn.len() {
                        assert(!before.contains(old_drawn[a]));
                    }
                }
                assert forall|k: int| 0 <= k < drawn.len() implies i <= #[trigger] drawn[k] < len && !candidates@.contains(drawn[k]) by {
                    if k < old_drawn.len() {
                        assert(!before.contains(old_drawn[k]));
                    }
                }
                assert(drawn.contains(winner)) by {
                    let m = choose|m: int| 0 <= m < old_drawn.len() && old_drawn[m] == winner;
                    assert(drawn[m] == winner);
                }
            }
            let ghost previous = winner;
            if evaluations[indexes[candidate]].fitness > evaluations[indexes[winner]].fitness {
                winner = candidate;
                proof {
                    assert(drawn[drawn.len() - 1] == winner);
                }
            }
            proof {
                assert forall|q: int| i <= q < len && !(#[trigger] candidates@.contains(q as usize)) implies f[indexes@[winner as int] as int] >= f[indexes@[q] as int] by {
                    if q as usize != candidate && before.contains(q as usize) {
                        let k = choose|k: int| 0 <= k < before.len() && before[k] == q as usize;
                        if k == before.len() - 1 {
                            assert(candidates@[c as int] == q as usize);
                        } else {
                            assert(candidates@[k] == q as usize);
                        }
                    }
                }
            }
            t = t + 1;
        }
        proof {
            if full_pool {
                assert(candidates@.len() == 0);
                assert forall|q: int| i <= q < len implies f[indexes@[winner as int] as int] >= f[indexes@[q] as int] by {
                    assert(!candidates@.contains(q as usize));
                }
            }
            lemma_swap_keeps_arrangement(indexes@, len as nat, i as int, winner as int);
            lemma_partial_shuffle_step(index_range(len as nat), positions, winner);
            assert forall|k: int| 0 <= k < drawn.len() implies f[indexes@[winner as int] as int] >= f[indexes@[#[trigger] drawn[k] as int] as int] by {
                let q = drawn[k] as int;
                assert(i <= q < len);
                assert(!candidates@.contains(q as usize));
            }
            let old_positions = positions;
            positions = positions.push(winner);
            pools = pools.push(drawn);
            assert(positions.take(i as int) =~= old_positions);
            assert forall|j: int| 0 <= j < i + 1 implies won_round(
                f,
                partial_shuffle(index_range(len as nat), positions.take(j)),
                j,
                #[trigger] pools[j],
                positions[j],
                pool_size,
            ) by {
                if j < i {
                    assert(positions.take(j) =~= old_positions.take(j));
                }
            }
        }
        let ghost before = indexes@;
        swap_entries(&mut indexes, i, winner);
        proof {
            if full_pool {
                let s = indexes@;
                assert forall|p: int, q: int| 0 <= p < i + 1 && p <= q < len implies f[s[p] as int] >= f[s[q] as int] by {
                    let oq = if q == winner {
                        i as int
                    } else if q == i {
                        winner as int
                    } else {
                        q
                    };
                    assert(s[q] == before[oq]);
                    assert(q >= i ==> i <= oq < len);
                    if p < i {
                        assert(s[p] == before[p]);
                    } else {
                        assert(s[p] == before[winner as int]);
                    }
                }
            }
        }
        i = i + 1;
    }
    proof {
        lemma_prefix_is_selection(indexes@, len as nat, expected_count as int);
    }
    let r = prefix(&indexes, expected_count);
    proof {
        assert(r@ == partial_shuffle(index_range(len as nat), positions).take(expected_count as int));
        assert(shuffle_steps(expected_count as nat, len as nat) == selection_count);
        assert(is_tournament_selection(f, r@, expected_count as nat, selection_count as nat, pool_size));
        if full_pool {
            let s = indexes@;
            assert forall|p: int, x: usize| 0 <= p < r@.len() && x < f.len() && !r@.contains(x) implies f[r@[p] as int] >= f[x as int] by {
                assert(s.contains(x));
                let q = choose|q: int| 0 <= q < s.len() && s[q] == x;
                if q < expected_count {
                    assert(r@[q] == x);
                }
                if p < selection_count {
                    assert(f[s[p] as int] >= f[s[q] as int]);
                }
            }
            assert forall|p: int, q: int| 0 <= p < q < r@.len() implies f[r@[p] as int] >= f[r@[q] as int] by {
                assert(p < selection_count);
            }
        }
    }
    Ok(r)
}

} // verus!
