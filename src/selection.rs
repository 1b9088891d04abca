//! Selection algorithms: each picks distinct indices of an evaluated
//! population, or fails.
use vstd::prelude::*;

pub mod rng_wrapper;
pub mod select_by_chance;
pub mod select_by_rank;
pub mod select_by_tournament;
pub mod select_by_weight;

use crate::{Evaluation, Fitness};
use rng_wrapper::RngWrapper;
use select_by_chance::select_by_chance;
use select_by_rank::select_by_rank;
use select_by_tournament::{fittest_first, is_tournament_selection, select_by_tournament};
use select_by_weight::{
    all_weights_zero, select_by_weight, some_weight_negative, weights_bounded, weights_positive,
};

verus! {

/// Why a selection could not be made.
#[derive(Debug, PartialEq)]
pub enum SelectionError {
    /// The weights of the population do not form a distribution.
    InvalidWeights(String),
    /// `.0` indices were requested from a population of `.1`.
    OutOfRange(usize, usize),
    /// `.0` indices were requested by rank, above the maximal rank `.1`.
    OutOfRank(usize, usize),
}

/// The algorithm that picks individuals.
#[derive(Copy, Clone, Debug, PartialEq, Eq, Structural)]
pub enum SelectionType {
    /// Uniform sampling without replacement.
    Chance,
    /// The best individuals, up to the given maximal rank.
    Ranking(usize),
    /// Tournaments between pools of the given size.
    Tournament(usize),
    /// Fitness-proportionate sampling without replacement.
    Weight,
}

impl Default for SelectionType {
    fn default() -> (r: Self)
        ensures
            r == SelectionType::Weight,
    {
        SelectionType::Weight
    }
}

/// The fitness of each evaluation, in order.
pub open spec fn fitnesses_of(evaluations: Seq<Evaluation>) -> Seq<Fitness> {
    evaluations.map_values(|e: Evaluation| e.fitness)
}

/// No index occurs twice in `s`.
pub open spec fn distinct(s: Seq<usize>) -> bool {
    forall|i: int, j: int| 0 <= i < s.len() && 0 <= j < s.len() && i != j ==> s[i] != s[j]
}

/// `s` holds `count` distinct indices into a population of `len`.
pub open spec fn is_selection(s: Seq<usize>, len: nat, count: nat) -> bool {
    &&& s.len() == count
    &&& forall|i: int| 0 <= i < s.len() ==> s[i] < len
    &&& distinct(s)
}

/// `s` orders every index of a population of `len`: each once.
pub open spec fn is_arrangement(s: Seq<usize>, len: nat) -> bool {
    &&& is_selection(s, len, len)
    &&& forall|x: usize| x < len ==> s.contains(x)
}

/// The order of ranks: higher fitness first, and on equal fitness the lower
/// index first.
pub open spec fn ranks_before(f: Seq<Fitness>, a: usize, b: usize) -> bool {
    f[a as int] > f[b as int] || (f[a as int] == f[b as int] && a < b)
}

/// `s` lists, best first, the `s.len()` best ranked indices of `f`.
pub open spec fn is_top_ranked(f: Seq<Fitness>, s: Seq<usize>) -> bool {
    &&& is_selection(s, f.len(), s.len())
    &&& forall|p: int, q: int| 0 <= p < q < s.len() ==> ranks_before(f, s[p], s[q])
    &&& forall|x: usize, p: int|
        x < f.len() && !s.contains(x) && 0 <= p < s.len() ==> ranks_before(f, s[p], x)
}

/// `s` with its entries at `i` and `j` exchanged.
pub open spec fn swapped(s: Seq<usize>, i: int, j: int) -> Seq<usize> {
    s.update(i, s[j]).update(j, s[i])
}

pub proof fn lemma_swap_keeps_arrangement(s: Seq<usize>, len: nat, i: int, j: int)
    requires
        is_selection(s, len, s.len()),
        0 <= i < s.len(),
        0 <= j < s.len(),
    ensures
        is_selection(swapped(s, i, j), len, s.len()),
        (forall|x: usize| x < len ==> s.contains(x)) ==> (forall|x: usize|
            x < len ==> swapped(s, i, j).contains(x)),
{
    let t = swapped(s, i, j);
    assert forall|a: int| 0 <= a < t.len() implies t[a] == s[if a == j {
        i
    } else if a == i {
        j
    } else {
        a
    }] by {}
    assert forall|a: int, b: int| 0 <= a < t.len() && 0 <= b < t.len() && a != b implies t[a]
        != t[b] by {
        let pa = if a == j {
            i
        } else if a == i {
            j
        } else {
            a
        };
        let pb = if b == j {
            i
        } else if b == i {
            j
        } else {
            b
        };
        assert(t[a] == s[pa] && t[b] == s[pb]);
    }
    if forall|x: usize| x < len ==> s.contains(x) {
        assert forall|x: usize| x < len implies t.contains(x) by {
            assert(s.contains(x));
            let p = choose|p: int| 0 <= p < s.len() && s[p] == x;
            let q = if p == i {
                j
            } else if p == j {
                i
            } else {
                p
            };
            assert(t[q] == x);
        }
    }
}

/// The indices `0..len` in order.
pub open spec fn index_range(len: nat) -> Seq<usize> {
    Seq::new(len, |i: int| i as usize)
}

/// The arrangement left by swapping, at each step `i`, position `i` with
/// position `positions[i]`.
pub open spec fn partial_shuffle(s: Seq<usize>, positions: Seq<usize>) -> Seq<usize>
    decreases positions.len(),
{
    if positions.len() == 0 {
        s
    } else {
        let n = positions.len() - 1;
        swapped(partial_shuffle(s, positions.take(n)), n, positions[n] as int)
    }
}

/// Each step `i` of `positions` picks a position in `[i, len)`.
pub open spec fn forward_positions(positions: Seq<usize>, len: nat) -> bool {
    forall|i: int| 0 <= i < positions.len() ==> i <= #[trigger] positions[i] < len
}

/// `v` is the first `count` indices of a partial shuffle of `0..len` in
/// `steps` steps, each swapping its rank with a position not yet selected.
pub open spec fn is_shuffled_selection(v: Seq<usize>, len: nat, count: nat, steps: nat) -> bool {
    exists|positions: Seq<usize>|
        positions.len() == steps && forward_positions(positions, len) && v == #[trigger] partial_shuffle(
            index_range(len),
            positions,
        ).take(count as int)
}

pub proof fn lemma_partial_shuffle_step(s: Seq<usize>, positions: Seq<usize>, p: usize)
    ensures
        partial_shuffle(s, positions.push(p)) == swapped(partial_shuffle(s, positions), positions.len() as int, p as int),
{
    assert(positions.push(p).take(positions.len() as int) =~= positions);
}

/// The number of swaps that selecting `count` of `len` indices takes.
pub open spec fn shuffle_steps(count: nat, len: nat) -> nat {
    if count == 0 {
        0
    } else if count < len - 1 {
        count
    } else {
        (len - 1) as nat
    }
}
pub(crate) fn identity(len: usize) -> (r: Vec<usize>)
    ensures
        r@.len() == len,
        forall|i: int| 0 <= i < len ==> r@[i] == i,
        r@ == index_range(len as nat),
        is_arrangement(r@, len as nat),
{
    let mut r: Vec<usize> = Vec::new();
    let mut i: usize = 0;
    while i < len
        invariant
            i <= len,
            r@.len() == i,
            forall|k: int| 0 <= k < i ==> r@[k] == k,
        decreases len - i,
    {
        r.push(i);
        i = i + 1;
    }
    assert forall|x: usize| x < len implies r@.contains(x) by {
        assert(r@[x as int] == x);
    }
    assert(r@ =~= index_range(len as nat));
    r
}

/// Exchanges the entries of `v` at `i` and `j`.
pub(crate) fn swap_entries(v: &mut Vec<usize>, i: usize, j: usize)
    requires
        i < old(v)@.len(),
        j < old(v)@.len(),
    ensures
        final(v)@ == swapped(old(v)@, i as int, j as int),
{
    let a = v[i];
    let b = v[j];
    v.set(i, b);
    v.set(j, a);
}

/// The first `count` entries of `v`.
pub(crate) fn prefix(v: &Vec<usize>, count: usize) -> (r: Vec<usize>)
    requires
        count <= v@.len(),
    ensures
        r@ == v@.take(count as int),
{
    let mut r: Vec<usize> = Vec::new();
    let mut i: usize = 0;
    while i < count
        invariant
            i <= count <= v@.len(),
            r@ == v@.take(i as int),
        decreases count - i,
    {
        r.push(v[i]);
        i = i + 1;
        assert(r@ =~= v@.take(i as int));
    }
    r
}

pub proof fn lemma_prefix_is_selection(s: Seq<usize>, len: nat, count: int)
    requires
        is_selection(s, len, s.len()),
        0 <= count <= s.len(),
    ensures
        is_selection(s.take(count), len, count as nat),
{
}

/// The error that a request for `count` indices of type `t` meets whatever
/// the draws, if any.
pub open spec fn selection_fault(f: Seq<Fitness>, count: nat, t: SelectionType) -> Option<
    SelectionError,
> {
    match t {
        SelectionType::Ranking(m) if count > m => Some(SelectionError::OutOfRank(count as usize, m)),
        _ => if count > f.len() {
            Some(SelectionError::OutOfRange(count as usize, f.len() as usize))
        } else {
            None
        },
    }
}

/// A request for `count` indices of type `t` succeeds whatever the draws.
pub open spec fn selection_owed(f: Seq<Fitness>, count: nat, t: SelectionType) -> bool {
    &&& selection_fault(f, count, t) is None
    &&& t is Weight ==> (count == 0 || f.len() == 1 || (weights_bounded(f) && weights_positive(f)))
}

/// A request by weight for `count` indices fails on the weights whatever the
/// draws.
pub open spec fn weights_fault(f: Seq<Fitness>, count: nat, t: SelectionType) -> bool {
    &&& t is Weight
    &&& 1 <= count <= f.len()
    &&& f.len() >= 2
    &&& (!weights_bounded(f) || some_weight_negative(f) || all_weights_zero(f))
}

/// What a selection of `count` indices of type `t` from a population of
/// fitnesses `f` is: distinct indices in range; by rank, the best ranked, best
/// first; otherwise a partial shuffle of the indices, whose steps a tournament
/// gives to the fittest of each pool, and which a tournament whose pool covers
/// everyone orders by fitness.
pub open spec fn selection_shape(f: Seq<Fitness>, v: Seq<usize>, count: nat, t: SelectionType) -> bool {
    &&& is_selection(v, f.len(), count)
    &&& (t is Ranking ==> is_top_ranked(f, v))
    &&& (!(t is Ranking) ==> is_shuffled_selection(v, f.len(), count, shuffle_steps(count, f.len())))
    &&& (t matches SelectionType::Tournament(p) ==> is_tournament_selection(f, v, count, shuffle_steps(count, f.len()), p))
    &&& (t matches SelectionType::Tournament(p) ==> (p >= f.len() ==> fittest_first(f, v)))
}

/// The indices of a couple, as a selection.
pub open spec fn couple_seq(c: (usize, usize)) -> Seq<usize> {
    seq![c.0, c.1]
}

/// Selects `selection_count` distinct indices with the algorithm of
/// `selection_type`.
pub fn select<R: RngWrapper>(
    evaluations: &[Evaluation],
    selection_count: usize,
    selection_type: SelectionType,
    rng: &mut R,
) -> (r: Result<Vec<usize>, SelectionError>)
    ensures
        r matches Ok(v) ==> selection_shape(fitnesses_of(evaluations@), v@, selection_count as nat, selection_type),
        selection_fault(fitnesses_of(evaluations@), selection_count as nat, selection_type) matches Some(e)
            ==> r == Err::<Vec<usize>, SelectionError>(e),
        selection_owed(fitnesses_of(evaluations@), selection_count as nat, selection_type) ==> r is Ok,
        weights_fault(fitnesses_of(evaluations@), selection_count as nat, selection_type) ==> (r matches Err(e)
            && e is InvalidWeights),
        r matches Err(e) && e is InvalidWeights ==> selection_type is Weight,
        selection_fault(fitnesses_of(evaluations@), selection_count as nat, selection_type) is Some ==> *final(rng)
            == *old(rng),

        selection_count == 0 ==> *final(rng) == *old(rng),
{
    match selection_type {
        SelectionType::Chance => select_by_chance(evaluations, selection_count, rng),
        SelectionType::Ranking(max_rank) => select_by_rank(evaluations, selection_count, max_rank, rng),
        SelectionType::Tournament(pool_size) => select_by_tournament(
            evaluations,
            selection_count,
            pool_size,
            rng,
        ),
        SelectionType::Weight => select_by_weight(evaluations, selection_count, rng),
    }
}

/// Each couple is two distinct indices into a population of `len`.
pub open spec fn are_couples(v: Seq<(usize, usize)>, len: nat) -> bool {
    forall|k: int| 0 <= k < v.len() ==> (#[trigger] v[k]).0 < len && v[k].1 < len && v[k].0 != v[k].1
}

/// Selects `couples_count` couples of parents: each couple comes from one
/// request for two indices of `selection_type`.
pub fn select_couples<R: RngWrapper>(
    evaluations: &[Evaluation],
    couples_count: usize,
    selection_type: SelectionType,
    rng: &mut R,
) -> (r: Result<Vec<(usize, usize)>, SelectionError>)
    ensures
        r matches Ok(v) ==> v@.len() == couples_count && are_couples(v@, evaluations@.len()),
        r matches Ok(v) ==> forall|k: int| 0 <= k < v@.len() ==> selection_shape(
            fitnesses_of(evaluations@),
            couple_seq(#[trigger] v@[k]),
            2,
            selection_type,
        ),
        couples_count > 0 ==> (selection_fault(fitnesses_of(evaluations@), 2, selection_type) matches Some(e)
            ==> r == Err::<Vec<(usize, usize)>, SelectionError>(e)),
        (couples_count == 0 || selection_owed(fitnesses_of(evaluations@), 2, selection_type)) ==> r is Ok,
        couples_count > 0 && weights_fault(fitnesses_of(evaluations@), 2, selection_type) ==> (r matches Err(e)
            && e is InvalidWeights),
        couples_count == 0 || selection_fault(fitnesses_of(evaluations@), 2, selection_type) is Some ==> *final(rng)
            == *old(rng),
{
    let mut couples: Vec<(usize, usize)> = Vec::new();
    let mut k: usize = 0;
    while k < couples_count
        invariant
            k <= couples_count,
            couples@.len() == k,
            are_couples(couples@, evaluations@.len()),
            forall|q: int| 0 <= q < k ==> selection_shape(
                fitnesses_of(evaluations@),
                couple_seq(#[trigger] couples@[q]),
                2,
                selection_type,
            ),
            k == 0 ==> *rng == *old(rng),
            k > 0 ==> selection_fault(fitnesses_of(evaluations@), 2, selection_type) is None,
            k > 0 ==> !weights_fault(fitnesses_of(evaluations@), 2, selection_type),
        decreases couples_count - k,
    {
        match select(evaluations, 2, selection_type, rng) {
            Ok(pair) => {
                proof {
                    assert(pair@ =~= couple_seq((pair@[0], pair@[1])));
                }
                couples.push((pair[0], pair[1]));
            },
            Err(e) => {
                return Err(e);
            },
        }
        k = k + 1;
    }
    Ok(couples)
}

/// Draws couples of parents with a fixed selection type.
pub struct Selector {
    selection: SelectionType,
}

impl Selector {
    pub fn new(selection: SelectionType) -> (r: Self)
        ensures
            r.selection_type() == selection,
    {
        Selector { selection }
    }

    pub closed spec fn selection_type(&self) -> SelectionType {
        self.selection
    }

    /// As many couples as there are evaluations.
    pub fn select_couples<R: RngWrapper>(&self, evaluations: &[Evaluation], rng: &mut R) -> (r:
        Result<Vec<(usize, usize)>, SelectionError>)
        ensures
            r matches Ok(v) ==> v@.len() == evaluations@.len() && are_couples(v@, evaluations@.len()),
            r matches Ok(v) ==> forall|k: int| 0 <= k < v@.len() ==> selection_shape(
                fitnesses_of(evaluations@),
                couple_seq(#[trigger] v@[k]),
                2,
                self.selection_type(),
            ),
            evaluations@.len() > 0 ==> (selection_fault(fitnesses_of(evaluations@), 2, self.selection_type())
                matches Some(e) ==> r == Err::<Vec<(usize, usize)>, SelectionError>(e)),
            (evaluations@.len() == 0 || selection_owed(fitnesses_of(evaluations@), 2, self.selection_type()))
                ==> r is Ok,
    {
        select_couples(evaluations, evaluations.len(), self.selection, rng)
    }
}

} // verus!
