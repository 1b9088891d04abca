use vstd::prelude::*;

use crate::evolution::{GeneticRenewalParam, RATIO_ONE};
use crate::selection::SelectionType;

verus! {

/// The mutation rate of a pool whose parameter gives none (0.01).
pub const DEFAULT_MUTATION_RATE: u32 = 10_000;

/// How one part of a generation is made, resolved for a population size.
#[derive(Copy, Clone, Debug, PartialEq, Eq, Structural)]
pub struct GeneticPool {
    pub count: usize,
    pub mutation_rate: u32,
    pub selection_type: SelectionType,
}

/// `ratio` (in millionths) of `total`, rounded down.
pub open spec fn pool_count(ratio: u32, total: usize) -> int {
    (ratio as int * total as int) / RATIO_ONE as int
}

impl Default for GeneticPool {
    fn default() -> (r: Self)
        ensures
            r.count == 0,
            r.mutation_rate == 0,
            r.selection_type == SelectionType::Weight,
    {
        GeneticPool { count: 0, mutation_rate: 0, selection_type: SelectionType::Weight }
    }
}

impl GeneticPool {
    /// The pool of `params` in a population of `total`: `ratio × total`
    /// individuals, rounded down (and capped at `usize::MAX`).
    pub fn from_params(params: &GeneticRenewalParam, total: usize) -> (r: Self)
        ensures
            r.count == if pool_count(params.ratio, total) > usize::MAX {
                usize::MAX as int
            } else {
                pool_count(params.ratio, total)
            },
            r.mutation_rate == match params.mutation_rate {
                Some(rate) => rate,
                None => DEFAULT_MUTATION_RATE,
            },
            r.selection_type == params.selection_type,
    {
        let ratio = params.ratio as u128;
        let size = total as u128;
        assert(ratio * size <= u32::MAX as int * u64::MAX as int) by (nonlinear_arith)
            requires ratio <= u32::MAX, size <= u64::MAX;
        let count = ratio * size / RATIO_ONE as u128;
        GeneticPool {
            count: if count > usize::MAX as u128 {
                usize::MAX
            } else {
                count as usize
            },
            mutation_rate: match params.mutation_rate {
                Some(rate) => rate,
                None => DEFAULT_MUTATION_RATE,
            },
            selection_type: params.selection_type,
        }
    }

    /// The pool of `params`, or the empty default pool.
    pub fn from_optional_params(params: Option<&GeneticRenewalParam>, total: usize) -> (r: Self)
        ensures
            params matches Some(p) ==> r == GeneticPool::from_params_spec(*p, total),
            params is None ==> r.count == 0 && r.mutation_rate == 0 && r.selection_type
                == SelectionType::Weight,
    {
        match params {
            Some(p) => Self::from_params(p, total),
            None => Self::default(),
        }
    }

    pub open spec fn from_params_spec(params: GeneticRenewalParam, total: usize) -> GeneticPool {
        GeneticPool {
            count: if pool_count(params.ratio, total) > usize::MAX {
                usize::MAX
            } else {
                pool_count(params.ratio, total) as usize
            },
            mutation_rate: match params.mutation_rate {
                Some(rate) => rate,
                None => DEFAULT_MUTATION_RATE,
            },
            selection_type: params.selection_type,
        }
    }
}

} // verus!
