use vstd::prelude::*;

use crate::adaptation::Strategy;
use crate::{Fitness, Genome, FITNESS_ONE};

verus! {

/// Evolves genomes towards a target byte string: the fitness is the share of
/// positions where a genome holds the target's byte.
pub struct MyStrategy {
    target: Genome,
}

/// How many of the first `n` positions hold the same byte in `a` and `b`.
pub open spec fn matching_prefix(a: Seq<u8>, b: Seq<u8>, n: int) -> nat
    decreases n,
{
    if n <= 0 {
        0
    } else {
        matching_prefix(a, b, n - 1) + if a[n - 1] == b[n - 1] {
            1nat
        } else {
            0nat
        }
    }
}

/// How many positions hold the same byte in `a` and `b`.
pub open spec fn matching_bytes(a: Seq<u8>, b: Seq<u8>) -> nat {
    matching_prefix(a, b, if a.len() < b.len() { a.len() as int } else { b.len() as int })
}

proof fn lemma_matching_prefix_bound(a: Seq<u8>, b: Seq<u8>, n: int)
    requires
        n >= 0,
    ensures
        matching_prefix(a, b, n) <= n,
    decreases n,
{
    if n > 0 {
        lemma_matching_prefix_bound(a, b, n - 1);
    }
}

/// The fitness of `genome` against `target`, in millionths, rounded down
/// (0 for an empty target).
pub open spec fn target_fitness(genome: Seq<u8>, target: Seq<u8>) -> Fitness {
    if target.len() == 0 {
        0
    } else {
        (matching_bytes(genome, target) as int * FITNESS_ONE as int / target.len() as int) as Fitness
    }
}

impl MyStrategy {
    pub fn new(target: &[u8]) -> (r: Self)
        ensures
            r.target() == target@,
    {
        let mut bytes: Genome = Vec::new();
        let mut i: usize = 0;
        while i < target.len()
            invariant
                i <= target@.len(),
                bytes@ == target@.take(i as int),
            decreases target@.len() - i,
        {
            bytes.push(target[i]);
            i = i + 1;
            assert(bytes@ =~= target@.take(i as int));
        }
        assert(bytes@ =~= target@);
        MyStrategy { target: bytes }
    }

    /// The byte string to reach.
    pub closed spec fn target(&self) -> Seq<u8> {
        self.target@
    }

    /// The share of positions of `genome` that hold the target's byte.
    pub fn fitness_of(&self, genome: &Genome) -> (r: Fitness)
        ensures
            r == target_fitness(genome@, self.target()),
    {
        let len = self.target.len();
        if len == 0 {
            return 0;
        }
        let n = if genome.len() < len {
            genome.len()
        } else {
            len
        };
        let mut matches: usize = 0;
        let mut i: usize = 0;
        while i < n
            invariant
                n <= genome@.len(),
                n <= self.target@.len(),
                i <= n,
                matches == matching_prefix(genome@, self.target@, i as int),
            decreases n - i,
        {
            proof {
                lemma_matching_prefix_bound(genome@, self.target@, i as int);
            }
            if genome[i] == self.target[i] {
                matches = matches + 1;
            }
            i = i + 1;
        }
        proof {
            lemma_matching_prefix_bound(genome@, self.target@, n as int);
        }
        let share = matches as u128 * FITNESS_ONE as u128 / len as u128;
        assert(share <= FITNESS_ONE) by (nonlinear_arith)
            requires share == matches as int * FITNESS_ONE as int / len as int, matches <= len, len > 0;
        share as Fitness
    }
}

impl Strategy for MyStrategy {
    open spec fn size(&self) -> usize {
        self.target().len() as usize
    }

    open spec fn fitness(&self, genome: Seq<u8>) -> Fitness {
        target_fitness(genome, self.target())
    }

    fn genome_size(&self) -> usize {
        self.target.len()
    }

    fn evaluate(&self, genome: &Genome) -> Fitness {
        self.fitness_of(genome)
    }
}

} // verus!
