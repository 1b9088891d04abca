//! What the engine asks of the problem it solves.
use vstd::prelude::*;

use crate::{Fitness, Genome};

verus! {

/// A problem: the length of its genomes, and the fitness of a genome, which
/// depends on the genome alone.
///
/// The problems of this library define `size` and `fitness`; the defaults
/// serve implementations written outside verified code, which nothing holds
/// to these contracts.
pub trait Strategy {
    /// The genome length of this problem.
    open spec fn size(&self) -> usize {
        0
    }

    /// The fitness this problem gives `genome`.
    open spec fn fitness(&self, genome: Seq<u8>) -> Fitness {
        0
    }

    fn genome_size(&self) -> (r: usize)
        ensures
            r == self.size(),
    ;

    fn evaluate(&self, genome: &Genome) -> (r: Fitness)
        ensures
            r == self.fitness(genome@),
    ;
}

} // verus!
