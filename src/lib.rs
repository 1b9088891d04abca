//! An evolutionary-computation engine: a population of byte-string genomes is
//! evaluated by a pluggable strategy, then renewed generation after generation
//! through selection, cloning, crossover and mutation.
//!
//! Scores and ratios are fixed-point integers: a fitness is counted in
//! millionths ([`FITNESS_ONE`] stands for 1.0), and so are the ratios and
//! mutation rates of a renewal configuration.
use vstd::prelude::*;

pub mod adaptation;
pub mod evolution;
pub mod selection;
pub mod strategies;
pub mod subject_observer;

verus! {

/// A candidate solution: an ordered sequence of bytes, of one length per run.
pub type Genome = Vec<u8>;

/// A fitness score in millionths: `FITNESS_ONE` stands for 1.0.
pub type Fitness = i64;

/// The fitness that stands for 1.0.
pub const FITNESS_ONE: i64 = 1_000_000;

/// A genome paired with its latest fitness.
#[derive(Debug, Clone, PartialEq)]
pub struct Evaluation {
    pub genome: Genome,
    pub fitness: Fitness,
}

impl Evaluation {
    /// An independent copy of this evaluation.
    pub fn duplicate(&self) -> (r: Evaluation)
        ensures
            r.genome@ == self.genome@,
            r.fitness == self.fitness,
    {
        let genome = self.genome.clone();
        assert(genome@ =~= self.genome@);
        Evaluation { genome, fitness: self.fitness }
    }
}

impl From<Genome> for Evaluation {
    /// A fresh evaluation of `genome`, whose fitness is still zero.
    fn from(genome: Genome) -> (r: Self) {
        Evaluation { genome, fitness: 0 }
    }
}

impl vstd::std_specs::convert::FromSpecImpl<Genome> for Evaluation {
    open spec fn obeys_from_spec() -> bool {
        true
    }

    open spec fn from_spec(genome: Genome) -> Evaluation {
        Evaluation { genome, fitness: 0 }
    }
}

/// Turns a batch of genomes into evaluations whose fitness is zero.
pub trait IntoEvaluations: Sized + View<V = Seq<Genome>> {
    fn into_evaluations(self) -> (r: Vec<Evaluation>)
        ensures
            r@.len() == self@.len(),
            forall|i: int| 0 <= i < r@.len() ==> (#[trigger] r@[i]).genome == self@[i] && r@[i].fitness == 0,
    ;
}

impl IntoEvaluations for Vec<Genome> {
    fn into_evaluations(self) -> (r: Vec<Evaluation>) {
        let mut genomes = self;
        let ghost initial = genomes@;
        let mut r: Vec<Evaluation> = Vec::new();
        while genomes.len() > 0
            invariant
                genomes@.len() + r@.len() == initial.len(),
                genomes@ == initial.skip(r@.len() as int),
                forall|k: int| 0 <= k < r@.len() ==> (#[trigger] r@[k]).genome == initial[k] && r@[k].fitness == 0,
            decreases genomes@.len(),
        {
            let genome = genomes.remove(0);
            r.push(Evaluation::from(genome));
        }
        r
    }
}

} // verus!
