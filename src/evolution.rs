//! The evolution engine, its configuration, status and events.
use vstd::prelude::*;

pub mod evolution_engine;
pub mod genetic_pool;

pub use evolution_engine::EvolutionEngine;

use crate::selection::{SelectionError, SelectionType};
use crate::{Evaluation, Fitness};

verus! {

/// The ratio that stands for 1.0: ratios and mutation rates are counted in
/// millionths.
pub const RATIO_ONE: u32 = 1_000_000;

/// The stage a run has reached. A run goes `New`, `Initializing`, `Running`,
/// then either `Completed`, or `Halting` and `Halted`.
#[derive(Copy, Clone, Debug, PartialEq, Eq, Structural)]
pub enum EvolutionStatus {
    New,
    Initializing,
    Running,
    Halting,
    Halted,
    Completed,
}

impl Default for EvolutionStatus {
    fn default() -> (r: Self)
        ensures
            r == EvolutionStatus::New,
    {
        EvolutionStatus::New
    }
}

/// What the engine tells its observers.
#[derive(Copy, Clone, Debug, PartialEq, Eq, Structural)]
pub enum EventType {
    /// Every genome of the generation has its fitness.
    Evaluated,
    /// A generation starts.
    GenerationCreated,
    /// The run moved to the given status.
    StatusChanged(EvolutionStatus),
}

/// How one part of the next generation is made: its share of the population
/// (`ratio`), the mutation rate of its genomes, and how parents are selected.
#[derive(Copy, Clone, Debug, PartialEq, Eq, Structural)]
pub struct GeneticRenewalParam {
    pub mutation_rate: Option<u32>,
    pub ratio: u32,
    pub selection_type: SelectionType,
}

/// The parts of the next generation made by cloning and by crossover; the
/// rest of the population is drawn at random.
#[derive(Copy, Clone, Debug, PartialEq, Eq, Structural)]
pub struct GenerationRenewalConfig {
    pub cloning: Option<GeneticRenewalParam>,
    pub crossover: Option<GeneticRenewalParam>,
}

/// The settings of a run.
#[derive(Copy, Clone, Debug, PartialEq, Eq, Structural)]
pub struct EvolutionConfig {
    pub population_size: usize,
    pub generation_renewal_config: Option<GenerationRenewalConfig>,
}

/// Why a configuration was refused.
#[derive(Copy, Clone, Debug, PartialEq, Eq, Structural)]
pub enum SettingsError {
    /// The population is empty.
    PopulationSize,
    /// A mutation rate is above 1.0.
    MutationRate,
    /// A ratio is above 1.0.
    Ratio,
    /// Cloning and crossover ratios together reach 1.0.
    ExcessiveRates,
}

/// Why a run failed.
#[derive(Debug, PartialEq)]
pub enum EvolutionError {
    InvalidEvaluation(Fitness),
    InvalidSelection(SelectionError),
    InvalidSettings(SettingsError),
    InvalidStatus(EvolutionStatus),
}

impl From<SelectionError> for EvolutionError {
    fn from(err: SelectionError) -> (r: Self) {
        EvolutionError::InvalidSelection(err)
    }
}

impl vstd::std_specs::convert::FromSpecImpl<SelectionError> for EvolutionError {
    open spec fn obeys_from_spec() -> bool {
        true
    }

    open spec fn from_spec(err: SelectionError) -> EvolutionError {
        EvolutionError::InvalidSelection(err)
    }
}

/// The generation counter and the evaluated population of a run.
#[derive(Debug, Clone, PartialEq)]
pub struct Snapshot {
    pub generation: u64,
    pub evaluations: Vec<Evaluation>,
}

/// Two populations hold the same genomes with the same fitness, in order.
pub open spec fn same_evaluations(a: Seq<Evaluation>, b: Seq<Evaluation>) -> bool {
    &&& a.len() == b.len()
    &&& forall|i: int|
        0 <= i < a.len() ==> (#[trigger] a[i]).genome@ == b[i].genome@ && a[i].fitness == b[i].fitness
}

impl Default for Snapshot {
    fn default() -> (r: Self)
        ensures
            r.generation == 0,
            r.evaluations@.len() == 0,
    {
        Snapshot { generation: 0, evaluations: Vec::new() }
    }
}

impl Snapshot {
    /// An independent copy of this snapshot.
    pub fn duplicate(&self) -> (r: Snapshot)
        ensures
            r.generation == self.generation,
            same_evaluations(r.evaluations@, self.evaluations@),
    {
        let mut evaluations: Vec<Evaluation> = Vec::new();
        let mut i: usize = 0;
        while i < self.evaluations.len()
            invariant
                i <= self.evaluations@.len(),
                evaluations@.len() == i,
                forall|k: int| 0 <= k < i ==> (#[trigger] evaluations@[k]).genome@
                    == self.evaluations@[k].genome@ && evaluations@[k].fitness
                    == self.evaluations@[k].fitness,
            decreases self.evaluations@.len() - i,
        {
            evaluations.push(self.evaluations[i].duplicate());
            i = i + 1;
        }
        Snapshot { generation: self.generation, evaluations }
    }
}

/// A renewal parameter keeps its mutation rate and ratio within 1.0.
pub open spec fn param_fault(p: GeneticRenewalParam) -> Option<SettingsError> {
    if p.mutation_rate matches Some(rate) && rate > RATIO_ONE {
        Some(SettingsError::MutationRate)
    } else if p.ratio > RATIO_ONE {
        Some(SettingsError::Ratio)
    } else {
        None
    }
}

/// Cloning and crossover, when both are given, leave room for random
/// individuals: their ratios sum below 1.0.
pub open spec fn renewal_schema_fault(c: GenerationRenewalConfig) -> Option<SettingsError> {
    if c.cloning matches Some(a) && c.crossover matches Some(b) && a.ratio + b.ratio >= RATIO_ONE {
        Some(SettingsError::ExcessiveRates)
    } else {
        None
    }
}

/// The first fault of a renewal configuration: cloning, then crossover, then
/// the two together.
pub open spec fn renewal_fault(c: GenerationRenewalConfig) -> Option<SettingsError> {
    if c.cloning is Some && param_fault(c.cloning->0) is Some {
        param_fault(c.cloning->0)
    } else if c.crossover is Some && param_fault(c.crossover->0) is Some {
        param_fault(c.crossover->0)
    } else {
        renewal_schema_fault(c)
    }
}

/// The first fault of a configuration, if any.
pub open spec fn settings_fault(config: EvolutionConfig) -> Option<SettingsError> {
    if config.population_size < 1 {
        Some(SettingsError::PopulationSize)
    } else if config.generation_renewal_config is Some {
        renewal_fault(config.generation_renewal_config->0)
    } else {
        None
    }
}

/// `Ok` when `fault` is `None`, else the error it holds.
pub open spec fn as_result(fault: Option<SettingsError>) -> Result<(), SettingsError> {
    match fault {
        Some(e) => Err(e),
        None => Ok(()),
    }
}

fn validate_param(p: &GeneticRenewalParam) -> (r: Result<(), SettingsError>)
    ensures
        r == as_result(param_fault(*p)),
{
    if let Some(rate) = p.mutation_rate {
        if rate > RATIO_ONE {
            return Err(SettingsError::MutationRate);
        }
    }
    if p.ratio > RATIO_ONE {
        return Err(SettingsError::Ratio);
    }
    Ok(())
}

/// Checks that cloning and crossover, when both are given, sum below 1.0.
pub fn validate_generation_renewal_config(config: &GenerationRenewalConfig) -> (r: Result<
    (),
    SettingsError,
>)
    ensures
        r == as_result(renewal_schema_fault(*config)),
{
    if let (Some(cloning), Some(crossover)) = (config.cloning, config.crossover) {
        if cloning.ratio as u64 + crossover.ratio as u64 >= RATIO_ONE as u64 {
            return Err(SettingsError::ExcessiveRates);
        }
    }
    Ok(())
}

impl GenerationRenewalConfig {
    /// Checks each parameter, then the two together.
    pub fn validate(&self) -> (r: Result<(), SettingsError>)
        ensures
            r == as_result(renewal_fault(*self)),
    {
        if let Some(cloning) = &self.cloning {
            let checked = validate_param(cloning);
            if checked.is_err() {
                return checked;
            }
        }
        if let Some(crossover) = &self.crossover {
            let checked = validate_param(crossover);
            if checked.is_err() {
                return checked;
            }
        }
        validate_generation_renewal_config(self)
    }
}

impl EvolutionConfig {
    /// Checks the population size, then the renewal configuration.
    pub fn validate(&self) -> (r: Result<(), SettingsError>)
        ensures
            r == as_result(settings_fault(*self)),
    {
        if self.population_size < 1 {
            return Err(SettingsError::PopulationSize);
        }
        match &self.generation_renewal_config {
            Some(c) => c.validate(),
            None => Ok(()),
        }
    }
}

/// Cloning and crossover ratios that together reach 1.0 fail validation,
/// even when each parameter is valid on its own.
pub proof fn lemma_excessive_rates_refused(
    population_size: usize,
    cloning: GeneticRenewalParam,
    crossover: GeneticRenewalParam,
)
    requires
        population_size >= 1,
        param_fault(cloning) is None,
        param_fault(crossover) is None,
        cloning.ratio + crossover.ratio >= RATIO_ONE,
    ensures
        settings_fault(
            EvolutionConfig {
                population_size,
                generation_renewal_config: Some(
                    GenerationRenewalConfig { cloning: Some(cloning), crossover: Some(crossover) },
                ),
            },
        ) == Some(SettingsError::ExcessiveRates),
{
}

/// A configuration with a single renewal pool, cloning or crossover, passes
/// validation when the pool's ratio and mutation rate stay within 1.0.
pub proof fn lemma_single_pool_accepted(
    population_size: usize,
    param: GeneticRenewalParam,
    as_cloning: bool,
)
    requires
        population_size >= 1,
        param.ratio <= RATIO_ONE,
        param.mutation_rate matches Some(rate) ==> rate <= RATIO_ONE,
    ensures
        settings_fault(
            EvolutionConfig {
                population_size,
                generation_renewal_config: Some(
                    if as_cloning {
                        GenerationRenewalConfig { cloning: Some(param), crossover: None }
                    } else {
                        GenerationRenewalConfig { cloning: None, crossover: Some(param) }
                    },
                ),
            },
        ) is None,
{
}

} // verus!
