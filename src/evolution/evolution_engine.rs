use vstd::prelude::*;
use std::rc::Rc;

use crate::adaptation::Strategy;
use crate::evolution::genetic_pool::{pool_count, GeneticPool};
use crate::evolution::{
    renewal_fault, same_evaluations, EventType, EvolutionStatus, GenerationRenewalConfig,
    GeneticRenewalParam, Snapshot, RATIO_ONE,
};
use crate::evolution::{settings_fault, EvolutionConfig, EvolutionError};
use crate::selection::rng_wrapper::RngWrapper;
use crate::selection::{
    are_couples, fitnesses_of, is_selection, select, select_couples, selection_fault, selection_owed,
};
use crate::subject_observer::{is_subsequence, same_handle, Observer, Subject};
use crate::{Evaluation, Fitness, Genome, IntoEvaluations};

verus! {

/// The pools and the count of random individuals of each new generation.
#[derive(Copy, Clone, Debug, PartialEq, Eq, Structural)]
pub struct ExecutionSettings {
    pub cloning_pool: GeneticPool,
    pub crossover_pool: GeneticPool,
    pub randoms_count: usize,
}

/// The pool that `param` resolves to in a population of `total`.
pub open spec fn pool_of(param: Option<GeneticRenewalParam>, total: usize) -> GeneticPool {
    match param {
        Some(p) => GeneticPool::from_params_spec(p, total),
        None => GeneticPool { count: 0, mutation_rate: 0, selection_type: crate::selection::SelectionType::Weight },
    }
}

/// The cloning parameter of an optional renewal configuration.
pub open spec fn cloning_param_of(c: Option<GenerationRenewalConfig>) -> Option<GeneticRenewalParam> {
    match c {
        Some(c) => c.cloning,
        None => None,
    }
}

/// The crossover parameter of an optional renewal configuration.
pub open spec fn crossover_param_of(c: Option<GenerationRenewalConfig>) -> Option<GeneticRenewalParam> {
    match c {
        Some(c) => c.crossover,
        None => None,
    }
}

/// The settings that a renewal configuration resolves to for a population.
pub open spec fn settings_of(c: Option<GenerationRenewalConfig>, population_size: usize) -> ExecutionSettings {
    let cloning_pool = pool_of(cloning_param_of(c), population_size);
    let crossover_pool = pool_of(crossover_param_of(c), population_size);
    ExecutionSettings {
        cloning_pool,
        crossover_pool,
        randoms_count: (population_size - cloning_pool.count - crossover_pool.count) as usize,
    }
}

proof fn lemma_pool_counts_fit(r1: u32, r2: u32, n: usize)
    requires
        r1 + r2 <= RATIO_ONE,
    ensures
        pool_count(r1, n) + pool_count(r2, n) <= n,
{
    let d = RATIO_ONE as int;
    let a = r1 as int * n as int;
    let b = r2 as int * n as int;
    let q1 = a / d;
    let q2 = b / d;
    assert(q1 * d <= a) by (nonlinear_arith)
        requires q1 == a / d, d > 0, a >= 0;
    assert(q2 * d <= b) by (nonlinear_arith)
        requires q2 == b / d, d > 0, b >= 0;
    assert(a + b <= d * n) by (nonlinear_arith)
        requires a == r1 as int * n as int, b == r2 as int * n as int, r1 + r2 <= d, n >= 0;
    assert(q1 + q2 <= n) by (nonlinear_arith)
        requires q1 * d <= a, q2 * d <= b, a + b <= d * n, d > 0;
}

/// The pools of a valid renewal configuration, and the count of random
/// individuals that completes the population.
pub fn resolve_settings(
    generation_renewal_config: Option<&GenerationRenewalConfig>,
    population_size: usize,
) -> (r: ExecutionSettings)
    requires
        generation_renewal_config matches Some(c) ==> renewal_fault(*c) is None,
    ensures
        r == settings_of(
            match generation_renewal_config {
                Some(c) => Some(*c),
                None => None,
            },
            population_size,
        ),
        r.cloning_pool.count + r.crossover_pool.count + r.randoms_count == population_size,
{
    let (cloning, crossover) = match generation_renewal_config {
        Some(c) => (c.cloning, c.crossover),
        None => (None, None),
    };
    let cloning_pool = match &cloning {
        Some(p) => GeneticPool::from_params(p, population_size),
        None => GeneticPool::default(),
    };
    let crossover_pool = match &crossover {
        Some(p) => GeneticPool::from_params(p, population_size),
        None => GeneticPool::default(),
    };
    proof {
        let r1: u32 = match cloning {
            Some(p) => p.ratio,
            None => 0,
        };
        let r2: u32 = match crossover {
            Some(p) => p.ratio,
            None => 0,
        };
        lemma_pool_counts_fit(r1, r2, population_size);
        assert(pool_count(0, population_size) == 0);
    }
    ExecutionSettings {
        cloning_pool,
        crossover_pool,
        randoms_count: population_size - (cloning_pool.count + crossover_pool.count),
    }
}

/// Every genome of `evaluations` is `size` bytes long.
pub open spec fn uniform_genomes(evaluations: Seq<Evaluation>, size: nat) -> bool {
    forall|i: int| 0 <= i < evaluations.len() ==> (#[trigger] evaluations[i]).genome@.len() == size
}

/// The prefix of `a` before `cut` followed by the suffix of `b` from `cut`.
pub open spec fn offspring_of(a: Seq<u8>, b: Seq<u8>, cut: int) -> Seq<u8> {
    let ca = if cut < a.len() { cut } else { a.len() as int };
    let cb = if cut < b.len() { cut } else { b.len() as int };
    a.take(ca) + b.skip(cb)
}

/// The offspring of `parents` cut at `cut`.
pub fn crossover_at(parents: (&Genome, &Genome), cut: usize) -> (r: Genome)
    ensures
        r@ == offspring_of(parents.0@, parents.1@, cut as int),
{
    let (a, b) = parents;
    let mut r: Genome = Vec::new();
    let mut i: usize = 0;
    while i < cut && i < a.len()
        invariant
            i <= a@.len(),
            i <= cut,
            r@ == a@.take(i as int),
        decreases a@.len() - i,
    {
        r.push(a[i]);
        i = i + 1;
        assert(r@ =~= a@.take(i as int));
    }
    let mut j: usize = if cut < b.len() {
        cut
    } else {
        b.len()
    };
    let ghost start = j;
    while j < b.len()
        invariant
            start <= j <= b@.len(),
            r@ == a@.take(i as int) + b@.subrange(start as int, j as int),
        decreases b@.len() - j,
    {
        r.push(b[j]);
        j = j + 1;
        assert(r@ =~= a@.take(i as int) + b@.subrange(start as int, j as int));
    }
    assert(b@.subrange(start as int, j as int) =~= b@.skip(start as int));
    r
}

/// Single-point crossover: a cut drawn in `[0, genome_size)` (no draw when
/// `genome_size` is zero, the cut being 0).
pub fn crossover<R: RngWrapper>(parents: (&Genome, &Genome), genome_size: usize, rng: &mut R) -> (r: Genome)
    ensures
        exists|cut: int|
            (if genome_size == 0 {
                cut == 0
            } else {
                0 <= cut < genome_size
            }) && r@ == offspring_of(parents.0@, parents.1@, cut),
{
    let cut = if genome_size == 0 {
        0
    } else {
        rng.gen_range(0, genome_size)
    };
    crossover_at(parents, cut)
}

/// The gene that a draw `roll` (in millionths) leaves: replaced by `fresh`
/// when below the mutation rate.
pub open spec fn mutated_gene(gene: u8, roll: int, fresh: u8, mutation_rate: u32) -> u8 {
    if roll < mutation_rate {
        fresh
    } else {
        gene
    }
}

/// The byte left by one mutation step on `gene`: `fresh` when the draw
/// `roll` is below the mutation rate, else `gene` itself.
pub fn mutate_gene(gene: u8, roll: usize, fresh: u8, mutation_rate: u32) -> (r: u8)
    ensures
        r == mutated_gene(gene, roll as int, fresh, mutation_rate),
{
    if roll < mutation_rate as usize {
        fresh
    } else {
        gene
    }
}

/// Per-byte mutation: each byte draws a roll in `[0, RATIO_ONE)` and, when
/// the roll is below `mutation_rate`, a fresh random byte replaces it.
pub fn mutate<R: RngWrapper>(genome: &mut Genome, mutation_rate: u32, rng: &mut R)
    ensures
        final(genome)@.len() == old(genome)@.len(),
        mutation_rate == 0 ==> final(genome)@ == old(genome)@,
{
    let ghost initial = genome@;
    let mut i: usize = 0;
    while i < genome.len()
        invariant
            genome@.len() == initial.len(),
            i <= genome@.len(),
            mutation_rate == 0 ==> genome@ == initial,
        decreases genome@.len() - i,
    {
        let roll = rng.gen_range(0, RATIO_ONE as usize);
        if roll < mutation_rate as usize {
            let fresh = rng.gen_range(0, 256) as u8;
            let gene = mutate_gene(genome[i], roll, fresh, mutation_rate);
            genome.set(i, gene);
        }
        i = i + 1;
    }
}

/// `count` genomes of `genome_size` random bytes.
pub fn get_random_genomes_iter<R: RngWrapper>(count: usize, genome_size: usize, rng: &mut R) -> (r: Vec<Genome>)
    ensures
        r@.len() == count,
        forall|i: int| 0 <= i < count ==> (#[trigger] r@[i])@.len() == genome_size,
{
    let mut r: Vec<Genome> = Vec::new();
    let mut i: usize = 0;
    while i < count
        invariant
            i <= count,
            r@.len() == i,
            forall|k: int| 0 <= k < i ==> (#[trigger] r@[k])@.len() == genome_size,
        decreases count - i,
    {
        let mut genome: Genome = Vec::new();
        let mut j: usize = 0;
        while j < genome_size
            invariant
                j <= genome_size,
                genome@.len() == j,
            decreases genome_size - j,
        {
            genome.push(rng.gen_range(0, 256) as u8);
            j = j + 1;
        }
        r.push(genome);
        i = i + 1;
    }
    r
}

/// The fitness that `strategy` gives `genome`.
pub fn run_challenge<T: Strategy>(genome: &Genome, strategy: &T) -> (r: Fitness)
    ensures
        r == strategy.fitness(genome@),
{
    strategy.evaluate(genome)
}

/// The fitness that `strategy` gives each genome of `evaluations`, in order.
pub open spec fn evaluated<T: Strategy>(strategy: &T, evaluations: Seq<Evaluation>) -> Seq<Fitness> {
    Seq::new(evaluations.len(), |i: int| strategy.fitness(evaluations[i].genome@))
}

/// The genomes of `evaluations`, in order.
pub open spec fn genomes_of(evaluations: Seq<Evaluation>) -> Seq<Genome> {
    evaluations.map_values(|e: Evaluation| e.genome)
}

/// The two populations hold the same genomes, in order.
pub open spec fn same_genomes(a: Seq<Evaluation>, b: Seq<Evaluation>) -> bool {
    &&& a.len() == b.len()
    &&& forall|i: int| 0 <= i < a.len() ==> (#[trigger] a[i]).genome@ == b[i].genome@
}

/// Every fitness of `evaluations` is the one `strategy` gives its genome.
pub open spec fn fitnesses_from<T: Strategy>(strategy: &T, evaluations: Seq<Evaluation>) -> bool {
    forall|i: int| 0 <= i < evaluations.len() ==> (#[trigger] evaluations[i]).fitness == strategy.fitness(evaluations[i].genome@)
}

/// The selections that renew a population of fitnesses `f` under `settings`
/// succeed whatever the draws.
pub open spec fn renewal_owed(settings: ExecutionSettings, f: Seq<Fitness>) -> bool {
    &&& (settings.cloning_pool.count == 0 || selection_owed(f, settings.cloning_pool.count as nat, settings.cloning_pool.selection_type))
    &&& (settings.crossover_pool.count == 0 || selection_owed(f, 2, settings.crossover_pool.selection_type))
}

/// The renewal selections of `settings` succeed on every population of `len`
/// individuals, whatever their fitness and the draws.
pub open spec fn renewal_always_owed(settings: ExecutionSettings, len: nat) -> bool {
    forall|f: Seq<Fitness>| f.len() == len ==> #[trigger] renewal_owed(settings, f)
}

/// `v` holds one clone for each of `count` distinct individuals of
/// `evaluations`: as long as its genome, and equal to it when the mutation
/// rate is 0.
pub open spec fn clones_from(v: Seq<Genome>, evaluations: Seq<Evaluation>, count: nat, mutation_rate: u32) -> bool {
    exists|js: Seq<usize>|
        is_selection(js, evaluations.len(), count) && v.len() == count && forall|t: int|
            0 <= t < v.len() ==> (#[trigger] v[t])@.len() == evaluations[js[t] as int].genome@.len() && (
            mutation_rate == 0 ==> v[t]@ == evaluations[js[t] as int].genome@)
}

/// `g` is the prefix of one genome of `evaluations` followed by the suffix
/// of another, cut below `genome_size` (at 0 when it is 0).
pub open spec fn is_crossover_child(g: Seq<u8>, evaluations: Seq<Evaluation>, genome_size: usize) -> bool {
    exists|a: int, b: int, cut: int|
        0 <= a < evaluations.len() && 0 <= b < evaluations.len() && a != b && (if genome_size == 0 {
            cut == 0
        } else {
            0 <= cut < genome_size
        }) && g == #[trigger] offspring_of(evaluations[a].genome@, evaluations[b].genome@, cut)
}

/// `v` holds `count` offspring of `evaluations`, each a crossover child when
/// the mutation rate is 0.
pub open spec fn offspring_from(
    v: Seq<Genome>,
    evaluations: Seq<Evaluation>,
    count: nat,
    genome_size: usize,
    mutation_rate: u32,
) -> bool {
    &&& v.len() == count
    &&& mutation_rate == 0 ==> forall|t: int| 0 <= t < v.len() ==> is_crossover_child((#[trigger] v[t])@, evaluations, genome_size)
}

/// `v` is the next generation of `evaluations` under `settings`: clones,
/// then offspring, then `randoms_count` genomes of `genome_size` bytes.
pub open spec fn renewed_from(v: Seq<Genome>, evaluations: Seq<Evaluation>, settings: ExecutionSettings, genome_size: usize) -> bool {
    exists|c: Seq<Genome>, o: Seq<Genome>, q: Seq<Genome>|
        v == c + o + q && clones_from(c, evaluations, settings.cloning_pool.count as nat, settings.cloning_pool.mutation_rate)
            && offspring_from(o, evaluations, settings.crossover_pool.count as nat, genome_size, settings.crossover_pool.mutation_rate)
            && q.len() == settings.randoms_count && forall|i: int| 0 <= i < q.len() ==> (#[trigger] q[i])@.len() == genome_size
}

/// Without a renewal configuration, every individual of a new generation is
/// drawn at random.
pub proof fn lemma_no_renewal_all_random(population_size: usize)
    ensures
        settings_of(None, population_size).randoms_count == population_size,
{
}

/// Without a renewal configuration no selection runs, so the renewal of any
/// population succeeds.
pub proof fn lemma_no_renewal_always_owed(population_size: usize, len: nat)
    ensures
        renewal_always_owed(settings_of(None, population_size), len),
{
    assert forall|f: Seq<Fitness>| f.len() == len implies #[trigger] renewal_owed(settings_of(None, population_size), f) by {}
}

/// A mutation rate of 0 keeps every byte; a rate of 1.0 replaces every byte
/// with its freshly drawn value, whatever the roll.
pub proof fn lemma_mutation_extremes(gene: u8, roll: int, fresh: u8)
    requires
        0 <= roll < RATIO_ONE,
    ensures
        mutated_gene(gene, roll, fresh, 0) == gene,
        mutated_gene(gene, roll, fresh, RATIO_ONE) == fresh,
{
}

/// A copy of `genome`.
fn copy_genome(genome: &Genome) -> (r: Genome)
    ensures
        r@ == genome@,
{
    let r = genome.clone();
    assert(r@ =~= genome@);
    r
}

/// Writes `fitnesses` into `evaluations`, in order.
fn write_fitnesses(evaluations: &mut Vec<Evaluation>, fitnesses: &Vec<Fitness>)
    requires
        fitnesses@.len() == old(evaluations)@.len(),
    ensures
        final(evaluations)@.len() == old(evaluations)@.len(),
        forall|i: int| 0 <= i < fitnesses@.len() ==> (#[trigger] final(evaluations)@[i]).genome
            == old(evaluations)@[i].genome && final(evaluations)@[i].fitness == fitnesses@[i],
{
    let ghost initial = evaluations@;
    let mut i: usize = 0;
    while i < fitnesses.len()
        invariant
            fitnesses@.len() == initial.len() == evaluations@.len(),
            i <= fitnesses@.len(),
            forall|k: int| 0 <= k < evaluations@.len() ==> (#[trigger] evaluations@[k]).genome == initial[k].genome,
            forall|k: int| 0 <= k < i ==> (#[trigger] evaluations@[k]).fitness == fitnesses@[k],
        decreases fitnesses@.len() - i,
    {
        evaluations[i].fitness = fitnesses[i];
        i = i + 1;
    }
}

/// Appends the genomes of `more` to `all`.
fn append_genomes(all: &mut Vec<Genome>, more: Vec<Genome>)
    ensures
        final(all)@ == old(all)@ + more@,
{
    let mut rest = more;
    let ghost start = all@;
    let ghost initial = rest@;
    while rest.len() > 0
        invariant
            all@ + rest@ == start + initial,
        decreases rest@.len(),
    {
        let g = rest.remove(0);
        let ghost before = all@;
        all.push(g);
        assert(all@ + rest@ =~= before + seq![g] + rest@);
        assert(before + seq![g] + rest@ =~= before + (seq![g] + rest@));
    }
    assert(all@ =~= start + initial);
}

/// One `GenerationCreated` and one `Evaluated` event for each of `n`
/// generations.
pub open spec fn generation_events(n: nat) -> Seq<EventType>
    decreases n,
{
    if n == 0 {
        Seq::empty()
    } else {
        generation_events((n - 1) as nat) + seq![EventType::GenerationCreated, EventType::Evaluated]
    }
}

/// The generation a run starts from: that of `snapshot`, else 0.
pub open spec fn first_generation(snapshot: Option<Snapshot>) -> u64 {
    match snapshot {
        Some(s) => s.generation,
        None => 0,
    }
}

/// The evaluations of `snapshot`, if any.
pub open spec fn given_evaluations(snapshot: Option<Snapshot>) -> Seq<Evaluation> {
    match snapshot {
        Some(s) => s.evaluations@,
        None => Seq::empty(),
    }
}

/// `is_complete` may refuse generation `g` for some fitnesses.
pub open spec fn rejects<F: Fn(u64, &[Fitness]) -> bool>(is_complete: F, g: u64) -> bool {
    exists|f: &[Fitness]| is_complete.ensures((g, f), false)
}

/// `is_complete` accepts generation `g` whatever the fitnesses.
pub open spec fn accepts<F: Fn(u64, &[Fitness]) -> bool>(is_complete: F, g: u64) -> bool {
    forall|f: &[Fitness], b: bool| is_complete.ensures((g, f), b) ==> b
}

/// The events of a run that stopped after `n` generations, started from a
/// fresh engine: the two status changes of its start, a pair of events per
/// generation, and the status changes that ended it (`Completed`, or
/// `Halting` then `Halted`).
pub open spec fn run_events(n: nat, completed: bool) -> Seq<EventType> {
    seq![
        EventType::StatusChanged(EvolutionStatus::Initializing),
        EventType::StatusChanged(EvolutionStatus::Running),
    ] + generation_events(n) + if completed {
        seq![EventType::StatusChanged(EvolutionStatus::Completed)]
    } else {
        seq![
            EventType::StatusChanged(EvolutionStatus::Halting),
            EventType::StatusChanged(EvolutionStatus::Halted),
        ]
    }
}

/// Runs generations of a population: owns the snapshot and the run status,
/// and notifies its observers (shared handles of type `O`) of each event.
pub struct EvolutionEngine<O: ?Sized> {
    observers: Vec<Rc<O>>,
    snapshot: Snapshot,
    status: EvolutionStatus,
    genome_size: usize,
    settings: ExecutionSettings,
    events: Ghost<Seq<EventType>>,
}

impl<O: ?Sized> EvolutionEngine<O> {
    /// The status of the run.
    pub closed spec fn status(&self) -> EvolutionStatus {
        self.status
    }

    /// The live snapshot of the run.
    pub closed spec fn population(&self) -> Snapshot {
        self.snapshot
    }

    /// Every event sent to the observers so far, in order.
    pub closed spec fn events(&self) -> Seq<EventType> {
        self.events@
    }

    /// The registered observer handles, in order.
    pub closed spec fn observers(&self) -> Seq<Rc<O>> {
        self.observers@
    }

    /// The settings and genome size that the run resolved.
    pub closed spec fn run_settings(&self) -> ExecutionSettings {
        self.settings
    }

    pub closed spec fn run_genome_size(&self) -> usize {
        self.genome_size
    }

    /// Everything but the events is as in `other`.
    pub closed spec fn same_run(&self, other: &Self) -> bool {
        &&& self.observers == other.observers
        &&& self.snapshot == other.snapshot
        &&& self.status == other.status
        &&& self.genome_size == other.genome_size
        &&& self.settings == other.settings
    }

    /// A fresh engine: status `New`, an empty snapshot, no observer.
    pub fn new() -> (r: Self)
        ensures
            r.status() == EvolutionStatus::New,
            r.population().generation == 0,
            r.population().evaluations@.len() == 0,
            r.events().len() == 0,
            r.observers().len() == 0,
    {
        Self::from_snapshot(Snapshot::default())
    }

    /// A fresh engine holding `snapshot`.
    pub fn from_snapshot(snapshot: Snapshot) -> (r: Self)
        ensures
            r.status() == EvolutionStatus::New,
            r.population() == snapshot,
            r.events().len() == 0,
            r.observers().len() == 0,
    {
        EvolutionEngine {
            observers: Vec::new(),
            snapshot,
            status: EvolutionStatus::New,
            genome_size: 0,
            settings: ExecutionSettings {
                cloning_pool: GeneticPool::default(),
                crossover_pool: GeneticPool::default(),
                randoms_count: 0,
            },
            events: Ghost(Seq::empty()),
        }
    }

    /// The status of the run.
    pub fn current_status(&self) -> (r: EvolutionStatus)
        ensures
            r == self.status(),
    {
        self.status
    }

    /// An independent copy of the snapshot.
    pub fn snapshot(&self) -> (r: Snapshot)
        ensures
            r.generation == self.population().generation,
            same_evaluations(r.evaluations@, self.population().evaluations@),
    {
        self.snapshot.duplicate()
    }
}

impl<O: ?Sized> Default for EvolutionEngine<O> {
    fn default() -> (r: Self)
        ensures
            r.status() == EvolutionStatus::New,
            r.population().generation == 0,
            r.population().evaluations@.len() == 0,
            r.events().len() == 0,
            r.observers().len() == 0,
    {
        Self::new()
    }
}

impl<O: ?Sized + Observer<Snapshot, EventType>> EvolutionEngine<O> {
    /// Sends `event` to every observer, in registration order.
    fn fire(&mut self, event: EventType)
        ensures
            final(self).same_run(old(self)),
            final(self).events() == old(self).events().push(event),
    {
        let mut i: usize = 0;
        while i < self.observers.len()
            invariant
                i <= self.observers@.len(),
            decreases self.observers@.len() - i,
        {
            self.observers[i].update(&self.snapshot, event);
            i = i + 1;
        }
        self.events = Ghost(self.events@.push(event));
    }

    /// Moves to `new_status` when it differs from the current status and the
    /// current status is `required` (if given); the observers hear of it.
    fn transition(&mut self, new_status: EvolutionStatus, required: Option<EvolutionStatus>) -> (r: bool)
        ensures
            r == (old(self).status() != new_status && (required matches Some(s) ==> old(self).status() == s)),
            r ==> final(self).status() == new_status && final(self).events() == old(self).events().push(
                EventType::StatusChanged(new_status),
            ),
            !r ==> *final(self) == *old(self),
            final(self).population() == old(self).population(),
            final(self).observers() == old(self).observers(),
            final(self).run_settings() == old(self).run_settings(),
            final(self).run_genome_size() == old(self).run_genome_size(),
    {
        let allowed = match required {
            Some(s) => self.status == s,
            None => true,
        };
        if self.status != new_status && allowed {
            self.status = new_status;
            self.fire(EventType::StatusChanged(new_status));
            true
        } else {
            false
        }
    }

    /// Moves to `new_status` when it differs from the current status and
    /// `additional_check` (if given) accepts the current status; the
    /// observers hear of it.
    pub fn change_status<F: Fn(EvolutionStatus) -> bool>(
        &mut self,
        new_status: EvolutionStatus,
        additional_check: Option<&F>,
    ) -> (r: bool)
        requires
            additional_check matches Some(f) ==> f.requires((old(self).status(),)),
        ensures
            old(self).status() == new_status ==> !r,
            old(self).status() != new_status && additional_check is None ==> r,
            r ==> (additional_check matches Some(f) ==> f.ensures((old(self).status(),), true)),
            !r && old(self).status() != new_status ==> (additional_check matches Some(f) ==> f.ensures(
                (old(self).status(),),
                false,
            )),
            r ==> final(self).status() == new_status && final(self).events() == old(self).events().push(
                EventType::StatusChanged(new_status),
            ),
            !r ==> *final(self) == *old(self),
            final(self).population() == old(self).population(),
    {
        if self.status == new_status {
            return false;
        }
        let allowed = match additional_check {
            Some(check) => check(self.status),
            None => true,
        };
        if allowed {
            self.status = new_status;
            self.fire(EventType::StatusChanged(new_status));
            true
        } else {
            false
        }
    }

    /// Asks a running evolution to stop at the next generation boundary.
    pub fn halt(&mut self) -> (r: bool)
        ensures
            r == (old(self).status() == EvolutionStatus::Running),
            r ==> final(self).status() == EvolutionStatus::Halting && final(self).events() == old(
                self,
            ).events().push(EventType::StatusChanged(EvolutionStatus::Halting)),
            !r ==> *final(self) == *old(self),
            final(self).population() == old(self).population(),
    {
        self.transition(EvolutionStatus::Halting, Some(EvolutionStatus::Running))
    }
}

impl<O: ?Sized + Observer<Snapshot, EventType>> EvolutionEngine<O> {
    /// Validates `config`, then, from status `New` only, moves to
    /// `Initializing`, resolves the settings, takes `snapshot` or seeds a
    /// random population, and moves to `Running`.
    pub fn initialize<T: Strategy, R: RngWrapper>(
        &mut self,
        strategy: &T,
        config: &EvolutionConfig,
        rng: &mut R,
        snapshot: Option<Snapshot>,
    ) -> (r: Result<(), EvolutionError>)
        ensures
            settings_fault(*config) matches Some(e) ==> r == Err::<(), EvolutionError>(
                EvolutionError::InvalidSettings(e),
            ),
            settings_fault(*config) is None && old(self).status() != EvolutionStatus::New ==> r
                == Err::<(), EvolutionError>(EvolutionError::InvalidStatus(old(self).status())),
            r is Err ==> *final(self) == *old(self),
            settings_fault(*config) is None && old(self).status() == EvolutionStatus::New ==> r is Ok,
            r is Ok ==> final(self).status() == EvolutionStatus::Running && final(self).events() == old(
                self,
            ).events() + seq![
                EventType::StatusChanged(EvolutionStatus::Initializing),
                EventType::StatusChanged(EvolutionStatus::Running),
            ] && final(self).run_settings() == settings_of(
                config.generation_renewal_config,
                config.population_size,
            ) && final(self).observers() == old(self).observers(),
            r is Ok ==> final(self).run_genome_size() == strategy.size() && final(self).run_settings().cloning_pool.count
                + final(self).run_settings().crossover_pool.count + final(self).run_settings().randoms_count
                == config.population_size,
            r is Ok ==> (snapshot matches Some(s) ==> final(self).population() == s),
            r is Ok && snapshot is None ==> final(self).population().generation == 0
                && final(self).population().evaluations@.len() == config.population_size
                && uniform_genomes(final(self).population().evaluations@, final(self).run_genome_size() as nat),
    {
        match config.validate() {
            Ok(()) => {},
            Err(e) => {
                return Err(EvolutionError::InvalidSettings(e));
            },
        }
        if !self.transition(EvolutionStatus::Initializing, Some(EvolutionStatus::New)) {
            return Err(EvolutionError::InvalidStatus(self.status));
        }
        let renewal = match &config.generation_renewal_config {
            Some(c) => Some(c),
            None => None,
        };
        self.settings = resolve_settings(renewal, config.population_size);
        self.genome_size = strategy.genome_size();
        self.snapshot = match snapshot {
            Some(s) => s,
            None => {
                let genomes = get_random_genomes_iter(config.population_size, self.genome_size, rng);
                let evaluations = genomes.into_evaluations();
                Snapshot { generation: 0, evaluations }
            },
        };
        let ghost before = self.events@;
        self.transition(EvolutionStatus::Running, None);
        proof {
            assert(self.events@ =~= before.push(EventType::StatusChanged(EvolutionStatus::Running)));
        }
        Ok(())
    }

    /// One generation. At a halt request it stops here (`Halted`) and keeps
    /// the snapshot. Otherwise it announces the generation, evaluates every
    /// genome, and either completes (when `is_complete` accepts the
    /// generation and its fitnesses) or replaces the population with the next
    /// generation. Returns whether the run is over. A run whose generation
    /// counter is exhausted asks itself to halt.
    pub fn run_generation<T: Strategy, F: Fn(u64, &[Fitness]) -> bool, R: RngWrapper>(
        &mut self,
        strategy: &T,
        is_complete: &F,
        rng: &mut R,
    ) -> (r: Result<bool, EvolutionError>)
        requires
            old(self).status() == EvolutionStatus::Running || old(self).status() == EvolutionStatus::Halting,
            forall|g: u64, f: &[Fitness]| is_complete.requires((g, f)),
        ensures
            final(self).observers() == old(self).observers(),
            final(self).run_settings() == old(self).run_settings(),
            final(self).run_genome_size() == old(self).run_genome_size(),
            old(self).status() == EvolutionStatus::Halting ==> r == Ok::<bool, EvolutionError>(true)
                && final(self).status() == EvolutionStatus::Halted && final(self).events() == old(
                self,
            ).events().push(EventType::StatusChanged(EvolutionStatus::Halted)) && final(self).population()
                == old(self).population(),
            old(self).status() == EvolutionStatus::Running && r == Ok::<bool, EvolutionError>(true)
                ==> final(self).status() == EvolutionStatus::Completed && final(self).events() == old(
                self,
            ).events() + seq![
                EventType::GenerationCreated,
                EventType::Evaluated,
                EventType::StatusChanged(EvolutionStatus::Completed),
            ] && final(self).population().generation == old(self).population().generation
                && same_genomes(final(self).population().evaluations@, old(self).population().evaluations@)
                && fitnesses_from(strategy, final(self).population().evaluations@)
                && (exists|f: &[Fitness]| f@ == fitnesses_of(final(self).population().evaluations@)
                && is_complete.ensures((final(self).population().generation, f), true)),
            old(self).status() == EvolutionStatus::Running && r == Ok::<bool, EvolutionError>(false)
                ==> (final(self).status() == EvolutionStatus::Running && final(self).events() == old(
                self,
            ).events() + seq![EventType::GenerationCreated, EventType::Evaluated]
                && final(self).population().generation == old(self).population().generation + 1
                && final(self).population().evaluations@.len() == old(self).run_settings().cloning_pool.count
                + old(self).run_settings().crossover_pool.count + old(self).run_settings().randoms_count)
                || (final(self).status() == EvolutionStatus::Halting && old(self).population().generation == u64::MAX
                && same_genomes(final(self).population().evaluations@, old(self).population().evaluations@)
                && final(self).events() == old(self).events() + seq![
                EventType::GenerationCreated,
                EventType::Evaluated,
                EventType::StatusChanged(EvolutionStatus::Halting),
            ] && final(self).population().generation == old(self).population().generation),
            old(self).status() == EvolutionStatus::Running && !(r == Ok::<bool, EvolutionError>(true))
                ==> exists|f: &[Fitness]| f@ == evaluated(strategy, old(self).population().evaluations@)
                && is_complete.ensures((old(self).population().generation, f), false),
            r matches Err(e) ==> e is InvalidSelection && final(self).status() == EvolutionStatus::Running
                && !renewal_owed(old(self).run_settings(), evaluated(strategy, old(self).population().evaluations@)),
            old(self).status() == EvolutionStatus::Running && renewal_owed(
                old(self).run_settings(),
                evaluated(strategy, old(self).population().evaluations@),
            ) ==> r is Ok,
            r is Ok && uniform_genomes(old(self).population().evaluations@, old(self).run_genome_size() as nat)
                ==> uniform_genomes(final(self).population().evaluations@, old(self).run_genome_size() as nat),
            old(self).status() == EvolutionStatus::Running && r == Ok::<bool, EvolutionError>(false) && final(self).status()
                == EvolutionStatus::Running ==> exists|evaluated_population: Seq<Evaluation>|
                same_genomes(evaluated_population, old(self).population().evaluations@) && fitnesses_from(strategy, evaluated_population)
                && renewed_from(
                genomes_of(final(self).population().evaluations@),
                evaluated_population,
                old(self).run_settings(),
                old(self).run_genome_size(),
            ),
    {
        if self.transition(EvolutionStatus::Halted, Some(EvolutionStatus::Halting)) {
            return Ok(true);
        }
        let ghost start = self.events@;
        let ghost population = self.snapshot.evaluations@;
        self.fire(EventType::GenerationCreated);
        let count = self.snapshot.evaluations.len();
        let mut fitnesses: Vec<Fitness> = Vec::new();
        let mut i: usize = 0;
        while i < count
            invariant
                self.snapshot.evaluations@ == population,
                count == population.len(),
                i <= count,
                fitnesses@.len() == i,
                forall|k: int| 0 <= k < i ==> fitnesses@[k] == evaluated(strategy, population)[k],
            decreases count - i,
        {
            fitnesses.push(run_challenge(&self.snapshot.evaluations[i].genome, strategy));
            i = i + 1;
        }
        write_fitnesses(&mut self.snapshot.evaluations, &fitnesses);
        proof {
            assert(fitnesses@ =~= evaluated(strategy, population));
            assert(fitnesses_of(self.snapshot.evaluations@) =~= fitnesses@);
            assert forall|k: int| 0 <= k < population.len() implies (#[trigger] self.snapshot.evaluations@[k]).genome@
                == population[k].genome@ by {}
        }
        self.fire(EventType::Evaluated);
        let generation = self.snapshot.generation;
        let scores = fitnesses.as_slice();
        if is_complete(generation, scores) {
            self.transition(EvolutionStatus::Completed, None);
            proof {
                assert(self.events@ =~= start + seq![
                    EventType::GenerationCreated,
                    EventType::Evaluated,
                    EventType::StatusChanged(EvolutionStatus::Completed),
                ]);
            }
            return Ok(true);
        }
        if generation == u64::MAX {
            self.transition(EvolutionStatus::Halting, None);
            proof {
                assert(self.events@ =~= start + seq![
                    EventType::GenerationCreated,
                    EventType::Evaluated,
                    EventType::StatusChanged(EvolutionStatus::Halting),
                ]);
            }
            return Ok(false);
        }
        let genome_size = self.genome_size;
        let settings = self.settings;
        let genomes = match self.get_new_generation(genome_size, &settings, rng) {
            Ok(v) => v,
            Err(e) => {
                return Err(e);
            },
        };
        proof {
            if uniform_genomes(population, genome_size as nat) {
                assert(uniform_genomes(self.snapshot.evaluations@, genome_size as nat));
            }
        }
        let ghost scored = self.snapshot.evaluations@;
        let ghost next = genomes@;
        self.snapshot.evaluations = genomes.into_evaluations();
        self.snapshot.generation = generation + 1;
        proof {
            assert(genomes_of(self.snapshot.evaluations@) =~= next);
            assert(same_genomes(scored, population));
            assert(fitnesses_from(strategy, scored));
        }
        proof {
            assert(self.events@ =~= start + seq![EventType::GenerationCreated, EventType::Evaluated]);
        }
        Ok(false)
    }

    /// Runs an evolution from a random population of `config.population_size`
    /// genomes until `is_complete` accepts a generation and its fitnesses.
    pub fn start<T: Strategy, F: Fn(u64, &[Fitness]) -> bool, R: RngWrapper>(
        &mut self,
        strategy: &T,
        config: &EvolutionConfig,
        is_complete: F,
        rng: &mut R,
    ) -> (r: Result<Snapshot, EvolutionError>)
        requires
            forall|g: u64, f: &[Fitness]| is_complete.requires((g, f)),
        ensures
            settings_fault(*config) matches Some(e) ==> r == Err::<Snapshot, EvolutionError>(
                EvolutionError::InvalidSettings(e),
            ),
            settings_fault(*config) is None && old(self).status() != EvolutionStatus::New ==> r
                == Err::<Snapshot, EvolutionError>(EvolutionError::InvalidStatus(old(self).status())),
            r matches Err(e) && !(e is InvalidSelection) ==> *final(self) == *old(self),
            r matches Ok(snap) ==> snap.generation == final(self).population().generation
                && same_evaluations(snap.evaluations@, final(self).population().evaluations@),
            r is Ok ==> {
                let n = (final(self).population().generation + 1) as nat;
                (final(self).status() == EvolutionStatus::Completed && final(self).events() == old(
                    self,
                ).events() + run_events(n, true)) || (final(self).status() == EvolutionStatus::Halted
                    && final(self).population().generation == u64::MAX && final(self).events() == old(
                    self,
                ).events() + run_events(n, false))
            },
            r is Ok && final(self).status() == EvolutionStatus::Completed ==> exists|f: &[Fitness]|
                f@ == fitnesses_of(final(self).population().evaluations@) && is_complete.ensures(
                    (final(self).population().generation, f),
                    true,
                ),
            r is Ok ==> forall|g: u64| g < final(self).population().generation
                ==> #[trigger] rejects(is_complete, g),
            r is Ok && final(self).status() == EvolutionStatus::Completed ==> fitnesses_from(
                strategy,
                final(self).population().evaluations@,
            ),
            r is Ok ==> final(self).population().evaluations@.len() == config.population_size,
            r is Ok ==> uniform_genomes(final(self).population().evaluations@, strategy.size() as nat),
            settings_fault(*config) is None && old(self).status() == EvolutionStatus::New && renewal_always_owed(
                settings_of(config.generation_renewal_config, config.population_size),
                config.population_size as nat,
            ) ==> r is Ok,
            settings_fault(*config) is None && old(self).status() == EvolutionStatus::New
                && config.generation_renewal_config is None ==> r is Ok,
            settings_fault(*config) is None && old(self).status() == EvolutionStatus::New && accepts(
                is_complete,
                0,
            ) ==> r is Ok && final(self).population().generation == 0,
            final(self).observers() == old(self).observers(),
    {
        self.run(strategy, config, is_complete, rng, None)
    }

    /// Runs an evolution from `snapshot` (a halted run, say) until
    /// `is_complete` accepts a generation and its fitnesses.
    pub fn start_from<T: Strategy, F: Fn(u64, &[Fitness]) -> bool, R: RngWrapper>(
        &mut self,
        strategy: &T,
        config: &EvolutionConfig,
        is_complete: F,
        rng: &mut R,
        snapshot: Snapshot,
    ) -> (r: Result<Snapshot, EvolutionError>)
        requires
            forall|g: u64, f: &[Fitness]| is_complete.requires((g, f)),
        ensures
            settings_fault(*config) matches Some(e) ==> r == Err::<Snapshot, EvolutionError>(
                EvolutionError::InvalidSettings(e),
            ),
            settings_fault(*config) is None && old(self).status() != EvolutionStatus::New ==> r
                == Err::<Snapshot, EvolutionError>(EvolutionError::InvalidStatus(old(self).status())),
            r matches Err(e) && !(e is InvalidSelection) ==> *final(self) == *old(self),
            r matches Ok(snap) ==> snap.generation == final(self).population().generation
                && same_evaluations(snap.evaluations@, final(self).population().evaluations@),
            r is Ok ==> final(self).population().generation >= snapshot.generation,
            r is Ok ==> {
                let g0 = snapshot.generation;
                let n = (final(self).population().generation - g0 + 1) as nat;
                (final(self).status() == EvolutionStatus::Completed && final(self).events() == old(
                    self,
                ).events() + run_events(n, true)) || (final(self).status() == EvolutionStatus::Halted
                    && final(self).population().generation == u64::MAX && final(self).events() == old(
                    self,
                ).events() + run_events(n, false))
            },
            r is Ok && final(self).status() == EvolutionStatus::Completed ==> exists|f: &[Fitness]|
                f@ == fitnesses_of(final(self).population().evaluations@) && is_complete.ensures(
                    (final(self).population().generation, f),
                    true,
                ),
            r is Ok ==> forall|g: u64| snapshot.generation <= g < final(self).population().generation
                ==> #[trigger] rejects(is_complete, g),
            r is Ok && final(self).status() == EvolutionStatus::Completed ==> fitnesses_from(
                strategy,
                final(self).population().evaluations@,
            ),
            r is Ok && (final(self).population().generation > snapshot.generation)
                ==> final(self).population().evaluations@.len() == config.population_size,
            r is Ok && final(self).population().generation == snapshot.generation
                ==> same_genomes(final(self).population().evaluations@, snapshot.evaluations@),
            r is Ok && uniform_genomes(snapshot.evaluations@, strategy.size() as nat)
                ==> uniform_genomes(final(self).population().evaluations@, strategy.size() as nat),
            settings_fault(*config) is None && old(self).status() == EvolutionStatus::New && renewal_always_owed(
                settings_of(config.generation_renewal_config, config.population_size),
                config.population_size as nat,
            ) && (renewal_always_owed(
                settings_of(config.generation_renewal_config, config.population_size),
                snapshot.evaluations@.len(),
            )) ==> r is Ok,
            settings_fault(*config) is None && old(self).status() == EvolutionStatus::New
                && config.generation_renewal_config is None ==> r is Ok,
            settings_fault(*config) is None && old(self).status() == EvolutionStatus::New && accepts(
                is_complete,
                snapshot.generation,
            ) ==> r is Ok && final(self).population().generation == snapshot.generation,
            final(self).observers() == old(self).observers(),
    {
        self.run(strategy, config, is_complete, rng, Some(snapshot))
    }

    /// Runs an evolution until `is_complete` accepts a generation: from a
    /// random population, or from `snapshot` when one is given.
    fn run<T: Strategy, F: Fn(u64, &[Fitness]) -> bool, R: RngWrapper>(
        &mut self,
        strategy: &T,
        config: &EvolutionConfig,
        is_complete: F,
        rng: &mut R,
        snapshot: Option<Snapshot>,
    ) -> (r: Result<Snapshot, EvolutionError>)
        requires
            forall|g: u64, f: &[Fitness]| is_complete.requires((g, f)),
        ensures
            settings_fault(*config) matches Some(e) ==> r == Err::<Snapshot, EvolutionError>(
                EvolutionError::InvalidSettings(e),
            ),
            settings_fault(*config) is None && old(self).status() != EvolutionStatus::New ==> r
                == Err::<Snapshot, EvolutionError>(EvolutionError::InvalidStatus(old(self).status())),
            r matches Err(e) && !(e is InvalidSelection) ==> *final(self) == *old(self),
            r matches Ok(snap) ==> snap.generation == final(self).population().generation
                && same_evaluations(snap.evaluations@, final(self).population().evaluations@),
            r is Ok ==> final(self).population().generation >= first_generation(snapshot),
            r is Ok ==> {
                let g0 = first_generation(snapshot);
                let n = (final(self).population().generation - g0 + 1) as nat;
                (final(self).status() == EvolutionStatus::Completed && final(self).events() == old(
                    self,
                ).events() + run_events(n, true)) || (final(self).status() == EvolutionStatus::Halted
                    && final(self).population().generation == u64::MAX && final(self).events() == old(
                    self,
                ).events() + run_events(n, false))
            },
            r is Ok && final(self).status() == EvolutionStatus::Completed ==> exists|f: &[Fitness]|
                f@ == fitnesses_of(final(self).population().evaluations@) && is_complete.ensures(
                    (final(self).population().generation, f),
                    true,
                ),
            r is Ok ==> forall|g: u64| first_generation(snapshot) <= g < final(self).population().generation
                ==> #[trigger] rejects(is_complete, g),
            r is Ok && final(self).status() == EvolutionStatus::Completed ==> fitnesses_from(
                strategy,
                final(self).population().evaluations@,
            ),
            r is Ok && (final(self).population().generation > first_generation(snapshot) || snapshot is None)
                ==> final(self).population().evaluations@.len() == config.population_size,
            r is Ok && final(self).population().generation == first_generation(snapshot) && snapshot is Some
                ==> same_genomes(final(self).population().evaluations@, given_evaluations(snapshot)),
            r is Ok && (snapshot is Some ==> uniform_genomes(given_evaluations(snapshot), strategy.size() as nat))
                ==> uniform_genomes(final(self).population().evaluations@, strategy.size() as nat),
            settings_fault(*config) is None && old(self).status() == EvolutionStatus::New && renewal_always_owed(
                settings_of(config.generation_renewal_config, config.population_size),
                config.population_size as nat,
            ) && (snapshot is Some ==> renewal_always_owed(
                settings_of(config.generation_renewal_config, config.population_size),
                given_evaluations(snapshot).len(),
            )) ==> r is Ok,
            settings_fault(*config) is None && old(self).status() == EvolutionStatus::New
                && config.generation_renewal_config is None ==> r is Ok,
            settings_fault(*config) is None && old(self).status() == EvolutionStatus::New && accepts(
                is_complete,
                first_generation(snapshot),
            ) ==> r is Ok && final(self).population().generation == first_generation(snapshot),
            final(self).observers() == old(self).observers(),
    {
        proof {
            if config.generation_renewal_config is None {
                lemma_no_renewal_always_owed(config.population_size, config.population_size as nat);
                lemma_no_renewal_always_owed(config.population_size, given_evaluations(snapshot).len());
            }
        }
        let ghost first = first_generation(snapshot);
        let ghost resumed = snapshot is Some;
        let ghost given = given_evaluations(snapshot);
        let ghost before = self.events@;
        let ghost settings = settings_of(config.generation_renewal_config, config.population_size);
        let ghost owed = renewal_always_owed(settings, config.population_size as nat) && (resumed
            ==> renewal_always_owed(settings, given.len()));
        match self.initialize(strategy, config, rng, snapshot) {
            Ok(()) => {},
            Err(e) => {
                return Err(e);
            },
        }
        let ghost initial = self.snapshot.evaluations@;
        proof {
            if !resumed {
                assert(initial.len() == config.population_size);
            } else {
                assert(initial == given);
            }
        }
        let ghost base = before + seq![
            EventType::StatusChanged(EvolutionStatus::Initializing),
            EventType::StatusChanged(EvolutionStatus::Running),
        ];
        proof {
            assert(self.events@ =~= base + generation_events(0));
        }
        let mut finished = false;
        while !finished
            invariant
                forall|g: u64, f: &[Fitness]| is_complete.requires((g, f)),
                settings_fault(*config) is None,
                old(self).status() == EvolutionStatus::New,
                self.observers@ == old(self).observers@,
                self.snapshot.generation >= first,
                !finished ==> (self.status == EvolutionStatus::Running && self.events@ == base
                    + generation_events((self.snapshot.generation - first) as nat)) || (self.status
                    == EvolutionStatus::Halting && self.snapshot.generation == u64::MAX && self.events@
                    == base + generation_events((self.snapshot.generation - first + 1) as nat) + seq![
                    EventType::StatusChanged(EvolutionStatus::Halting)]),
                finished ==> (self.status == EvolutionStatus::Completed && self.events@ == base
                    + generation_events((self.snapshot.generation - first + 1) as nat) + seq![
                    EventType::StatusChanged(EvolutionStatus::Completed)] && (exists|f: &[Fitness]|
                    f@ == fitnesses_of(self.snapshot.evaluations@) && is_complete.ensures(
                        (self.snapshot.generation, f),
                        true,
                    ))) || (self.status == EvolutionStatus::Halted && self.snapshot.generation
                    == u64::MAX && self.events@ == base + generation_events((self.snapshot.generation - first + 1) as nat)
                    + seq![
                    EventType::StatusChanged(EvolutionStatus::Halting),
                    EventType::StatusChanged(EvolutionStatus::Halted)]),
                self.settings == settings,
                settings == settings_of(config.generation_renewal_config, config.population_size),
                owed == (renewal_always_owed(settings, config.population_size as nat) && (resumed
                    ==> renewal_always_owed(settings, given.len()))),
                first == first_generation(snapshot),
                resumed == snapshot is Some,
                given == given_evaluations(snapshot),
                self.settings.cloning_pool.count + self.settings.crossover_pool.count + self.settings.randoms_count
                    == config.population_size,
                self.genome_size == strategy.size(),
                resumed ==> initial == given,
                !resumed ==> initial.len() == config.population_size,
                !resumed ==> uniform_genomes(initial, strategy.size() as nat),
                self.snapshot.generation == first ==> same_genomes(self.snapshot.evaluations@, initial),
                self.snapshot.generation > first ==> self.snapshot.evaluations@.len() == config.population_size,
                uniform_genomes(initial, strategy.size() as nat) ==> uniform_genomes(self.snapshot.evaluations@, strategy.size() as nat),
                forall|h: u64| first <= h < self.snapshot.generation ==> #[trigger] rejects(is_complete, h),
                finished && self.status == EvolutionStatus::Completed ==> fitnesses_from(strategy, self.snapshot.evaluations@),
            decreases (if finished {
                0
            } else if self.status == EvolutionStatus::Running {
                2 * (u64::MAX - self.snapshot.generation) + 2
            } else {
                1
            }),
        {
            let ghost g = self.snapshot.generation;
            let ghost e = self.events@;
            let ghost population = self.snapshot.evaluations@;
            let ghost was_running = self.status == EvolutionStatus::Running;
            match self.run_generation(strategy, &is_complete, rng) {
                Ok(done) => {
                    finished = done;
                },
                Err(e) => {
                    proof {
                        let f = choose|f: &[Fitness]| f@ == evaluated(strategy, population) && is_complete.ensures((g, f), false);
                        assert(rejects(is_complete, g));
                        if g > first {
                            assert(rejects(is_complete, first));
                            let f0 = choose|f0: &[Fitness]| is_complete.ensures((first, f0), false);
                        }
                        if owed {
                            assert(evaluated(strategy, population).len() == population.len());
                            if g == first {
                                assert(population.len() == initial.len());
                            }
                            assert(population.len() == config.population_size || (resumed && population.len() == given.len()));
                            assert(renewal_always_owed(settings, population.len()));
                            let fs = evaluated(strategy, population);
                            assert(fs.len() == population.len());
                            assert(renewal_owed(settings, fs));
                        }
                    }
                    return Err(e);
                },
            }
            proof {
                if was_running && !finished {
                    let f = choose|f: &[Fitness]| f@ == evaluated(strategy, population) && is_complete.ensures((g, f), false);
                    assert(rejects(is_complete, g));
                }
                assert forall|h: u64| first <= h < self.snapshot.generation implies #[trigger] rejects(is_complete, h) by {
                    if h == g {
                        let f = choose|f: &[Fitness]| f@ == evaluated(strategy, population) && is_complete.ensures((g, f), false);
                    }
                }
                if self.snapshot.generation == first {
                    assert forall|k: int| 0 <= k < initial.len() implies (#[trigger] self.snapshot.evaluations@[k]).genome@ == initial[k].genome@ by {
                        assert(self.snapshot.evaluations@[k].genome@ == population[k].genome@);
                    }
                }

                let n = (g - first) as nat;
                assert(generation_events(n + 1) == generation_events(n) + seq![
                    EventType::GenerationCreated,
                    EventType::Evaluated,
                ]);
                if self.status == EvolutionStatus::Running {
                    assert(self.events@ =~= base + generation_events(n + 1));
                } else if self.status == EvolutionStatus::Completed {
                    assert(self.events@ =~= base + generation_events(n + 1) + seq![
                        EventType::StatusChanged(EvolutionStatus::Completed)]);
                } else if self.status == EvolutionStatus::Halting {
                    assert(self.events@ =~= base + generation_events(n + 1) + seq![
                        EventType::StatusChanged(EvolutionStatus::Halting)]);
                } else {
                    assert(self.events@ =~= base + generation_events(n + 1) + seq![
                        EventType::StatusChanged(EvolutionStatus::Halting),
                        EventType::StatusChanged(EvolutionStatus::Halted)]);
                }
            }
        }
        proof {
            let n = (self.snapshot.generation - first + 1) as nat;
            if self.status == EvolutionStatus::Completed {
                assert(self.events@ =~= before + run_events(n, true));
            } else {
                assert(self.events@ =~= before + run_events(n, false));
            }
            if accepts(is_complete, first) && self.snapshot.generation > first {
                assert(rejects(is_complete, first));
                let f0 = choose|f0: &[Fitness]| is_complete.ensures((first, f0), false);
            }
        }
        Ok(self.snapshot.duplicate())
    }

    /// `pool.count` clones of individuals selected with the pool's type, each
    /// mutated at the pool's rate when that rate is positive.
    pub fn get_clones<R: RngWrapper>(&self, pool: &GeneticPool, rng: &mut R) -> (r: Result<Vec<Genome>, EvolutionError>)
        ensures
            r matches Ok(v) ==> v@.len() == pool.count,
            r matches Ok(v) ==> forall|n: nat| uniform_genomes(self.population().evaluations@, n) ==> forall|k: int|
                0 <= k < v@.len() ==> (#[trigger] v@[k])@.len() == n,
            r matches Ok(v) ==> clones_from(v@, self.population().evaluations@, pool.count as nat, pool.mutation_rate),
            pool.count > 0 ==> (selection_fault(fitnesses_of(self.population().evaluations@), pool.count as nat, pool.selection_type)
                matches Some(e) ==> r == Err::<Vec<Genome>, EvolutionError>(EvolutionError::InvalidSelection(e))),
            pool.count == 0 || selection_owed(fitnesses_of(self.population().evaluations@), pool.count as nat, pool.selection_type)
                ==> r is Ok,
            r matches Err(e) ==> e is InvalidSelection,
            pool.count == 0 ==> *final(rng) == *old(rng),
    {
        if pool.count == 0 {
            let none: Vec<Genome> = Vec::new();
            proof {
                let js = Seq::<usize>::empty();
                assert(is_selection(js, self.snapshot.evaluations@.len(), 0));
                assert(clones_from(none@, self.snapshot.evaluations@, 0, pool.mutation_rate));
            }
            return Ok(none);
        }
        let evaluations = self.snapshot.evaluations.as_slice();
        let selected = match select(evaluations, pool.count, pool.selection_type, rng) {
            Ok(v) => v,
            Err(e) => {
                return Err(EvolutionError::InvalidSelection(e));
            },
        };
        let ghost pop = self.snapshot.evaluations@;
        let mut clones: Vec<Genome> = Vec::new();
        let mut k: usize = 0;
        while k < selected.len()
            invariant
                pop == self.snapshot.evaluations@,
                is_selection(selected@, pop.len(), pool.count as nat),
                k <= selected@.len(),
                clones@.len() == k,
                forall|n: nat| uniform_genomes(pop, n) ==> forall|q: int| 0 <= q < k ==> (#[trigger] clones@[q])@.len() == n,
                forall|q: int| 0 <= q < k ==> (#[trigger] clones@[q])@.len() == pop[selected@[q] as int].genome@.len() && (
                    pool.mutation_rate == 0 ==> clones@[q]@ == pop[selected@[q] as int].genome@),
            decreases selected@.len() - k,
        {
            let index = selected[k];
            let mut genome = copy_genome(&self.snapshot.evaluations[index].genome);
            if pool.mutation_rate > 0 {
                mutate(&mut genome, pool.mutation_rate, rng);
            }
            proof {
                assert(genome@.len() == pop[index as int].genome@.len());
            }
            clones.push(genome);
            proof {
                assert forall|n: nat| uniform_genomes(pop, n) implies forall|q: int| 0 <= q < k + 1 ==> (#[trigger] clones@[q])@.len() == n by {
                    assert(pop[index as int].genome@.len() == n);
                }

            }
            k = k + 1;
        }
        proof {
            assert(clones_from(clones@, pop, pool.count as nat, pool.mutation_rate));
        }
        Ok(clones)
    }

    /// `pool.count` offspring: couples of parents selected with the pool's
    /// type, crossed over, each mutated at the pool's rate when positive.
    pub fn get_offsprings<R: RngWrapper>(&self, genome_size: usize, pool: &GeneticPool, rng: &mut R) -> (r: Result<Vec<Genome>, EvolutionError>)
        ensures
            r matches Ok(v) ==> v@.len() == pool.count,
            r matches Ok(v) ==> (uniform_genomes(self.population().evaluations@, genome_size as nat) ==> forall|k: int|
                0 <= k < v@.len() ==> (#[trigger] v@[k])@.len() == genome_size),
            r matches Ok(v) ==> offspring_from(v@, self.population().evaluations@, pool.count as nat, genome_size, pool.mutation_rate),
            pool.count > 0 ==> (selection_fault(fitnesses_of(self.population().evaluations@), 2, pool.selection_type)
                matches Some(e) ==> r == Err::<Vec<Genome>, EvolutionError>(EvolutionError::InvalidSelection(e))),
            pool.count == 0 || selection_owed(fitnesses_of(self.population().evaluations@), 2, pool.selection_type)
                ==> r is Ok,
            r matches Err(e) ==> e is InvalidSelection,
            pool.count == 0 ==> *final(rng) == *old(rng),
    {
        if pool.count == 0 {
            return Ok(Vec::new());
        }
        let evaluations = self.snapshot.evaluations.as_slice();
        let couples = match select_couples(evaluations, pool.count, pool.selection_type, rng) {
            Ok(v) => v,
            Err(e) => {
                return Err(EvolutionError::InvalidSelection(e));
            },
        };
        let ghost pop = self.snapshot.evaluations@;
        let mut offsprings: Vec<Genome> = Vec::new();
        let mut k: usize = 0;
        while k < couples.len()
            invariant
                pop == self.snapshot.evaluations@,
                couples@.len() == pool.count,
                are_couples(couples@, pop.len()),
                k <= couples@.len(),
                offsprings@.len() == k,
                uniform_genomes(pop, genome_size as nat) ==> forall|q: int| 0 <= q < k ==> (#[trigger] offsprings@[q])@.len() == genome_size,
                pool.mutation_rate == 0 ==> forall|q: int| 0 <= q < k ==> is_crossover_child((#[trigger] offsprings@[q])@, pop, genome_size),
            decreases couples@.len() - k,
        {
            let (p1, p2) = couples[k];
            let mut offspring = crossover(
                (&self.snapshot.evaluations[p1].genome, &self.snapshot.evaluations[p2].genome),
                genome_size,
                rng,
            );
            proof {
                let cut = choose|cut: int| (if genome_size == 0 { cut == 0 } else { 0 <= cut < genome_size })
                    && offspring@ == offspring_of(pop[p1 as int].genome@, pop[p2 as int].genome@, cut);
                assert(offspring@ == offspring_of(pop[p1 as int].genome@, pop[p2 as int].genome@, cut));
                assert(is_crossover_child(offspring@, pop, genome_size));
            }
            if pool.mutation_rate > 0 {
                mutate(&mut offspring, pool.mutation_rate, rng);
            }
            proof {
                if uniform_genomes(pop, genome_size as nat) {
                    assert(pop[p1 as int].genome@.len() == genome_size);
                    assert(pop[p2 as int].genome@.len() == genome_size);
                    let cut = choose|cut: int| (if genome_size == 0 { cut == 0 } else { 0 <= cut < genome_size })
                        && #[trigger] offspring_of(pop[p1 as int].genome@, pop[p2 as int].genome@, cut) == offspring@;
                }
            }
            offsprings.push(offspring);
            k = k + 1;
        }
        Ok(offsprings)
    }

    /// The next generation: clones, then offspring, then random genomes.
    pub fn get_new_generation<R: RngWrapper>(&self, genome_size: usize, settings: &ExecutionSettings, rng: &mut R) -> (r: Result<Vec<Genome>, EvolutionError>)
        ensures
            r matches Ok(v) ==> v@.len() == settings.cloning_pool.count + settings.crossover_pool.count + settings.randoms_count,
            r matches Ok(v) ==> (uniform_genomes(self.population().evaluations@, genome_size as nat) ==> forall|k: int|
                0 <= k < v@.len() ==> (#[trigger] v@[k])@.len() == genome_size),
            (settings.cloning_pool.count == 0 || selection_owed(fitnesses_of(self.population().evaluations@), settings.cloning_pool.count as nat, settings.cloning_pool.selection_type))
                && (settings.crossover_pool.count == 0 || selection_owed(fitnesses_of(self.population().evaluations@), 2, settings.crossover_pool.selection_type))
                ==> r is Ok,
            r matches Ok(v) ==> renewed_from(v@, self.population().evaluations@, *settings, genome_size),
            r matches Err(e) ==> e is InvalidSelection,
    {
        let clones = match self.get_clones(&settings.cloning_pool, rng) {
            Ok(v) => v,
            Err(e) => {
                return Err(e);
            },
        };
        let offsprings = match self.get_offsprings(genome_size, &settings.crossover_pool, rng) {
            Ok(v) => v,
            Err(e) => {
                return Err(e);
            },
        };
        let randoms = get_random_genomes_iter(settings.randoms_count, genome_size, rng);
        let mut all: Vec<Genome> = Vec::new();
        let ghost (c, o, q) = (clones@, offsprings@, randoms@);
        append_genomes(&mut all, clones);
        append_genomes(&mut all, offsprings);
        append_genomes(&mut all, randoms);
        proof {
            assert(all@ =~= Seq::<Genome>::empty() + c + o + q);
            assert(all@ =~= c + o + q);
            assert(renewed_from(all@, self.population().evaluations@, *settings, genome_size));
            if uniform_genomes(self.population().evaluations@, genome_size as nat) {
                assert forall|k: int| 0 <= k < all@.len() implies (#[trigger] all@[k])@.len() == genome_size by {
                    if k < c.len() {
                        assert(all@[k] == c[k]);
                    } else if k < c.len() + o.len() {
                        assert(all@[k] == o[k - c.len()]);
                    } else {
                        assert(all@[k] == q[k - c.len() - o.len()]);
                    }
                }
            }
        }
        Ok(all)
    }
}

impl<O: ?Sized + Observer<Snapshot, EventType>> Subject<O, EventType> for EvolutionEngine<O> {
    open spec fn handles(&self) -> Seq<Rc<O>> {
        self.observers()
    }

    open spec fn notified(&self) -> Seq<EventType> {
        self.events()
    }

    open spec fn keeps_state_of(&self, other: &Self) -> bool {
        &&& self.population() == other.population()
        &&& self.status() == other.status()
        &&& self.run_settings() == other.run_settings()
        &&& self.run_genome_size() == other.run_genome_size()
    }

    fn register_observer(&mut self, observer: Rc<O>) {
        self.observers.push(observer);
    }

    fn unregister_observer(&mut self, observer: Rc<O>) {
        let ghost initial = self.observers@;
        let ghost mut idx = Seq::<int>::empty();
        let mut kept: Vec<Rc<O>> = Vec::new();
        let mut i: usize = 0;
        while i < self.observers.len()
            invariant
                self.observers@ == initial,
                self.events@ == old(self).events@,
                self.snapshot == old(self).snapshot,
                self.status == old(self).status,
                self.settings == old(self).settings,
                self.genome_size == old(self).genome_size,
                i <= initial.len(),
                idx.len() == kept@.len(),
                forall|k: int| 0 <= k < idx.len() ==> 0 <= #[trigger] idx[k] < i && kept@[k] == initial[idx[k]],
                forall|k: int, l: int| 0 <= k < l < idx.len() ==> idx[k] < idx[l],
                forall|k: int| 0 <= k < i && initial[k] != observer ==> kept@.contains(#[trigger] initial[k]),
            decreases initial.len() - i,
        {
            let candidate = &self.observers[i];
            if !same_handle(candidate, &observer) {
                let ghost before = kept@;
                kept.push(candidate.clone());
                proof {
                    idx = idx.push(i as int);
                    assert forall|k: int| 0 <= k < i + 1 && initial[k] != observer implies kept@.contains(#[trigger] initial[k]) by {
                        if k == i {
                            assert(kept@[kept@.len() - 1] == initial[k]);
                        } else {
                            let m = choose|m: int| 0 <= m < before.len() && before[m] == initial[k];
                            assert(kept@[m] == initial[k]);
                        }
                    }
                }
            }
            i = i + 1;
        }
        self.observers = kept;
        proof {
            assert(is_subsequence(self.observers@, initial));
        }
    }

    fn notify_observers(&mut self, event: EventType) {
        self.fire(event);
    }
}

} // verus!
