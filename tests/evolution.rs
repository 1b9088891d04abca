use std::cell::{Cell, RefCell};
use std::rc::Rc;

use genetic::adaptation::Strategy;
use genetic::evolution::evolution_engine::{
    crossover, crossover_at, get_random_genomes_iter, mutate, resolve_settings, run_challenge,
};
use genetic::evolution::genetic_pool::{GeneticPool, DEFAULT_MUTATION_RATE};
use genetic::evolution::{
    validate_generation_renewal_config, EventType, EvolutionConfig, EvolutionEngine, EvolutionError,
    EvolutionStatus, GenerationRenewalConfig, GeneticRenewalParam, SettingsError, Snapshot,
};
use genetic::selection::rng_wrapper::{Random, RngWrapper, WeightedDistribution};
use genetic::selection::{SelectionError, SelectionType};
use genetic::subject_observer::{Observer, Subject};
use genetic::{Evaluation, Fitness, Genome, IntoEvaluations};
use rand::rngs::StdRng;
use rand::seq::SliceRandom;
use rand::{Rng, SeedableRng};

type Engine = EvolutionEngine<dyn Observer<Snapshot, EventType>>;

fn get_seeded_rng() -> StdRng {
    StdRng::seed_from_u64(0x5eed)
}

/// A source of randomness that replays a script, cycling through it.
struct RngTest {
    samples: Vec<usize>,
    index: usize,
}

impl RngWrapper for RngTest {
    fn gen_range(&mut self, _low: usize, _high: usize) -> usize {
        let result = self.samples[self.index];
        self.index = (self.index + 1) % self.samples.len();
        result
    }

    fn sample_from_distribution(&mut self, _distribution: &WeightedDistribution) -> usize {
        self.gen_range(0, 0)
    }
}

/// A strategy that gives every genome one fitness and counts its calls.
struct TestStrategy {
    genome_size: usize,
    fitness: Fitness,
    calls: Cell<usize>,
}

impl Strategy for TestStrategy {
    fn genome_size(&self) -> usize {
        self.genome_size
    }

    fn evaluate(&self, _genome: &Genome) -> Fitness {
        self.calls.set(self.calls.get() + 1);
        self.fitness
    }
}

/// An observer that records the events it hears.
struct TestObserver {
    events: RefCell<Vec<EventType>>,
}

impl Observer<Snapshot, EventType> for TestObserver {
    fn update(&self, _source: &Snapshot, event: EventType) {
        self.events.borrow_mut().push(event);
    }
}

fn observed_engine() -> (Engine, Rc<TestObserver>) {
    let mut engine = Engine::default();
    let observer = Rc::new(TestObserver { events: RefCell::new(vec![]) });
    let shared: Rc<dyn Observer<Snapshot, EventType>> = observer.clone();
    engine.register_observer(shared);
    (engine, observer)
}

const ALL_STATUSES: [EvolutionStatus; 6] = [
    EvolutionStatus::New,
    EvolutionStatus::Initializing,
    EvolutionStatus::Running,
    EvolutionStatus::Halting,
    EvolutionStatus::Halted,
    EvolutionStatus::Completed,
];

fn param(ratio: u32, selection_type: SelectionType) -> GeneticRenewalParam {
    GeneticRenewalParam { mutation_rate: None, ratio, selection_type }
}

fn three_evaluations(genome_size: usize, rng: &mut StdRng) -> Vec<Evaluation> {
    [500_000, 200_000, 800_000]
        .iter()
        .map(|&fitness| Evaluation {
            fitness,
            genome: (0..genome_size).map(|_| rng.gen()).collect(),
        })
        .collect()
}

#[test]
fn lib_test_from() {
    let genome = vec![3];
    let result = Evaluation::from(genome.clone());

    assert_eq!(Evaluation { genome, fitness: 0 }, result);
}

#[test]
fn test_to_evaluations() {
    let mut rng = get_seeded_rng();
    let size = rng.gen_range(0usize..10);
    let genomes: Vec<Genome> = (0..size).map(|_| vec![rng.gen()]).collect();

    let result: Vec<Evaluation> = genomes.clone().into_evaluations();

    assert_eq!(result.len(), genomes.len());
    let result_states = result.iter().map(|e| e.genome.clone()).collect::<Vec<_>>();
    assert_eq!(result_states, genomes);
    assert!(result.iter().map(|e| e.fitness).all(|x| x == 0));
}

#[test]
fn test_snapshot_default() {
    let result = Snapshot::default();

    assert_eq!(Snapshot { evaluations: vec![], generation: 0 }, result);
}

#[test]
fn test_validate_generation_renewal_config() {
    let wrong_config = GenerationRenewalConfig {
        cloning: Some(param(510_000, SelectionType::Chance)),
        crossover: Some(param(510_000, SelectionType::Chance)),
    };

    let result = validate_generation_renewal_config(&wrong_config);

    assert!(matches!(result, Err(_)), "Should return err when cumulated ratios are greater than 1.0");

    let right_config = GenerationRenewalConfig { cloning: None, crossover: None };

    let result = validate_generation_renewal_config(&right_config);

    assert!(matches!(result, Ok(())), "Should return Ok for valid config");
}

#[test]
fn config_validation_names_each_fault() {
    let config = |population_size, renewal| EvolutionConfig { population_size, generation_renewal_config: renewal };
    assert_eq!(Err(SettingsError::PopulationSize), config(0, None).validate());
    assert_eq!(Ok(()), config(1, None).validate());
    let rate = GeneticRenewalParam { mutation_rate: Some(1_000_001), ratio: 0, selection_type: SelectionType::Weight };
    assert_eq!(
        Err(SettingsError::MutationRate),
        config(4, Some(GenerationRenewalConfig { cloning: Some(rate), crossover: None })).validate()
    );
    assert_eq!(
        Err(SettingsError::Ratio),
        config(4, Some(GenerationRenewalConfig { cloning: None, crossover: Some(param(2_000_000, SelectionType::Chance)) }))
            .validate()
    );
    assert_eq!(
        Err(SettingsError::ExcessiveRates),
        config(
            4,
            Some(GenerationRenewalConfig {
                cloning: Some(param(510_000, SelectionType::Chance)),
                crossover: Some(param(510_000, SelectionType::Chance)),
            })
        )
        .validate()
    );
    assert_eq!(
        Ok(()),
        config(4, Some(GenerationRenewalConfig { cloning: Some(param(1_000_000, SelectionType::Chance)), crossover: None }))
            .validate()
    );
    assert_eq!(
        Ok(()),
        config(4, Some(GenerationRenewalConfig { cloning: None, crossover: Some(param(1_000_000, SelectionType::Weight)) }))
            .validate()
    );
}

#[test]
fn test_genetic_pool_from_param_should_use_default_rate_when_required() {
    let params = param(100_000, SelectionType::Chance);

    let result = GeneticPool::from_params(&params, 10);

    assert_eq!(DEFAULT_MUTATION_RATE, result.mutation_rate);
}

#[test]
fn test_genetic_pool_from_param_should_return_valid_count() {
    let total = 10;
    let params = param(100_000, SelectionType::Chance);

    let result = GeneticPool::from_params(&params, total);

    assert_eq!(1, result.count);
}

#[test]
fn test_genetic_pool_from_param_should_use_param_selection_type() {
    let params = param(100_000, SelectionType::Chance);

    let result = GeneticPool::from_params(&params, 10);

    assert_eq!(params.selection_type, result.selection_type);
}

#[test]
fn test_genetic_pool_from_optional_param_should_return_valid_pool_when_some() {
    let total = 10;
    let params = GeneticRenewalParam { mutation_rate: Some(100_000), ratio: 5_000_000, selection_type: SelectionType::Ranking(8) };

    let result = GeneticPool::from_optional_params(Some(&params), total);

    assert_eq!(GeneticPool::from_params(&params, total), result);
    assert_eq!(50, result.count);
}

#[test]
fn test_genetic_pool_from_optional_param_should_return_default_when_none() {
    let result = GeneticPool::from_optional_params(None, 10);

    assert_eq!(GeneticPool::default(), result);
}

#[test]
fn test_resolve_settings() {
    let config = GenerationRenewalConfig { cloning: Some(param(500_000, SelectionType::Chance)), crossover: None };

    let result = resolve_settings(Some(&config), 64);

    assert_eq!(32, result.randoms_count)
}

#[test]
fn resolve_settings_without_renewal_is_all_random() {
    let result = resolve_settings(None, 64);
    assert_eq!(64, result.randoms_count);
    assert_eq!(0, result.cloning_pool.count);
    assert_eq!(0, result.crossover_pool.count);
}

#[test]
fn test_evolution_engine_snapshot_should_be_defaulted_before_run() {
    let engine = Engine::default();

    let result = engine.snapshot();

    assert_eq!(Snapshot::default(), result);
}

#[test]
fn test_evolution_engine_halt() {
    let mut rng = get_seeded_rng();
    let (mut engine, observer) = observed_engine();
    let not_running = *ALL_STATUSES
        .iter()
        .filter(|s| **s != EvolutionStatus::Running)
        .cloned()
        .collect::<Vec<_>>()
        .choose(&mut rng)
        .unwrap();

    engine.change_status::<fn(EvolutionStatus) -> bool>(not_running, None);
    let heard = observer.events.borrow().len();
    let result = engine.halt();
    assert!(!result, "Should not halt when not running");
    assert_eq!(heard, observer.events.borrow().len());

    engine.change_status::<fn(EvolutionStatus) -> bool>(EvolutionStatus::Running, None);
    let result = engine.halt();
    assert!(result, "Should halt when running");
    assert_eq!(EvolutionStatus::Halting, engine.current_status(), "Should set state to Halting");
}

#[test]
fn test_evolution_engine_change_status() {
    let mut rng = get_seeded_rng();
    let (mut engine, observer) = observed_engine();
    let statuses: Vec<EvolutionStatus> = ALL_STATUSES.choose_multiple(&mut rng, 3).cloned().collect();

    engine.change_status::<fn(EvolutionStatus) -> bool>(statuses[0], None);
    let base = observer.events.borrow().len();
    let result = engine.change_status::<fn(EvolutionStatus) -> bool>(statuses[0], None);
    assert!(!result, "Should not change the status when it's the same");

    let result = engine.change_status::<fn(EvolutionStatus) -> bool>(statuses[1], None);
    assert!(result, "Should change the status when it's not the same");

    let result = engine.change_status(statuses[0], Some(&|s| s != statuses[1]));
    assert!(!result, "Should not change the status when additional check fails");

    let result = engine.change_status(statuses[0], Some(&|s| s == statuses[1]));
    assert!(result, "Should change the status when additional check succeeds");
    assert_eq!(base + 2, observer.events.borrow().len());
}

#[test]
fn test_evolution_engine_run() {
    let mut rng = get_seeded_rng();
    let population_size = rng.gen_range(10..128);
    let genome_size = rng.gen_range(1usize..10);
    let strategy = TestStrategy { genome_size, fitness: 500_000, calls: Cell::new(0) };
    let config = EvolutionConfig {
        generation_renewal_config: Some(GenerationRenewalConfig {
            cloning: Some(param(2_000_000, SelectionType::Chance)),
            crossover: None,
        }),
        population_size,
    };
    let mut engine = Engine::default();

    let result = engine.start(&strategy, &config, |generation, _| generation > 1, &mut Random::new(&mut rng));

    assert!(matches!(result, Err(EvolutionError::InvalidSettings(_))), "Should validate configuration");

    let config = EvolutionConfig { generation_renewal_config: None, population_size };
    let (mut engine, observer) = observed_engine();

    let result = engine.start(&strategy, &config, |generation, _| generation > 0, &mut Random::new(&mut rng));

    assert!(
        matches!(result, Ok(ref snapshot) if snapshot.generation == 1 && snapshot.evaluations.len() == population_size),
        "Should have rigth snapshot when completed"
    );
    assert_eq!(2 * population_size, strategy.calls.get());
    assert_eq!(
        vec![
            EventType::StatusChanged(EvolutionStatus::Initializing),
            EventType::StatusChanged(EvolutionStatus::Running),
            EventType::GenerationCreated,
            EventType::Evaluated,
            EventType::GenerationCreated,
            EventType::Evaluated,
            EventType::StatusChanged(EvolutionStatus::Completed),
        ],
        *observer.events.borrow()
    );

    let result = engine.start(&strategy, &config, |generation, _| generation > 0, &mut Random::new(&mut rng));

    assert!(matches!(result, Err(EvolutionError::InvalidStatus(_))), "Should not run when status is not valid");
}

#[test]
fn start_completes_at_generation_zero() {
    let mut rng = get_seeded_rng();
    let strategy = TestStrategy { genome_size: 3, fitness: 250_000, calls: Cell::new(0) };
    let config = EvolutionConfig {
        population_size: 5,
        generation_renewal_config: Some(GenerationRenewalConfig {
            cloning: Some(param(400_000, SelectionType::Ranking(5))),
            crossover: Some(param(400_000, SelectionType::Weight)),
        }),
    };
    let (mut engine, observer) = observed_engine();

    let result = engine.start(&strategy, &config, |_, _| true, &mut Random::new(&mut rng)).unwrap();

    assert_eq!(0, result.generation);
    assert_eq!(5, result.evaluations.len());
    assert!(result.evaluations.iter().all(|e| e.fitness == 250_000 && e.genome.len() == 3));
    assert_eq!(EvolutionStatus::Completed, engine.current_status());
    assert_eq!(
        vec![
            EventType::StatusChanged(EvolutionStatus::Initializing),
            EventType::StatusChanged(EvolutionStatus::Running),
            EventType::GenerationCreated,
            EventType::Evaluated,
            EventType::StatusChanged(EvolutionStatus::Completed),
        ],
        *observer.events.borrow()
    );
    let again = engine.start(&strategy, &config, |_, _| true, &mut Random::new(&mut rng));
    assert_eq!(Err(EvolutionError::InvalidStatus(EvolutionStatus::Completed)), again);
}

#[test]
fn start_renews_with_clones_offspring_and_randoms() {
    let mut rng = get_seeded_rng();
    let strategy = TestStrategy { genome_size: 4, fitness: 100_000, calls: Cell::new(0) };
    let config = EvolutionConfig {
        population_size: 10,
        generation_renewal_config: Some(GenerationRenewalConfig {
            cloning: Some(param(300_000, SelectionType::Tournament(3))),
            crossover: Some(param(500_000, SelectionType::Chance)),
        }),
    };
    let mut engine = Engine::default();

    let result = engine.start(&strategy, &config, |generation, _| generation == 3, &mut Random::new(&mut rng)).unwrap();

    assert_eq!(3, result.generation);
    assert_eq!(10, result.evaluations.len());
    assert!(result.evaluations.iter().all(|e| e.genome.len() == 4));
    assert_eq!(40, strategy.calls.get());
}

#[test]
fn start_reports_a_failed_selection() {
    let mut rng = get_seeded_rng();
    let strategy = TestStrategy { genome_size: 2, fitness: 0, calls: Cell::new(0) };
    let config = EvolutionConfig {
        population_size: 4,
        generation_renewal_config: Some(GenerationRenewalConfig {
            cloning: Some(param(500_000, SelectionType::Ranking(1))),
            crossover: None,
        }),
    };
    let mut engine = Engine::default();

    let result = engine.start(&strategy, &config, |_, _| false, &mut Random::new(&mut rng));

    assert_eq!(Err(EvolutionError::InvalidSelection(SelectionError::OutOfRank(2, 1))), result);
}

#[test]
fn halt_between_generations_stops_at_the_boundary() {
    let mut rng = get_seeded_rng();
    let strategy = TestStrategy { genome_size: 2, fitness: 300_000, calls: Cell::new(0) };
    let config = EvolutionConfig { population_size: 6, generation_renewal_config: None };
    let (mut engine, observer) = observed_engine();
    let mut random = Random::new(&mut rng);

    assert!(!engine.halt(), "Should not halt a new engine");
    assert!(observer.events.borrow().is_empty());
    engine.initialize(&strategy, &config, &mut random, None).unwrap();
    let is_complete = |_: u64, _: &[Fitness]| false;
    assert_eq!(Ok(false), engine.run_generation(&strategy, &is_complete, &mut random));
    assert!(engine.halt());
    assert_eq!(EvolutionStatus::Halting, engine.current_status());
    let at_boundary = engine.snapshot();

    assert_eq!(Ok(true), engine.run_generation(&strategy, &is_complete, &mut random));

    assert_eq!(EvolutionStatus::Halted, engine.current_status());
    assert_eq!(at_boundary, engine.snapshot());
    assert_eq!(1, at_boundary.generation);
    assert_eq!(
        vec![
            EventType::StatusChanged(EvolutionStatus::Initializing),
            EventType::StatusChanged(EvolutionStatus::Running),
            EventType::GenerationCreated,
            EventType::Evaluated,
            EventType::StatusChanged(EvolutionStatus::Halting),
            EventType::StatusChanged(EvolutionStatus::Halted),
        ],
        *observer.events.borrow()
    );
}

#[test]
fn start_from_resumes_a_snapshot() {
    let mut rng = get_seeded_rng();
    let strategy = TestStrategy { genome_size: 1, fitness: 700_000, calls: Cell::new(0) };
    let config = EvolutionConfig { population_size: 3, generation_renewal_config: None };
    let snapshot = Snapshot { generation: 7, evaluations: vec![vec![1], vec![2], vec![3]].into_evaluations() };
    let mut engine = Engine::default();

    let result = engine
        .start_from(&strategy, &config, |generation, _| generation >= 7, &mut Random::new(&mut rng), snapshot)
        .unwrap();

    assert_eq!(7, result.generation);
    let genomes: Vec<Genome> = result.evaluations.iter().map(|e| e.genome.clone()).collect();
    assert_eq!(vec![vec![1], vec![2], vec![3]], genomes);
    assert!(result.evaluations.iter().all(|e| e.fitness == 700_000));
}

#[test]
fn test_evolution_engine_get_clones() {
    let mut rng = get_seeded_rng();
    let engine = Engine::from_snapshot(Snapshot {
        evaluations: vec![
            Evaluation { fitness: 500_000, genome: vec![3] },
            Evaluation { fitness: 200_000, genome: vec![5, 1] },
            Evaluation { fitness: 800_000, genome: vec![6, 3] },
        ],
        generation: 0,
    });

    let pool = GeneticPool { count: 2, mutation_rate: 0, selection_type: SelectionType::Chance };

    let result = engine.get_clones(&pool, &mut Random::new(&mut rng)).unwrap();

    assert_eq!(pool.count, result.len(), "Should return the count of clone defined by the pool when mutation rate is 0");
    assert!(result.iter().all(|g| [vec![3], vec![5, 1], vec![6, 3]].contains(g)));

    let pool = GeneticPool { count: 2, mutation_rate: 500_000, selection_type: SelectionType::Chance };

    let result = engine.get_clones(&pool, &mut Random::new(&mut rng)).unwrap();

    assert_eq!(
        pool.count,
        result.len(),
        "Should return the count of clone defined by the pool when mutation rate is greater than 0"
    );
}

#[test]
fn test_evolution_engine_get_offsprings() {
    let mut rng = get_seeded_rng();
    let genome_size = rng.gen_range(1usize..10);
    let engine = Engine::from_snapshot(Snapshot { evaluations: three_evaluations(genome_size, &mut rng), generation: 0 });

    let pool = GeneticPool { count: 2, mutation_rate: 0, selection_type: SelectionType::Chance };

    let result = engine.get_offsprings(genome_size, &pool, &mut Random::new(&mut rng)).unwrap();

    assert_eq!(pool.count, result.len(), "Should return the count of clone defined by the pool when mutation rate is 0");
    assert!(result.iter().all(|g| g.len() == genome_size));

    let pool = GeneticPool { count: 2, mutation_rate: 500_000, selection_type: SelectionType::Chance };

    let result = engine.get_offsprings(genome_size, &pool, &mut Random::new(&mut rng)).unwrap();

    assert_eq!(
        pool.count,
        result.len(),
        "Should return the count of clone defined by the pool when mutation rate is greater than 0"
    );
}

#[test]
fn get_new_generation_concatenates_the_pools() {
    let mut rng = get_seeded_rng();
    let engine = Engine::from_snapshot(Snapshot { evaluations: three_evaluations(4, &mut rng), generation: 0 });
    let config = GenerationRenewalConfig {
        cloning: Some(param(300_000, SelectionType::Ranking(3))),
        crossover: Some(param(300_000, SelectionType::Weight)),
    };
    let settings = resolve_settings(Some(&config), 10);

    let result = engine.get_new_generation(4, &settings, &mut Random::new(&mut rng)).unwrap();

    assert_eq!(10, result.len());
    assert!(result.iter().all(|g| g.len() == 4));
}

#[test]
fn test_get_random_genomes_iter() {
    let mut rng = get_seeded_rng();
    let count = rng.gen_range(0..64);
    let genome_size = rng.gen_range(0..10);

    let result: Vec<Genome> = get_random_genomes_iter(count, genome_size, &mut Random::new(&mut rng));

    assert_eq!(count, result.len(), "Should return the required count of genomes");
    assert!(result.iter().all(|g| g.len() == genome_size), "Should generate genomes with the required length");
}

#[test]
fn test_generate_genomes() {
    let mut rng = get_seeded_rng();
    let count = rng.gen_range(0..10);
    let len = rng.gen_range(0..10);

    let result: Vec<Genome> = get_random_genomes_iter(count, len, &mut Random::new(&mut rng));

    assert_eq!(count, result.len(), "Should generate the requested count");
}

#[test]
fn test_run_challenges() {
    let genome = vec![1, 2];
    let strategy = TestStrategy { genome_size: 2, fitness: 500_000, calls: Cell::new(0) };

    let result = run_challenge(&genome, &strategy);

    assert_eq!(500_000, result, "Should call strategy evaluation");
    assert_eq!(1, strategy.calls.get());
}

#[test]
fn crossover_joins_a_prefix_and_a_suffix() {
    let a = vec![1, 2, 3, 4];
    let b = vec![5, 6, 7, 8];
    assert_eq!(vec![1, 2, 7, 8], crossover_at((&a, &b), 2));
    assert_eq!(vec![5, 6, 7, 8], crossover_at((&a, &b), 0));
    let mut rng_mock = RngTest { samples: vec![3], index: 0 };
    assert_eq!(vec![1, 2, 3, 8], crossover((&a, &b), 4, &mut rng_mock));
}

#[test]
fn mutation_rate_zero_keeps_every_byte() {
    let mut rng = get_seeded_rng();
    let mut genome = vec![9, 8, 7, 6, 5];
    mutate(&mut genome, 0, &mut Random::new(&mut rng));
    assert_eq!(vec![9, 8, 7, 6, 5], genome);
}

#[test]
fn mutation_rate_one_replaces_every_byte() {
    // Each byte draws a roll, then its fresh value.
    let mut rng_mock = RngTest { samples: vec![999_999, 42, 0, 43, 500_000, 44], index: 0 };
    let mut genome = vec![1, 2, 3];
    mutate(&mut genome, 1_000_000, &mut rng_mock);
    assert_eq!(vec![42, 43, 44], genome);

    let mut rng = get_seeded_rng();
    let mut genome = vec![0u8; 64];
    mutate(&mut genome, 1_000_000, &mut Random::new(&mut rng));
    assert!(genome.iter().any(|&b| b != 0));
}

/// A strategy whose fitness is the first byte of the genome, in millionths.
struct FirstByteStrategy;

impl Strategy for FirstByteStrategy {
    fn genome_size(&self) -> usize {
        2
    }

    fn evaluate(&self, genome: &Genome) -> Fitness {
        genome.first().map(|&b| b as Fitness * 1_000).unwrap_or(0)
    }
}

#[test]
fn stored_fitness_is_the_strategy_fitness() {
    let mut rng = get_seeded_rng();
    let config = EvolutionConfig { population_size: 8, generation_renewal_config: None };
    let mut engine = Engine::default();

    let result = engine.start(&FirstByteStrategy, &config, |generation, _| generation == 2, &mut Random::new(&mut rng)).unwrap();

    assert_eq!(2, result.generation);
    assert_eq!(8, result.evaluations.len());
    for e in &result.evaluations {
        assert_eq!(2, e.genome.len());
        assert_eq!(e.genome[0] as Fitness * 1_000, e.fitness);
    }
}

#[test]
fn start_from_keeps_the_given_genomes_when_accepted_at_once() {
    let mut rng = get_seeded_rng();
    let config = EvolutionConfig {
        population_size: 2,
        generation_renewal_config: Some(GenerationRenewalConfig { cloning: Some(param(500_000, SelectionType::Chance)), crossover: None }),
    };
    let snapshot = Snapshot { generation: 4, evaluations: vec![vec![9, 9], vec![7, 1]].into_evaluations() };
    let mut engine = Engine::default();

    let result = engine.start_from(&FirstByteStrategy, &config, |_, _| true, &mut Random::new(&mut rng), snapshot).unwrap();

    assert_eq!(4, result.generation);
    assert_eq!(
        vec![Evaluation { genome: vec![9, 9], fitness: 9_000 }, Evaluation { genome: vec![7, 1], fitness: 7_000 }],
        result.evaluations
    );
}

#[test]
fn unregister_drops_only_the_given_handle() {
    let (mut engine, first) = observed_engine();
    let second = Rc::new(TestObserver { events: RefCell::new(vec![]) });
    let shared_second: Rc<dyn Observer<Snapshot, EventType>> = second.clone();
    let shared_first: Rc<dyn Observer<Snapshot, EventType>> = first.clone();
    engine.register_observer(shared_second);

    engine.unregister_observer(shared_first);
    engine.notify_observers(EventType::Evaluated);

    assert!(first.events.borrow().is_empty());
    assert_eq!(vec![EventType::Evaluated], *second.events.borrow());
}
