use genetic::selection::rng_wrapper::{Random, RngWrapper, WeightedDistribution};
use genetic::selection::select_by_chance::select_by_chance;
use genetic::selection::select_by_rank::select_by_rank;
use genetic::selection::select_by_tournament::select_by_tournament;
use genetic::selection::select_by_weight::select_by_weight;
use genetic::selection::{select, select_couples, SelectionError, SelectionType, Selector};
use genetic::Evaluation;
use rand::rngs::StdRng;
use rand::{Rng, SeedableRng};

/// A source of randomness that replays a script, cycling through it.
struct RngTest {
    samples: Vec<usize>,
    index: usize,
}

impl RngTest {
    fn new() -> Self {
        RngTest { samples: vec![], index: 0 }
    }

    fn with_samples(samples: Vec<usize>) -> Self {
        RngTest { samples, index: 0 }
    }

    fn next(&mut self) -> usize {
        if self.index > self.samples.len() {
            panic!("Unable choose next item whereas no sample is defined")
        }
        let result = self.samples[self.index];
        self.index = (self.index + 1) % self.samples.len();
        result
    }
}

impl RngWrapper for RngTest {
    fn gen_range(&mut self, _low: usize, _high: usize) -> usize {
        self.next()
    }

    fn sample_from_distribution(&mut self, _distribution: &WeightedDistribution) -> usize {
        self.next()
    }
}

fn get_seeded_rng() -> StdRng {
    StdRng::seed_from_u64(0x5eed)
}

fn evaluation(genome: Vec<u8>, fitness: i64) -> Evaluation {
    Evaluation { genome, fitness }
}

fn four_evaluations() -> Vec<Evaluation> {
    vec![
        evaluation(vec![3], 100_000),
        evaluation(vec![5], 400_000),
        evaluation(vec![4], 500_000),
        evaluation(vec![8], 900_000),
    ]
}

fn is_distinct_selection(v: &[usize], len: usize, count: usize) -> bool {
    v.len() == count
        && v.iter().all(|&i| i < len)
        && (0..v.len()).all(|a| (0..v.len()).all(|b| a == b || v[a] != v[b]))
}

#[test]
fn select_by_chance_should_return_result() {
    let evaluations = vec![
        evaluation(vec![1], 1_000_000),
        evaluation(vec![2], 2_000_000),
        evaluation(vec![3], 1_000_000),
    ];

    let mut rng_mock = RngTest::with_samples(vec![2, 1, 0, 2]);
    let result = select_by_chance(&evaluations, 3, &mut rng_mock);
    assert_eq!(result, Ok(vec![2, 1, 0]));
    let result = select_by_chance(&evaluations, 2, &mut rng_mock);
    assert_eq!(result, Ok(vec![0, 2]));
}

#[test]
fn select_by_chance_should_return_error_when_not_valid_expected_count() {
    let evaluations = vec![evaluation(vec![1], 1_000_000)];

    let mut rng_mock = RngTest::new();
    let result = select_by_chance(&evaluations, 4, &mut rng_mock);
    assert_eq!(result, Err(SelectionError::OutOfRange(4, 1)));
}

#[test]
fn select_by_chance_should_return_empty_collection_when_expected_count_is_0() {
    let evaluations = vec![evaluation(vec![1], 1_000_000)];

    let mut rng_mock = RngTest::new();
    let result = select_by_chance(&evaluations, 0, &mut rng_mock);
    assert_eq!(result, Ok(vec![]));
}

#[test]
fn select_by_rank_should_return_result() {
    let evaluations = vec![
        evaluation(vec![1], 2_000_000),
        evaluation(vec![2], 5_000_000),
        evaluation(vec![3], 1_000_000),
        evaluation(vec![4], 1_000_000),
    ];

    // Ranking is deterministic: best first, equal fitness in index order.
    let mut rng_mock = RngTest::with_samples(vec![2, 2, 1, 2]);
    let result = select_by_rank(&evaluations, 3, 3, &mut rng_mock);
    assert_eq!(result, Ok(vec![1, 0, 2]));
    let result = select_by_rank(&evaluations, 2, 3, &mut rng_mock);
    assert_eq!(result, Ok(vec![1, 0]));
}

#[test]
fn select_by_rank_should_return_error_when_not_valid_expected_count() {
    let evaluations = vec![evaluation(vec![1], 1_000_000), evaluation(vec![2], 1_000_000)];

    let mut rng_mock = RngTest::with_samples(vec![2, 0, 0, 1]);
    let result = select_by_rank(&evaluations, 3, 3, &mut rng_mock);
    assert_eq!(
        result,
        Err(SelectionError::OutOfRange(3, 2)),
        "expected_count should be lesser or equal to evaluations size"
    );

    let result = select_by_rank(&evaluations, 3, 2, &mut rng_mock);
    assert_eq!(
        result,
        Err(SelectionError::OutOfRank(3, 2)),
        "expected_count should be lesser or equal to max_rank"
    );
}

#[test]
fn select_by_rank_should_return_empty_collection_when_expected_count_is_0() {
    let evaluations = vec![evaluation(vec![1], 1_000_000)];

    let mut rng_mock = RngTest::new();
    let result = select_by_rank(&evaluations, 0, 1, &mut rng_mock);
    assert_eq!(result, Ok(vec![]));
}

#[test]
fn select_by_rank_sorts_by_descending_fitness() {
    let evaluations = four_evaluations();

    let mut rng_mock = RngTest::new();
    let result = select_by_rank(&evaluations, 3, 4, &mut rng_mock);
    assert_eq!(result, Ok(vec![3, 2, 1]));
    let result = select_by_rank(&evaluations, 4, 4, &mut rng_mock);
    assert_eq!(result, Ok(vec![3, 2, 1, 0]));
}

#[test]
fn select_by_tournament_should_return_error_when_not_valid_expected_count() {
    let evaluations = vec![evaluation(vec![1], 1_000_000), evaluation(vec![2], 1_000_000)];
    let mut rng_mock = RngTest::with_samples(vec![2, 0, 0, 1]);

    let result = select_by_tournament(&evaluations, 3, 3, &mut rng_mock);

    assert_eq!(
        result,
        Err(SelectionError::OutOfRange(3, 2)),
        "expected_count should be lesser or equal to evaluations size"
    );
}

#[test]
fn select_by_tournament_should_return_empty_collection_when_expected_count_is_0() {
    let evaluations = vec![evaluation(vec![1], 1_000_000)];
    let mut rng_mock = RngTest::new();

    let result = select_by_tournament(&evaluations, 0, 1, &mut rng_mock);

    assert_eq!(result, Ok(vec![]));
}

#[test]
fn select_by_tournament_picks_the_fittest_of_the_pool() {
    let evaluations = vec![
        evaluation(vec![1], 2_000_000),
        evaluation(vec![2], 5_000_000),
        evaluation(vec![3], 1_000_000),
        evaluation(vec![4], 1_000_000),
    ];
    // Rank 0: the pool draws index 1, then index 0; 1 is fitter and takes
    // slot 0. Rank 1: the pool draws index 3, then index 0; 0 is fitter.
    let mut rng_mock = RngTest::with_samples(vec![1, 0, 2, 0]);
    let result = select_by_tournament(&evaluations, 2, 2, &mut rng_mock);
    assert_eq!(result, Ok(vec![1, 0]));
}

#[test]
fn select_by_weight_should_return_result() {
    let evaluations = vec![
        evaluation(vec![1], 1_000_000),
        evaluation(vec![2], 2_000_000),
        evaluation(vec![3], 1_000_000),
    ];

    let mut rng_mock = RngTest::with_samples(vec![2, 0, 0, 1]);
    let result = select_by_weight(&evaluations, 3, &mut rng_mock);
    assert_eq!(result, Ok(vec![2, 1, 0]));
    let result = select_by_weight(&evaluations, 2, &mut rng_mock);
    assert_eq!(result, Ok(vec![0, 2]));
}

#[test]
fn select_by_weight_should_return_error_when_not_valid_expected_count() {
    let evaluations = vec![evaluation(vec![1], 1_000_000)];

    let mut rng_mock = RngTest::new();
    let result = select_by_weight(&evaluations, 2, &mut rng_mock);
    assert_eq!(result, Err(SelectionError::OutOfRange(2, 1)));
}

#[test]
fn select_by_weight_should_return_empty_collection_when_expected_count_is_0() {
    let evaluations = vec![evaluation(vec![1], 1_000_000)];

    let mut rng_mock = RngTest::new();
    let result = select_by_weight(&evaluations, 0, &mut rng_mock);
    assert_eq!(result, Ok(vec![]));
}

#[test]
fn select_by_weight_draws_a_single_index() {
    let evaluations = four_evaluations();
    let mut rng_mock = RngTest::with_samples(vec![2]);
    let result = select_by_weight(&evaluations, 1, &mut rng_mock);
    assert_eq!(result, Ok(vec![2]));
}

#[test]
fn select_by_weight_refuses_negative_weights() {
    let evaluations = vec![evaluation(vec![1], 1_000_000), evaluation(vec![2], -2_000_000)];
    let mut random_rng = get_seeded_rng();
    let result = select_by_weight(&evaluations, 1, &mut Random::new(&mut random_rng));
    match result {
        Err(SelectionError::InvalidWeights(message)) => assert!(!message.is_empty()),
        other => panic!("unexpected result {:?}", other),
    }
}

#[test]
fn select_by_weight_refuses_weights_that_overflow() {
    let evaluations = vec![evaluation(vec![1], i64::MAX - 1), evaluation(vec![2], 1)];
    let mut rng_mock = RngTest::with_samples(vec![0]);
    let result = select_by_weight(&evaluations, 1, &mut rng_mock);
    assert!(matches!(result, Err(SelectionError::InvalidWeights(_))));
}

#[test]
fn every_algorithm_returns_distinct_indices() {
    let evaluations = four_evaluations();
    for count in 0..=4usize {
        for selection_type in [
            SelectionType::Chance,
            SelectionType::Ranking(4),
            SelectionType::Tournament(2),
            SelectionType::Weight,
        ] {
            let mut rng = get_seeded_rng();
            let result = select(&evaluations, count, selection_type, &mut Random::new(&mut rng))
                .unwrap();
            assert!(is_distinct_selection(&result, 4, count), "{:?} {}", selection_type, count);
        }
        let mut rng = get_seeded_rng();
        let result = select(&evaluations, 5, SelectionType::Chance, &mut Random::new(&mut rng));
        assert_eq!(result, Err(SelectionError::OutOfRange(5, 4)));
    }
}

#[test]
fn test_select() {
    let evaluations = four_evaluations();
    let max_rank = 3;
    let selection_count = 3;
    let pool_size = 2;

    let mut rng = get_seeded_rng();
    let result = select(&evaluations, selection_count, SelectionType::Chance, &mut Random::new(&mut rng)).unwrap();
    assert_eq!(selection_count, result.len(), "Should return the required count for SelectionType::Chance");
    assert_eq!(
        select_by_chance(&evaluations, selection_count, &mut Random::new(&mut get_seeded_rng())).unwrap(),
        result,
        "Should use select_by_chance to match selection_type"
    );

    let mut rng = get_seeded_rng();
    let result = select(
        &evaluations,
        selection_count,
        SelectionType::Ranking(max_rank),
        &mut Random::new(&mut rng),
    )
    .unwrap();
    assert_eq!(selection_count, result.len(), "Should return the required count for SelectionType::Ranking(_)");
    assert_eq!(
        select_by_rank(&evaluations, selection_count, max_rank, &mut Random::new(&mut get_seeded_rng())).unwrap(),
        result,
        "Should use select_by_rank to match selection_type"
    );

    let mut rng = get_seeded_rng();
    let result = select(
        &evaluations,
        selection_count,
        SelectionType::Tournament(pool_size),
        &mut Random::new(&mut rng),
    )
    .unwrap();
    assert_eq!(selection_count, result.len(), "Should return the required count for SelectionType::Tournament(_)");
    assert_eq!(
        select_by_tournament(&evaluations, selection_count, pool_size, &mut Random::new(&mut get_seeded_rng()))
            .unwrap(),
        result,
        "Should use select_by_tournament to match selection_type"
    );

    let mut rng = get_seeded_rng();
    let result = select(&evaluations, selection_count, SelectionType::Weight, &mut Random::new(&mut rng)).unwrap();
    assert_eq!(selection_count, result.len(), "Should return the required count for SelectionType::Weight");
    assert_eq!(
        select_by_weight(&evaluations, selection_count, &mut Random::new(&mut get_seeded_rng())).unwrap(),
        result,
        "Should use select_by_weight to match selection_type"
    );
}

#[test]
fn test_select_couples() {
    let evaluations = four_evaluations();
    let max_rank = 3;
    let couples_count = 3;
    let pool_size = 2;

    for selection_type in [
        SelectionType::Chance,
        SelectionType::Ranking(max_rank),
        SelectionType::Tournament(pool_size),
        SelectionType::Weight,
    ] {
        let mut rng = get_seeded_rng();
        let result =
            select_couples(&evaluations, couples_count, selection_type, &mut Random::new(&mut rng)).unwrap();
        assert_eq!(couples_count, result.len(), "Should return the required count for {:?}", selection_type);

        let mut rng = get_seeded_rng();
        let mut random = Random::new(&mut rng);
        let expected: Vec<(usize, usize)> = (0..couples_count)
            .map(|_| {
                let couple = match selection_type {
                    SelectionType::Chance => select_by_chance(&evaluations, 2, &mut random),
                    SelectionType::Ranking(m) => select_by_rank(&evaluations, 2, m, &mut random),
                    SelectionType::Tournament(p) => select_by_tournament(&evaluations, 2, p, &mut random),
                    SelectionType::Weight => select_by_weight(&evaluations, 2, &mut random),
                }
                .unwrap();
                (couple[0], couple[1])
            })
            .collect();
        assert_eq!(expected, result, "Should use the algorithm of {:?}", selection_type);
    }
}

#[test]
fn select_couples_reports_out_of_rank() {
    let evaluations = four_evaluations();
    let mut rng_mock = RngTest::new();
    let result = select_couples(&evaluations, 2, SelectionType::Ranking(1), &mut rng_mock);
    assert_eq!(result, Err(SelectionError::OutOfRank(2, 1)));
}

#[test]
fn selector_draws_one_couple_per_evaluation() {
    let evaluations = four_evaluations();
    let selector = Selector::new(SelectionType::Ranking(4));
    let mut rng_mock = RngTest::new();
    let result = selector.select_couples(&evaluations, &mut rng_mock);
    assert_eq!(result, Ok(vec![(3, 2), (3, 2), (3, 2), (3, 2)]));
}

#[test]
fn test_random_new_should_init_with_arg() {
    let mut rng = get_seeded_rng();
    let mut twin = get_seeded_rng();

    let mut result = Random::new(&mut rng);

    assert_eq!(twin.gen_range(0usize..1000), result.gen_range(0, 1000));
}

#[test]
fn test_random_gen_range_should_respect_range() {
    let mut rng = get_seeded_rng();
    let low_b = rng.gen_range(0usize..10);
    let high_b = rng.gen_range(10..20);
    let mut random = Random::new(&mut rng);

    let result = random.gen_range(low_b, high_b);

    assert!(result >= low_b && result < high_b);
}

#[test]
fn test_random_sample_from_distribution() {
    let mut rng = get_seeded_rng();
    let mut random = Random::new(&mut rng);
    let weights = vec![1, 2, 3];
    let distribution = WeightedDistribution::new(&weights).unwrap();

    let result = random.sample_from_distribution(&distribution);

    assert!(result < 3);
}

#[test]
fn weighted_distribution_never_draws_a_zero_weight() {
    let mut rng = get_seeded_rng();
    let mut random = Random::new(&mut rng);
    let distribution = WeightedDistribution::new(&vec![0, 5, 0]).unwrap();
    for _ in 0..20 {
        assert_eq!(1, random.sample_from_distribution(&distribution));
    }
}

#[test]
fn weighted_distribution_refuses_degenerate_weights() {
    assert!(matches!(WeightedDistribution::new(&vec![]), Err(SelectionError::InvalidWeights(_))));
    assert!(matches!(WeightedDistribution::new(&vec![0, 0]), Err(SelectionError::InvalidWeights(_))));
    assert!(matches!(WeightedDistribution::new(&vec![3, -1]), Err(SelectionError::InvalidWeights(_))));
    assert!(matches!(
        WeightedDistribution::new(&vec![i64::MAX, 1]),
        Err(SelectionError::InvalidWeights(_))
    ));
}

#[test]
fn select_by_tournament_with_a_full_pool_ranks_by_fitness() {
    let evaluations = four_evaluations();
    let mut rng = get_seeded_rng();
    let result = select_by_tournament(&evaluations, 4, 4, &mut Random::new(&mut rng));
    assert_eq!(result, Ok(vec![3, 2, 1, 0]));
}

#[test]
fn zero_requests_never_consult_randomness() {
    let evaluations = four_evaluations();
    for selection_type in [
        SelectionType::Chance,
        SelectionType::Ranking(0),
        SelectionType::Tournament(3),
        SelectionType::Weight,
    ] {
        // An empty script panics if it is ever consulted.
        let mut rng_mock = RngTest::new();
        assert_eq!(Ok(vec![]), select(&evaluations, 0, selection_type, &mut rng_mock));
        assert_eq!(Ok(vec![]), select_couples(&evaluations, 0, selection_type, &mut rng_mock));
    }
}

#[test]
fn select_by_weight_refuses_all_zero_weights() {
    let evaluations = vec![evaluation(vec![1], -10_000), evaluation(vec![2], -10_000)];
    let mut rng_mock = RngTest::with_samples(vec![0]);
    let result = select_by_weight(&evaluations, 1, &mut rng_mock);
    assert!(matches!(result, Err(SelectionError::InvalidWeights(_))));
}
