use genetic::adaptation::Strategy;
use genetic::strategies::my_strategy::MyStrategy;
use genetic::strategies::nim_strategy::{get_best_actions, NimError, NimStrategy, MIN_STICK_CHOICE, MOD_CHOICE};
use rand::rngs::StdRng;
use rand::{Rng, SeedableRng};

fn get_seeded_rng() -> StdRng {
    StdRng::seed_from_u64(0x5eed)
}

#[test]
fn nim_strategy_test_new() {
    let mut rng = get_seeded_rng();

    let result = NimStrategy::new(MIN_STICK_CHOICE);
    assert!(matches!(result, Err(_)), "Should not support {MIN_STICK_CHOICE} as a valid stick count");
    assert_eq!(Some(NimError::InvalidStickCount(1)), result.err());

    let stick_count = rng.gen_range(MIN_STICK_CHOICE + 1..128);
    let result = NimStrategy::new(stick_count).unwrap();
    assert_eq!(result.best_actions_of(), get_best_actions(stick_count), "Should initialized best choices");
}

#[test]
fn test_nim_strategy_genome_size() {
    let mut rng = get_seeded_rng();
    let stick_count = rng.gen_range(MIN_STICK_CHOICE + 1..128);
    let strategy = NimStrategy::new(stick_count).unwrap();

    let result = strategy.genome_size();
    assert_eq!(result, (stick_count - MIN_STICK_CHOICE) as usize, "Should have a right genome size");
}

#[test]
fn test_evaluate() {
    let strategy = NimStrategy::new(4).unwrap();

    let result = strategy.evaluate(&vec![200, 100, 50]);
    assert_eq!(1_000_000, result, "Should return maximum fitness when genome leads to get best actions");

    let result = strategy.evaluate(&vec![50, 50, 50]);
    assert_eq!(666_666, result, "Should return right fitness");
}

#[test]
fn test_choose_best_actions() {
    let mut rng = get_seeded_rng();
    let stick_count = rng.gen_range(MIN_STICK_CHOICE + 1..128);
    let expected: Vec<_> = (MIN_STICK_CHOICE + 1..=stick_count)
        .rev()
        .map(|r| if r % MOD_CHOICE == MIN_STICK_CHOICE { MIN_STICK_CHOICE } else { r - MIN_STICK_CHOICE })
        .collect();

    let result = get_best_actions(stick_count);
    assert_eq!(expected, result, "Should return the best actions");
}

#[test]
fn my_strategy_scores_matching_bytes() {
    let strategy = MyStrategy::new(b"florent");
    assert_eq!(7, strategy.genome_size());
    assert_eq!(1_000_000, strategy.evaluate(&b"florent".to_vec()));
    assert_eq!(571_428, strategy.evaluate(&b"flxxxnt".to_vec()));
    assert_eq!(0, strategy.evaluate(&vec![]));
    assert_eq!(0, MyStrategy::new(&[]).evaluate(&vec![1]));
}
