use vstd::prelude::*;

use crate::adaptation::Strategy;
use crate::{Fitness, Genome, FITNESS_ONE};

verus! {

/// The most sticks a player may take in one move.
pub const MAX_STICK_CHOICE: u8 = 3;

/// The fewest sticks a player may take in one move.
pub const MIN_STICK_CHOICE: u8 = 1;

/// The period of the winning positions.
pub const MOD_CHOICE: u8 = 4;

/// The number of distinct byte values.
pub const CODES_COUNT: u16 = 256;

/// The number of distinct moves.
pub const ACTIONS_COUNT: u8 = 3;

/// Why a game of Nim could not be set up.
#[derive(Copy, Clone, Debug, PartialEq, Eq, Structural)]
pub enum NimError {
    /// The initial stick count leaves no move to learn.
    InvalidStickCount(u8),
}

/// The winning move with `remaining` sticks on the table.
pub open spec fn best_action(remaining: u8) -> u8 {
    if remaining % MOD_CHOICE == MIN_STICK_CHOICE {
        MIN_STICK_CHOICE
    } else {
        (remaining - MIN_STICK_CHOICE) as u8
    }
}

/// The move that gene `gene` encodes: its byte range split in three.
pub open spec fn gene_action(gene: u8) -> u8 {
    ((gene as int * ACTIONS_COUNT as int + CODES_COUNT as int - 1) / CODES_COUNT as int) as u8
}

/// The score of one gene: 3 for the best move, one less for each stick it
/// lies away, and nothing beyond.
pub open spec fn gene_score(gene: u8, best: u8) -> nat {
    let a = gene_action(gene) as int;
    let diff = if a > best { a - best } else { best - a };
    if diff <= ACTIONS_COUNT {
        (ACTIONS_COUNT as int - diff) as nat
    } else {
        0
    }
}

/// The summed score of the first `n` genes of `genome` against `best`.
pub open spec fn score_prefix(genome: Seq<u8>, best: Seq<u8>, n: int) -> nat
    decreases n,
{
    if n <= 0 {
        0
    } else {
        score_prefix(genome, best, n - 1) + gene_score(genome[n - 1], best[n - 1])
    }
}

/// The summed gene scores of `genome` against `best` over the maximal score,
/// in millionths, rounded down (0 without genes).
pub open spec fn nim_fitness(genome: Seq<u8>, best: Seq<u8>) -> Fitness {
    if best.len() == 0 {
        0
    } else {
        (score_prefix(genome, best, if genome.len() < best.len() { genome.len() as int } else { best.len() as int }) as int
            * FITNESS_ONE as int / (ACTIONS_COUNT as int * best.len() as int)) as Fitness
    }
}

/// Evolves a strategy for the game of Nim: gene `k` encodes the move to play
/// with `stick_count - k` sticks left.
pub struct NimStrategy {
    best_actions: Vec<u8>,
}

/// The winning move with `remaining_stick_count` sticks on the table.
pub fn get_best_action(remaining_stick_count: u8) -> (r: u8)
    requires
        remaining_stick_count >= MIN_STICK_CHOICE,
    ensures
        r == best_action(remaining_stick_count),
{
    if remaining_stick_count % MOD_CHOICE == MIN_STICK_CHOICE {
        MIN_STICK_CHOICE
    } else {
        remaining_stick_count - MIN_STICK_CHOICE
    }
}

/// The winning moves from `remaining_stick_count` sticks down to two.
pub fn get_best_actions(remaining_stick_count: u8) -> (r: Vec<u8>)
    ensures
        r@.len() == if remaining_stick_count > MIN_STICK_CHOICE {
            remaining_stick_count - MIN_STICK_CHOICE
        } else {
            0
        },
        forall|k: int| 0 <= k < r@.len() ==> r@[k] == best_action((remaining_stick_count - k) as u8),
{
    let mut r: Vec<u8> = Vec::new();
    let mut remaining = remaining_stick_count;
    while remaining > MIN_STICK_CHOICE
        invariant
            remaining <= remaining_stick_count,
            remaining_stick_count >= MIN_STICK_CHOICE ==> remaining >= MIN_STICK_CHOICE,
            r@.len() == remaining_stick_count - remaining,
            forall|k: int| 0 <= k < r@.len() ==> r@[k] == best_action((remaining_stick_count - k) as u8),
        decreases remaining,
    {
        r.push(get_best_action(remaining));
        remaining = remaining - 1;
    }
    r
}

impl NimStrategy {
    /// A game starting with `stick_count` sticks, which must be above one.
    pub fn new(stick_count: u8) -> (r: Result<Self, NimError>)
        ensures
            stick_count <= MIN_STICK_CHOICE ==> r == Err::<Self, NimError>(NimError::InvalidStickCount(stick_count)),
            stick_count > MIN_STICK_CHOICE ==> (r matches Ok(s) && s.best_actions()@.len() == stick_count - MIN_STICK_CHOICE
                && forall|k: int| 0 <= k < s.best_actions()@.len() ==> s.best_actions()@[k] == best_action((stick_count - k) as u8)),
    {
        if stick_count <= MIN_STICK_CHOICE {
            return Err(NimError::InvalidStickCount(stick_count));
        }
        let best_actions = get_best_actions(stick_count);
        Ok(NimStrategy { best_actions })
    }

    /// The winning move for each gene.
    pub closed spec fn best_actions(&self) -> Vec<u8> {
        self.best_actions
    }

    /// Returns the winning move for each gene.
    pub fn best_actions_of(&self) -> (r: Vec<u8>)
        ensures
            r@ == self.best_actions()@,
    {
        let r = self.best_actions.clone();
        assert(r@ =~= self.best_actions@);
        r
    }

    /// The summed gene scores of `genome` over the maximal score, in
    /// millionths, rounded down.
    pub fn score(&self, genome: &Genome) -> (r: Fitness)
        ensures
            r == nim_fitness(genome@, self.best_actions()@),
    {
        let len = self.best_actions.len();
        if len == 0 {
            return 0;
        }
        let n = if genome.len() < len {
            genome.len()
        } else {
            len
        };
        let mut total: u128 = 0;
        let mut i: usize = 0;
        while i < n
            invariant
                n <= genome@.len(),
                n <= self.best_actions@.len(),
                i <= n,
                total == score_prefix(genome@, self.best_actions@, i as int),
                total <= 3 * i,
            decreases n - i,
        {
            let gene = genome[i];
            let best = self.best_actions[i];
            let action = ((gene as u16 * ACTIONS_COUNT as u16 + CODES_COUNT - 1) / CODES_COUNT) as u8;
            assert(action <= 3) by (nonlinear_arith)
                requires action as int == (gene as int * 3 + 255) / 256, gene <= 255;
            let diff = if action > best { action - best } else { best - action };
            if diff <= ACTIONS_COUNT {
                total = total + (ACTIONS_COUNT - diff) as u128;
            }
            assert(score_prefix(genome@, self.best_actions@, i + 1) == score_prefix(genome@, self.best_actions@, i as int)
                + gene_score(gene, best));
            i = i + 1;
        }
        // The maximal score: three for each gene.
        let normalization_factor = ACTIONS_COUNT as u128 * len as u128;
        assert(total * FITNESS_ONE <= 3 * u64::MAX * FITNESS_ONE) by (nonlinear_arith)
            requires total <= 3 * n, n <= u64::MAX;
        let share = total * FITNESS_ONE as u128 / normalization_factor;
        assert(share <= FITNESS_ONE) by (nonlinear_arith)
            requires share == total as int * FITNESS_ONE as int / (3 * len as int), total <= 3 * n, n <= len, len > 0;
        share as Fitness
    }
}

impl Strategy for NimStrategy {
    open spec fn size(&self) -> usize {
        self.best_actions()@.len() as usize
    }

    open spec fn fitness(&self, genome: Seq<u8>) -> Fitness {
        nim_fitness(genome, self.best_actions()@)
    }

    fn genome_size(&self) -> usize {
        self.best_actions.len()
    }

    fn evaluate(&self, genome: &Genome) -> Fitness {
        self.score(genome)
    }
}

} // verus!
