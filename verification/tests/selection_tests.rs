use evo_core::rng::seeded_rng;
use evo_core::selection::{
    Random, Rank, RouletteWheel, SelectionOperator, StochasticUniversalSampling, Tournament,
    total_fitness,
};

#[test]
fn total_fitness_sums_the_population() {
    assert_eq!(total_fitness(&vec![1, 2, 3, 4]), 10);
    assert_eq!(total_fitness(&vec![]), 0);
}

#[test]
fn roulette_wheel_selects_only_positive_fitness() {
    let mut op = RouletteWheel::new();
    let mut rng = seeded_rng(17);
    let fitness = vec![0, 5, 0, 7, 0];
    let picks = op.apply(&mut rng, &fitness, 20);
    assert_eq!(picks.len(), 20);
    for p in picks {
        assert!(p == 1 || p == 3);
    }
}

#[test]
fn roulette_wheel_with_no_fitness_selects_nothing() {
    let mut op = RouletteWheel::new();
    let mut rng = seeded_rng(17);
    let picks = op.apply(&mut rng, &vec![0, 0, 0], 4);
    assert!(picks.is_empty());
}

#[test]
fn random_selection_is_distinct_and_within_range() {
    let mut op = Random::new();
    let mut rng = seeded_rng(29);
    let fitness = vec![1, 1, 1, 1, 1];
    let mut picks = op.apply(&mut rng, &fitness, 5);
    picks.sort();
    // Five distinct indices out of five: the whole population.
    assert_eq!(picks, vec![0, 1, 2, 3, 4]);
}

#[test]
fn rank_selection_returns_the_requested_count() {
    let mut op = Rank::new();
    let mut rng = seeded_rng(31);
    let fitness = vec![4, 9];
    let picks = op.apply(&mut rng, &fitness, 12);
    assert_eq!(picks.len(), 12);
    for p in picks {
        assert!(p < 2);
    }
}

#[test]
fn tournament_selection_returns_the_requested_count() {
    let mut op = Tournament::new();
    let mut rng = seeded_rng(37);
    let fitness = vec![1, 2, 3, 4, 5, 6, 7, 8, 9, 10];
    let picks = op.apply(&mut rng, &fitness, 6);
    assert_eq!(picks.len(), 6);
    for p in picks {
        assert!(p < 10);
    }
}

#[test]
fn sus_with_uniform_fitness_selects_everyone_once() {
    let mut op = StochasticUniversalSampling::new();
    let mut rng = seeded_rng(41);
    let fitness = vec![1, 1, 1, 1];
    let picks = op.apply(&mut rng, &fitness, 4);
    assert_eq!(picks, vec![0, 1, 2, 3]);
}

#[test]
fn sus_skips_zero_fitness_members() {
    let mut op = StochasticUniversalSampling::new();
    let mut rng = seeded_rng(43);
    let fitness = vec![2, 0, 2];
    let picks = op.apply(&mut rng, &fitness, 2);
    assert_eq!(picks, vec![0, 2]);
}

#[test]
fn sus_occurrences_stay_within_each_members_weight() {
    // With spacing d = total / count, a member of fitness f is never taken
    // m times unless (m - 1) * d < f.
    let fitness = vec![10u64, 9];
    let dist = 19u64 / 2;
    for seed in 0..20 {
        let mut op = StochasticUniversalSampling::new();
        let mut rng = seeded_rng(seed);
        let picks = op.apply(&mut rng, &fitness, 2);
        assert_eq!(picks.len(), 2);
        for v in 0..fitness.len() {
            let occ = picks.iter().filter(|p| **p == v).count() as u64;
            if occ >= 1 {
                assert!((occ - 1) * dist < fitness[v]);
            }
        }
    }
}

#[test]
fn sus_output_is_sorted_by_population_order() {
    let mut op = StochasticUniversalSampling::new();
    let mut rng = seeded_rng(47);
    let fitness = vec![5, 1, 9, 2, 4];
    let picks = op.apply(&mut rng, &fitness, 7);
    assert_eq!(picks.len(), 7);
    for w in picks.windows(2) {
        assert!(w[0] <= w[1]);
    }
    for p in picks {
        assert!(fitness[p] > 0);
    }
}
