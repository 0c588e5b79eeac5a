use evo_core::matrix::Matrix;
use evo_core::rng::seeded_rng;
use evo_core::tour::run_ant;

fn row_sums(m: &Matrix) -> Vec<u64> {
    let mut sums = Vec::new();
    for i in 0..m.n {
        let mut s = 0;
        for j in 0..m.n {
            s += m.get(i, j);
        }
        sums.push(s);
    }
    sums
}

fn col_sums(m: &Matrix) -> Vec<u64> {
    let mut sums = Vec::new();
    for j in 0..m.n {
        let mut s = 0;
        for i in 0..m.n {
            s += m.get(i, j);
        }
        sums.push(s);
    }
    sums
}

#[test]
fn tour_over_uniform_weights_is_a_hamiltonian_cycle() {
    // Four nodes, all-ones weights, one ant with a fixed seed: the tour's
    // rows and columns each sum to 2, four undirected edges are used, and
    // the matrix is symmetric with an empty diagonal.
    let prob = Matrix::filled(4, 1);
    let mut rng = seeded_rng(42);
    let tour = run_ant(&prob, &mut rng);
    assert_eq!(tour.n, 4);
    assert!(!tour.is_all_zero());
    for s in row_sums(&tour) {
        assert_eq!(s, 2);
    }
    for s in col_sums(&tour) {
        assert_eq!(s, 2);
    }
    let mut ones = 0;
    for i in 0..4 {
        assert_eq!(tour.get(i, i), 0);
        for j in 0..4 {
            assert_eq!(tour.get(i, j), tour.get(j, i));
            ones += tour.get(i, j);
        }
    }
    // Eight symmetric entries stand for four undirected edges.
    assert_eq!(ones, 8);
}

#[test]
fn same_seed_reproduces_the_same_tour() {
    let prob = Matrix::filled(6, 1);
    let mut rng_a = seeded_rng(7);
    let mut rng_b = seeded_rng(7);
    let a = run_ant(&prob, &mut rng_a);
    let b = run_ant(&prob, &mut rng_b);
    for i in 0..6 {
        for j in 0..6 {
            assert_eq!(a.get(i, j), b.get(i, j));
        }
    }
}

#[test]
fn zero_weights_give_the_degenerate_sentinel() {
    // No positively weighted candidate is reachable from the start node:
    // the all-zero sentinel comes back instead of a panic.
    let prob = Matrix::zeros(2);
    let mut rng = seeded_rng(1);
    let tour = run_ant(&prob, &mut rng);
    assert!(tour.is_all_zero());
}

#[test]
fn biased_weights_force_the_only_possible_cycle() {
    // Three nodes always admit exactly one undirected Hamiltonian cycle.
    let prob = Matrix::filled(3, 1);
    let mut rng = seeded_rng(3);
    let tour = run_ant(&prob, &mut rng);
    for i in 0..3 {
        for j in 0..3 {
            let expected = if i == j { 0 } else { 1 };
            assert_eq!(tour.get(i, j), expected);
        }
    }
}
