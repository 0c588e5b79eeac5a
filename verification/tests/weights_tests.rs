use evo_core::matrix::Matrix;
use evo_core::weights::{build_weights, calc_prob};

#[test]
fn calc_prob_exact_products() {
    // 2^2 * 3^1
    assert_eq!(calc_prob(2, 3, 2, 1), 12);
    // 5^3 * 1^0
    assert_eq!(calc_prob(5, 1, 3, 0), 125);
}

#[test]
fn calc_prob_zero_base_zero_exponent_is_one() {
    // 0^0 follows the exponentiation convention and equals 1, so the edge
    // stays reachable.
    assert_eq!(calc_prob(0, 5, 0, 1), 5);
    assert_eq!(calc_prob(0, 0, 0, 0), 1);
    // A positive power of zero kills the edge.
    assert_eq!(calc_prob(0, 5, 1, 1), 0);
}

#[test]
fn calc_prob_saturates_at_u64_max() {
    assert_eq!(calc_prob(2, 1, 64, 0), u64::MAX);
    assert_eq!(calc_prob(u64::MAX, 2, 1, 1), u64::MAX);
}

#[test]
fn weight_matrix_of_all_ones_inputs_is_all_ones() {
    // Four nodes, all-ones heuristic and pheromone, alpha = beta = 1: every
    // transition weight is 1.
    let pheromone = Matrix::filled(4, 1);
    let heuristic = Matrix::filled(4, 1);
    let w = build_weights(&pheromone, &heuristic, 1, 1);
    assert_eq!(w.n, 4);
    for i in 0..4 {
        for j in 0..4 {
            assert_eq!(w.get(i, j), 1);
        }
    }
}

#[test]
fn weight_matrix_keeps_input_dimension() {
    let pheromone = Matrix::filled(5, 2);
    let heuristic = Matrix::filled(5, 3);
    let w = build_weights(&pheromone, &heuristic, 2, 1);
    assert_eq!(w.n, 5);
    // 2^2 * 3^1 everywhere.
    assert_eq!(w.get(4, 4), 12);
}
