use evo_core::grading::{grade_one, DEGENERATE_COST};
use evo_core::matrix::Matrix;

/// The 0-1-2-3-0 cycle over four nodes.
fn square_cycle() -> Matrix {
    let mut m = Matrix::zeros(4);
    for (a, b) in [(0, 1), (1, 2), (2, 3), (3, 0)] {
        m.set(a, b, 1);
        m.set(b, a, 1);
    }
    m
}

#[test]
fn grade_is_half_the_hadamard_sum() {
    let m = square_cycle();
    let mut w = Matrix::zeros(4);
    let mut v = 1;
    for i in 0..4 {
        for j in 0..4 {
            w.set(i, j, v);
            v += 1;
        }
    }
    // Used entries: (0,1)=2 (1,0)=5 (1,2)=7 (2,1)=10 (2,3)=12 (3,2)=15
    // (3,0)=13 (0,3)=4; their sum is 68, halved: 34.
    assert_eq!(grade_one(&m, &w), 34);
}

#[test]
fn grade_of_uniform_weights_counts_edges() {
    let m = square_cycle();
    let w = Matrix::filled(4, 3);
    // Four undirected edges of weight 3.
    assert_eq!(grade_one(&m, &w), 12);
}

#[test]
fn grade_scales_linearly_with_the_weights() {
    // Doubling every weight doubles the grade.
    let m = square_cycle();
    let w = Matrix::filled(4, 5);
    let mut scaled = Matrix::zeros(4);
    for i in 0..4 {
        for j in 0..4 {
            scaled.set(i, j, w.get(i, j) * 3);
        }
    }
    assert_eq!(grade_one(&m, &scaled), 3 * grade_one(&m, &w));
}

#[test]
fn degenerate_sentinel_gets_the_worst_cost() {
    let m = Matrix::zeros(4);
    let w = Matrix::filled(4, 9);
    assert_eq!(grade_one(&m, &w), DEGENERATE_COST);
    assert_eq!(DEGENERATE_COST, u128::MAX);
}
