use vstd::prelude::*;

verus! {

use crate::matrix::Matrix;

/// Cost assigned to the degenerate sentinel solution. Under ascending-cost
/// comparison a zero-graded sentinel would look excellent, so degeneracy is
/// priced as the worst possible cost instead.
pub const DEGENERATE_COST: u128 = 0xFFFF_FFFF_FFFF_FFFF_FFFF_FFFF_FFFF_FFFF;

/// Entrywise product of row `i` of `m` and `w`, summed over columns
/// `0..upto`.
pub open spec fn had_row(m: Matrix, w: Matrix, i: int, upto: int) -> int
    decreases upto,
{
    if upto <= 0 {
        0
    } else {
        had_row(m, w, i, upto - 1) + (m.at(i, upto - 1) as int) * (w.at(i, upto - 1) as int)
    }
}

/// Entrywise (Hadamard) product of `m` and `w`, summed over rows `0..upto`.
pub open spec fn had_sum(m: Matrix, w: Matrix, upto: int) -> int
    decreases upto,
{
    if upto <= 0 {
        0
    } else {
        had_sum(m, w, upto - 1) + had_row(m, w, upto - 1, m.n as int)
    }
}

/// The grade of an adjacency matrix against the weight matrix: half the
/// Hadamard sum, each undirected edge being stored twice; the sentinel gets
/// the worst cost.
pub open spec fn cost_spec(m: Matrix, w: Matrix) -> u128 {
    if m.is_zero() {
        DEGENERATE_COST
    } else {
        (had_sum(m, w, m.n as int) / 2) as u128
    }
}

/// A weighted row sum reads only the dimension and the stored entries.
proof fn lemma_had_row_congruent(m1: Matrix, m2: Matrix, w: Matrix, i: int, upto: int)
    requires
        m1.n == m2.n,
        m1.data@ == m2.data@,
    ensures
        had_row(m1, w, i, upto) == had_row(m2, w, i, upto),
    decreases upto,
{
    if upto > 0 {
        lemma_had_row_congruent(m1, m2, w, i, upto - 1);
    }
}

/// The grade reads only the dimension and the stored entries, so an
/// entry-for-entry copy grades alike.
pub proof fn lemma_cost_spec_congruent(m1: Matrix, m2: Matrix, w: Matrix)
    requires
        m1.n == m2.n,
        m1.data@ == m2.data@,
    ensures
        cost_spec(m1, w) == cost_spec(m2, w),
{
    assert(m1.is_zero() == m2.is_zero()) by {
        if m1.is_zero() {
            assert forall|i: int, j: int|
                0 <= i < m2.n && 0 <= j < m2.n implies m2.at(i, j) == 0 by {
                assert(m1.at(i, j) == 0);
            }
        }
        if m2.is_zero() {
            assert forall|i: int, j: int|
                0 <= i < m1.n && 0 <= j < m1.n implies m1.at(i, j) == 0 by {
                assert(m2.at(i, j) == 0);
            }
        }
    }
    lemma_had_sum_congruent_rec(m1, m2, w, m1.n as int);
}

/// Inductive core of `lemma_cost_spec_congruent`.
proof fn lemma_had_sum_congruent_rec(m1: Matrix, m2: Matrix, w: Matrix, upto: int)
    requires
        m1.n == m2.n,
        m1.data@ == m2.data@,
    ensures
        had_sum(m1, w, upto) == had_sum(m2, w, upto),
    decreases upto,
{
    if upto > 0 {
        lemma_had_sum_congruent_rec(m1, m2, w, upto - 1);
        lemma_had_row_congruent(m1, m2, w, upto - 1, m1.n as int);
    }
}

/// Bounds of a 0/1-weighted row sum.
proof fn lemma_had_row_bounds(m: Matrix, w: Matrix, i: int, upto: int)
    requires
        m.is_binary(),
        0 <= i < m.n,
        0 <= upto <= m.n,
    ensures
        0 <= had_row(m, w, i, upto),
        had_row(m, w, i, upto) <= upto * (u64::MAX as int),
    decreases upto,
{
    if upto > 0 {
        lemma_had_row_bounds(m, w, i, upto - 1);
        let a = m.at(i, upto - 1) as int;
        let b = w.at(i, upto - 1) as int;
        assert(0 <= a * b <= u64::MAX as int) by (nonlinear_arith)
            requires 0 <= a <= 1 && 0 <= b <= u64::MAX as int;
        assert((upto - 1) * (u64::MAX as int) + (u64::MAX as int) == upto * (u64::MAX as int))
            by (nonlinear_arith);
    }
}

/// Bounds of a 0/1-weighted Hadamard sum; with the dimension capped the sum
/// always fits comfortably in `u128`.
proof fn lemma_had_sum_bounds(m: Matrix, w: Matrix, upto: int)
    requires
        m.wf(),
        m.is_binary(),
        0 <= upto <= m.n,
    ensures
        0 <= had_sum(m, w, upto),
        had_sum(m, w, upto) <= upto * (0x10000 * (u64::MAX as int)),
    decreases upto,
{
    if upto > 0 {
        lemma_had_sum_bounds(m, w, upto - 1);
        lemma_had_row_bounds(m, w, upto - 1, m.n as int);
        assert(had_row(m, w, upto - 1, m.n as int) <= 0x10000 * (u64::MAX as int))
            by (nonlinear_arith)
            requires
                had_row(m, w, upto - 1, m.n as int) <= (m.n as int) * (u64::MAX as int),
                0 <= m.n as int <= 0xFFFF;
        assert((upto - 1) * (0x10000 * (u64::MAX as int)) + 0x10000 * (u64::MAX as int)
            == upto * (0x10000 * (u64::MAX as int))) by (nonlinear_arith);
    }
}

/// Grades one solution matrix against the weight matrix: the summed
/// entrywise product, halved — each physical undirected edge is represented
/// twice in a symmetric matrix. The all-zero sentinel is priced
/// `DEGENERATE_COST`. Exact for these integer-valued inputs.
pub fn grade_one(m: &Matrix, w: &Matrix) -> (c: u128)
    requires
        m.wf(),
        w.wf(),
        w.n == m.n,
        m.is_binary(),
    ensures
        c == cost_spec(*m, *w),
{
    if m.is_all_zero() {
        return DEGENERATE_COST;
    }
    let n = m.n;
    let mut total: u128 = 0;
    let mut i: usize = 0;
    while i < n
        invariant
            m.wf(),
            w.wf(),
            w.n == n,
            m.n == n,
            m.is_binary(),
            i <= n,
            total == had_sum(*m, *w, i as int),
        decreases n - i,
    {
        let mut j: usize = 0;
        while j < n
            invariant
                m.wf(),
                w.wf(),
                w.n == n,
                m.n == n,
                m.is_binary(),
                i < n,
                j <= n,
                total == had_sum(*m, *w, i as int) + had_row(*m, *w, i as int, j as int),
            decreases n - j,
        {
            proof {
                lemma_had_sum_bounds(*m, *w, i as int);
                lemma_had_row_bounds(*m, *w, i as int, j as int);
                assert(had_sum(*m, *w, i as int) <= 0xFFFF * (0x10000 * (u64::MAX as int)))
                    by (nonlinear_arith)
                    requires
                        had_sum(*m, *w, i as int) <= (i as int) * (0x10000 * (u64::MAX as int)),
                        0 <= i as int <= 0xFFFF;
                assert(had_row(*m, *w, i as int, j as int) <= 0xFFFF * (u64::MAX as int))
                    by (nonlinear_arith)
                    requires
                        had_row(*m, *w, i as int, j as int) <= (j as int) * (u64::MAX as int),
                        0 <= j as int <= 0xFFFF;
            }
            let mv = m.get(i, j);
            let wv = w.get(i, j);
            proof {
                assert((mv as int) * (wv as int) <= u64::MAX as int) by (nonlinear_arith)
                    requires 0 <= mv as int <= 1 && 0 <= wv as int <= u64::MAX as int;
            }
            let term: u128 = (mv as u128) * (wv as u128);
            total = total + term;
            j = j + 1;
        }
        i = i + 1;
    }
    total / 2
}

/// Scaling a row's weights scales its weighted sum.
proof fn lemma_had_row_scaled(m: Matrix, w: Matrix, sw: Matrix, c: u64, i: int, upto: int)
    requires
        w.n == m.n,
        sw.n == m.n,
        0 <= i < m.n,
        0 <= upto <= m.n,
        forall|a: int, b: int|
            0 <= a < m.n && 0 <= b < m.n
                ==> (#[trigger] sw.at(a, b)) as int == (c as int) * (w.at(a, b) as int),
    ensures
        had_row(m, sw, i, upto) == (c as int) * had_row(m, w, i, upto),
    decreases upto,
{
    if upto > 0 {
        lemma_had_row_scaled(m, w, sw, c, i, upto - 1);
        let mv = m.at(i, upto - 1) as int;
        let wv = w.at(i, upto - 1) as int;
        let prev = had_row(m, w, i, upto - 1);
        assert(mv * ((c as int) * wv) == (c as int) * (mv * wv)) by (nonlinear_arith);
        assert((c as int) * prev + (c as int) * (mv * wv) == (c as int) * (prev + mv * wv))
            by (nonlinear_arith);
    }
}

/// Law of grading (linearity): scaling every weight by a positive factor `c`
/// scales the Hadamard sum by `c`; and whenever that sum is even — so the
/// integer halving is exact — the grade of a non-degenerate solution scales
/// by `c` as well.
pub proof fn lemma_grading_linear(m: Matrix, w: Matrix, sw: Matrix, c: u64)
    requires
        m.wf(),
        w.wf(),
        sw.wf(),
        w.n == m.n,
        sw.n == m.n,
        m.is_binary(),
        c > 0,
        forall|a: int, b: int|
            0 <= a < m.n && 0 <= b < m.n
                ==> (#[trigger] sw.at(a, b)) as int == (c as int) * (w.at(a, b) as int),
    ensures
        had_sum(m, sw, m.n as int) == (c as int) * had_sum(m, w, m.n as int),
        !m.is_zero() && had_sum(m, w, m.n as int) % 2 == 0
            ==> (cost_spec(m, sw) as int) == (c as int) * (cost_spec(m, w) as int),
{
    let n = m.n as int;
    assert forall|upto: int| 0 <= upto <= n implies had_sum(m, sw, upto) == (c as int) * had_sum(
        m, w, upto) by {
        lemma_had_sum_scaled_rec(m, w, sw, c, upto);
    }
    if !m.is_zero() && had_sum(m, w, n) % 2 == 0 {
        let s = had_sum(m, w, n);
        let cs = had_sum(m, sw, n);
        lemma_had_sum_bounds(m, w, n);
        lemma_had_sum_bounds(m, sw, n);
        vstd::arithmetic::div_mod::lemma_fundamental_div_mod(s, 2);
        assert(s == 2 * (s / 2));
        assert(cs == (c as int) * (2 * (s / 2)));
        assert((c as int) * (2 * (s / 2)) == 2 * ((c as int) * (s / 2))) by (nonlinear_arith);
        assert(cs / 2 == (c as int) * (s / 2)) by (nonlinear_arith)
            requires cs == 2 * ((c as int) * (s / 2));
    }
}

/// One entrywise product.
spec fn had_term(m: Matrix, w: Matrix, i: int, j: int) -> int {
    (m.at(i, j) as int) * (w.at(i, j) as int)
}

/// Hadamard sum over the rectangle of `rows` rows and `cols` columns.
spec fn had_rect(m: Matrix, w: Matrix, rows: int, cols: int) -> int
    decreases rows,
{
    if rows <= 0 {
        0
    } else {
        had_rect(m, w, rows - 1, cols) + had_row(m, w, rows - 1, cols)
    }
}

/// Sum of column `j`'s terms over the first `rows` rows.
spec fn col_terms(m: Matrix, w: Matrix, rows: int, j: int) -> int
    decreases rows,
{
    if rows <= 0 {
        0
    } else {
        col_terms(m, w, rows - 1, j) + had_term(m, w, rows - 1, j)
    }
}

/// The full Hadamard sum is the rectangle of all rows and all columns.
proof fn lemma_had_sum_is_rect(m: Matrix, w: Matrix, upto: int)
    requires
        0 <= upto,
    ensures
        had_sum(m, w, upto) == had_rect(m, w, upto, m.n as int),
    decreases upto,
{
    if upto > 0 {
        lemma_had_sum_is_rect(m, w, upto - 1);
    }
}

/// Peeling the last column off a rectangle leaves that column's terms.
proof fn lemma_rect_peel_col(m: Matrix, w: Matrix, rows: int, c: int)
    requires
        0 <= rows,
        1 <= c,
    ensures
        had_rect(m, w, rows, c) == had_rect(m, w, rows, c - 1) + col_terms(m, w, rows, c - 1),
    decreases rows,
{
    if rows > 0 {
        lemma_rect_peel_col(m, w, rows - 1, c);
    }
}

/// With symmetric factors a column's terms are the same-numbered row's.
proof fn lemma_col_terms_eq_row(m: Matrix, w: Matrix, rows: int, j: int)
    requires
        w.n == m.n,
        m.is_symmetric(),
        w.is_symmetric(),
        0 <= rows <= m.n,
        0 <= j < m.n,
    ensures
        col_terms(m, w, rows, j) == had_row(m, w, j, rows),
    decreases rows,
{
    if rows > 0 {
        lemma_col_terms_eq_row(m, w, rows - 1, j);
        assert(m.at(rows - 1, j) == m.at(j, rows - 1));
        assert(w.at(rows - 1, j) == w.at(j, rows - 1));
    }
}

/// Inductive core of `lemma_symmetric_grading_even`: every square prefix of
/// the sum is even.
proof fn lemma_square_rect_even(m: Matrix, w: Matrix, k: int)
    requires
        w.n == m.n,
        m.is_symmetric(),
        w.is_symmetric(),
        forall|i: int| 0 <= i < m.n ==> #[trigger] m.at(i, i) == 0,
        0 <= k <= m.n,
    ensures
        had_rect(m, w, k, k) % 2 == 0,
    decreases k,
{
    if k > 0 {
        lemma_square_rect_even(m, w, k - 1);
        lemma_rect_peel_col(m, w, k - 1, k);
        lemma_col_terms_eq_row(m, w, k - 1, k - 1);
        assert(had_term(m, w, k - 1, k - 1) == 0) by (nonlinear_arith)
            requires m.at(k - 1, k - 1) == 0;
        let a = had_rect(m, w, k - 1, k - 1);
        let b = had_row(m, w, k - 1, k - 1);
        assert(had_rect(m, w, k, k) == a + 2 * b);
        assert((a + 2 * b) % 2 == a % 2) by (nonlinear_arith);
    }
}

/// Law of grading, the exactness side: against a symmetric weight matrix,
/// the Hadamard sum of a symmetric adjacency matrix with an empty diagonal —
/// every tour's is such — is even, so its integer halving in `cost_spec`
/// loses nothing and `lemma_grading_linear` scales the cost exactly.
pub proof fn lemma_symmetric_grading_even(m: Matrix, w: Matrix)
    requires
        w.n == m.n,
        m.is_symmetric(),
        w.is_symmetric(),
        forall|i: int| 0 <= i < m.n ==> #[trigger] m.at(i, i) == 0,
    ensures
        had_sum(m, w, m.n as int) % 2 == 0,
{
    lemma_had_sum_is_rect(m, w, m.n as int);
    lemma_square_rect_even(m, w, m.n as int);
}

/// Inductive core of `lemma_grading_linear`.
proof fn lemma_had_sum_scaled_rec(m: Matrix, w: Matrix, sw: Matrix, c: u64, upto: int)
    requires
        w.n == m.n,
        sw.n == m.n,
        0 <= upto <= m.n,
        forall|a: int, b: int|
            0 <= a < m.n && 0 <= b < m.n
                ==> (#[trigger] sw.at(a, b)) as int == (c as int) * (w.at(a, b) as int),
    ensures
        had_sum(m, sw, upto) == (c as int) * had_sum(m, w, upto),
    decreases upto,
{
    if upto > 0 {
        lemma_had_sum_scaled_rec(m, w, sw, c, upto - 1);
        lemma_had_row_scaled(m, w, sw, c, upto - 1, m.n as int);
        let prev = had_sum(m, w, upto - 1);
        let row = had_row(m, w, upto - 1, m.n as int);
        assert((c as int) * prev + (c as int) * row == (c as int) * (prev + row))
            by (nonlinear_arith);
    }
}

} // verus!
