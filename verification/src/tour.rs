use vstd::prelude::*;

verus! {

use vstd::pervasive::VecAdditionalExecFns;
use crate::matrix::Matrix;
use crate::rng::{gen_index, gen_below_u128};

/// `order` lists every node of `0..n` exactly once: the order in which one
/// ant visited them.
pub open spec fn valid_order(order: Seq<int>, n: int) -> bool {
    &&& order.len() == n
    &&& forall|k: int| 0 <= k < order.len() ==> 0 <= #[trigger] order[k] < n
    &&& forall|k1: int, k2: int|
        0 <= k1 < k2 < order.len() ==> order[k1] != order[k2]
}

/// The open walk along `order` uses the undirected edge between `i` and `j`:
/// they stand next to each other in the visit order.
pub open spec fn path_uses_edge(order: Seq<int>, i: int, j: int) -> bool {
    exists|k: int|
        0 <= k < order.len() - 1
            && ((#[trigger] order[k] == i && order[k + 1] == j)
                || (order[k] == j && order[k + 1] == i))
}

/// The edge that closes the cycle: from the last visited node back to the
/// first.
pub open spec fn closing_edge(order: Seq<int>, i: int, j: int) -> bool {
    order.len() >= 1 && {
        let a = order[order.len() - 1];
        let b = order[0];
        (a == i && b == j) || (a == j && b == i)
    }
}

/// The closed tour through `order` uses the undirected edge between `i` and
/// `j`.
pub open spec fn cycle_uses_edge(order: Seq<int>, i: int, j: int) -> bool {
    path_uses_edge(order, i, j) || closing_edge(order, i, j)
}

/// 1 for a used edge, 0 for an unused one.
pub open spec fn edge_val(used: bool) -> u64 {
    if used { 1 } else { 0 }
}

/// `m` is exactly the adjacency matrix of the open walk along `order`.
pub open spec fn is_path_matrix(m: Matrix, order: Seq<int>) -> bool {
    forall|i: int, j: int|
        0 <= i < m.n && 0 <= j < m.n
            ==> m.at(i, j) == edge_val(path_uses_edge(order, i, j))
}

/// `m` is exactly the adjacency matrix of the closed tour through `order`.
pub open spec fn is_cycle_matrix(m: Matrix, order: Seq<int>) -> bool {
    forall|i: int, j: int|
        0 <= i < m.n && 0 <= j < m.n
            ==> m.at(i, j) == edge_val(cycle_uses_edge(order, i, j))
}

/// `m` is the adjacency matrix of one closed tour that covers all `n` nodes:
/// a single Hamiltonian cycle, with no sub-cycles.
pub open spec fn is_tour_matrix(m: Matrix, n: int) -> bool {
    exists|order: Seq<int>| valid_order(order, n) && #[trigger] is_cycle_matrix(m, order)
}

/// Total transition weight from `row` toward the nodes of `0..upto` that are
/// still unvisited: the denominator of roulette-wheel sampling.
pub open spec fn unvisited_weight_sum(prob: Matrix, visited: Seq<bool>, row: int, upto: int) -> int
    decreases upto,
{
    if upto <= 0 {
        0
    } else {
        unvisited_weight_sum(prob, visited, row, upto - 1)
            + if !visited[upto - 1] { prob.at(row, upto - 1) as int } else { 0 }
    }
}

/// Every edge between two distinct nodes carries positive weight, so a
/// construction can never get stuck.
pub open spec fn positive_off_diagonal(prob: Matrix) -> bool {
    forall|i: int, j: int|
        0 <= i < prob.n && 0 <= j < prob.n && i != j ==> #[trigger] prob.at(i, j) >= 1
}

/// The partial sums grow with `upto`, and each lies between 0 and
/// `upto` times the largest entry.
proof fn lemma_unvisited_sum_bounds(prob: Matrix, visited: Seq<bool>, row: int, upto: int)
    requires
        upto >= 0,
    ensures
        0 <= unvisited_weight_sum(prob, visited, row, upto),
        unvisited_weight_sum(prob, visited, row, upto) <= upto * (u64::MAX as int),
    decreases upto,
{
    if upto > 0 {
        lemma_unvisited_sum_bounds(prob, visited, row, upto - 1);
        assert((upto - 1) * (u64::MAX as int) + (u64::MAX as int) == upto * (u64::MAX as int))
            by (nonlinear_arith);
    }
}

/// A later partial sum is at least an earlier one.
proof fn lemma_unvisited_sum_mono(prob: Matrix, visited: Seq<bool>, row: int, a: int, b: int)
    requires
        0 <= a <= b,
    ensures
        unvisited_weight_sum(prob, visited, row, a) <= unvisited_weight_sum(prob, visited, row, b),
    decreases b - a,
{
    if a < b {
        lemma_unvisited_sum_mono(prob, visited, row, a, b - 1);
    }
}

/// The sum over the unvisited nodes is at least any single unvisited node's
/// weight.
proof fn lemma_unvisited_sum_term(prob: Matrix, visited: Seq<bool>, row: int, v: int, upto: int)
    requires
        0 <= v < upto,
        !visited[v],
    ensures
        unvisited_weight_sum(prob, visited, row, upto) >= prob.at(row, v) as int,
    decreases upto,
{
    if v == upto - 1 {
        lemma_unvisited_sum_bounds(prob, visited, row, upto - 1);
    } else {
        lemma_unvisited_sum_term(prob, visited, row, v, upto - 1);
    }
}

/// Over an all-zero weight matrix every unvisited sum is zero.
proof fn lemma_unvisited_sum_zero(prob: Matrix, visited: Seq<bool>, row: int, upto: int)
    requires
        prob.is_zero(),
        0 <= row < prob.n,
        upto <= prob.n,
    ensures
        unvisited_weight_sum(prob, visited, row, upto) == 0,
    decreases upto,
{
    if upto > 0 {
        lemma_unvisited_sum_zero(prob, visited, row, upto - 1);
    }
}

/// Fewer than `n` visited nodes leave some node of `0..n` unvisited.
proof fn lemma_some_node_unvisited(order: Seq<int>, n: int)
    requires
        order.len() < n,
    ensures
        exists|v: int| #![trigger order.contains(v)] 0 <= v < n && !order.contains(v),
{
    if forall|v: int| 0 <= v < n ==> #[trigger] order.contains(v) {
        broadcast use vstd::seq_lib::seq_to_set_is_finite;

        vstd::set_lib::lemma_int_range(0, n);
        assert(vstd::set_lib::set_int_range(0, n).subset_of(order.to_set())) by {
            assert forall|x: int| vstd::set_lib::set_int_range(0, n).contains(x)
                implies order.to_set().contains(x) by {
                assert(order.contains(x));
            }
        }
        vstd::set_lib::lemma_len_subset(vstd::set_lib::set_int_range(0, n), order.to_set());
        order.lemma_cardinality_of_set();
        assert(false);
    }
}

/// Membership in a pushed sequence.
proof fn lemma_push_contains(s: Seq<int>, x: int, y: int)
    ensures
        s.push(x).contains(y) <==> (s.contains(y) || y == x),
{
    if s.push(x).contains(y) {
        let k = choose|k: int| 0 <= k < s.push(x).len() && s.push(x)[k] == y;
        if k < s.len() {
            assert(s[k] == y);
        }
    }
    if s.contains(y) {
        let k = choose|k: int| 0 <= k < s.len() && s[k] == y;
        assert(s.push(x)[k] == y);
    }
    if y == x {
        assert(s.push(x)[s.len() as int] == y);
    }
}

/// Sum of row `i` of `m` over columns `0..upto`.
pub open spec fn row_sum(m: Matrix, i: int, upto: int) -> int
    decreases upto,
{
    if upto <= 0 {
        0
    } else {
        row_sum(m, i, upto - 1) + m.at(i, upto - 1)
    }
}

/// Sum of column `j` of `m` over rows `0..upto`.
pub open spec fn col_sum(m: Matrix, j: int, upto: int) -> int
    decreases upto,
{
    if upto <= 0 {
        0
    } else {
        col_sum(m, j, upto - 1) + m.at(upto - 1, j)
    }
}

/// An undirected edge is used in one direction exactly when it is used in the
/// other.
proof fn lemma_cycle_edge_symmetric(order: Seq<int>, i: int, j: int)
    ensures
        cycle_uses_edge(order, i, j) == cycle_uses_edge(order, j, i),
{
    if path_uses_edge(order, i, j) {
        let k = choose|k: int|
            0 <= k < order.len() - 1
                && ((#[trigger] order[k] == i && order[k + 1] == j)
                    || (order[k] == j && order[k + 1] == i));
        assert(path_uses_edge(order, j, i));
    }
    if path_uses_edge(order, j, i) {
        let k = choose|k: int|
            0 <= k < order.len() - 1
                && ((#[trigger] order[k] == j && order[k + 1] == i)
                    || (order[k] == i && order[k + 1] == j));
        assert(path_uses_edge(order, i, j));
    }
}

/// Every node of `0..n` occurs in a valid visit order: `n` distinct values
/// inside `0..n` leave no gap.
proof fn lemma_order_covers(order: Seq<int>, n: int, v: int)
    requires
        valid_order(order, n),
        0 <= v < n,
    ensures
        order.contains(v),
{
    if !order.contains(v) {
        assert(order.no_duplicates());
        order.unique_seq_to_set();
        vstd::set_lib::lemma_int_range(0, n);
        assert(order.to_set().subset_of(vstd::set_lib::set_int_range(0, n))) by {
            assert forall|x: int| order.to_set().contains(x)
                implies vstd::set_lib::set_int_range(0, n).contains(x) by {
                let k = choose|k: int| 0 <= k < order.len() && order[k] == x;
                assert(0 <= order[k] < n);
            }
        }
        assert(!order.to_set().contains(v));
        order.to_set().lemma_subset_not_in_lt(vstd::set_lib::set_int_range(0, n), v);
        assert(false);
    }
}

/// Position of the node before `k0` on the cycle.
spec fn prev_pos(k0: int, n: int) -> int {
    if k0 == 0 { n - 1 } else { k0 - 1 }
}

/// Position of the node after `k0` on the cycle.
spec fn next_pos(k0: int, n: int) -> int {
    if k0 == n - 1 { 0 } else { k0 + 1 }
}

/// On a cycle over at least three nodes, the node at position `k0` is joined
/// to exactly its two cycle neighbours.
proof fn lemma_cycle_neighbors(order: Seq<int>, n: int, k0: int, j: int)
    requires
        valid_order(order, n),
        n >= 3,
        0 <= k0 < n,
    ensures
        cycle_uses_edge(order, order[k0], j)
            <==> (j == order[prev_pos(k0, n)] || j == order[next_pos(k0, n)]),
{
    let x = order[k0];
    // Each direction of the equivalence names the relevant position.
    if j == order[next_pos(k0, n)] {
        if k0 < n - 1 {
            assert(order[k0] == x && order[k0 + 1] == j);
            assert(path_uses_edge(order, x, j));
        } else {
            assert(closing_edge(order, x, j));
        }
    }
    if j == order[prev_pos(k0, n)] {
        if k0 > 0 {
            assert(order[k0 - 1] == j && order[(k0 - 1) + 1] == x);
            assert(path_uses_edge(order, x, j));
        } else {
            assert(closing_edge(order, x, j));
        }
    }
    if cycle_uses_edge(order, x, j) {
        if path_uses_edge(order, x, j) {
            let k = choose|k: int|
                0 <= k < order.len() - 1
                    && ((#[trigger] order[k] == x && order[k + 1] == j)
                        || (order[k] == j && order[k + 1] == x));
            if order[k] == x && order[k + 1] == j {
                assert(k == k0);
                assert(j == order[next_pos(k0, n)]);
            } else {
                assert(k + 1 == k0);
                assert(j == order[prev_pos(k0, n)]);
            }
        } else {
            assert(closing_edge(order, x, j));
            if order[n - 1] == x && order[0] == j {
                assert(k0 == n - 1);
                assert(j == order[next_pos(k0, n)]);
            } else {
                assert(k0 == 0);
                assert(j == order[prev_pos(k0, n)]);
            }
        }
    }
}

/// A row holding 1 exactly at two distinct columns sums to the number of
/// those columns that lie below `upto`.
proof fn lemma_two_indicator_row_sum(m: Matrix, i: int, a: int, b: int, upto: int)
    requires
        a != b,
        0 <= upto <= m.n,
        forall|j: int|
            0 <= j < m.n ==> m.at(i, j) == (if j == a || j == b { 1u64 } else { 0u64 }),
    ensures
        row_sum(m, i, upto) == (if 0 <= a < upto { 1int } else { 0int })
            + (if 0 <= b < upto { 1int } else { 0int }),
    decreases upto,
{
    if upto > 0 {
        lemma_two_indicator_row_sum(m, i, a, b, upto - 1);
    }
}

/// With a symmetric matrix, a column sums as the same-numbered row does.
proof fn lemma_col_sum_eq_row_sum(m: Matrix, j: int, upto: int)
    requires
        m.is_symmetric(),
        0 <= j < m.n,
        0 <= upto <= m.n,
    ensures
        col_sum(m, j, upto) == row_sum(m, j, upto),
    decreases upto,
{
    if upto > 0 {
        lemma_col_sum_eq_row_sum(m, j, upto - 1);
        assert(m.at(upto - 1, j) == m.at(j, upto - 1));
    }
}

/// Law of the constructed solutions: the adjacency matrix of a tour over at
/// least three nodes is symmetric, 0/1-valued, and every row and every column
/// sums to exactly 2 — the used edges form one cycle covering all nodes,
/// which is what `is_tour_matrix` states.
pub proof fn lemma_tour_degrees(m: Matrix, n: int)
    requires
        m.wf(),
        m.n == n,
        n >= 3,
        is_tour_matrix(m, n),
    ensures
        m.is_symmetric(),
        m.is_binary(),
        forall|i: int| 0 <= i < n ==> row_sum(m, i, n) == 2,
        forall|j: int| 0 <= j < n ==> col_sum(m, j, n) == 2,
{
    let order = choose|order: Seq<int>|
        valid_order(order, n) && #[trigger] is_cycle_matrix(m, order);
    assert forall|i: int, j: int|
        0 <= i < n && 0 <= j < n implies m.at(i, j) == m.at(j, i) by {
        lemma_cycle_edge_symmetric(order, i, j);
    }
    assert forall|i: int, j: int|
        0 <= i < n && 0 <= j < n implies m.at(i, j) <= 1 by {
        assert(m.at(i, j) == edge_val(cycle_uses_edge(order, i, j)));
    }
    assert forall|i: int| 0 <= i < n implies row_sum(m, i, n) == 2 by {
        lemma_order_covers(order, n, i);
        let k0 = choose|k0: int| 0 <= k0 < order.len() && order[k0] == i;
        let a = order[prev_pos(k0, n)];
        let b = order[next_pos(k0, n)];
        assert(prev_pos(k0, n) != next_pos(k0, n));
        assert(a != b);
        assert forall|j: int|
            0 <= j < n implies m.at(i, j) == (if j == a || j == b { 1u64 } else { 0u64 }) by {
            lemma_cycle_neighbors(order, n, k0, j);
            assert(m.at(i, j) == edge_val(cycle_uses_edge(order, i, j)));
        }
        lemma_two_indicator_row_sum(m, i, a, b, n);
        assert(0 <= a < n && 0 <= b < n);
    }
    assert forall|j: int| 0 <= j < n implies col_sum(m, j, n) == 2 by {
        lemma_col_sum_eq_row_sum(m, j, n);
    }
}

/// Being a tour matrix reads only the dimension and the stored entries, so
/// an entry-for-entry copy is one as well.
pub proof fn lemma_tour_matrix_congruent(m1: Matrix, m2: Matrix, n: int)
    requires
        m1.n == m2.n,
        m1.data@ == m2.data@,
        is_tour_matrix(m1, n),
    ensures
        is_tour_matrix(m2, n),
{
    let order = choose|order: Seq<int>|
        valid_order(order, n) && #[trigger] is_cycle_matrix(m1, order);
    assert(is_cycle_matrix(m2, order)) by {
        assert forall|i: int, j: int|
            0 <= i < m2.n && 0 <= j < m2.n implies m2.at(i, j) == edge_val(
            cycle_uses_edge(order, i, j)) by {
            assert(m1.at(i, j) == edge_val(cycle_uses_edge(order, i, j)));
        }
    }
    assert(is_tour_matrix(m2, n));
}

/// A tour over at least two nodes never uses a self-loop: its adjacency
/// matrix has an empty diagonal. Together with its symmetry this makes the
/// graded Hadamard sum even against any symmetric weight matrix.
pub proof fn lemma_tour_has_zero_diagonal(m: Matrix, n: int)
    requires
        m.wf(),
        m.n == n,
        n >= 2,
        is_tour_matrix(m, n),
    ensures
        forall|i: int| 0 <= i < n ==> #[trigger] m.at(i, i) == 0,
{
    let order = choose|order: Seq<int>|
        valid_order(order, n) && #[trigger] is_cycle_matrix(m, order);
    assert forall|i: int| 0 <= i < n implies #[trigger] m.at(i, i) == 0 by {
        if path_uses_edge(order, i, i) {
            let k = choose|k: int|
                0 <= k < order.len() - 1
                    && ((#[trigger] order[k] == i && order[k + 1] == i)
                        || (order[k] == i && order[k + 1] == i));
            assert(order[k] == order[k + 1]);
            assert(false);
        }
        assert(!closing_edge(order, i, i));
        assert(m.at(i, i) == edge_val(cycle_uses_edge(order, i, i)));
    }
}

/// Builds one closed tour from the transition-weight matrix, one ant's work.
///
/// Start at a uniformly random node; while nodes remain, draw the next node
/// by roulette-wheel sampling over the weights toward the unvisited nodes, in
/// ascending node order; close the cycle at the end. When no unvisited node
/// is reachable with positive weight, construction aborts and the all-zero
/// sentinel matrix is returned: a recoverable degeneracy, not an error.
pub fn run_ant(prob: &Matrix, rng: &mut rand::rngs::StdRng) -> (r: Matrix)
    requires
        prob.wf(),
        prob.n >= 1,
    ensures
        r.wf(),
        r.n == prob.n,
        r.is_binary(),
        r.is_zero() || is_tour_matrix(r, prob.n as int),
        positive_off_diagonal(*prob) ==> is_tour_matrix(r, prob.n as int),
        prob.is_zero() && prob.n >= 2 ==> r.is_zero(),
{
    let n = prob.n;
    let mut sol = Matrix::zeros(n);
    let mut visited: Vec<bool> = Vec::new();
    let mut k: usize = 0;
    while k < n
        invariant
            k <= n,
            visited.len() == k,
            forall|p: int| 0 <= p < k ==> visited[p] == false,
        decreases n - k,
    {
        visited.push(false);
        k = k + 1;
    }

    let first = gen_index(rng, n);
    visited.set(first, true);
    let mut last = first;
    let mut remaining: usize = n - 1;
    let ghost mut order: Seq<int> = seq![first as int];

    proof {
        assert(order[0] == first as int);
        assert forall|v: int| 0 <= v < n implies visited[v] == order.contains(v) by {
            if v == first {
                assert(order[0] == v);
            } else if order.contains(v) {
                let k0 = choose|k0: int| 0 <= k0 < order.len() && order[k0] == v;
                assert(k0 == 0);
            }
        }
        assert forall|i: int, j: int|
            0 <= i < n && 0 <= j < n implies sol.at(i, j) == edge_val(
            path_uses_edge(order, i, j)) by {
            assert(!path_uses_edge(order, i, j));
        }
    }

    while remaining > 0
        invariant
            prob.wf(),
            prob.n == n,
            n >= 1,
            sol.wf(),
            sol.n == n,
            visited.len() == n,
            last < n,
            first < n,
            remaining < n,
            order.len() + remaining == n,
            order.len() >= 1,
            order[0] == first as int,
            order[order.len() - 1] == last as int,
            forall|k0: int| 0 <= k0 < order.len() ==> 0 <= #[trigger] order[k0] < n,
            forall|k1: int, k2: int|
                0 <= k1 < k2 < order.len() ==> order[k1] != order[k2],
            forall|v: int| 0 <= v < n ==> visited[v] == order.contains(v),
            is_path_matrix(sol, order),
            prob.is_zero() ==> remaining == n - 1,
        decreases remaining,
    {
        // Denominator of the roulette wheel: total weight toward the
        // unvisited nodes.
        let mut sum: u128 = 0;
        let mut v: usize = 0;
        while v < n
            invariant
                prob.wf(),
                prob.n == n,
                last < n,
                v <= n,
                n <= crate::matrix::MAX_DIM,
                visited.len() == n,
                sum == unvisited_weight_sum(*prob, visited@, last as int, v as int),
            decreases n - v,
        {
            proof {
                lemma_unvisited_sum_bounds(*prob, visited@, last as int, v as int);
                assert((v as int) * (u64::MAX as int) + (u64::MAX as int)
                    <= 0x10000 * (u64::MAX as int)) by (nonlinear_arith)
                    requires v < 0x10000;
            }
            if !visited[v] {
                sum = sum + prob.get(last, v) as u128;
            }
            v = v + 1;
        }

        if sum == 0 {
            proof {
                // With positive weights between distinct nodes this branch
                // is unreachable: some node is still unvisited, and it is
                // not the current one, so the denominator is positive.
                if positive_off_diagonal(*prob) {
                    lemma_some_node_unvisited(order, n as int);
                    let v = choose|v: int| 0 <= v < n && !(#[trigger] order.contains(v));
                    assert(visited@[v] == false);
                    assert(order.contains(last as int)) by {
                        assert(order[order.len() - 1] == last as int);
                    }
                    assert(v != last as int);
                    assert(prob.at(last as int, v) >= 1);
                    lemma_unvisited_sum_term(*prob, visited@, last as int, v, n as int);
                    assert(false);
                }
            }
            // No positively weighted unvisited candidate is reachable:
            // abort with the sentinel.
            return Matrix::zeros(n);
        }
        proof {
            // The denominator is positive, so the weight matrix is not the
            // all-zero one.
            if prob.is_zero() {
                lemma_unvisited_sum_zero(*prob, visited@, last as int, n as int);
                assert(false);
            }
        }

        let r = gen_below_u128(rng, sum);

        // Roulette-wheel scan, in ascending node order: pick the first
        // unvisited node whose cumulative weight exceeds the draw.
        let mut acc: u128 = 0;
        let mut next: usize = 0;
        let mut found = false;
        let mut w: usize = 0;
        while w < n && !found
            invariant
                prob.wf(),
                prob.n == n,
                last < n,
                w <= n,
                n <= crate::matrix::MAX_DIM,
                visited.len() == n,
                sum == unvisited_weight_sum(*prob, visited@, last as int, n as int),
                r < sum,
                !found ==> acc == unvisited_weight_sum(*prob, visited@, last as int, w as int),
                !found ==> acc <= r,
                found ==> next < n && visited[next as int] == false,
            decreases n - w,
        {
            if !visited[w] {
                proof {
                    lemma_unvisited_sum_mono(*prob, visited@, last as int, w as int + 1, n as int);
                    lemma_unvisited_sum_bounds(*prob, visited@, last as int, w as int);
                }
                let acc2 = acc + prob.get(last, w) as u128;
                if r < acc2 {
                    found = true;
                    next = w;
                }
                acc = acc2;
            }
            w = w + 1;
        }
        proof {
            if !found {
                assert(acc == sum);
                assert(false);
            }
        }

        // Use the edge, both symmetric entries, and advance.
        let ghost old_order = order;
        let ghost old_sol = sol;
        proof {
            // `next` is not on the path yet, in particular differs from
            // `last`.
            assert(!old_order.contains(next as int));
            assert(old_order.contains(last as int)) by {
                assert(old_order[old_order.len() - 1] == last as int);
            }
        }
        sol.set(last, next, 1);
        sol.set(next, last, 1);
        visited.set(next, true);
        proof {
            order = order.push(next as int);
        }
        let ghost prev = last as int;
        last = next;
        remaining = remaining - 1;

        proof {
            let m = old_order.len() as int;
            assert(order.len() == m + 1);
            assert(order[m] == next as int);
            assert forall|k0: int| 0 <= k0 < m implies order[k0] == old_order[k0] by {}

            // Visit-set bookkeeping.
            assert forall|v0: int| 0 <= v0 < n implies visited[v0] == order.contains(v0) by {
                lemma_push_contains(old_order, next as int, v0);
            }

            // Distinctness.
            assert forall|k1: int, k2: int|
                0 <= k1 < k2 < order.len() implies order[k1] != order[k2] by {
                if k2 == m {
                    if order[k1] == next as int {
                        assert(old_order.contains(next as int));
                    }
                }
            }

            // The adjacency matrix is exactly the new path's.
            assert forall|i: int, j: int|
                0 <= i < n && 0 <= j < n implies sol.at(i, j) == edge_val(
                path_uses_edge(order, i, j)) by {
                if (i == prev && j == next as int) || (i == next as int && j == prev) {
                    assert(order[m - 1] == prev && order[m] == next as int);
                    assert(path_uses_edge(order, i, j));
                    assert(sol.at(i, j) == 1);
                } else {
                    assert(sol.at(i, j) == old_sol.at(i, j));
                    if path_uses_edge(order, i, j) {
                        let k0 = choose|k0: int|
                            0 <= k0 < order.len() - 1
                                && ((#[trigger] order[k0] == i && order[k0 + 1] == j)
                                    || (order[k0] == j && order[k0 + 1] == i));
                        if k0 == m - 1 {
                            assert(false);
                        } else {
                            assert(old_order[k0] == order[k0]
                                && old_order[k0 + 1] == order[k0 + 1]);
                            assert(path_uses_edge(old_order, i, j));
                        }
                    }
                    if path_uses_edge(old_order, i, j) {
                        let k0 = choose|k0: int|
                            0 <= k0 < old_order.len() - 1
                                && ((#[trigger] old_order[k0] == i && old_order[k0 + 1] == j)
                                    || (old_order[k0] == j && old_order[k0 + 1] == i));
                        assert(order[k0] == old_order[k0] && order[k0 + 1] == old_order[k0 + 1]);
                        assert(path_uses_edge(order, i, j));
                    }
                }
            }
        }
    }

    // Close the cycle.
    let ghost pre_close = sol;
    sol.set(last, first, 1);
    sol.set(first, last, 1);

    proof {
        assert(order.len() == n);
        assert forall|i: int, j: int|
            0 <= i < n && 0 <= j < n implies sol.at(i, j) == edge_val(
            cycle_uses_edge(order, i, j)) by {
            if (i == last as int && j == first as int)
                || (i == first as int && j == last as int) {
                assert(closing_edge(order, i, j));
                assert(sol.at(i, j) == 1);
            } else {
                assert(sol.at(i, j) == pre_close.at(i, j));
                assert(!closing_edge(order, i, j));
            }
        }
        assert(valid_order(order, n as int));
        assert(is_cycle_matrix(sol, order));
        assert(is_tour_matrix(sol, n as int));
        // Over the all-zero weight matrix the loop can never complete an
        // iteration, so this exit is reached only for a single node.
        if prob.is_zero() && n >= 2 {
            assert(false);
        }
        assert forall|i: int, j: int|
            0 <= i < n && 0 <= j < n implies sol.at(i, j) <= 1 by {
            assert(sol.at(i, j) == edge_val(cycle_uses_edge(order, i, j)));
        }
    }
    sol
}


} // verus!
