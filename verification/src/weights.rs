use vstd::prelude::*;

verus! {

use vstd::arithmetic::power::{pow, lemma_pow0};
use crate::matrix::{Matrix, lemma_rm_index, rm_index};

/// `b` to the power `e`, saturating at `u64::MAX`.
pub open spec fn pow_sat_spec(b: u64, e: u32) -> u64 {
    if pow(b as int, e as nat) <= u64::MAX {
        pow(b as int, e as nat) as u64
    } else {
        u64::MAX
    }
}

/// Transition weight of one edge: pheromone to the `alpha`, times heuristic to
/// the `beta`, saturating at `u64::MAX`. A zero base with a zero exponent
/// yields the factor 1, so such an edge stays reachable.
pub open spec fn weight_spec(p: u64, h: u64, alpha: u32, beta: u32) -> u64 {
    let exact = pow(p as int, alpha as nat) * pow(h as int, beta as nat);
    if exact <= u64::MAX {
        exact as u64
    } else {
        u64::MAX
    }
}

/// A power of a non-negative base is non-negative, and a positive power of
/// zero is zero.
proof fn lemma_pow_base_cases(b: int, e: nat)
    requires
        b >= 0,
    ensures
        pow(b, e) >= 0,
        b == 0 && e >= 1 ==> pow(b, e) == 0,
        e == 0 ==> pow(b, e) == 1,
    decreases e,
{
    reveal(pow);
    if e >= 1 {
        lemma_pow_base_cases(b, (e - 1) as nat);
        assert(pow(b, e) == b * pow(b, (e - 1) as nat));
        assert(b * pow(b, (e - 1) as nat) >= 0) by (nonlinear_arith)
            requires b >= 0 && pow(b, (e - 1) as nat) >= 0;
    }
}

/// `base^exp` with saturation at `u64::MAX`.
fn pow_sat(b: u64, e: u32) -> (r: u64)
    ensures
        r == pow_sat_spec(b, e),
{
    let mut acc: u64 = 1;
    let mut k: u32 = 0;
    proof {
        lemma_pow0(b as int);
    }
    while k < e
        invariant
            k <= e,
            acc == pow_sat_spec(b, k),
        decreases e - k,
    {
        let ghost pk = pow(b as int, k as nat);
        let ghost pk1 = pow(b as int, (k + 1) as nat);
        proof {
            lemma_pow_base_cases(b as int, k as nat);
            lemma_pow_base_cases(b as int, (k + 1) as nat);
            assert(pk1 == (b as int) * pk) by {
                reveal(pow);
            }
        }
        let next = match acc.checked_mul(b) {
            Some(v) => v,
            None => u64::MAX,
        };
        proof {
            if pk <= u64::MAX {
                assert(acc == pk);
                assert(pk1 == acc * b) by (nonlinear_arith)
                    requires pk1 == (b as int) * pk && acc == pk;
            } else {
                assert(acc == u64::MAX);
                // The base must be at least 1, else the power could not
                // exceed u64::MAX.
                assert(b >= 1);
                assert(pk1 > u64::MAX) by (nonlinear_arith)
                    requires pk1 == (b as int) * pk && b >= 1 && pk > u64::MAX;
                if b == 1 {
                    assert(next == u64::MAX);
                } else {
                    assert((acc as int) * (b as int) > u64::MAX) by (nonlinear_arith)
                        requires acc == u64::MAX && b >= 2;
                    assert(next == u64::MAX);
                }
            }
        }
        acc = next;
        k = k + 1;
    }
    acc
}

/// One transition weight: `p^alpha * h^beta` with saturation.
pub fn calc_prob(p: u64, h: u64, alpha: u32, beta: u32) -> (r: u64)
    ensures
        r == weight_spec(p, h, alpha, beta),
{
    let pa = pow_sat(p, alpha);
    let hb = pow_sat(h, beta);
    let r = match pa.checked_mul(hb) {
        Some(v) => v,
        None => u64::MAX,
    };
    proof {
        let a = pow(p as int, alpha as nat);
        let b = pow(h as int, beta as nat);
        lemma_pow_base_cases(p as int, alpha as nat);
        lemma_pow_base_cases(h as int, beta as nat);
        if a <= u64::MAX && b <= u64::MAX {
            assert(pa == a && hb == b);
        } else if b == 0 {
            assert(hb == 0);
            assert(a * b == 0) by (nonlinear_arith)
                requires b == 0;
            assert((pa as int) * (hb as int) == 0) by (nonlinear_arith)
                requires hb == 0;
        } else if a == 0 {
            assert(pa == 0);
            assert(a * b == 0) by (nonlinear_arith)
                requires a == 0;
            assert((pa as int) * (hb as int) == 0) by (nonlinear_arith)
                requires pa == 0;
        } else {
            // At least one factor saturated and both are positive, so both
            // the exact product and the computed one land on u64::MAX.
            assert(a >= 1 && b >= 1);
            assert(a > u64::MAX || b > u64::MAX);
            assert(a * b > u64::MAX) by (nonlinear_arith)
                requires a >= 1 && b >= 1 && (a > u64::MAX || b > u64::MAX);
            assert(pa >= 1 && hb >= 1);
            assert(pa == u64::MAX || hb == u64::MAX);
            assert((pa as int) * (hb as int) >= u64::MAX) by (nonlinear_arith)
                requires pa >= 1 && hb >= 1 && (pa == u64::MAX || hb == u64::MAX);
            assert(r == u64::MAX);
        }
    }
    r
}

/// Combines a pheromone and a heuristic matrix into the transition-weight
/// matrix, the probability-matrix building step. The result has the
/// dimension of its inputs, and every entry is the saturated
/// `p^alpha * h^beta`; being unsigned, every entry is non-negative.
pub fn build_weights(pheromone: &Matrix, heuristic: &Matrix, alpha: u32, beta: u32) -> (r: Matrix)
    requires
        pheromone.wf(),
        heuristic.wf(),
        heuristic.n == pheromone.n,
    ensures
        r.wf(),
        r.n == pheromone.n,
        forall|i: int, j: int|
            0 <= i < r.n && 0 <= j < r.n
                ==> r.at(i, j) == weight_spec(
                    pheromone.at(i, j),
                    heuristic.at(i, j),
                    alpha,
                    beta,
                ),
{
    let n = pheromone.n;
    let ghost nn = (n * n) as int;
    let mut data: Vec<u64> = Vec::new();
    let mut i: usize = 0;
    while i < n
        invariant
            pheromone.wf(),
            heuristic.wf(),
            heuristic.n == n,
            pheromone.n == n,
            i <= n,
            nn == n * n,
            data.len() == i * n,
            forall|a: int, b: int|
                0 <= a < n && 0 <= b < n && rm_index(n as int, a, b) < data.len()
                    ==> data[rm_index(n as int, a, b)] == weight_spec(
                        pheromone.at(a, b),
                        heuristic.at(a, b),
                        alpha,
                        beta,
                    ),
        decreases n - i,
    {
        let mut j: usize = 0;
        proof {
            assert(i * n + n <= n * n) by (nonlinear_arith)
                requires i < n;
        }
        while j < n
            invariant
                pheromone.wf(),
                heuristic.wf(),
                heuristic.n == n,
                pheromone.n == n,
                i < n,
                j <= n,
                nn == n * n,
                i * n + n <= n * n,
                data.len() == i * n + j,
                forall|a: int, b: int|
                    0 <= a < n && 0 <= b < n && rm_index(n as int, a, b) < data.len()
                        ==> data[rm_index(n as int, a, b)] == weight_spec(
                            pheromone.at(a, b),
                            heuristic.at(a, b),
                            alpha,
                            beta,
                        ),
            decreases n - j,
        {
            let w = calc_prob(pheromone.get(i, j), heuristic.get(i, j), alpha, beta);
            proof {
                lemma_rm_index(n as int, i as int, j as int);
            }
            data.push(w);
            proof {
                assert forall|a: int, b: int|
                    0 <= a < n && 0 <= b < n && rm_index(n as int, a, b) < data.len()
                    implies data[rm_index(n as int, a, b)] == weight_spec(
                        pheromone.at(a, b),
                        heuristic.at(a, b),
                        alpha,
                        beta,
                    ) by {
                    lemma_rm_index(n as int, a, b);
                    if rm_index(n as int, a, b) == data.len() - 1 {
                        assert(a == i && b == j);
                    }
                }
            }
            j = j + 1;
        }
        proof {
            assert(i * n + n == (i + 1) * n) by (nonlinear_arith);
        }
        i = i + 1;
    }
    let r = Matrix { n, data };
    proof {
        assert forall|a: int, b: int|
            0 <= a < n && 0 <= b < n
            implies r.at(a, b) == weight_spec(
                pheromone.at(a, b),
                heuristic.at(a, b),
                alpha,
                beta,
            ) by {
            lemma_rm_index(n as int, a, b);
        }
    }
    r
}

} // verus!
