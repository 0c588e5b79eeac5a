use vstd::prelude::*;

verus! {

use vstd::pervasive::VecAdditionalExecFns;

/// Greatest problem dimension the library accepts. It keeps `n * n` within
/// `usize` on every platform and keeps the sums the library forms within `u128`.
pub const MAX_DIM: usize = 0xFFFF;

/// Square matrix of unsigned 64-bit entries, stored row-major.
///
/// All pheromone, heuristic, transition-weight and adjacency data of the
/// library lives in values of this type.
pub struct Matrix {
    pub n: usize,
    pub data: Vec<u64>,
}

/// Places row `i`, column `j` of an `n`-dimensional square matrix in its
/// row-major storage.
pub open spec fn rm_index(n: int, i: int, j: int) -> int {
    i * n + j
}

/// Row-major placement stays within the storage and is injective.
pub proof fn lemma_rm_index(n: int, i: int, j: int)
    requires
        0 <= i < n,
        0 <= j < n,
    ensures
        0 <= rm_index(n, i, j) < n * n,
        forall|i2: int, j2: int|
            0 <= i2 < n && 0 <= j2 < n && rm_index(n, i2, j2) == rm_index(n, i, j)
                ==> i2 == i && j2 == j,
{
    assert(0 <= i * n + j < n * n) by (nonlinear_arith)
        requires 0 <= i < n && 0 <= j < n;
    assert forall|i2: int, j2: int|
        0 <= i2 < n && 0 <= j2 < n && rm_index(n, i2, j2) == rm_index(n, i, j)
        implies i2 == i && j2 == j by {
        assert(i2 * n + j2 == i * n + j ==> i2 == i && j2 == j) by (nonlinear_arith)
            requires 0 <= i < n && 0 <= j < n && 0 <= i2 < n && 0 <= j2 < n;
    }
}

/// Every storage position is the placement of exactly one row/column pair.
pub proof fn lemma_rm_index_onto(n: int, k: int)
    requires
        0 < n,
        0 <= k < n * n,
    ensures
        0 <= k / n < n,
        0 <= k % n < n,
        rm_index(n, k / n, k % n) == k,
{
    vstd::arithmetic::div_mod::lemma_fundamental_div_mod(k, n);
    assert(k / n < n) by (nonlinear_arith)
        requires 0 < n && 0 <= k < n * n && k == n * (k / n) + k % n && 0 <= k % n < n;
    assert((k / n) * n + k % n == k) by (nonlinear_arith)
        requires k == n * (k / n) + k % n;
}

impl Matrix {
    /// Structural invariant: row-major storage of an `n`-by-`n` matrix with a
    /// bounded dimension.
    pub open spec fn wf(self) -> bool {
        self.n <= MAX_DIM && self.data.len() == self.n * self.n
    }

    /// Entry in row `i`, column `j`.
    pub open spec fn at(self, i: int, j: int) -> u64 {
        self.data[rm_index(self.n as int, i, j)]
    }

    /// Every entry equals `v`.
    pub open spec fn all_entries(self, v: u64) -> bool {
        forall|i: int, j: int|
            0 <= i < self.n && 0 <= j < self.n ==> self.at(i, j) == v
    }

    /// The all-zero matrix: the sentinel a degenerate construction returns.
    pub open spec fn is_zero(self) -> bool {
        self.all_entries(0)
    }

    /// Entries are all 0 or 1, as an adjacency matrix's must be.
    pub open spec fn is_binary(self) -> bool {
        forall|i: int, j: int|
            0 <= i < self.n && 0 <= j < self.n ==> self.at(i, j) <= 1
    }

    /// The matrix equals its transpose.
    pub open spec fn is_symmetric(self) -> bool {
        forall|i: int, j: int|
            0 <= i < self.n && 0 <= j < self.n ==> self.at(i, j) == self.at(j, i)
    }

    /// Square matrix with every entry `v`.
    pub fn filled(n: usize, v: u64) -> (r: Matrix)
        requires
            n <= MAX_DIM,
        ensures
            r.wf(),
            r.n == n,
            r.all_entries(v),
    {
        proof {
            assert(n * n <= MAX_DIM * MAX_DIM) by (nonlinear_arith)
                requires n <= MAX_DIM;
        }
        let total: usize = n * n;
        let mut data: Vec<u64> = Vec::new();
        let mut k: usize = 0;
        while k < total
            invariant
                k <= total,
                data.len() == k,
                forall|p: int| 0 <= p < k ==> data[p] == v,
            decreases total - k,
        {
            data.push(v);
            k = k + 1;
        }
        let r = Matrix { n, data };
        proof {
            assert forall|i: int, j: int|
                0 <= i < n && 0 <= j < n implies r.at(i, j) == v by {
                lemma_rm_index(n as int, i, j);
            }
        }
        r
    }

    /// The all-zero square matrix.
    pub fn zeros(n: usize) -> (r: Matrix)
        requires
            n <= MAX_DIM,
        ensures
            r.wf(),
            r.n == n,
            r.is_zero(),
    {
        Matrix::filled(n, 0)
    }

    /// Reads one entry.
    pub fn get(&self, i: usize, j: usize) -> (r: u64)
        requires
            self.wf(),
            i < self.n,
            j < self.n,
        ensures
            r == self.at(i as int, j as int),
    {
        proof {
            lemma_rm_index(self.n as int, i as int, j as int);
            assert(self.n * self.n <= MAX_DIM * MAX_DIM) by (nonlinear_arith)
                requires self.n <= MAX_DIM;
        }
        self.data[i * self.n + j]
    }

    /// Writes one entry; every other entry is unchanged.
    pub fn set(&mut self, i: usize, j: usize, v: u64)
        requires
            old(self).wf(),
            i < old(self).n,
            j < old(self).n,
        ensures
            final(self).wf(),
            final(self).n == old(self).n,
            final(self).at(i as int, j as int) == v,
            forall|i2: int, j2: int|
                0 <= i2 < old(self).n && 0 <= j2 < old(self).n
                    && !(i2 == i && j2 == j)
                    ==> final(self).at(i2, j2) == old(self).at(i2, j2),
    {
        proof {
            lemma_rm_index(self.n as int, i as int, j as int);
            assert(self.n * self.n <= MAX_DIM * MAX_DIM) by (nonlinear_arith)
                requires self.n <= MAX_DIM;
        }
        let idx: usize = i * self.n + j;
        self.data.set(idx, v);
        proof {
            assert forall|i2: int, j2: int|
                0 <= i2 < self.n && 0 <= j2 < self.n && !(i2 == i && j2 == j)
                implies self.at(i2, j2) == old(self).at(i2, j2) by {
                lemma_rm_index(self.n as int, i2, j2);
                lemma_rm_index(self.n as int, i as int, j as int);
            }
        }
    }

    /// Reports whether the structural invariant holds; the engine runs this
    /// over matrices that cross the library's boundary.
    pub fn check_wf(&self) -> (b: bool)
        ensures
            b == self.wf(),
    {
        if self.n > MAX_DIM {
            return false;
        }
        proof {
            assert(self.n * self.n <= MAX_DIM * MAX_DIM) by (nonlinear_arith)
                requires self.n <= MAX_DIM;
        }
        self.data.len() == self.n * self.n
    }

    /// Reports whether every entry is zero, i.e. whether the matrix is the
    /// degeneracy sentinel.
    pub fn is_all_zero(&self) -> (r: bool)
        requires
            self.wf(),
        ensures
            r == self.is_zero(),
    {
        let total: usize = self.data.len();
        let mut k: usize = 0;
        let mut all: bool = true;
        while k < total
            invariant
                self.wf(),
                total == self.data.len(),
                k <= total,
                all == forall|p: int| 0 <= p < k ==> self.data[p] == 0,
            decreases total - k,
        {
            if self.data[k] != 0 {
                all = false;
            }
            k = k + 1;
        }
        proof {
            if all {
                assert forall|i: int, j: int|
                    0 <= i < self.n && 0 <= j < self.n implies self.at(i, j) == 0 by {
                    lemma_rm_index(self.n as int, i, j);
                }
            } else {
                let p = choose|p: int| 0 <= p < total && self.data[p] != 0;
                assert(0 < self.n) by {
                    if self.n == 0 {
                        assert(self.n * self.n == 0) by (nonlinear_arith)
                            requires self.n == 0;
                    }
                }
                lemma_rm_index_onto(self.n as int, p);
                assert(self.at(p / (self.n as int), p % (self.n as int)) != 0);
            }
        }
        all
    }

    /// An entry-for-entry copy.
    pub fn duplicate(&self) -> (r: Matrix)
        requires
            self.wf(),
        ensures
            r.wf(),
            r.n == self.n,
            r.data@ == self.data@,
            forall|i: int, j: int|
                0 <= i < self.n && 0 <= j < self.n ==> r.at(i, j) == self.at(i, j),
    {
        let total: usize = self.data.len();
        let mut data: Vec<u64> = Vec::new();
        let mut k: usize = 0;
        while k < total
            invariant
                total == self.data.len(),
                k <= total,
                data.len() == k,
                forall|p: int| 0 <= p < k ==> data[p] == self.data[p],
            decreases total - k,
        {
            data.push(self.data[k]);
            k = k + 1;
        }
        proof {
            assert(data@ =~= self.data@);
        }
        Matrix { n: self.n, data }
    }
}

} // verus!
