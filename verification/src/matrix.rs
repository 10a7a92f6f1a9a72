//! Dense rank-2 storage with an optional sparsity descriptor, BLAS-2/3 style
//! operations, triplet construction, and the indexed-write primitive used by
//! the sparse Jacobian path.  A matrix is a sequence of columns; the view is
//! `Seq<Seq<int>>` (column-major), and every operation is pinned to spec
//! functions over the fixed-point arithmetic.
use vstd::prelude::*;

use crate::scalar::{add_fx, fx_in_range, mul_fx, Fixed};
use crate::vector::Vector;
use crate::SolverError;

verus! {

/// Well-formed column-major view: every column has length `nrows` and every
/// entry is an admissible scalar.
pub open spec fn mat_wf(m: Seq<Seq<int>>, nrows: int) -> bool {
    &&& forall|j: int| 0 <= j < m.len() ==> (#[trigger] m[j]).len() == nrows
    &&& forall|j: int, i: int|
        0 <= j < m.len() && 0 <= i < nrows ==> fx_in_range(#[trigger] m[j][i])
}

/// The all-zero column-major view of the given shape.
pub open spec fn zeros_mat(nrows: int, ncols: int) -> Seq<Seq<int>> {
    Seq::new(ncols as nat, |j: int| Seq::new(nrows as nat, |i: int| 0int))
}

/// Membership of a position in a sparsity pattern view.
pub open spec fn pattern_contains(s: Seq<(int, int)>, i: int, j: int) -> bool {
    exists|k: int| 0 <= k < s.len() && s[k] == (i, j)
}

/// Column-major strict order on a list of (row, col) positions.
pub open spec fn pattern_sorted(s: Seq<(int, int)>) -> bool {
    forall|a: int, b: int|
        0 <= a < b < s.len() ==> ((#[trigger] s[a]).1 < (#[trigger] s[b]).1 || (s[a].1 == s[b].1
            && s[a].0 < s[b].0))
}

/// All positions within an `nrows` x `ncols` shape.
pub open spec fn pattern_in_bounds(s: Seq<(int, int)>, nrows: int, ncols: int) -> bool {
    forall|k: int|
        0 <= k < s.len() ==> 0 <= (#[trigger] s[k]).0 < nrows && 0 <= s[k].1 < ncols
}

/// Partial fixed-point dot product of row `i` with `x` over the first `k`
/// columns, in the accumulation order the executable code uses.
pub open spec fn row_dot_prefix(m: Seq<Seq<int>>, x: Seq<int>, i: int, k: int) -> int
    decreases k,
{
    if k <= 0 {
        0
    } else {
        add_fx(row_dot_prefix(m, x, i, k - 1), mul_fx(m[k - 1][i], x[k - 1]))
    }
}

/// Fixed-point dot product of row `i` with `x`.
pub open spec fn row_dot(m: Seq<Seq<int>>, x: Seq<int>, i: int) -> int {
    row_dot_prefix(m, x, i, m.len() as int)
}

/// The result of `y <- alpha * m * x + beta * y` in fixed-point arithmetic.
pub open spec fn gemv_fx(m: Seq<Seq<int>>, x: Seq<int>, alpha: int, beta: int, y: Seq<int>)
    -> Seq<int> {
    Seq::new(y.len(), |i: int| add_fx(mul_fx(alpha, row_dot(m, x, i)), mul_fx(beta, y[i])))
}

/// Result of applying the first `k` (row, col, value) triplets onto `m`,
/// later writes winning.
pub open spec fn apply_triplets(m: Seq<Seq<int>>, ts: Seq<(int, int, int)>, k: int)
    -> Seq<Seq<int>>
    decreases k,
{
    if k <= 0 {
        m
    } else {
        let prev = apply_triplets(m, ts, k - 1);
        let t = ts[k - 1];
        prev.update(t.1, prev[t.1].update(t.0, t.2))
    }
}

/// Result of the first `k` indexed writes `m[dst[k]] = data[src[k]]`.
pub open spec fn apply_pairs(
    m: Seq<Seq<int>>,
    dst: Seq<(usize, usize)>,
    src: Seq<int>,
    data: Seq<int>,
    k: int,
) -> Seq<Seq<int>>
    decreases k,
{
    if k <= 0 {
        m
    } else {
        let prev = apply_pairs(m, dst, src, data, k - 1);
        let i = dst[k - 1].0 as int;
        let j = dst[k - 1].1 as int;
        prev.update(j, prev[j].update(i, data[src[k - 1]]))
    }
}

/// The mathematical view of a triplet list.
pub open spec fn trip_view(ts: Seq<(usize, usize, Fixed)>) -> Seq<(int, int, int)> {
    Seq::new(ts.len(), |k: int| (ts[k].0 as int, ts[k].1 as int, ts[k].2@))
}

/// The set of (row, col) positions declared nonzero for a sparse matrix.
#[derive(Debug)]
pub struct SparsityPattern {
    nrows: usize,
    ncols: usize,
    entries: Vec<(usize, usize)>,
}

impl View for SparsityPattern {
    type V = Seq<(int, int)>;

    closed spec fn view(&self) -> Seq<(int, int)> {
        Seq::new(self.entries@.len(), |k: int| (self.entries@[k].0 as int, self.entries@[k].1 as int))
    }
}

impl SparsityPattern {
    pub closed spec fn nrows_spec(&self) -> int {
        self.nrows as int
    }

    pub closed spec fn ncols_spec(&self) -> int {
        self.ncols as int
    }

    pub closed spec fn wf(&self) -> bool {
        pattern_sorted(self@) && pattern_in_bounds(self@, self.nrows as int, self.ncols as int)
    }

    /// Construct a pattern from a list of (row, col) positions, which must be
    /// in bounds and strictly ordered column-major.
    pub fn try_from_indices(nrows: usize, ncols: usize, indices: Vec<(usize, usize)>) -> (r:
        Result<SparsityPattern, SolverError>)
        ensures
            match r {
                Ok(p) => {
                    &&& p.wf()
                    &&& p.nrows_spec() == nrows as int
                    &&& p.ncols_spec() == ncols as int
                    &&& p@.len() == indices@.len()
                    &&& forall|k: int|
                        0 <= k < indices@.len() ==> p@[k] == ((#[trigger] indices@[k]).0 as int, indices@[k].1 as int)
                },
                Err(e) => {
                    ||| (e == SolverError::IndexOutOfBounds && exists|k: int|
                        0 <= k < indices@.len() && ((#[trigger] indices@[k]).0 >= nrows
                            || indices@[k].1 >= ncols))
                    ||| (e == SolverError::DimensionMismatch && exists|a: int, b: int|
                        0 <= a < b < indices@.len() && !((#[trigger] indices@[a]).1
                            < (#[trigger] indices@[b]).1 || (indices@[a].1 == indices@[b].1
                            && indices@[a].0 < indices@[b].0)))
                },
            },
    {
        let ghost iv = Seq::new(
            indices@.len(),
            |k: int| ((indices@[k]).0 as int, indices@[k].1 as int),
        );
        let n = indices.len();
        let mut k: usize = 0;
        while k < n
            invariant
                k <= n,
                n == indices@.len(),
                iv == Seq::new(
                    indices@.len(),
                    |k2: int| ((indices@[k2]).0 as int, indices@[k2].1 as int),
                ),
                forall|k2: int| 0 <= k2 < k ==> 0 <= (#[trigger] iv[k2]).0 < nrows as int && 0 <= iv[k2].1 < ncols as int,
                forall|a: int, b: int|
                    0 <= a < b < k ==> ((#[trigger] iv[a]).1 < (#[trigger] iv[b]).1 || (iv[a].1
                        == iv[b].1 && iv[a].0 < iv[b].0)),
            decreases n - k,
        {
            let (i, j) = indices[k];
            proof {
                assert(indices@[k as int] == (i, j));
            }
            if i >= nrows || j >= ncols {
                return Err(SolverError::IndexOutOfBounds);
            }
            if k > 0 {
                let (pi, pj) = indices[k - 1];
                proof {
                    assert(indices@[k - 1 as int] == (pi, pj));
                }
                if !(pj < j || (pj == j && pi < i)) {
                    return Err(SolverError::DimensionMismatch);
                }
                proof {
                    assert forall|a: int, b: int|
                        0 <= a < b < k + 1 implies ((#[trigger] iv[a]).1 < (#[trigger] iv[b]).1 || (
                        iv[a].1 == iv[b].1 && iv[a].0 < iv[b].0)) by {
                        if b == k as int {
                            assert(iv[k as int] == (i as int, j as int));
                            assert(iv[k - 1 as int] == (pi as int, pj as int));
                            if a < k - 1 {
                                assert(iv[a].1 < iv[k - 1 as int].1 || (iv[a].1 == iv[k - 1 as int].1
                                    && iv[a].0 < iv[k - 1 as int].0));
                            }
                        }
                    }
                }
            }
            k = k + 1;
        }
        let p = SparsityPattern { nrows, ncols, entries: indices };
        proof {
            assert(p@ =~= iv);
        }
        Ok(p)
    }

    pub fn nrows(&self) -> (r: usize)
        ensures
            r as int == self.nrows_spec(),
    {
        self.nrows
    }

    pub fn ncols(&self) -> (r: usize)
        ensures
            r as int == self.ncols_spec(),
    {
        self.ncols
    }

    pub fn len(&self) -> (r: usize)
        ensures
            r == self@.len(),
    {
        self.entries.len()
    }

    pub fn entry(&self, k: usize) -> (r: (usize, usize))
        requires
            k < self@.len(),
        ensures
            (r.0 as int, r.1 as int) == self@[k as int],
    {
        self.entries[k]
    }

    /// Membership test for a position.
    pub fn contains(&self, i: usize, j: usize) -> (r: bool)
        ensures
            r == pattern_contains(self@, i as int, j as int),
    {
        let n = self.entries.len();
        let mut k: usize = 0;
        while k < n
            invariant
                k <= n,
                n == self@.len(),
                forall|k2: int| 0 <= k2 < k ==> #[trigger] self@[k2] != (i as int, j as int),
            decreases n - k,
        {
            let (ei, ej) = self.entries[k];
            if ei == i && ej == j {
                proof {
                    assert(self@[k as int] == (i as int, j as int));
                }
                return true;
            }
            proof {
                assert(self@[k as int] == (ei as int, ej as int));
            }
            k = k + 1;
        }
        false
    }

    /// A fresh copy of this pattern.
    pub fn duplicate(&self) -> (r: SparsityPattern)
        ensures
            r@ == self@,
            r.nrows_spec() == self.nrows_spec(),
            r.ncols_spec() == self.ncols_spec(),
            r.wf() == self.wf(),
    {
        let n = self.entries.len();
        let mut out: Vec<(usize, usize)> = Vec::new();
        let mut k: usize = 0;
        while k < n
            invariant
                k <= n,
                out@.len() == k,
                forall|k2: int| 0 <= k2 < k ==> out@[k2] == self.entries@[k2],
            decreases n - k,
        {
            out.push(self.entries[k]);
            k = k + 1;
        }
        let r = SparsityPattern { nrows: self.nrows, ncols: self.ncols, entries: out };
        proof {
            assert(r@ =~= self@);
        }
        r
    }
}

/// A rank-2 value of fixed shape: dense storage, optionally carrying a
/// sparsity descriptor (the `Sparse` variant of the abstraction).
#[derive(Debug)]
pub struct Matrix {
    nrows: usize,
    cols: Vec<Vector>,
    sparsity: Option<SparsityPattern>,
}

impl View for Matrix {
    type V = Seq<Seq<int>>;

    closed spec fn view(&self) -> Seq<Seq<int>> {
        Seq::new(self.cols@.len(), |j: int| self.cols@[j]@)
    }
}

impl Matrix {
    pub closed spec fn nrows_spec(&self) -> int {
        self.nrows as int
    }

    pub open spec fn ncols_spec(&self) -> int {
        self@.len() as int
    }

    pub closed spec fn sparsity_spec(&self) -> Option<SparsityPattern> {
        self.sparsity
    }

    /// Shape consistency and admissible entries; the sparsity descriptor,
    /// when present, matches the shape.
    pub closed spec fn wf(&self) -> bool {
        &&& mat_wf(self@, self.nrows as int)
        &&& match self.sparsity {
            Some(p) => p.wf() && p.nrows_spec() == self.nrows as int && p.ncols_spec()
                == self.cols@.len() as int,
            None => true,
        }
    }

    /// What `wf` gives about the view.
    pub proof fn lemma_wf(&self)
        requires
            self.wf(),
        ensures
            mat_wf(self@, self.nrows_spec()),
            match self.sparsity_spec() {
                Some(p) => p.wf() && p.nrows_spec() == self.nrows_spec() && p.ncols_spec()
                    == self.ncols_spec(),
                None => true,
            },
    {
    }

    pub fn nrows(&self) -> (r: usize)
        ensures
            r as int == self.nrows_spec(),
    {
        self.nrows
    }

    pub fn ncols(&self) -> (r: usize)
        ensures
            r as int == self.ncols_spec(),
    {
        self.cols.len()
    }

    /// The sparsity descriptor, if this matrix carries one.
    pub fn sparsity(&self) -> (r: Option<&SparsityPattern>)
        ensures
            match r {
                Some(p) => self.sparsity_spec() == Some(*p),
                None => self.sparsity_spec() is None,
            },
    {
        match &self.sparsity {
            Some(p) => Some(p),
            None => None,
        }
    }

    /// The all-zero dense matrix of the given shape.
    pub fn zeros(nrows: usize, ncols: usize) -> (r: Matrix)
        ensures
            r.wf(),
            r.nrows_spec() == nrows as int,
            r.ncols_spec() == ncols as int,
            r.sparsity_spec() is None,
            r@ == zeros_mat(nrows as int, ncols as int),
    {
        let mut cols: Vec<Vector> = Vec::new();
        let mut j: usize = 0;
        while j < ncols
            invariant
                j <= ncols,
                cols@.len() == j,
                forall|j2: int|
                    0 <= j2 < j ==> (#[trigger] cols@[j2])@ == Seq::new(
                        nrows as nat,
                        |i: int| 0int,
                    ),
            decreases ncols - j,
        {
            let c = Vector::zeros(nrows);
            proof {
                assert(c@ =~= Seq::new(nrows as nat, |i: int| 0int));
            }
            cols.push(c);
            j = j + 1;
        }
        let r = Matrix { nrows, cols, sparsity: None };
        proof {
            assert(r@ =~= zeros_mat(nrows as int, ncols as int));
        }
        r
    }

    /// A zero matrix of the given shape carrying the given sparsity
    /// descriptor (cloned), or dense when none is given.
    pub fn new_from_sparsity(nrows: usize, ncols: usize, sparsity: Option<&SparsityPattern>) -> (r:
        Matrix)
        requires
            match sparsity {
                Some(p) => p.wf() && p.nrows_spec() == nrows as int && p.ncols_spec()
                    == ncols as int,
                None => true,
            },
        ensures
            r.wf(),
            r.nrows_spec() == nrows as int,
            r.ncols_spec() == ncols as int,
            r@ == zeros_mat(nrows as int, ncols as int),
            match sparsity {
                Some(p) => r.sparsity_spec() matches Some(q) && q@ == p@ && q.wf()
                    && q.nrows_spec() == nrows as int && q.ncols_spec() == ncols as int,
                None => r.sparsity_spec() is None,
            },
    {
        let mut r = Matrix::zeros(nrows, ncols);
        match sparsity {
            Some(p) => {
                r.sparsity = Some(p.duplicate());
            },
            None => {},
        }
        r
    }

    /// Entry at row `i`, column `j`.
    pub fn get(&self, i: usize, j: usize) -> (r: Fixed)
        requires
            self.wf(),
            i < self.nrows_spec(),
            j < self.ncols_spec(),
        ensures
            r@ == self@[j as int][i as int],
    {
        proof {
            assert(self@[j as int] == self.cols@[j as int]@);
        }
        self.cols[j].get(i)
    }

    /// Unchecked cell write: the primitive all mutating operations go
    /// through.
    fn cell_set(&mut self, i: usize, j: usize, v: Fixed)
        requires
            old(self).wf(),
            i < old(self).nrows_spec(),
            j < old(self).ncols_spec(),
        ensures
            final(self).wf(),
            final(self).nrows_spec() == old(self).nrows_spec(),
            final(self).sparsity_spec() == old(self).sparsity_spec(),
            final(self)@ == old(self)@.update(
                j as int,
                old(self)@[j as int].update(i as int, v@),
            ),
    {
        v.range_fact();
        proof {
            assert(self@[j as int] == self.cols@[j as int]@);
        }
        let c = &mut self.cols[j];
        c.set(i, v);
        proof {
            assert(self@ =~= old(self)@.update(
                j as int,
                old(self)@[j as int].update(i as int, v@),
            ));
        }
    }

    /// Write the entry at (i, j); for a sparse matrix the position must lie
    /// inside the declared pattern.  Positional writes are the indexing
    /// notion the sparsity descriptor constrains; the bulk operations
    /// (`set_column`, `copy_from`, `scale_add_and_assign`, `gemm`) replace
    /// whole columns or the whole matrix, as the dense storage underneath a
    /// descriptor admits, and are deliberately unconstrained by it.
    pub fn set(&mut self, i: usize, j: usize, v: Fixed)
        requires
            old(self).wf(),
            i < old(self).nrows_spec(),
            j < old(self).ncols_spec(),
            match old(self).sparsity_spec() {
                Some(p) => pattern_contains(p@, i as int, j as int),
                None => true,
            },
        ensures
            final(self).wf(),
            final(self).nrows_spec() == old(self).nrows_spec(),
            final(self).sparsity_spec() == old(self).sparsity_spec(),
            final(self)@ == old(self)@.update(
                j as int,
                old(self)@[j as int].update(i as int, v@),
            ),
    {
        self.cell_set(i, j, v)
    }

    /// A copy of column `j`.
    pub fn column(&self, j: usize) -> (r: Vector)
        requires
            self.wf(),
            j < self.ncols_spec(),
        ensures
            r@ == self@[j as int],
    {
        self.cols[j].clone()
    }

    /// Replace column `j` with `v`.
    pub fn set_column(&mut self, j: usize, v: &Vector)
        requires
            old(self).wf(),
            j < old(self).ncols_spec(),
            v@.len() == old(self).nrows_spec(),
        ensures
            final(self).wf(),
            final(self).nrows_spec() == old(self).nrows_spec(),
            final(self).sparsity_spec() == old(self).sparsity_spec(),
            final(self)@ == old(self)@.update(j as int, v@),
    {
        let n = self.nrows;
        let mut i: usize = 0;
        while i < n
            invariant
                i <= n,
                self.wf(),
                n == self.nrows_spec(),
                self.nrows_spec() == old(self).nrows_spec(),
                self.sparsity_spec() == old(self).sparsity_spec(),
                self@.len() == old(self)@.len(),
                j < self@.len(),
                v@.len() == n,
                forall|j2: int| 0 <= j2 < self@.len() && j2 != j ==> #[trigger] self@[j2] == old(self)@[j2],
                forall|i2: int| 0 <= i2 < i ==> self@[j as int][i2] == v@[i2],
                forall|i2: int| i <= i2 < n ==> self@[j as int][i2] == old(self)@[j as int][i2],
            decreases n - i,
        {
            self.cell_set(i, j, v.get(i));
            i = i + 1;
        }
        proof {
            assert(self@[j as int] =~= v@);
            assert(self@ =~= old(self)@.update(j as int, v@));
        }
    }

    /// Extract the main diagonal.
    pub fn diagonal(&self) -> (r: Vector)
        requires
            self.wf(),
        ensures
            r@.len() == (if self.nrows_spec() <= self.ncols_spec() {
                self.nrows_spec()
            } else {
                self.ncols_spec()
            }),
            forall|i: int| 0 <= i < r@.len() ==> r@[i] == self@[i][i],
    {
        let n = if self.nrows <= self.cols.len() {
            self.nrows
        } else {
            self.cols.len()
        };
        let mut out = Vector::zeros(n);
        let mut i: usize = 0;
        while i < n
            invariant
                i <= n,
                out@.len() == n,
                n <= self.nrows_spec(),
                n <= self.ncols_spec(),
                self.wf(),
                forall|i2: int| 0 <= i2 < i ==> out@[i2] == self@[i2][i2],
            decreases n - i,
        {
            proof {
                assert(self@[i as int] == self.cols@[i as int]@);
            }
            let v = self.cols[i].get(i);
            out.set(i, v);
            i = i + 1;
        }
        out
    }

    /// The square matrix with `v` on the diagonal and zeros elsewhere.
    pub fn from_diagonal(v: &Vector) -> (r: Matrix)
        ensures
            r.wf(),
            r.nrows_spec() == v@.len(),
            r.ncols_spec() == v@.len(),
            r.sparsity_spec() is None,
            forall|j: int, i: int|
                0 <= j < v@.len() && 0 <= i < v@.len() ==> #[trigger] r@[j][i] == (if i == j {
                    v@[i]
                } else {
                    0
                }),
    {
        let n = v.len();
        let mut r = Matrix::zeros(n, n);
        let mut i: usize = 0;
        while i < n
            invariant
                i <= n,
                r.wf(),
                r.nrows_spec() == n,
                r.ncols_spec() == n,
                r.sparsity_spec() is None,
                v@.len() == n,
                forall|j2: int, i2: int|
                    0 <= j2 < n && 0 <= i2 < n ==> #[trigger] r@[j2][i2] == (if i2 == j2 && i2 < i {
                        v@[i2]
                    } else {
                        0
                    }),
            decreases n - i,
        {
            r.cell_set(i, i, v.get(i));
            i = i + 1;
        }
        r
    }

    /// Overwrite all entries with those of `other` (shape must match); the
    /// sparsity descriptor of `self` is kept.
    pub fn copy_from(&mut self, other: &Matrix)
        requires
            old(self).wf(),
            other.wf(),
            old(self).nrows_spec() == other.nrows_spec(),
            old(self).ncols_spec() == other.ncols_spec(),
        ensures
            final(self).wf(),
            final(self).nrows_spec() == old(self).nrows_spec(),
            final(self).sparsity_spec() == old(self).sparsity_spec(),
            final(self)@ == other@,
    {
        let nc = self.cols.len();
        let mut j: usize = 0;
        while j < nc
            invariant
                j <= nc,
                self.wf(),
                nc == self.ncols_spec(),
                self.nrows_spec() == old(self).nrows_spec(),
                self.sparsity_spec() == old(self).sparsity_spec(),
                self.ncols_spec() == old(self).ncols_spec(),
                other.wf(),
                other.nrows_spec() == self.nrows_spec(),
                other.ncols_spec() == nc,
                forall|j2: int| 0 <= j2 < j ==> #[trigger] self@[j2] == other@[j2],
            decreases nc - j,
        {
            let c = other.column(j);
            self.set_column(j, &c);
            j = j + 1;
        }
        proof {
            assert(self@ =~= other@);
        }
    }

    /// Multiply every entry by `alpha` in place.
    pub fn scale_assign(&mut self, alpha: Fixed)
        requires
            old(self).wf(),
        ensures
            final(self).wf(),
            final(self).nrows_spec() == old(self).nrows_spec(),
            final(self).ncols_spec() == old(self).ncols_spec(),
            final(self).sparsity_spec() == old(self).sparsity_spec(),
            forall|j: int, i: int|
                0 <= j < old(self).ncols_spec() && 0 <= i < old(self).nrows_spec()
                    ==> #[trigger] final(self)@[j][i] == mul_fx(old(self)@[j][i], alpha@),
    {
        let nc = self.cols.len();
        let nr = self.nrows;
        let mut j: usize = 0;
        while j < nc
            invariant
                j <= nc,
                self.wf(),
                nc == self.ncols_spec(),
                nr == self.nrows_spec(),
                self.nrows_spec() == old(self).nrows_spec(),
                self.ncols_spec() == old(self).ncols_spec(),
                self.sparsity_spec() == old(self).sparsity_spec(),
                forall|j2: int, i2: int|
                    0 <= j2 < j && 0 <= i2 < nr ==> #[trigger] self@[j2][i2] == mul_fx(
                        old(self)@[j2][i2],
                        alpha@,
                    ),
                forall|j2: int| j <= j2 < nc ==> #[trigger] self@[j2] == old(self)@[j2],
            decreases nc - j,
        {
            let mut i: usize = 0;
            while i < nr
                invariant
                    i <= nr,
                    j < nc,
                    self.wf(),
                    nc == self.ncols_spec(),
                    nr == self.nrows_spec(),
                    self.nrows_spec() == old(self).nrows_spec(),
                    self.ncols_spec() == old(self).ncols_spec(),
                    self.sparsity_spec() == old(self).sparsity_spec(),
                    forall|j2: int, i2: int|
                        0 <= j2 < j && 0 <= i2 < nr ==> #[trigger] self@[j2][i2] == mul_fx(
                            old(self)@[j2][i2],
                            alpha@,
                        ),
                    forall|j2: int| j < j2 < nc ==> #[trigger] self@[j2] == old(self)@[j2],
                    forall|i2: int|
                        0 <= i2 < i ==> #[trigger] self@[j as int][i2] == mul_fx(
                            old(self)@[j as int][i2],
                            alpha@,
                        ),
                    forall|i2: int|
                        i <= i2 < nr ==> #[trigger] self@[j as int][i2] == old(self)@[j as int][i2],
                decreases nr - i,
            {
                proof {
                    assert(self@[j as int] == self.cols@[j as int]@);
                }
                let v = self.cols[j].get(i).mul(alpha);
                self.cell_set(i, j, v);
                i = i + 1;
            }
            j = j + 1;
        }
    }

    /// Elementwise add in place.
    pub fn add_assign_m(&mut self, other: &Matrix)
        requires
            old(self).wf(),
            other.wf(),
            old(self).nrows_spec() == other.nrows_spec(),
            old(self).ncols_spec() == other.ncols_spec(),
        ensures
            final(self).wf(),
            final(self).nrows_spec() == old(self).nrows_spec(),
            final(self).ncols_spec() == old(self).ncols_spec(),
            final(self).sparsity_spec() == old(self).sparsity_spec(),
            forall|j: int, i: int|
                0 <= j < old(self).ncols_spec() && 0 <= i < old(self).nrows_spec()
                    ==> #[trigger] final(self)@[j][i] == add_fx(old(self)@[j][i], other@[j][i]),
    {
        let nc = self.cols.len();
        let nr = self.nrows;
        let mut j: usize = 0;
        while j < nc
            invariant
                j <= nc,
                self.wf(),
                nc == self.ncols_spec(),
                nr == self.nrows_spec(),
                self.nrows_spec() == old(self).nrows_spec(),
                self.ncols_spec() == old(self).ncols_spec(),
                self.sparsity_spec() == old(self).sparsity_spec(),
                other.wf(),
                other.nrows_spec() == nr as int,
                other.ncols_spec() == nc as int,
                forall|j2: int, i2: int|
                    0 <= j2 < j && 0 <= i2 < nr ==> #[trigger] self@[j2][i2] == add_fx(
                        old(self)@[j2][i2],
                        other@[j2][i2],
                    ),
                forall|j2: int| j <= j2 < nc ==> #[trigger] self@[j2] == old(self)@[j2],
            decreases nc - j,
        {
            let mut i: usize = 0;
            while i < nr
                invariant
                    i <= nr,
                    j < nc,
                    self.wf(),
                    nc == self.ncols_spec(),
                    nr == self.nrows_spec(),
                    self.nrows_spec() == old(self).nrows_spec(),
                    self.ncols_spec() == old(self).ncols_spec(),
                    self.sparsity_spec() == old(self).sparsity_spec(),
                    other.wf(),
                    other.nrows_spec() == nr as int,
                    other.ncols_spec() == nc as int,
                    forall|j2: int, i2: int|
                        0 <= j2 < j && 0 <= i2 < nr ==> #[trigger] self@[j2][i2] == add_fx(
                            old(self)@[j2][i2],
                            other@[j2][i2],
                        ),
                    forall|j2: int| j < j2 < nc ==> #[trigger] self@[j2] == old(self)@[j2],
                    forall|i2: int|
                        0 <= i2 < i ==> #[trigger] self@[j as int][i2] == add_fx(
                            old(self)@[j as int][i2],
                            other@[j as int][i2],
                        ),
                    forall|i2: int|
                        i <= i2 < nr ==> #[trigger] self@[j as int][i2] == old(self)@[j as int][i2],
                decreases nr - i,
            {
                proof {
                    assert(self@[j as int] == self.cols@[j as int]@);
                }
                let v = self.cols[j].get(i).add(other.get(i, j));
                self.cell_set(i, j, v);
                i = i + 1;
            }
            j = j + 1;
        }
    }

    /// `self <- x + beta * y`, elementwise (no aliasing: `x` and `y` are
    /// borrowed separately from `self`).
    pub fn scale_add_and_assign(&mut self, x: &Matrix, beta: Fixed, y: &Matrix)
        requires
            old(self).wf(),
            x.wf(),
            y.wf(),
            old(self).nrows_spec() == x.nrows_spec(),
            old(self).ncols_spec() == x.ncols_spec(),
            old(self).nrows_spec() == y.nrows_spec(),
            old(self).ncols_spec() == y.ncols_spec(),
        ensures
            final(self).wf(),
            final(self).nrows_spec() == old(self).nrows_spec(),
            final(self).ncols_spec() == old(self).ncols_spec(),
            final(self).sparsity_spec() == old(self).sparsity_spec(),
            forall|j: int, i: int|
                0 <= j < old(self).ncols_spec() && 0 <= i < old(self).nrows_spec()
                    ==> #[trigger] final(self)@[j][i] == add_fx(
                    mul_fx(y@[j][i], beta@),
                    x@[j][i],
                ),
    {
        self.copy_from(y);
        self.scale_assign(beta);
        self.add_assign_m(x);
    }

    /// Build a dense matrix from (row, col, value) triplets; later duplicates
    /// win.  Fails with `IndexOutOfBounds` when any triplet lies outside the
    /// shape.
    pub fn try_from_triplets(nrows: usize, ncols: usize, triplets: Vec<(usize, usize, Fixed)>)
        -> (r: Result<Matrix, SolverError>)
        ensures
            match r {
                Ok(m) => {
                    &&& m.wf()
                    &&& m.nrows_spec() == nrows as int
                    &&& m.ncols_spec() == ncols as int
                    &&& m.sparsity_spec() is None
                    &&& forall|k: int|
                        0 <= k < triplets@.len() ==> 0 <= (#[trigger] trip_view(triplets@)[k]).0
                            < nrows as int && 0 <= trip_view(triplets@)[k].1 < ncols as int
                    &&& m@ == apply_triplets(
                        zeros_mat(nrows as int, ncols as int),
                        trip_view(triplets@),
                        triplets@.len() as int,
                    )
                },
                Err(e) => {
                    &&& e == SolverError::IndexOutOfBounds
                    &&& exists|k: int|
                        0 <= k < triplets@.len() && ((#[trigger] trip_view(triplets@)[k]).0
                            >= nrows as int || trip_view(triplets@)[k].1 >= ncols as int)
                },
            },
    {
        let ghost tv = trip_view(triplets@);
        let mut m = Matrix::zeros(nrows, ncols);
        let n = triplets.len();
        let mut k: usize = 0;
        while k < n
            invariant
                k <= n,
                n == triplets@.len(),
                tv == trip_view(triplets@),
                m.wf(),
                m.nrows_spec() == nrows as int,
                m.ncols_spec() == ncols as int,
                m.sparsity_spec() is None,
                forall|k2: int|
                    0 <= k2 < k ==> 0 <= (#[trigger] tv[k2]).0 < nrows as int && 0 <= tv[k2].1
                        < ncols as int,
                m@ == apply_triplets(zeros_mat(nrows as int, ncols as int), tv, k as int),
            decreases n - k,
        {
            let (i, j, v) = triplets[k];
            proof {
                assert(tv[k as int] == (i as int, j as int, v@));
            }
            if i >= nrows || j >= ncols {
                return Err(SolverError::IndexOutOfBounds);
            }
            m.cell_set(i, j, v);
            k = k + 1;
        }
        Ok(m)
    }

    /// For each pair, copy `data[src[k]]` into position `dst[k]`; for a
    /// sparse matrix every destination must lie inside the pattern.  Used by
    /// the coloring-compressed Jacobian path.
    pub fn set_data_with_indices(
        &mut self,
        dst_indices: &Vec<(usize, usize)>,
        src_indices: &crate::vector::Indices,
        data: &Vector,
    )
        requires
            old(self).wf(),
            dst_indices@.len() == src_indices@.len(),
            forall|k: int|
                0 <= k < dst_indices@.len() ==> (#[trigger] dst_indices@[k]).0
                    < old(self).nrows_spec() && dst_indices@[k].1 < old(self).ncols_spec(),
            forall|k: int|
                0 <= k < src_indices@.len() ==> 0 <= #[trigger] src_indices@[k] < data@.len(),
            match old(self).sparsity_spec() {
                Some(p) => forall|k: int|
                    0 <= k < dst_indices@.len() ==> pattern_contains(
                        p@,
                        (#[trigger] dst_indices@[k]).0 as int,
                        dst_indices@[k].1 as int,
                    ),
                None => true,
            },
        ensures
            final(self).wf(),
            final(self).nrows_spec() == old(self).nrows_spec(),
            final(self).ncols_spec() == old(self).ncols_spec(),
            final(self).sparsity_spec() == old(self).sparsity_spec(),
            final(self)@ == apply_pairs(
                old(self)@,
                dst_indices@,
                src_indices@,
                data@,
                dst_indices@.len() as int,
            ),
    {
        let n = dst_indices.len();
        let mut k: usize = 0;
        while k < n
            invariant
                k <= n,
                n == dst_indices@.len(),
                self.wf(),
                self.nrows_spec() == old(self).nrows_spec(),
                self.ncols_spec() == old(self).ncols_spec(),
                self.sparsity_spec() == old(self).sparsity_spec(),
                self@ == apply_pairs(old(self)@, dst_indices@, src_indices@, data@, k as int),
            decreases n - k,
        {
            let (i, j) = dst_indices[k];
            let s = src_indices.get(k);
            let v = data.get(s);
            self.cell_set(i, j, v);
            k = k + 1;
        }
    }

    /// GEMV: `y <- alpha * self * x + beta * y` in fixed-point arithmetic.
    pub fn gemv(&self, alpha: Fixed, x: &Vector, beta: Fixed, y: &mut Vector)
        requires
            self.wf(),
            x@.len() == self.ncols_spec(),
            old(y)@.len() == self.nrows_spec(),
        ensures
            final(y)@ == gemv_fx(self@, x@, alpha@, beta@, old(y)@),
    {
        let nr = self.nrows;
        let nc = self.cols.len();
        let mut i: usize = 0;
        while i < nr
            invariant
                i <= nr,
                self.wf(),
                nr == self.nrows_spec(),
                nc == self.ncols_spec(),
                x@.len() == nc,
                y@.len() == nr,
                forall|i2: int|
                    0 <= i2 < i ==> #[trigger] y@[i2] == add_fx(
                        mul_fx(alpha@, row_dot(self@, x@, i2)),
                        mul_fx(beta@, old(y)@[i2]),
                    ),
                forall|i2: int| i <= i2 < nr ==> #[trigger] y@[i2] == old(y)@[i2],
            decreases nr - i,
        {
            let mut acc = Fixed::zero();
            let mut j: usize = 0;
            while j < nc
                invariant
                    j <= nc,
                    i < nr,
                    self.wf(),
                    nr == self.nrows_spec(),
                    nc == self.ncols_spec(),
                    x@.len() == nc,
                    acc@ == row_dot_prefix(self@, x@, i as int, j as int),
                decreases nc - j,
            {
                proof {
                    assert(self@[j as int] == self.cols@[j as int]@);
                }
                acc = acc.add(self.cols[j].get(i).mul(x.get(j)));
                j = j + 1;
            }
            let v = alpha.mul(acc).add(beta.mul(y.get(i)));
            y.set(i, v);
            i = i + 1;
        }
        proof {
            assert(y@ =~= gemv_fx(self@, x@, alpha@, beta@, old(y)@));
        }
    }

    /// GEMM: `self <- alpha * a * b + beta * self`, column by column via
    /// GEMV.
    pub fn gemm(&mut self, alpha: Fixed, a: &Matrix, b: &Matrix, beta: Fixed)
        requires
            old(self).wf(),
            a.wf(),
            b.wf(),
            a.ncols_spec() == b.nrows_spec(),
            old(self).nrows_spec() == a.nrows_spec(),
            old(self).ncols_spec() == b.ncols_spec(),
        ensures
            final(self).wf(),
            final(self).nrows_spec() == old(self).nrows_spec(),
            final(self).ncols_spec() == old(self).ncols_spec(),
            final(self).sparsity_spec() == old(self).sparsity_spec(),
            forall|j: int|
                0 <= j < old(self).ncols_spec() ==> #[trigger] final(self)@[j] == gemv_fx(
                    a@,
                    b@[j],
                    alpha@,
                    beta@,
                    old(self)@[j],
                ),
    {
        let nc = self.cols.len();
        let mut j: usize = 0;
        while j < nc
            invariant
                j <= nc,
                self.wf(),
                nc == self.ncols_spec(),
                self.nrows_spec() == old(self).nrows_spec(),
                self.ncols_spec() == old(self).ncols_spec(),
                self.sparsity_spec() == old(self).sparsity_spec(),
                a.wf(),
                b.wf(),
                a.ncols_spec() == b.nrows_spec(),
                self.nrows_spec() == a.nrows_spec(),
                nc == b.ncols_spec(),
                forall|j2: int|
                    0 <= j2 < j ==> #[trigger] self@[j2] == gemv_fx(
                        a@,
                        b@[j2],
                        alpha@,
                        beta@,
                        old(self)@[j2],
                    ),
                forall|j2: int| j <= j2 < nc ==> #[trigger] self@[j2] == old(self)@[j2],
            decreases nc - j,
        {
            let bj = b.column(j);
            let mut cj = self.column(j);
            a.gemv(alpha, &bj, beta, &mut cj);
            self.set_column(j, &cj);
            j = j + 1;
        }
    }

    /// Enumerate all entries as (row, col, value) triplets, column-major.
    pub fn triplets(&self) -> (r: Vec<(usize, usize, Fixed)>)
        requires
            self.wf(),
        ensures
            trip_view(r@) == mat_trips(self@, self.nrows_spec()),
    {
        let nr = self.nrows;
        let nc = self.cols.len();
        let mut out: Vec<(usize, usize, Fixed)> = Vec::new();
        let mut j: usize = 0;
        while j < nc
            invariant
                j <= nc,
                self.wf(),
                nr == self.nrows_spec(),
                nc == self.ncols_spec(),
                trip_view(out@) == mat_trips_prefix(self@, nr as int, j as int),
            decreases nc - j,
        {
            let mut i: usize = 0;
            while i < nr
                invariant
                    i <= nr,
                    j < nc,
                    self.wf(),
                    nr == self.nrows_spec(),
                    nc == self.ncols_spec(),
                    trip_view(out@) == mat_trips_prefix(self@, nr as int, j as int)
                        + col_trips_prefix(self@[j as int], j as int, i as int),
                decreases nr - i,
            {
                let ghost prev = out@;
                proof {
                    assert(self@[j as int] == self.cols@[j as int]@);
                }
                let v = self.cols[j].get(i);
                out.push((i, j, v));
                proof {
                    assert(trip_view(out@) =~= trip_view(prev).push((i as int, j as int, v@)));
                }
                i = i + 1;
            }
            j = j + 1;
            proof {
                assert(trip_view(out@) == mat_trips_prefix(self@, nr as int, j as int));
            }
        }
        proof {
            assert(trip_view(out@) == mat_trips(self@, self.nrows_spec()));
        }
        out
    }
}

/// A fixed-point dot product always lies in the admissible range.
pub proof fn lemma_row_dot_in_range(m: Seq<Seq<int>>, x: Seq<int>, i: int)
    ensures
        crate::scalar::fx_in_range(row_dot(m, x, i)),
{
    let k = m.len() as int;
    if k <= 0 {
        assert(row_dot_prefix(m, x, i, k) == 0);
    } else {
        assert(row_dot_prefix(m, x, i, k) == add_fx(
            row_dot_prefix(m, x, i, k - 1),
            mul_fx(m[k - 1][i], x[k - 1]),
        ));
    }
}

/// The triplets of column `j`, rows `0..i`, in ascending row order.
pub open spec fn col_trips_prefix(col: Seq<int>, j: int, i: int) -> Seq<(int, int, int)>
    decreases i,
{
    if i <= 0 {
        Seq::empty()
    } else {
        col_trips_prefix(col, j, i - 1).push((i - 1, j, col[i - 1]))
    }
}

/// The triplets of the first `j` columns, column-major.
pub open spec fn mat_trips_prefix(m: Seq<Seq<int>>, nrows: int, j: int) -> Seq<(int, int, int)>
    decreases j,
{
    if j <= 0 {
        Seq::empty()
    } else {
        mat_trips_prefix(m, nrows, j - 1) + col_trips_prefix(m[j - 1], j - 1, nrows)
    }
}

/// All entries of `m` as triplets, column-major.
pub open spec fn mat_trips(m: Seq<Seq<int>>, nrows: int) -> Seq<(int, int, int)> {
    mat_trips_prefix(m, nrows, m.len() as int)
}

} // verus!
