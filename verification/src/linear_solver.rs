//! The linear solver: factor-once / solve-many LU with partial (row)
//! pivoting over the dense matrix type.  Factorization records, for each
//! elimination step, the row holding the largest-magnitude pivot in the
//! current column, swaps it up, and stores the multipliers below the
//! diagonal and the eliminated upper triangle in one matrix; solving
//! applies the recorded row exchanges to the right-hand side, then runs
//! forward substitution with the unit lower factor and back substitution
//! with the upper factor.  Everything is pinned exactly to spec recursions
//! over the fixed-point arithmetic, and factorization fails exactly when
//! some column has no nonzero pivot at or below the diagonal: a genuinely
//! singular matrix.
use vstd::prelude::*;

use crate::matrix::Matrix;
use crate::scalar::{abs_fx, div_fx, mul_fx, sub_fx, Fixed};
use crate::vector::{Indices, Vector};
use crate::SolverError;

verus! {

/// One elimination step with pivot `k`: rows below `k` get their multiplier
/// stored in column `k` and the trailing block updated.
pub open spec fn elim_step(m: Seq<Seq<int>>, k: int) -> Seq<Seq<int>> {
    Seq::new(
        m.len(),
        |j: int| Seq::new(
            m[j].len(),
            |r: int|
                if r <= k || j < k {
                    m[j][r]
                } else {
                    let f = div_fx(m[k][r], m[k][k]);
                    if j == k {
                        f
                    } else {
                        sub_fx(m[j][r], mul_fx(f, m[j][k]))
                    }
                },
        ),
    )
}

/// Rows `r1` and `r2` exchanged.
pub open spec fn row_swap(m: Seq<Seq<int>>, r1: int, r2: int) -> Seq<Seq<int>> {
    Seq::new(
        m.len(),
        |j: int| Seq::new(
            m[j].len(),
            |r: int|
                if r == r1 {
                    m[j][r2]
                } else if r == r2 {
                    m[j][r1]
                } else {
                    m[j][r]
                },
        ),
    )
}

/// The first row among `k .. r` holding the largest-magnitude entry of
/// column `k`.
pub open spec fn pivot_best(m: Seq<Seq<int>>, k: int, r: int) -> int
    decreases r - k,
{
    if r <= k + 1 {
        k
    } else {
        let b = pivot_best(m, k, r - 1);
        if abs_fx(m[k][r - 1]) > abs_fx(m[k][b]) {
            r - 1
        } else {
            b
        }
    }
}

/// The partial-pivoting choice for step `k`: the first row at or below `k`
/// with the largest-magnitude entry in column `k`.
pub open spec fn pivot_row(m: Seq<Seq<int>>, k: int) -> int {
    pivot_best(m, k, m.len() as int)
}

/// One pivoted elimination step: swap the pivot row up, then eliminate.
pub open spec fn plu_step(m: Seq<Seq<int>>, k: int) -> Seq<Seq<int>> {
    elim_step(row_swap(m, k, pivot_row(m, k)), k)
}

/// The matrix after the first `k` pivoted elimination steps.
pub open spec fn plu_elim(m: Seq<Seq<int>>, k: int) -> Seq<Seq<int>>
    decreases k,
{
    if k <= 0 {
        m
    } else {
        plu_step(plu_elim(m, k - 1), k - 1)
    }
}

/// The combined LU factors after full pivoted elimination.
pub open spec fn plu_full(m: Seq<Seq<int>>) -> Seq<Seq<int>> {
    plu_elim(m, m.len() as int)
}

/// The row chosen as pivot at step `k`.
pub open spec fn plu_perm_at(m: Seq<Seq<int>>, k: int) -> int {
    pivot_row(plu_elim(m, k), k)
}

/// The recorded row exchanges of the factorization.
pub open spec fn plu_perm(m: Seq<Seq<int>>) -> Seq<int> {
    Seq::new(m.len(), |k: int| plu_perm_at(m, k))
}

/// The pivot value step `k` divides by.
pub open spec fn plu_pivot_entry(m: Seq<Seq<int>>, k: int) -> int {
    plu_elim(m, k)[k][plu_perm_at(m, k)]
}

/// Every step finds a nonzero pivot somewhere at or below the diagonal.
pub open spec fn plu_ok(m: Seq<Seq<int>>) -> bool {
    forall|k: int| 0 <= k < m.len() ==> #[trigger] plu_pivot_entry(m, k) != 0
}

/// Pivoted elimination steps preserve the shape.
pub proof fn lemma_plu_elim_dims(m: Seq<Seq<int>>, k: int)
    ensures
        plu_elim(m, k).len() == m.len(),
        forall|j: int| 0 <= j < m.len() ==> (#[trigger] plu_elim(m, k)[j]).len() == m[j].len(),
    decreases k,
{
    if k > 0 {
        lemma_plu_elim_dims(m, k - 1);
    }
}

/// Accumulator of forward substitution at row `r` after the first `c`
/// columns.
pub open spec fn fwd_acc(fm: Seq<Seq<int>>, b: Seq<int>, y: Seq<int>, r: int, c: int) -> int
    decreases c,
{
    if c <= 0 {
        b[r]
    } else {
        sub_fx(fwd_acc(fm, b, y, r, c - 1), mul_fx(fm[c - 1][r], y[c - 1]))
    }
}

/// The first `r` components of the forward-substitution solution.
pub open spec fn fwd_prefix(fm: Seq<Seq<int>>, b: Seq<int>, r: int) -> Seq<int>
    decreases r,
{
    if r <= 0 {
        Seq::empty()
    } else {
        let y = fwd_prefix(fm, b, r - 1);
        y.push(fwd_acc(fm, b, y, r - 1, r - 1))
    }
}

/// `fwd_prefix` has length `r`.
pub proof fn lemma_fwd_prefix_len(fm: Seq<Seq<int>>, b: Seq<int>, r: int)
    requires
        r >= 0,
    ensures
        fwd_prefix(fm, b, r).len() == r,
    decreases r,
{
    if r > 0 {
        lemma_fwd_prefix_len(fm, b, r - 1);
    }
}

/// Forward substitution `L y = b` with the unit lower factor.
pub open spec fn fwd(fm: Seq<Seq<int>>, b: Seq<int>) -> Seq<int> {
    fwd_prefix(fm, b, b.len() as int)
}

/// Accumulator of back substitution at row `r` over columns `r+1 .. c`.
pub open spec fn bwd_acc(fm: Seq<Seq<int>>, y: Seq<int>, x: Seq<int>, r: int, c: int) -> int
    decreases c - r,
{
    if c <= r + 1 {
        y[r]
    } else {
        sub_fx(bwd_acc(fm, y, x, r, c - 1), mul_fx(fm[c - 1][r], x[c - 1]))
    }
}

/// Back substitution from row `r` upward: rows `>= r` hold the solution,
/// rows `< r` still hold `y`.
pub open spec fn bwd_from(fm: Seq<Seq<int>>, y: Seq<int>, r: int) -> Seq<int>
    decreases y.len() - r,
{
    if r >= y.len() || r < 0 {
        y
    } else {
        let x = bwd_from(fm, y, r + 1);
        x.update(r, div_fx(bwd_acc(fm, y, x, r, y.len() as int), fm[r][r]))
    }
}

/// Positions `i` and `j` exchanged.
pub open spec fn swap_seq(b: Seq<int>, i: int, j: int) -> Seq<int> {
    b.update(i, b[j]).update(j, b[i])
}

/// The first `k` recorded row exchanges applied to `b`.
pub open spec fn apply_perm(b: Seq<int>, perm: Seq<int>, k: int) -> Seq<int>
    decreases k,
{
    if k <= 0 {
        b
    } else {
        swap_seq(apply_perm(b, perm, k - 1), k - 1, perm[k - 1])
    }
}

/// The solution of `P A x = b` given the combined factors and the recorded
/// exchanges: permute the right-hand side, then substitute forward and
/// backward.
pub open spec fn plu_solve(fm: Seq<Seq<int>>, perm: Seq<int>, b: Seq<int>) -> Seq<int> {
    bwd_from(fm, fwd(fm, apply_perm(b, perm, perm.len() as int)), 0)
}

/// A factorization: the combined triangular factors and the row exchanges
/// that produced them.
#[derive(Debug)]
pub struct LuFactors {
    pub mat: Matrix,
    pub perm: Indices,
}

/// A factor-once / solve-many LU solver with partial pivoting over the
/// dense matrix type.
#[derive(Debug)]
pub struct LuSolver {
    factors: Option<LuFactors>,
}

impl LuSolver {
    #[verifier::type_invariant]
    closed spec fn inv(self) -> bool {
        match self.factors {
            Some(f) => {
                &&& f.mat.wf()
                &&& f.mat.nrows_spec() == f.mat.ncols_spec()
                &&& f.perm@.len() == f.mat.nrows_spec()
                &&& forall|k: int| 0 <= k < f.perm@.len() ==> k <= #[trigger] f.perm@[k]
                    < f.mat.nrows_spec()
            },
            None => true,
        }
    }

    /// The stored factorization, if a problem has been set.
    pub closed spec fn factors_spec(&self) -> Option<LuFactors> {
        self.factors
    }

    /// The dimension of the stored factorization.
    pub open spec fn dim_spec(&self) -> int {
        self.factors_spec()->Some_0.mat.nrows_spec()
    }

    pub fn new() -> (r: LuSolver)
        ensures
            r.factors_spec() is None,
    {
        LuSolver { factors: None }
    }

    /// Factorize `m` with partial pivoting and keep the factors; any
    /// previous factorization is discarded.  Fails exactly when some column
    /// has no nonzero pivot at or below the diagonal.
    pub fn set_matrix(&mut self, m: &Matrix) -> (r: Result<(), SolverError>)
        requires
            m.wf(),
            m.nrows_spec() == m.ncols_spec(),
        ensures
            match r {
                Ok(()) => {
                    &&& plu_ok(m@)
                    &&& final(self).factors_spec() matches Some(f) && f.mat@ == plu_full(m@)
                        && f.perm@ == plu_perm(m@) && f.mat.nrows_spec() == m.nrows_spec()
                        && f.mat.ncols_spec() == m.ncols_spec()
                },
                Err(e) => {
                    &&& e == SolverError::SingularMatrix
                    &&& !plu_ok(m@)
                    &&& final(self).factors_spec() is None
                },
            },
    {
        let n = m.nrows();
        let mut a = Matrix::zeros(n, n);
        a.copy_from(m);
        let mut perm = Indices::empty();
        proof {
            m.lemma_wf();
            a.lemma_wf();
        }
        let mut k: usize = 0;
        while k < n
            invariant
                k <= n,
                n as int == m.nrows_spec(),
                m.nrows_spec() == m.ncols_spec(),
                m.wf(),
                a.wf(),
                a.nrows_spec() == n as int,
                a.ncols_spec() == n as int,
                a.sparsity_spec() is None,
                forall|j2: int| 0 <= j2 < n as int ==> (#[trigger] a@[j2]).len() == n as int,
                a@ == plu_elim(m@, k as int),
                perm@.len() == k,
                forall|k2: int| 0 <= k2 < k ==> #[trigger] perm@[k2] == plu_perm_at(m@, k2),
                forall|k2: int| 0 <= k2 < k ==> k2 <= #[trigger] perm@[k2] < n as int,
                forall|k2: int| 0 <= k2 < k ==> #[trigger] plu_pivot_entry(m@, k2) != 0,
            decreases n - k,
        {
            proof {
                lemma_plu_elim_dims(m@, k as int);
            }
            // choose the pivot row: first row at or below k with the
            // largest-magnitude entry in column k
            let mut pr: usize = k;
            let mut rr: usize = k + 1;
            while rr < n
                invariant
                    k < rr <= n,
                    k <= pr < rr,
                    a.wf(),
                    a.nrows_spec() == n as int,
                    a.ncols_spec() == n as int,
                    k < n,
                    pr as int == pivot_best(a@, k as int, rr as int),
                decreases n - rr,
            {
                if a.get(rr, k).abs().gt(a.get(pr, k).abs()) {
                    pr = rr;
                }
                rr = rr + 1;
            }
            proof {
                assert(pr as int == pivot_row(a@, k as int));
            }
            let pval = a.get(pr, k);
            if pval.is_zero() {
                proof {
                    assert(plu_pivot_entry(m@, k as int) == 0);
                }
                *self = LuSolver { factors: None };
                return Err(SolverError::SingularMatrix);
            }
            let ghost presw = a@;
            if pr != k {
                let mut j: usize = 0;
                while j < n
                    invariant
                        j <= n,
                        k < n,
                        pr < n,
                        pr != k,
                        a.wf(),
                        a.nrows_spec() == n as int,
                        a.ncols_spec() == n as int,
                        a.sparsity_spec() is None,
                        forall|j3: int|
                            0 <= j3 < n as int ==> (#[trigger] a@[j3]).len() == n as int,
                        presw.len() == n as int,
                        forall|j3: int|
                            0 <= j3 < n as int ==> (#[trigger] presw[j3]).len() == n as int,
                        forall|j3: int|
                            0 <= j3 < j ==> #[trigger] a@[j3] == row_swap(
                                presw,
                                k as int,
                                pr as int,
                            )[j3],
                        forall|j3: int| j <= j3 < n as int ==> #[trigger] a@[j3] == presw[j3],
                    decreases n - j,
                {
                    let t1 = a.get(k, j);
                    let t2 = a.get(pr, j);
                    a.set(k, j, t2);
                    a.set(pr, j, t1);
                    proof {
                        assert(a@[j as int] =~= row_swap(presw, k as int, pr as int)[j as int]);
                    }
                    j = j + 1;
                }
                proof {
                    assert(a@ =~= row_swap(presw, k as int, pr as int));
                }
            } else {
                proof {
                    assert forall|j3: int|
                        0 <= j3 < n as int implies #[trigger] a@[j3] == row_swap(
                        presw,
                        k as int,
                        pr as int,
                    )[j3] by {
                        assert(a@[j3] =~= row_swap(presw, k as int, pr as int)[j3]);
                    }
                    assert(a@ =~= row_swap(presw, k as int, pr as int));
                }
            }
            perm.push(pr);
            let ghost base = a@;
            let ghost target = elim_step(base, k as int);
            proof {
                assert(base[k as int][k as int] == presw[k as int][pr as int]);
                assert(pval@ == base[k as int][k as int]);
            }
            let mut r: usize = k + 1;
            while r < n
                invariant
                    k < r <= n,
                    n as int == base.len(),
                    a.sparsity_spec() is None,
                    forall|j2: int| 0 <= j2 < n as int ==> (#[trigger] a@[j2]).len() == n as int,
                    a.wf(),
                    a.nrows_spec() == n as int,
                    a.ncols_spec() == n as int,
                    base.len() == n as int,
                    forall|j2: int| 0 <= j2 < n as int ==> (#[trigger] base[j2]).len() == n as int,
                    target == elim_step(base, k as int),
                    pval@ == base[k as int][k as int],
                    forall|j2: int, r2: int|
                        0 <= j2 < n as int && 0 <= r2 < n as int && k < r2 < r
                            ==> #[trigger] a@[j2][r2] == target[j2][r2],
                    forall|j2: int, r2: int|
                        0 <= j2 < n as int && 0 <= r2 < n as int && (r2 <= k || r2 >= r)
                            ==> #[trigger] a@[j2][r2] == base[j2][r2],
                decreases n - r,
            {
                proof {
                    assert(a@[k as int][r as int] == base[k as int][r as int]);
                }
                let f = a.get(r, k).div(pval);
                a.set(r, k, f);
                proof {
                    assert(f@ == div_fx(base[k as int][r as int], base[k as int][k as int]));
                    assert(a@[k as int][r as int] == f@);
                    assert(target[k as int][r as int] == div_fx(
                        base[k as int][r as int],
                        base[k as int][k as int],
                    ));
                    assert(a@[k as int][r as int] == target[k as int][r as int]);
                }
                let mut c: usize = k + 1;
                while c < n
                    invariant
                        k < c <= n,
                        k < r < n,
                        n as int == base.len(),
                        a.sparsity_spec() is None,
                        forall|j2: int|
                            0 <= j2 < n as int ==> (#[trigger] a@[j2]).len() == n as int,
                        a.wf(),
                        a.nrows_spec() == n as int,
                        a.ncols_spec() == n as int,
                        forall|j2: int| 0 <= j2 < n as int ==> (#[trigger] base[j2]).len() == n as int,
                        target == elim_step(base, k as int),
                        pval@ == base[k as int][k as int],
                        f@ == div_fx(base[k as int][r as int], base[k as int][k as int]),
                        forall|j2: int, r2: int|
                            0 <= j2 < n as int && 0 <= r2 < n as int && k < r2 < r
                                ==> #[trigger] a@[j2][r2] == target[j2][r2],
                        forall|j2: int, r2: int|
                            0 <= j2 < n as int && 0 <= r2 < n as int && (r2 <= k || r2 > r)
                                ==> #[trigger] a@[j2][r2] == base[j2][r2],
                        a@[k as int][r as int] == target[k as int][r as int],
                        forall|j2: int|
                            k < j2 < c ==> #[trigger] a@[j2][r as int] == target[j2][r as int],
                        forall|j2: int|
                            0 <= j2 < n as int && (j2 < k || j2 >= c)
                                ==> #[trigger] a@[j2][r as int] == base[j2][r as int],
                    decreases n - c,
                {
                    let v = a.get(r, c).sub(f.mul(a.get(k, c)));
                    a.set(r, c, v);
                    proof {
                        assert(a@[c as int][r as int] == target[c as int][r as int]);
                    }
                    c = c + 1;
                }
                proof {
                    assert forall|j2: int|
                        0 <= j2 < n as int && j2 < k implies #[trigger] a@[j2][r as int]
                        == target[j2][r as int] by {
                        assert(a@[j2][r as int] == base[j2][r as int]);
                    }
                }
                r = r + 1;
            }
            proof {
                a.lemma_wf();
                assert(target.len() == n as int);
                assert forall|j2: int| 0 <= j2 < n as int implies a@[j2] =~= target[j2] by {
                    assert(a@[j2].len() == n as int);
                    assert(target[j2].len() == base[j2].len());
                    assert forall|r2: int|
                        0 <= r2 < n as int implies a@[j2][r2] == target[j2][r2] by {
                        if r2 <= k as int {
                            assert(a@[j2][r2] == base[j2][r2]);
                        }
                    }
                }
                assert(a@ =~= target);
                assert(base == row_swap(presw, k as int, pivot_row(presw, k as int)));
                assert(a@ == plu_step(presw, k as int));
                assert(a@ == plu_elim(m@, k + 1));
                assert(plu_perm_at(m@, k as int) == pr as int);
                assert(plu_pivot_entry(m@, k as int) == presw[k as int][pr as int]);
                assert(plu_pivot_entry(m@, k as int) != 0);
            }
            k = k + 1;
        }
        proof {
            assert(a@ == plu_full(m@));
            assert(perm@ =~= plu_perm(m@));
        }
        *self = LuSolver { factors: Some(LuFactors { mat: a, perm }) };
        Ok(())
    }

    /// Whether a factorization is currently held.
    pub fn has_factors(&self) -> (r: bool)
        ensures
            r == (self.factors_spec() is Some),
    {
        match &self.factors {
            Some(_) => true,
            None => false,
        }
    }

    /// Discard any stored factorization.
    pub fn clear(&mut self)
        ensures
            final(self).factors_spec() is None,
    {
        *self = LuSolver { factors: None };
    }

    /// Solve `A x = b` in place using the stored factorization: apply the
    /// recorded row exchanges, then substitute.
    pub fn solve_in_place(&self, b: &mut Vector) -> (r: Result<(), SolverError>)
        requires
            self.factors_spec() is Some,
            old(b)@.len() == self.dim_spec(),
        ensures
            r is Ok,
            final(b)@.len() == old(b)@.len(),
            final(b)@ == plu_solve(
                self.factors_spec()->Some_0.mat@,
                self.factors_spec()->Some_0.perm@,
                old(b)@,
            ),
    {
        proof {
            use_type_invariant(&*self);
        }
        let fac = match &self.factors {
            Some(f) => f,
            None => {
                proof {
                    assert(false);
                }
                unreached()
            },
        };
        let fm = &fac.mat;
        let perm = &fac.perm;
        proof {
            fm.lemma_wf();
        }
        let n = b.len();
        let ghost b0 = b@;
        // apply the recorded row exchanges
        let mut k: usize = 0;
        while k < n
            invariant
                k <= n,
                n == b@.len(),
                b0.len() == n,
                n as int == fm.nrows_spec(),
                perm@.len() == n,
                forall|k2: int| 0 <= k2 < n ==> k2 <= #[trigger] perm@[k2] < n as int,
                b@ == apply_perm(b0, perm@, k as int),
            decreases n - k,
        {
            let p = perm.get(k);
            let ghost prev = b@;
            if p != k {
                let t1 = b.get(k);
                let t2 = b.get(p);
                b.set(k, t2);
                b.set(p, t1);
            }
            proof {
                assert(b@ =~= swap_seq(prev, k as int, perm@[k as int]));
            }
            k = k + 1;
        }
        let ghost bp = b@;
        proof {
            assert(bp == apply_perm(b0, perm@, perm@.len() as int));
        }
        // forward substitution with the unit lower factor
        let mut r: usize = 0;
        while r < n
            invariant
                r <= n,
                n == b@.len(),
                n as int == fm.nrows_spec(),
                n as int == fm.ncols_spec(),
                fm.wf(),
                bp.len() == n,
                forall|i: int| 0 <= i < r ==> #[trigger] b@[i] == fwd_prefix(fm@, bp, r as int)[i],
                forall|i: int| r <= i < n ==> #[trigger] b@[i] == bp[i],
            decreases n - r,
        {
            let mut acc = b.get(r);
            let mut c: usize = 0;
            while c < r
                invariant
                    c <= r,
                    r < n,
                    n == b@.len(),
                    n as int == fm.nrows_spec(),
                    n as int == fm.ncols_spec(),
                    fm.wf(),
                    bp.len() == n,
                    forall|i: int|
                        0 <= i < r ==> #[trigger] b@[i] == fwd_prefix(fm@, bp, r as int)[i],
                    forall|i: int| r <= i < n ==> #[trigger] b@[i] == bp[i],
                    acc@ == fwd_acc(fm@, bp, fwd_prefix(fm@, bp, r as int), r as int, c as int),
                decreases r - c,
            {
                acc = acc.sub(fm.get(r, c).mul(b.get(c)));
                c = c + 1;
            }
            b.set(r, acc);
            proof {
                lemma_fwd_prefix_len(fm@, bp, r as int);
                lemma_fwd_prefix_len(fm@, bp, r + 1);
                assert(fwd_prefix(fm@, bp, r + 1) == fwd_prefix(fm@, bp, r as int).push(
                    fwd_acc(fm@, bp, fwd_prefix(fm@, bp, r as int), r as int, r as int),
                ));
                assert forall|i: int|
                    0 <= i < r + 1 implies #[trigger] b@[i] == fwd_prefix(fm@, bp, r + 1)[i] by {
                    if i < r as int {
                        assert(fwd_prefix(fm@, bp, r + 1)[i] == fwd_prefix(fm@, bp, r as int)[i]);
                    }
                }
            }
            r = r + 1;
        }
        proof {
            lemma_fwd_prefix_len(fm@, bp, n as int);
            assert(b@ =~= fwd(fm@, bp));
        }
        let ghost yv = fwd(fm@, bp);
        // back substitution with the upper factor
        let mut rr: usize = 0;
        while rr < n
            invariant
                rr <= n,
                n == b@.len(),
                n as int == fm.nrows_spec(),
                n as int == fm.ncols_spec(),
                fm.wf(),
                yv.len() == n,
                yv == fwd(fm@, bp),
                b@ == bwd_from(fm@, yv, n - rr),
            decreases n - rr,
        {
            let row = n - 1 - rr;
            proof {
                lemma_bwd_from_dims(fm@, yv, row + 1);
                lemma_bwd_from_below(fm@, yv, row + 1);
            }
            let mut acc = b.get(row);
            let mut c: usize = row + 1;
            while c < n
                invariant
                    row < c <= n,
                    row < n,
                    n == b@.len(),
                    n as int == fm.nrows_spec(),
                    n as int == fm.ncols_spec(),
                    fm.wf(),
                    yv.len() == n,
                    b@ == bwd_from(fm@, yv, row + 1),
                    b@[row as int] == yv[row as int],
                    acc@ == bwd_acc(fm@, yv, bwd_from(fm@, yv, row + 1), row as int, c as int),
                decreases n - c,
            {
                acc = acc.sub(fm.get(row, c).mul(b.get(c)));
                c = c + 1;
            }
            let x = acc.div(fm.get(row, row));
            b.set(row, x);
            proof {
                assert(b@ =~= bwd_from(fm@, yv, row as int));
            }
            rr = rr + 1;
        }
        proof {
            assert(b@ == plu_solve(fm@, perm@, b0));
        }
        Ok(())
    }
}

/// `bwd_from` keeps the length.
pub proof fn lemma_bwd_from_dims(fm: Seq<Seq<int>>, y: Seq<int>, r: int)
    ensures
        bwd_from(fm, y, r).len() == y.len(),
    decreases y.len() - r,
{
    if 0 <= r < y.len() {
        lemma_bwd_from_dims(fm, y, r + 1);
    }
}

/// `bwd_from` leaves rows below `r` at their `y` values.
pub proof fn lemma_bwd_from_below(fm: Seq<Seq<int>>, y: Seq<int>, r: int)
    ensures
        forall|i: int| 0 <= i < r && i < y.len() ==> #[trigger] bwd_from(fm, y, r)[i] == y[i],
    decreases y.len() - r,
{
    if 0 <= r < y.len() {
        lemma_bwd_from_dims(fm, y, r + 1);
        lemma_bwd_from_below(fm, y, r + 1);
    }
}

} // verus!
