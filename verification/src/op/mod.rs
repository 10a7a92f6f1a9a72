//! The operator framework: `Op` with evaluation statistics, and the three
//! refinements `NonLinearOp`, `LinearOp` and `ConstantOp`.  Each operator
//! carries spec-level models of its behaviour; `obeys()` says that the
//! executable operator follows its models, and every contract promises exact
//! results under that condition while remaining total (length-correct)
//! without it.
use vstd::prelude::*;

use crate::matrix::{zeros_mat, Matrix, SparsityPattern};
use crate::scalar::{add_fx, mul_fx, Fixed, FIX_SCALE};
use crate::vector::Vector;

pub mod closure;
pub mod constant_closure;
pub mod filter;
pub mod matrix_op;
pub mod unit;

verus! {

/// Saturating counter increment.
pub open spec fn incr_u(n: usize) -> usize {
    if n < usize::MAX {
        (n + 1) as usize
    } else {
        n
    }
}

/// Counters for how often an operator was evaluated.
#[derive(Clone, Copy, Debug, PartialEq, Eq, Structural)]
pub struct OpStatistics {
    pub number_of_calls: usize,
    pub number_of_jac_muls: usize,
    pub number_of_matrix_evals: usize,
}

pub open spec fn stats_after_call(s: OpStatistics) -> OpStatistics {
    OpStatistics { number_of_calls: incr_u(s.number_of_calls), ..s }
}

pub open spec fn stats_after_jac_mul(s: OpStatistics) -> OpStatistics {
    OpStatistics { number_of_jac_muls: incr_u(s.number_of_jac_muls), ..s }
}

pub open spec fn stats_after_matrix(s: OpStatistics) -> OpStatistics {
    OpStatistics { number_of_matrix_evals: incr_u(s.number_of_matrix_evals), ..s }
}

/// Pointwise order on statistics: counters never decrease.
pub open spec fn stats_le(a: OpStatistics, b: OpStatistics) -> bool {
    &&& a.number_of_calls <= b.number_of_calls
    &&& a.number_of_jac_muls <= b.number_of_jac_muls
    &&& a.number_of_matrix_evals <= b.number_of_matrix_evals
}

/// Statistics counters are monotone: each increment only grows them.
pub proof fn lemma_stats_increment_monotone(s: OpStatistics)
    ensures
        stats_le(s, stats_after_call(s)),
        stats_le(s, stats_after_jac_mul(s)),
        stats_le(s, stats_after_matrix(s)),
        stats_after_call(s).number_of_calls >= s.number_of_calls,
{
}

impl Default for OpStatistics {
    fn default() -> (r: Self)
        ensures
            r.number_of_calls == 0,
            r.number_of_jac_muls == 0,
            r.number_of_matrix_evals == 0,
    {
        OpStatistics { number_of_calls: 0, number_of_jac_muls: 0, number_of_matrix_evals: 0 }
    }
}

impl OpStatistics {
    pub fn new() -> (r: Self)
        ensures
            r.number_of_calls == 0,
            r.number_of_jac_muls == 0,
            r.number_of_matrix_evals == 0,
    {
        OpStatistics { number_of_jac_muls: 0, number_of_calls: 0, number_of_matrix_evals: 0 }
    }

    pub fn increment_call(&mut self)
        ensures
            *final(self) == stats_after_call(*old(self)),
    {
        if self.number_of_calls < usize::MAX {
            self.number_of_calls = self.number_of_calls + 1;
        }
    }

    pub fn increment_jac_mul(&mut self)
        ensures
            *final(self) == stats_after_jac_mul(*old(self)),
    {
        if self.number_of_jac_muls < usize::MAX {
            self.number_of_jac_muls = self.number_of_jac_muls + 1;
        }
    }

    pub fn increment_matrix(&mut self)
        ensures
            *final(self) == stats_after_matrix(*old(self)),
    {
        if self.number_of_matrix_evals < usize::MAX {
            self.number_of_matrix_evals = self.number_of_matrix_evals + 1;
        }
    }
}

/// The standard basis vector `e_j` of length `n`, scaled to one.
pub open spec fn basis_vec(n: int, j: int) -> Seq<int> {
    Seq::new(
        n as nat,
        |k: int|
            if k == j {
                FIX_SCALE as int
            } else {
                0int
            },
    )
}

/// The sparsity descriptor of `y` is compatible with that of the operator:
/// either `y` is dense, or it declares the same positions.
pub open spec fn sparsity_match(
    y_sp: Option<SparsityPattern>,
    op_sp: Option<SparsityPattern>,
) -> bool {
    match y_sp {
        None => true,
        Some(q) => match op_sp {
            Some(p) => q@ == p@,
            None => false,
        },
    }
}

/// An operator: given parameters `p`, maps an input `x` of length
/// `nstates` to an output of length `nout`, carrying statistics and an
/// optional sparsity descriptor for its Jacobian or matrix.
pub trait Op: Sized {
    spec fn nstates_spec(&self) -> usize;

    spec fn nout_spec(&self) -> usize;

    spec fn nparams_spec(&self) -> usize;

    spec fn stats_spec(&self) -> OpStatistics;

    spec fn sparsity_spec(&self) -> Option<SparsityPattern>;

    /// Number of input states.
    fn nstates(&self) -> (r: usize)
        ensures
            r == self.nstates_spec(),
    ;

    /// Number of outputs.
    fn nout(&self) -> (r: usize)
        ensures
            r == self.nout_spec(),
    ;

    /// Number of parameters.
    fn nparams(&self) -> (r: usize)
        ensures
            r == self.nparams_spec(),
    ;

    /// Sparsity of the Jacobian or matrix, if known.  A pattern handed out
    /// is always well formed and shaped `nout` x `nstates`.
    fn sparsity(&self) -> (r: Option<&SparsityPattern>)
        ensures
            match r {
                Some(p) => self.sparsity_spec() == Some(*p) && p.wf() && p.nrows_spec()
                    == self.nout_spec() as int && p.ncols_spec() == self.nstates_spec() as int,
                None => self.sparsity_spec() is None,
            },
    ;

    /// A snapshot of the evaluation statistics.
    fn statistics(&self) -> (r: OpStatistics)
        ensures
            r == self.stats_spec(),
    ;
}

/// Shape, statistics and sparsity agree (used to say a call left the
/// operator's identity unchanged).
pub open spec fn same_op_shape<C: Op>(a: C, b: C) -> bool {
    &&& a.nstates_spec() == b.nstates_spec()
    &&& a.nout_spec() == b.nout_spec()
    &&& a.nparams_spec() == b.nparams_spec()
    &&& a.sparsity_spec() == b.sparsity_spec()
}

/// The nonlinear operator models are unchanged between `a` and `b`.
pub open spec fn same_nonlinear_model<C: NonLinearOp>(a: C, b: C) -> bool {
    &&& same_op_shape(a, b)
    &&& a.obeys() == b.obeys()
    &&& forall|x: Seq<int>, t: int| #[trigger] b.call_model(x, t) == a.call_model(x, t)
    &&& forall|x: Seq<int>, t: int, v: Seq<int>| #[trigger] b.jac_action_model(x, t, v)
        == a.jac_action_model(x, t, v)
    &&& forall|y0: Seq<Seq<int>>, x: Seq<int>, t: int| #[trigger] b.jac_write_model(y0, x, t)
        == a.jac_write_model(y0, x, t)
}

/// A nonlinear operator `y = F(x, t)` with a Jacobian action
/// `v -> F_x(x, t) * v` and Jacobian materialization.
pub trait NonLinearOp: Op {
    /// The executable operator follows the models below.
    spec fn obeys(&self) -> bool;

    /// Model of `F(x, t)`.
    spec fn call_model(&self, x: Seq<int>, t: int) -> Seq<int>;

    /// Model of `F_x(x, t) * v`.
    spec fn jac_action_model(&self, x: Seq<int>, t: int, v: Seq<int>) -> Seq<int>;

    /// Model of what `jacobian_inplace` leaves in a matrix whose prior view
    /// was `y0`.
    spec fn jac_write_model(&self, y0: Seq<Seq<int>>, x: Seq<int>, t: int) -> Seq<Seq<int>>;

    /// Compute `y = F(x, t)` in place.
    fn call_inplace(&mut self, x: &Vector, t: Fixed, y: &mut Vector)
        requires
            x@.len() == old(self).nstates_spec(),
            old(y)@.len() == old(self).nout_spec(),
        ensures
            same_op_shape(*old(self), *final(self)),
            final(self).obeys() == old(self).obeys(),
            forall|x2: Seq<int>, t2: int| #[trigger] final(self).call_model(x2, t2) == old(self).call_model(x2, t2),
            forall|x2: Seq<int>, t2: int, v2: Seq<int>| #[trigger] final(self).jac_action_model(
                x2,
                t2,
                v2,
            ) == old(self).jac_action_model(x2, t2, v2),
            forall|y2: Seq<Seq<int> >, x2: Seq<int>, t2: int| #[trigger] final(self).jac_write_model(y2, x2, t2) == old(self).jac_write_model(y2, x2, t2),
            final(self).stats_spec() == stats_after_call(old(self).stats_spec()),
            final(y)@.len() == old(self).nout_spec() as int,
            old(self).obeys() ==> final(y)@ == old(self).call_model(x@, t@),
    ;

    /// Compute the product of the Jacobian at `(x, t)` with `v`, in place.
    fn jac_mul_inplace(&mut self, x: &Vector, t: Fixed, v: &Vector, y: &mut Vector)
        requires
            x@.len() == old(self).nstates_spec(),
            v@.len() == old(self).nstates_spec(),
            old(y)@.len() == old(self).nout_spec(),
        ensures
            same_op_shape(*old(self), *final(self)),
            final(self).obeys() == old(self).obeys(),
            forall|x2: Seq<int>, t2: int| #[trigger] final(self).call_model(x2, t2) == old(self).call_model(x2, t2),
            forall|x2: Seq<int>, t2: int, v2: Seq<int>| #[trigger] final(self).jac_action_model(
                x2,
                t2,
                v2,
            ) == old(self).jac_action_model(x2, t2, v2),
            forall|y2: Seq<Seq<int> >, x2: Seq<int>, t2: int| #[trigger] final(self).jac_write_model(y2, x2, t2) == old(self).jac_write_model(y2, x2, t2),
            final(self).stats_spec() == stats_after_jac_mul(old(self).stats_spec()),
            final(y)@.len() == old(self).nout_spec() as int,
            old(self).obeys() ==> final(y)@ == old(self).jac_action_model(x@, t@, v@),
    ;

    /// Compute `F(x, t)` and return it.
    fn call(&mut self, x: &Vector, t: Fixed) -> (y: Vector)
        requires
            x@.len() == old(self).nstates_spec(),
        ensures
            same_op_shape(*old(self), *final(self)),
            final(self).obeys() == old(self).obeys(),
            forall|x2: Seq<int>, t2: int| #[trigger] final(self).call_model(x2, t2) == old(self).call_model(x2, t2),
            forall|x2: Seq<int>, t2: int, v2: Seq<int>| #[trigger] final(self).jac_action_model(
                x2,
                t2,
                v2,
            ) == old(self).jac_action_model(x2, t2, v2),
            forall|y2: Seq<Seq<int> >, x2: Seq<int>, t2: int| #[trigger] final(self).jac_write_model(y2, x2, t2) == old(self).jac_write_model(y2, x2, t2),
            final(self).stats_spec() == stats_after_call(old(self).stats_spec()),
            y@.len() == old(self).nout_spec() as int,
            old(self).obeys() ==> y@ == old(self).call_model(x@, t@),
    {
        let n = self.nout();
        let mut y = Vector::zeros(n);
        self.call_inplace(x, t, &mut y);
        y
    }

    /// Compute the Jacobian action on `v` and return it.
    fn jac_mul(&mut self, x: &Vector, t: Fixed, v: &Vector) -> (y: Vector)
        requires
            x@.len() == old(self).nstates_spec(),
            v@.len() == old(self).nstates_spec(),
        ensures
            same_op_shape(*old(self), *final(self)),
            final(self).obeys() == old(self).obeys(),
            forall|x2: Seq<int>, t2: int| #[trigger] final(self).call_model(x2, t2) == old(self).call_model(x2, t2),
            forall|x2: Seq<int>, t2: int, v2: Seq<int>| #[trigger] final(self).jac_action_model(
                x2,
                t2,
                v2,
            ) == old(self).jac_action_model(x2, t2, v2),
            forall|y2: Seq<Seq<int> >, x2: Seq<int>, t2: int| #[trigger] final(self).jac_write_model(y2, x2, t2) == old(self).jac_write_model(y2, x2, t2),
            final(self).stats_spec() == stats_after_jac_mul(old(self).stats_spec()),
            y@.len() == old(self).nout_spec() as int,
            old(self).obeys() ==> y@ == old(self).jac_action_model(x@, t@, v@),
    {
        let n = self.nout();
        let mut y = Vector::zeros(n);
        self.jac_mul_inplace(x, t, v, &mut y);
        y
    }

    /// Materialize the Jacobian at `(x, t)` into `y`, which must have been
    /// initialised with a shape (and sparsity) compatible with this
    /// operator.  Positions outside a declared sparsity pattern are never
    /// written.
    fn jacobian_inplace(&mut self, x: &Vector, t: Fixed, y: &mut Matrix)
        requires
            x@.len() == old(self).nstates_spec(),
            old(y).wf(),
            old(y).nrows_spec() == old(self).nout_spec() as int,
            old(y).ncols_spec() == old(self).nstates_spec() as int,
            sparsity_match(old(y).sparsity_spec(), old(self).sparsity_spec()),
        ensures
            same_op_shape(*old(self), *final(self)),
            final(self).obeys() == old(self).obeys(),
            forall|x2: Seq<int>, t2: int| #[trigger] final(self).call_model(x2, t2) == old(self).call_model(x2, t2),
            forall|x2: Seq<int>, t2: int, v2: Seq<int>| #[trigger] final(self).jac_action_model(
                x2,
                t2,
                v2,
            ) == old(self).jac_action_model(x2, t2, v2),
            forall|y2: Seq<Seq<int> >, x2: Seq<int>, t2: int| #[trigger] final(self).jac_write_model(y2, x2, t2) == old(self).jac_write_model(y2, x2, t2),
            stats_le(old(self).stats_spec(), final(self).stats_spec()),
            final(self).stats_spec().number_of_calls == old(self).stats_spec().number_of_calls,
            final(self).stats_spec().number_of_matrix_evals == incr_u(
                old(self).stats_spec().number_of_matrix_evals,
            ),
            final(y).wf(),
            final(y).nrows_spec() == old(y).nrows_spec(),
            final(y).ncols_spec() == old(y).ncols_spec(),
            final(y).sparsity_spec() == old(y).sparsity_spec(),
            old(self).obeys() ==> final(y)@ == old(self).jac_write_model(old(y)@, x@, t@),
            match old(self).sparsity_spec() {
                Some(p) => forall|i: int, j: int|
                    0 <= i < old(y).nrows_spec() && 0 <= j < old(y).ncols_spec()
                        && !pattern_contains_ij(p@, i, j) ==> final(y)@[j][i] == old(y)@[j][i],
                None => true,
            },
    ;

    /// Materialize the Jacobian by probing every standard basis vector and
    /// writing each result as a column (the uncompressed path).
    fn _default_jacobian_inplace(&mut self, x: &Vector, t: Fixed, y: &mut Matrix)
        requires
            x@.len() == old(self).nstates_spec(),
            old(y).wf(),
            old(y).nrows_spec() == old(self).nout_spec() as int,
            old(y).ncols_spec() == old(self).nstates_spec() as int,
        ensures
            same_op_shape(*old(self), *final(self)),
            final(self).obeys() == old(self).obeys(),
            forall|x2: Seq<int>, t2: int| #[trigger] final(self).call_model(x2, t2) == old(self).call_model(x2, t2),
            forall|x2: Seq<int>, t2: int, v2: Seq<int>| #[trigger] final(self).jac_action_model(
                x2,
                t2,
                v2,
            ) == old(self).jac_action_model(x2, t2, v2),
            forall|y2: Seq<Seq<int> >, x2: Seq<int>, t2: int| #[trigger] final(self).jac_write_model(y2, x2, t2) == old(self).jac_write_model(y2, x2, t2),
            stats_le(old(self).stats_spec(), final(self).stats_spec()),
            final(self).stats_spec().number_of_calls == old(self).stats_spec().number_of_calls,
            final(self).stats_spec().number_of_matrix_evals == old(
                self,
            ).stats_spec().number_of_matrix_evals,
            final(y).wf(),
            final(y).nrows_spec() == old(y).nrows_spec(),
            final(y).ncols_spec() == old(y).ncols_spec(),
            final(y).sparsity_spec() == old(y).sparsity_spec(),
            old(self).obeys() ==> forall|j2: int|
                0 <= j2 < old(self).nstates_spec() as int ==> #[trigger] final(y)@[j2] == old(self).jac_action_model(x@, t@, basis_vec(old(self).nstates_spec() as int, j2)),
    {
        let n = self.nstates();
        let mut v = Vector::zeros(n);
        let mut col = Vector::zeros(self.nout());
        let mut j: usize = 0;
        while j < n
            invariant
                j <= n,
                n == self.nstates_spec(),
                same_op_shape(*old(self), *self),
                self.obeys() == old(self).obeys(),
                forall|x2: Seq<int>, t2: int| #[trigger] self.call_model(x2, t2) == old(self).call_model(x2, t2),
                forall|x2: Seq<int>, t2: int, v2: Seq<int>| #[trigger] self.jac_action_model(
                    x2,
                    t2,
                    v2,
                ) == old(self).jac_action_model(x2, t2, v2),
                forall|y2: Seq<Seq<int> >, x2: Seq<int>, t2: int| #[trigger] self.jac_write_model(
                    y2,
                    x2,
                    t2,
                ) == old(self).jac_write_model(y2, x2, t2),
                stats_le(old(self).stats_spec(), self.stats_spec()),
                self.stats_spec().number_of_calls == old(self).stats_spec().number_of_calls,
                self.stats_spec().number_of_matrix_evals == old(
                    self,
                ).stats_spec().number_of_matrix_evals,
                v@.len() == n,
                forall|k: int| 0 <= k < n ==> v@[k] == 0,
                col@.len() == self.nout_spec(),
                y.wf(),
                y.nrows_spec() == old(y).nrows_spec(),
                y.ncols_spec() == old(y).ncols_spec(),
                y.sparsity_spec() == old(y).sparsity_spec(),
                y.nrows_spec() == self.nout_spec() as int,
                y.ncols_spec() == n as int,
                old(self).obeys() ==> forall|j2: int|
                    0 <= j2 < j ==> #[trigger] y@[j2] == old(self).jac_action_model(
                        x@,
                        t@,
                        basis_vec(n as int, j2),
                    ),
            decreases n - j,
        {
            v.set(j, Fixed::one());
            proof {
                assert(v@ =~= basis_vec(n as int, j as int));
            }
            self.jac_mul_inplace(x, t, &v, &mut col);
            y.set_column(j, &col);
            v.set(j, Fixed::zero());
            j = j + 1;
        }
    }

    /// Compute the Jacobian and return it, shaped and sparsity-initialised
    /// from this operator.
    fn jacobian(&mut self, x: &Vector, t: Fixed) -> (y: Matrix)
        requires
            x@.len() == old(self).nstates_spec(),
        ensures
            same_op_shape(*old(self), *final(self)),
            final(self).obeys() == old(self).obeys(),
            forall|x2: Seq<int>, t2: int| #[trigger] final(self).call_model(x2, t2) == old(self).call_model(x2, t2),
            forall|x2: Seq<int>, t2: int, v2: Seq<int>| #[trigger] final(self).jac_action_model(
                x2,
                t2,
                v2,
            ) == old(self).jac_action_model(x2, t2, v2),
            forall|y2: Seq<Seq<int> >, x2: Seq<int>, t2: int| #[trigger] final(self).jac_write_model(y2, x2, t2) == old(self).jac_write_model(y2, x2, t2),
            stats_le(old(self).stats_spec(), final(self).stats_spec()),
            final(self).stats_spec().number_of_calls == old(self).stats_spec().number_of_calls,
            final(self).stats_spec().number_of_matrix_evals == incr_u(
                old(self).stats_spec().number_of_matrix_evals,
            ),
            y.wf(),
            y.nrows_spec() == old(self).nout_spec() as int,
            y.ncols_spec() == old(self).nstates_spec() as int,
            old(self).obeys() ==> y@ == old(self).jac_write_model(
                zeros_mat(old(self).nout_spec() as int, old(self).nstates_spec() as int),
                x@,
                t@,
            ),
            match old(self).sparsity_spec() {
                Some(p) => forall|i: int, j: int|
                    0 <= i < old(self).nout_spec() && 0 <= j < old(self).nstates_spec()
                        && !pattern_contains_ij(p@, i, j) ==> y@[j][i] == 0,
                None => true,
            },
    {
        let nr = self.nout();
        let nc = self.nstates();
        let mut y = match self.sparsity() {
            Some(p) => Matrix::new_from_sparsity(nr, nc, Some(p)),
            None => Matrix::new_from_sparsity(nr, nc, None),
        };
        self.jacobian_inplace(x, t, &mut y);
        y
    }
}

/// Re-statement of pattern membership, so trait contracts here do not
/// depend on the matrix module's name resolution.
pub open spec fn pattern_contains_ij(s: Seq<(int, int)>, i: int, j: int) -> bool {
    crate::matrix::pattern_contains(s, i, j)
}

/// The result of `y <- A * x + beta * y` in fixed-point arithmetic.
pub open spec fn lin_gemv_fx(m: Seq<Seq<int>>, x: Seq<int>, beta: int, y: Seq<int>) -> Seq<int> {
    Seq::new(
        y.len(),
        |i: int| add_fx(crate::matrix::row_dot(m, x, i), mul_fx(beta, y[i])),
    )
}

/// A linear operator `y = A(t) * x`, evaluated through a GEMV with a `beta`
/// accumulator, with matrix materialization.
pub trait LinearOp: Op {
    /// The executable operator follows `mat_model`.
    spec fn lin_obeys(&self) -> bool;

    /// Model of the matrix `A(t)` (column-major).
    spec fn mat_model(&self, t: int) -> Seq<Seq<int>>;

    /// `y <- A(t) * x + beta * y`.
    fn gemv_inplace(&mut self, x: &Vector, t: Fixed, beta: Fixed, y: &mut Vector)
        requires
            x@.len() == old(self).nstates_spec(),
            old(y)@.len() == old(self).nout_spec(),
        ensures
            same_op_shape(*old(self), *final(self)),
            final(self).lin_obeys() == old(self).lin_obeys(),
            forall|t2: int| #[trigger] final(self).mat_model(t2) == old(self).mat_model(t2),
            stats_le(old(self).stats_spec(), final(self).stats_spec()),
            final(y)@.len() == old(self).nout_spec() as int,
            old(self).lin_obeys() ==> final(y)@ == lin_gemv_fx(
                old(self).mat_model(t@),
                x@,
                beta@,
                old(y)@,
            ),
    ;

    /// `y = A(t) * x` (a GEMV with a zero accumulator).
    fn call_inplace(&mut self, x: &Vector, t: Fixed, y: &mut Vector)
        requires
            x@.len() == old(self).nstates_spec(),
            old(y)@.len() == old(self).nout_spec(),
        ensures
            same_op_shape(*old(self), *final(self)),
            final(self).lin_obeys() == old(self).lin_obeys(),
            forall|t2: int| #[trigger] final(self).mat_model(t2) == old(self).mat_model(t2),
            stats_le(old(self).stats_spec(), final(self).stats_spec()),
            final(y)@.len() == old(self).nout_spec() as int,
            old(self).lin_obeys() ==> final(y)@ == lin_gemv_fx(
                old(self).mat_model(t@),
                x@,
                0,
                old(y)@,
            ),
    {
        let beta = Fixed::zero();
        self.gemv_inplace(x, t, beta, y)
    }

    /// Materialize `A(t)` into `y` by evaluating the operator on every
    /// standard basis vector.
    fn matrix_inplace(&mut self, t: Fixed, y: &mut Matrix)
        requires
            old(y).wf(),
            old(y).nrows_spec() == old(self).nout_spec() as int,
            old(y).ncols_spec() == old(self).nstates_spec() as int,
        ensures
            same_op_shape(*old(self), *final(self)),
            final(self).lin_obeys() == old(self).lin_obeys(),
            forall|t2: int| #[trigger] final(self).mat_model(t2) == old(self).mat_model(t2),
            stats_le(old(self).stats_spec(), final(self).stats_spec()),
            final(y).wf(),
            final(y).nrows_spec() == old(y).nrows_spec(),
            final(y).ncols_spec() == old(y).ncols_spec(),
            final(y).sparsity_spec() == old(y).sparsity_spec(),
            old(self).lin_obeys() ==> forall|j2: int|
                0 <= j2 < old(self).nstates_spec() as int ==> #[trigger] final(y)@[j2]
                    == lin_gemv_fx(
                    old(self).mat_model(t@),
                    basis_vec(old(self).nstates_spec() as int, j2),
                    0,
                    zeros_col(old(self).nout_spec() as int),
                ),
    {
        self._default_matrix_inplace(t, y)
    }

    /// The default matrix materialization by basis probing.
    fn _default_matrix_inplace(&mut self, t: Fixed, y: &mut Matrix)
        requires
            old(y).wf(),
            old(y).nrows_spec() == old(self).nout_spec() as int,
            old(y).ncols_spec() == old(self).nstates_spec() as int,
        ensures
            same_op_shape(*old(self), *final(self)),
            final(self).lin_obeys() == old(self).lin_obeys(),
            forall|t2: int| #[trigger] final(self).mat_model(t2) == old(self).mat_model(t2),
            stats_le(old(self).stats_spec(), final(self).stats_spec()),
            final(y).wf(),
            final(y).nrows_spec() == old(y).nrows_spec(),
            final(y).ncols_spec() == old(y).ncols_spec(),
            final(y).sparsity_spec() == old(y).sparsity_spec(),
            old(self).lin_obeys() ==> forall|j2: int|
                0 <= j2 < old(self).nstates_spec() as int ==> #[trigger] final(y)@[j2]
                    == lin_gemv_fx(
                    old(self).mat_model(t@),
                    basis_vec(old(self).nstates_spec() as int, j2),
                    0,
                    zeros_col(old(self).nout_spec() as int),
                ),
    {
        let n = self.nstates();
        let mut v = Vector::zeros(n);
        let mut j: usize = 0;
        while j < n
            invariant
                j <= n,
                n == self.nstates_spec(),
                same_op_shape(*old(self), *self),
                self.lin_obeys() == old(self).lin_obeys(),
                forall|t2: int| #[trigger] self.mat_model(t2) == old(self).mat_model(t2),
                stats_le(old(self).stats_spec(), self.stats_spec()),
                v@.len() == n,
                forall|k: int| 0 <= k < n ==> v@[k] == 0,
                y.wf(),
                y.nrows_spec() == old(y).nrows_spec(),
                y.ncols_spec() == old(y).ncols_spec(),
                y.sparsity_spec() == old(y).sparsity_spec(),
                y.nrows_spec() == self.nout_spec() as int,
                y.ncols_spec() == n as int,
                old(self).lin_obeys() ==> forall|j2: int|
                    0 <= j2 < j ==> #[trigger] y@[j2] == lin_gemv_fx(
                        old(self).mat_model(t@),
                        basis_vec(n as int, j2),
                        0,
                        zeros_col(old(self).nout_spec() as int),
                    ),
            decreases n - j,
        {
            v.set(j, Fixed::one());
            proof {
                assert(v@ =~= basis_vec(n as int, j as int));
            }
            let mut c = Vector::zeros(self.nout());
            proof {
                assert(c@ =~= zeros_col(self.nout_spec() as int));
            }
            self.call_inplace(&v, t, &mut c);
            y.set_column(j, &c);
            v.set(j, Fixed::zero());
            j = j + 1;
        }
    }

    /// Materialize and return `A(t)` (square operators).
    fn matrix(&mut self, t: Fixed) -> (y: Matrix)
        ensures
            same_op_shape(*old(self), *final(self)),
            final(self).lin_obeys() == old(self).lin_obeys(),
            forall|t2: int| #[trigger] final(self).mat_model(t2) == old(self).mat_model(t2),
            stats_le(old(self).stats_spec(), final(self).stats_spec()),
            y.wf(),
            y.nrows_spec() == old(self).nout_spec() as int,
            y.ncols_spec() == old(self).nstates_spec() as int,
            y.sparsity_spec() is None,
            old(self).lin_obeys() ==> forall|j2: int|
                0 <= j2 < old(self).nstates_spec() as int ==> #[trigger] y@[j2] == lin_gemv_fx(
                    old(self).mat_model(t@),
                    basis_vec(old(self).nstates_spec() as int, j2),
                    0,
                    zeros_col(old(self).nout_spec() as int),
                ),
    {
        let nr = self.nout();
        let nc = self.nstates();
        let mut y = Matrix::zeros(nr, nc);
        self.matrix_inplace(t, &mut y);
        y
    }
}

/// An all-zero column of length `n`.
pub open spec fn zeros_col(n: int) -> Seq<int> {
    Seq::new(n as nat, |i: int| 0int)
}

/// The matrix recovered by probing a linear operator on every basis vector.
pub open spec fn probe_matrix<C: LinearOp>(op: C, t: int) -> Seq<Seq<int>> {
    Seq::new(
        op.nstates_spec() as nat,
        |j: int| lin_gemv_fx(
            op.mat_model(t),
            basis_vec(op.nstates_spec() as int, j),
            0,
            zeros_col(op.nout_spec() as int),
        ),
    )
}

/// Dotting row `i` of `m` with the basis vector `e_j` over the first `k`
/// columns picks out `m[j][i]` once column `j` has been passed.
pub proof fn lemma_row_dot_basis_prefix(m: Seq<Seq<int>>, j: int, i: int, k: int)
    requires
        0 <= j < m.len(),
        0 <= i < m[j].len(),
        crate::scalar::fx_in_range(m[j][i]),
        0 <= k <= m.len(),
    ensures
        crate::matrix::row_dot_prefix(m, basis_vec(m.len() as int, j), i, k) == (if k > j {
            m[j][i]
        } else {
            0int
        }),
    decreases k,
{
    if k > 0 {
        lemma_row_dot_basis_prefix(m, j, i, k - 1);
        let b = basis_vec(m.len() as int, j);
        if k - 1 == j {
            crate::scalar::lemma_mul_fx_one(m[j][i]);
            assert(b[k - 1] == FIX_SCALE as int);
        } else {
            crate::scalar::lemma_mul_fx_zero(m[k - 1][i]);
            assert(b[k - 1] == 0);
        }
    }
}

/// Probing a well-formed in-range matrix model on a basis vector recovers
/// the corresponding column: the default materialization is exact.
pub proof fn lemma_probe_matrix_recovers<C: LinearOp>(op: C, t: int)
    requires
        op.mat_model(t).len() == op.nstates_spec() as int,
        forall|j: int|
            0 <= j < op.mat_model(t).len() ==> (#[trigger] op.mat_model(t)[j]).len()
                == op.nout_spec() as int,
        forall|j: int, i: int|
            0 <= j < op.mat_model(t).len() && 0 <= i < op.nout_spec() as int
                ==> crate::scalar::fx_in_range(#[trigger] op.mat_model(t)[j][i]),
    ensures
        forall|j: int|
            0 <= j < op.nstates_spec() as int ==> #[trigger] lin_gemv_fx(
                op.mat_model(t),
                basis_vec(op.nstates_spec() as int, j),
                0,
                zeros_col(op.nout_spec() as int),
            ) == op.mat_model(t)[j],
{
    let m = op.mat_model(t);
    let n = op.nstates_spec() as int;
    let nout = op.nout_spec() as int;
    assert forall|j: int| 0 <= j < n implies #[trigger] lin_gemv_fx(
        m,
        basis_vec(n, j),
        0,
        zeros_col(nout),
    ) == m[j] by {
        let col = lin_gemv_fx(m, basis_vec(n, j), 0, zeros_col(nout));
        assert forall|i: int| 0 <= i < nout implies col[i] == m[j][i] by {
            lemma_row_dot_basis_prefix(m, j, i, m.len() as int);
            crate::scalar::lemma_mul_fx_zero(0);
            assert(crate::matrix::row_dot(m, basis_vec(n, j), i) == m[j][i]);
        }
        assert(col =~= m[j]);
    }
}

/// A constant operator `y = c(t)`: independent of the state, with a zero
/// Jacobian.
pub trait ConstantOp: Op {
    /// The executable operator follows `const_model`.
    spec fn const_obeys(&self) -> bool;

    /// Model of `c(t)`.
    spec fn const_model(&self, t: int) -> Seq<int>;

    /// Compute `y = c(t)` in place.
    fn call_inplace(&mut self, t: Fixed, y: &mut Vector)
        requires
            old(y)@.len() == old(self).nout_spec(),
        ensures
            same_op_shape(*old(self), *final(self)),
            final(self).const_obeys() == old(self).const_obeys(),
            forall|t2: int| #[trigger] final(self).const_model(t2) == old(self).const_model(t2),
            stats_le(old(self).stats_spec(), final(self).stats_spec()),
            final(y)@.len() == old(self).nout_spec() as int,
            old(self).const_obeys() ==> final(y)@ == old(self).const_model(t@),
    ;

    /// Compute `y = c(t)` and return it.
    fn call(&mut self, t: Fixed) -> (y: Vector)
        ensures
            same_op_shape(*old(self), *final(self)),
            final(self).const_obeys() == old(self).const_obeys(),
            forall|t2: int| #[trigger] final(self).const_model(t2) == old(self).const_model(t2),
            stats_le(old(self).stats_spec(), final(self).stats_spec()),
            y@.len() == old(self).nout_spec() as int,
            old(self).const_obeys() ==> y@ == old(self).const_model(t@),
    {
        let n = self.nout();
        let mut y = Vector::zeros(n);
        self.call_inplace(t, &mut y);
        y
    }

    /// The Jacobian of a constant operator is zero.
    fn jac_mul_inplace(&self, y: &mut Vector)
        ensures
            final(y)@.len() == old(y)@.len(),
            forall|i: int| 0 <= i < old(y)@.len() ==> final(y)@[i] == 0,
    {
        let zeros = Vector::zeros(y.len());
        y.copy_from(&zeros);
    }
}

} // verus!
