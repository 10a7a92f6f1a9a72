//! The nonlinear solver layer: the adaptive convergence test, the solver
//! problem record, the `NonLinearSolver` interface, and test solutions.
use vstd::prelude::*;

use crate::matrix::{zeros_mat, Matrix};
use crate::op::{same_nonlinear_model, stats_le, incr_u, NonLinearOp};
use crate::scalar::{
    abs_fx, add_fx, clip, div_fx, mul_fx, pow_fx, sqrt_fx, sub_fx, tdiv, Fixed, FIX_SCALE,
};
use crate::vector::{norm_fx, Vector};
use crate::SolverError;

pub mod newton;

verus! {

/// A known solution of a nonlinear problem: start value and root.
#[derive(Debug)]
pub struct NonLinearSolveSolution {
    pub x0: Vector,
    pub x: Vector,
}

impl NonLinearSolveSolution {
    pub fn new(x0: Vector, x: Vector) -> (r: Self)
        ensures
            r.x0@ == x0@,
            r.x@ == x@,
    {
        NonLinearSolveSolution { x0, x }
    }
}

/// A nonlinear problem: the operator together with its tolerances.
pub struct SolverProblem<C: NonLinearOp> {
    pub f: C,
    pub atol: Vector,
    pub rtol: Fixed,
}

impl<C: NonLinearOp> SolverProblem<C> {
    pub fn new(f: C, atol: Vector, rtol: Fixed) -> (r: Self)
        requires
            atol@.len() == f.nstates_spec(),
        ensures
            r.f == f,
            r.atol@ == atol@,
            r.rtol == rtol,
    {
        SolverProblem { f, atol, rtol }
    }
}

/// Outcome of one convergence-test step.
#[derive(Clone, Copy, Debug, PartialEq, Eq, Structural)]
pub enum ConvergenceStatus {
    Converged,
    Diverged,
    Continue,
    MaximumIterations,
}

/// The working tolerance: `max(min_tol, min(max_tol, 0.5 * sqrt(rtol)))`
/// with `min_tol = 10 * eps / rtol` and `max_tol = 0.03`, in fixed-point
/// arithmetic.
pub open spec fn newton_tolerance(rtol: int) -> int {
    let min_tol = div_fx(mul_fx(clip(10 * FIX_SCALE as int), 1), rtol);
    let max_tol = clip(tdiv(3 * FIX_SCALE as int, 100));
    let t0 = mul_fx(clip(tdiv(FIX_SCALE as int, 2)), sqrt_fx(rtol));
    let t1 = if t0 > max_tol {
        max_tol
    } else {
        t0
    };
    if t1 < min_tol {
        min_tol
    } else {
        t1
    }
}

/// The per-component tolerance scale `|y| * rtol + atol`.
pub open spec fn scale_model(y: Seq<int>, rtol: int, atol: Seq<int>) -> Seq<int> {
    Seq::new(y.len(), |i: int| add_fx(mul_fx(abs_fx(y[i]), rtol), atol[i]))
}

/// The update direction scaled componentwise by the tolerance scale.
pub open spec fn scaled_seq(dy: Seq<int>, scale: Seq<int>) -> Seq<int> {
    Seq::new(dy.len(), |i: int| div_fx(dy[i], scale[i]))
}

/// The decision of one convergence-test step on scaled norm `n`, previous
/// norm `on`, iteration count and tolerance.
pub open spec fn conv_status_spec(
    n: int,
    on: Option<int>,
    iter: int,
    max_iter: int,
    tol: int,
) -> ConvergenceStatus {
    if n <= 1 {
        ConvergenceStatus::Converged
    } else {
        let after = if iter + 1 >= max_iter || iter >= max_iter {
            ConvergenceStatus::MaximumIterations
        } else {
            ConvergenceStatus::Continue
        };
        match on {
            Some(o) => {
                let rate = div_fx(n, o);
                if rate >= FIX_SCALE as int {
                    ConvergenceStatus::Diverged
                } else if mul_fx(div_fx(rate, sub_fx(FIX_SCALE as int, rate)), n) < tol {
                    ConvergenceStatus::Converged
                } else if mul_fx(
                    div_fx(pow_fx(rate, (max_iter - iter) as nat), sub_fx(FIX_SCALE as int, rate)),
                    n,
                ) > tol {
                    ConvergenceStatus::Diverged
                } else {
                    after
                }
            },
            None => after,
        }
    }
}

/// Whether a status lets the iteration advance its bookkeeping.
pub open spec fn conv_records(st: ConvergenceStatus) -> bool {
    st is Continue || st is MaximumIterations
}

/// The adaptive convergence test of the modified-Newton iteration.
#[derive(Debug)]
pub struct Convergence {
    rtol: Fixed,
    atol: Vector,
    tol: Fixed,
    max_iter: usize,
    iter: usize,
    scale: Option<Vector>,
    old_norm: Option<Fixed>,
}

impl Convergence {
    #[verifier::type_invariant]
    closed spec fn inv(self) -> bool {
        &&& self.iter <= self.max_iter
        &&& match self.scale {
            Some(s) => s@.len() == self.atol@.len(),
            None => true,
        }
    }

    pub closed spec fn rtol_spec(&self) -> int {
        self.rtol@
    }

    pub closed spec fn atol_spec(&self) -> Seq<int> {
        self.atol@
    }

    pub closed spec fn tol_spec(&self) -> int {
        self.tol@
    }

    pub closed spec fn max_iter_spec(&self) -> usize {
        self.max_iter
    }

    pub closed spec fn iter_spec(&self) -> usize {
        self.iter
    }

    pub closed spec fn scale_spec(&self) -> Option<Seq<int>> {
        match self.scale {
            Some(s) => Some(s@),
            None => None,
        }
    }

    pub closed spec fn old_norm_spec(&self) -> Option<int> {
        match self.old_norm {
            Some(o) => Some(o@),
            None => None,
        }
    }

    /// Build a convergence test for the given tolerances and iteration
    /// budget.
    pub fn new(rtol: Fixed, atol: Vector, max_iter: usize) -> (r: Convergence)
        ensures
            r.rtol_spec() == rtol@,
            r.atol_spec() == atol@,
            r.max_iter_spec() == max_iter,
            r.iter_spec() == 0,
            r.scale_spec() is None,
            r.old_norm_spec() is None,
            r.tol_spec() == newton_tolerance(rtol@),
    {
        let minimum_tol = Fixed::from_int(10).mul(Fixed::epsilon()).div(rtol);
        let maximum_tol = Fixed::from_ratio(3, 100);
        let mut tol = Fixed::from_ratio(1, 2).mul(rtol.sqrt());
        if tol.gt(maximum_tol) {
            tol = maximum_tol;
        }
        if tol.lt(minimum_tol) {
            tol = minimum_tol;
        }
        Convergence { rtol, atol, tol, max_iter, iter: 0, scale: None, old_norm: None }
    }

    /// Reset the tolerance scale against the reference iterate `y`, and
    /// clear the iteration bookkeeping.
    pub fn reset(&mut self, y: &Vector)
        requires
            y@.len() == old(self).atol_spec().len(),
        ensures
            final(self).rtol_spec() == old(self).rtol_spec(),
            final(self).atol_spec() == old(self).atol_spec(),
            final(self).tol_spec() == old(self).tol_spec(),
            final(self).max_iter_spec() == old(self).max_iter_spec(),
            final(self).iter_spec() == 0,
            final(self).old_norm_spec() is None,
            (final(self).scale_spec() matches Some(s) && s == scale_model(
                y@,
                old(self).rtol_spec(),
                old(self).atol_spec(),
            )),
    {
        proof {
            use_type_invariant(&*self);
        }
        let mut scale = y.abs();
        scale.scale_assign(self.rtol);
        scale.add_assign_v(&self.atol);
        proof {
            assert(scale@ =~= scale_model(y@, self.rtol@, self.atol@));
        }
        self.scale = Some(scale);
        self.iter = 0;
        self.old_norm = None;
    }

    /// Clamp the iteration budget; the iteration count is clamped with it.
    pub fn set_max_iter(&mut self, m: usize)
        ensures
            final(self).max_iter_spec() == m,
            final(self).rtol_spec() == old(self).rtol_spec(),
            final(self).atol_spec() == old(self).atol_spec(),
            final(self).tol_spec() == old(self).tol_spec(),
            final(self).scale_spec() == old(self).scale_spec(),
            final(self).old_norm_spec() == old(self).old_norm_spec(),
            final(self).iter_spec() == (if old(self).iter_spec() <= m {
                old(self).iter_spec()
            } else {
                m
            }),
    {
        proof {
            use_type_invariant(&*self);
        }
        if self.iter > m {
            self.iter = m;
        }
        self.max_iter = m;
    }

    /// One step of the convergence test: scale the update `dy`, take its
    /// norm, and decide whether the iteration converged, diverged, may
    /// continue, or exhausted its budget.
    pub fn check_new_iteration(&mut self, dy: &mut Vector) -> (st: ConvergenceStatus)
        requires
            old(self).scale_spec() is Some,
            old(dy)@.len() == old(self).scale_spec()->Some_0.len(),
        ensures
            final(dy)@ == scaled_seq(old(dy)@, old(self).scale_spec()->Some_0),
            st == conv_status_spec(
                norm_fx(scaled_seq(old(dy)@, old(self).scale_spec()->Some_0)),
                old(self).old_norm_spec(),
                old(self).iter_spec() as int,
                old(self).max_iter_spec() as int,
                old(self).tol_spec(),
            ),
            final(self).rtol_spec() == old(self).rtol_spec(),
            final(self).atol_spec() == old(self).atol_spec(),
            final(self).tol_spec() == old(self).tol_spec(),
            final(self).max_iter_spec() == old(self).max_iter_spec(),
            final(self).scale_spec() == old(self).scale_spec(),
            final(self).iter_spec() == (if conv_records(st) {
                if old(self).iter_spec() < old(self).max_iter_spec() {
                    (old(self).iter_spec() + 1) as usize
                } else {
                    old(self).iter_spec()
                }
            } else {
                old(self).iter_spec()
            }),
            final(self).old_norm_spec() == (if conv_records(st) {
                Some(norm_fx(scaled_seq(old(dy)@, old(self).scale_spec()->Some_0)))
            } else {
                old(self).old_norm_spec()
            }),
    {
        proof {
            use_type_invariant(&*self);
        }
        let scale = match &self.scale {
            Some(s) => s,
            None => {
                proof {
                    assert(false);
                }
                unreached()
            },
        };
        dy.component_div_assign(scale);
        proof {
            assert(dy@ =~= scaled_seq(old(dy)@, scale@));
        }
        let norm = dy.norm();
        if norm.le(Fixed::epsilon()) {
            return ConvergenceStatus::Converged;
        }
        let one = Fixed::one();
        match self.old_norm {
            Some(o) => {
                let rate = norm.div(o);
                if rate.ge(one) {
                    return ConvergenceStatus::Diverged;
                }
                let t1 = rate.div(one.sub(rate)).mul(norm);
                if t1.lt(self.tol) {
                    return ConvergenceStatus::Converged;
                }
                let e = self.max_iter - self.iter;
                let t2 = rate.pow(e).div(one.sub(rate)).mul(norm);
                if t2.gt(self.tol) {
                    return ConvergenceStatus::Diverged;
                }
            },
            None => {},
        }
        if self.iter < self.max_iter {
            self.iter = self.iter + 1;
        }
        self.old_norm = Some(norm);
        if self.iter >= self.max_iter {
            ConvergenceStatus::MaximumIterations
        } else {
            ConvergenceStatus::Continue
        }
    }
}

/// The Jacobian an operator materializes into a fresh zero matrix at
/// `(x, t)`.
pub open spec fn jac_materialized<C: NonLinearOp>(op: C, x: Seq<int>, t: int) -> Seq<Seq<int>> {
    op.jac_write_model(
        zeros_mat(op.nout_spec() as int, op.nstates_spec() as int),
        x,
        t,
    )
}

/// A solver for the nonlinear problem `F(x, t) = 0` at fixed `t`.
pub trait NonLinearSolver<C: NonLinearOp>: Sized {
    spec fn has_problem(&self) -> bool;

    /// The outcome this solver computes for a solve started at `x`: the
    /// returned status and the final iterate, as a function of the held
    /// problem and factorization.  `solve_in_place` is pinned to it
    /// whenever the operator follows its models.
    spec fn solve_model(&self, x: Seq<int>, t: int) -> (Result<(), SolverError>, Seq<int>);

    spec fn prob_op(&self) -> C;

    spec fn prob_atol(&self) -> Seq<int>;

    spec fn prob_rtol(&self) -> int;

    spec fn factors_of(&self) -> Option<crate::linear_solver::LuFactors>;

    spec fn max_iter_of(&self) -> usize;

    spec fn niter_of(&self) -> usize;

    /// The problem to be solved.
    fn problem(&self) -> (r: &SolverProblem<C>)
        requires
            self.has_problem(),
        ensures
            r.f == self.prob_op(),
            r.atol@ == self.prob_atol(),
            r.rtol@ == self.prob_rtol(),
    ;

    /// Set the problem to be solved; any previous problem and factorization
    /// are discarded.
    fn set_problem(&mut self, problem: SolverProblem<C>)
        requires
            problem.atol@.len() == problem.f.nstates_spec(),
        ensures
            final(self).has_problem(),
            final(self).prob_op() == problem.f,
            final(self).prob_atol() == problem.atol@,
            final(self).prob_rtol() == problem.rtol@,
            final(self).factors_of() is None,
            final(self).max_iter_of() == (if old(self).max_iter_of() == 0 {
                1usize
            } else {
                old(self).max_iter_of()
            }),
    ;

    /// Recompute the Jacobian at `(x, t)` and refactorize it.
    fn reset_jacobian(&mut self, x: &Vector, t: Fixed) -> (r: Result<(), SolverError>)
        requires
            old(self).has_problem(),
            x@.len() == old(self).prob_op().nstates_spec(),
            old(self).prob_op().nstates_spec() == old(self).prob_op().nout_spec(),
        ensures
            final(self).has_problem(),
            same_nonlinear_model(old(self).prob_op(), final(self).prob_op()),
            stats_le(old(self).prob_op().stats_spec(), final(self).prob_op().stats_spec()),
            final(self).prob_atol() == old(self).prob_atol(),
            final(self).prob_rtol() == old(self).prob_rtol(),
            final(self).max_iter_of() == old(self).max_iter_of(),
            final(self).niter_of() == old(self).niter_of(),
            r is Ok || r == Err::<(), SolverError>(SolverError::SingularMatrix),
            r is Err ==> final(self).factors_of() is None,
            r is Ok ==> (final(self).factors_of() matches Some(f) && f.mat.nrows_spec() == old(
                self,
            ).prob_op().nstates_spec() as int && f.mat.ncols_spec() == f.mat.nrows_spec()),
            old(self).prob_op().obeys() ==> match r {
                Ok(()) => {
                    &&& crate::linear_solver::plu_ok(jac_materialized(old(self).prob_op(), x@, t@))
                    &&& (final(self).factors_of() matches Some(f) && f.mat@
                        == crate::linear_solver::plu_full(
                        jac_materialized(old(self).prob_op(), x@, t@),
                    ) && f.perm@ == crate::linear_solver::plu_perm(
                        jac_materialized(old(self).prob_op(), x@, t@),
                    ))
                },
                Err(_) => !crate::linear_solver::plu_ok(
                    jac_materialized(old(self).prob_op(), x@, t@),
                ),
            },
    ;

    /// Solve `F(x, t) = 0` in place by modified Newton iterations reusing
    /// the current factorization (computing one first if none is held).
    fn solve_in_place(&mut self, x: &mut Vector, t: Fixed) -> (r: Result<(), SolverError>)
        requires
            old(self).has_problem(),
            old(x)@.len() == old(self).prob_op().nstates_spec(),
            old(self).prob_op().nstates_spec() == old(self).prob_op().nout_spec(),
        ensures
            final(self).has_problem(),
            same_nonlinear_model(old(self).prob_op(), final(self).prob_op()),
            stats_le(old(self).prob_op().stats_spec(), final(self).prob_op().stats_spec()),
            final(self).prob_atol() == old(self).prob_atol(),
            final(self).prob_rtol() == old(self).prob_rtol(),
            final(self).max_iter_of() == old(self).max_iter_of(),
            final(x)@.len() == old(x)@.len(),
            final(self).niter_of() <= final(self).max_iter_of(),
            r is Ok ==> final(self).prob_op().stats_spec().number_of_calls >= incr_u(
                old(self).prob_op().stats_spec().number_of_calls,
            ),
            r is Ok || r == Err::<(), SolverError>(SolverError::Diverged) || r == Err::<
                (),
                SolverError,
            >(SolverError::MaxIterationsExceeded) || r == Err::<(), SolverError>(
                SolverError::SingularMatrix,
            ) || r == Err::<(), SolverError>(SolverError::DimensionMismatch),
            old(self).prob_op().obeys() ==> (r, final(x)@) == old(self).solve_model(
                old(x)@,
                t@,
            ),
            old(self).prob_op().obeys() ==> (r, final(x)@) == final(self).solve_model(
                old(x)@,
                t@,
            ),
    ;

    /// Solve `F(x, t) = 0` and return the solution.
    fn solve(&mut self, x: &Vector, t: Fixed) -> (r: Result<Vector, SolverError>)
        requires
            old(self).has_problem(),
            x@.len() == old(self).prob_op().nstates_spec(),
            old(self).prob_op().nstates_spec() == old(self).prob_op().nout_spec(),
        ensures
            final(self).has_problem(),
            same_nonlinear_model(old(self).prob_op(), final(self).prob_op()),
            stats_le(old(self).prob_op().stats_spec(), final(self).prob_op().stats_spec()),
            final(self).prob_atol() == old(self).prob_atol(),
            final(self).prob_rtol() == old(self).prob_rtol(),
            final(self).niter_of() <= final(self).max_iter_of(),
            r matches Ok(v) ==> v@.len() == x@.len(),
            (r is Ok) ==> final(self).prob_op().stats_spec().number_of_calls >= incr_u(
                old(self).prob_op().stats_spec().number_of_calls,
            ),
            old(self).prob_op().obeys() ==> match r {
                Ok(v) => old(self).solve_model(x@, t@) == (Ok::<(), SolverError>(()), v@),
                Err(e) => old(self).solve_model(x@, t@).0 == Err::<(), SolverError>(e),
            },
    {
        let mut x2 = x.clone();
        let ghost xpre = x2@;
        let ghost target = old(self).solve_model(x@, t@);
        let r0 = self.solve_in_place(&mut x2, t);
        proof {
            if old(self).prob_op().obeys() {
                assert(xpre == x@);
                assert((r0, x2@) == old(self).solve_model(xpre, t@));
                assert((r0, x2@) == target);
            }
        }
        match r0 {
            Ok(()) => {
                let ghost gx2 = x2@;
                let res: Result<Vector, SolverError> = Ok(x2);
                proof {
                    assert(res->Ok_0@ == gx2);
                    if old(self).prob_op().obeys() {
                        assert((r0, gx2) == target);
                        assert(r0 is Ok);
                        assert(r0 == Ok::<(), SolverError>(r0->Ok_0));
                        assert(target == (Ok::<(), SolverError>(()), gx2));
                        assert(old(self).solve_model(x@, t@) == (
                            Ok::<(), SolverError>(()),
                            res->Ok_0@,
                        ));
                    }
                }
                res
            },
            Err(e) => Err(e),
        }
    }

    /// Set the maximum number of iterations (at least one is kept).
    fn set_max_iter(&mut self, n: usize)
        ensures
            final(self).max_iter_of() == (if n == 0 {
                1usize
            } else {
                n
            }),
            old(self).has_problem() ==> final(self).has_problem(),
            final(self).prob_op() == old(self).prob_op(),
            final(self).prob_atol() == old(self).prob_atol(),
            final(self).prob_rtol() == old(self).prob_rtol(),
    ;

    /// The maximum number of iterations.
    fn max_iter(&self) -> (r: usize)
        ensures
            r == self.max_iter_of(),
    ;

    /// The number of iterations taken by the last solve.
    fn niter(&self) -> (r: usize)
        ensures
            r == self.niter_of(),
    ;
}

/// Resetting the Jacobian twice at the same `(x, t)` factorizes the same
/// matrix: the cached factorization after the second reset equals the one
/// after the first.
pub proof fn lemma_reset_jacobian_idempotent<C: NonLinearOp>(
    op1: C,
    op2: C,
    x: Seq<int>,
    t: int,
    f1: crate::linear_solver::LuFactors,
    f2: crate::linear_solver::LuFactors,
)
    requires
        same_nonlinear_model(op1, op2),
        f1.mat@ == crate::linear_solver::plu_full(jac_materialized(op1, x, t)),
        f1.perm@ == crate::linear_solver::plu_perm(jac_materialized(op1, x, t)),
        f2.mat@ == crate::linear_solver::plu_full(jac_materialized(op2, x, t)),
        f2.perm@ == crate::linear_solver::plu_perm(jac_materialized(op2, x, t)),
    ensures
        f1.mat@ == f2.mat@,
        f1.perm@ == f2.perm@,
{
    assert(op2.jac_write_model(
        zeros_mat(op2.nout_spec() as int, op2.nstates_spec() as int),
        x,
        t,
    ) == op1.jac_write_model(
        zeros_mat(op1.nout_spec() as int, op1.nstates_spec() as int),
        x,
        t,
    ));
}

} // verus!
