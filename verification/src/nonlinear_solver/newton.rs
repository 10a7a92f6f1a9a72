//! Modified Newton iteration: factor the Jacobian once, then iterate
//! `x <- x - J^{-1} F(x, t)` under the adaptive convergence test.
use vstd::prelude::*;

use crate::linear_solver::{plu_full, plu_ok, plu_perm, plu_solve, LuFactors, LuSolver};
use crate::nonlinear_solver::{
    conv_status_spec, jac_materialized, newton_tolerance, scale_model, scaled_seq, Convergence,
    ConvergenceStatus, NonLinearSolver, SolverProblem,
};
use crate::scalar::sub_fx;
use crate::vector::norm_fx;
use crate::op::{same_nonlinear_model, stats_le, incr_u, NonLinearOp, Op};
use crate::matrix::Matrix;
use crate::scalar::Fixed;
use crate::vector::Vector;
use crate::SolverError;

verus! {

/// The modified-Newton iteration as a mathematical function: from the
/// current iterate, subtract the factored-Jacobian solve of the residual,
/// run the convergence decision on the scaled update, and recurse while it
/// says to continue.
pub open spec fn newton_run<C: NonLinearOp>(
    op: C,
    t: int,
    factors: Seq<Seq<int>>,
    perm: Seq<int>,
    scale: Seq<int>,
    tol: int,
    max_iter: int,
    iter: int,
    old_norm: Option<int>,
    x: Seq<int>,
) -> (Result<(), SolverError>, Seq<int>)
    decreases max_iter - iter,
{
    let delta = plu_solve(factors, perm, op.call_model(x, t));
    let x2 = Seq::new(x.len(), |i: int| sub_fx(x[i], delta[i]));
    let n = norm_fx(scaled_seq(delta, scale));
    let st = conv_status_spec(n, old_norm, iter, max_iter, tol);
    if st is Converged {
        (Ok::<(), SolverError>(()), x2)
    } else if st is Diverged {
        (Err::<(), SolverError>(SolverError::Diverged), x2)
    } else if st is MaximumIterations {
        (Err::<(), SolverError>(SolverError::MaxIterationsExceeded), x2)
    } else {
        newton_run(op, t, factors, perm, scale, tol, max_iter, iter + 1, Some(n), x2)
    }
}

/// The Newton iteration depends on the operator only through its residual
/// model: operators with the same model run to the same outcome.
pub proof fn lemma_newton_run_congruent<C: NonLinearOp>(
    op1: C,
    op2: C,
    t: int,
    factors: Seq<Seq<int>>,
    perm: Seq<int>,
    scale: Seq<int>,
    tol: int,
    max_iter: int,
    iter: int,
    old_norm: Option<int>,
    x: Seq<int>,
)
    requires
        forall|x2: Seq<int>, t2: int| #[trigger] op1.call_model(x2, t2) == op2.call_model(x2, t2),
    ensures
        newton_run(op1, t, factors, perm, scale, tol, max_iter, iter, old_norm, x) == newton_run(
            op2,
            t,
            factors,
            perm,
            scale,
            tol,
            max_iter,
            iter,
            old_norm,
            x,
        ),
    decreases max_iter - iter,
{
    let delta = plu_solve(factors, perm, op1.call_model(x, t));
    let x2 = Seq::new(x.len(), |i: int| sub_fx(x[i], delta[i]));
    let n = norm_fx(scaled_seq(delta, scale));
    let st = conv_status_spec(n, old_norm, iter, max_iter, tol);
    if !(st is Converged) && !(st is Diverged) && !(st is MaximumIterations) {
        lemma_newton_run_congruent(
            op1,
            op2,
            t,
            factors,
            perm,
            scale,
            tol,
            max_iter,
            iter + 1,
            Some(n),
            x2,
        );
    }
}

/// Two Newton solvers holding operators with the same models, the same
/// tolerances and budget, and the same factorization state compute the same
/// outcome: with `reset_jacobian` pinned to the models, repeated resets at
/// one `(x, t)` cannot change what a solve returns.
pub proof fn lemma_newton_solve_deterministic<C: NonLinearOp>(
    s1: &NewtonNonlinearSolver<C>,
    s2: &NewtonNonlinearSolver<C>,
    x: Seq<int>,
    t: int,
)
    requires
        same_nonlinear_model(s1.prob_op(), s2.prob_op()),
        s1.prob_atol() == s2.prob_atol(),
        s1.prob_rtol() == s2.prob_rtol(),
        s1.max_iter_of() == s2.max_iter_of(),
        match (s1.factors_of(), s2.factors_of()) {
            (Some(a), Some(b)) => a.mat@ == b.mat@ && a.perm@ == b.perm@,
            (None, None) => true,
            _ => false,
        },
    ensures
        s1.solve_model(x, t) == s2.solve_model(x, t),
{
    let op1 = s1.prob_op();
    let op2 = s2.prob_op();
    let scale = scale_model(x, s1.prob_rtol(), s1.prob_atol());
    let tol = newton_tolerance(s1.prob_rtol());
    let maxi = s1.max_iter_of() as int;
    match s1.factors_of() {
        Some(f1) => {
            lemma_newton_run_congruent(
                op1,
                op2,
                t,
                f1.mat@,
                f1.perm@,
                scale,
                tol,
                maxi,
                0,
                None::<int>,
                x,
            );
        },
        None => {
            assert(jac_materialized(op1, x, t) == jac_materialized(op2, x, t));
            let jm = jac_materialized(op1, x, t);
            if plu_ok(jm) {
                lemma_newton_run_congruent(
                    op1,
                    op2,
                    t,
                    plu_full(jm),
                    plu_perm(jm),
                    scale,
                    tol,
                    maxi,
                    0,
                    None::<int>,
                    x,
                );
            }
        },
    }
}

/// A modified-Newton nonlinear solver over the LU linear solver.
pub struct NewtonNonlinearSolver<C: NonLinearOp> {
    convergence: Option<Convergence>,
    problem: Option<SolverProblem<C>>,
    linear_solver: LuSolver,
    max_iter: usize,
    niter: usize,
}

impl<C: NonLinearOp> NewtonNonlinearSolver<C> {
    /// Build a Newton solver around a linear solver, with the default
    /// iteration budget.
    pub fn new(linear_solver: LuSolver) -> (r: Self)
        ensures
            !r.has_problem(),
            r.max_iter_of() == 100,
            r.niter_of() == 0,
    {
        NewtonNonlinearSolver {
            convergence: None,
            problem: None,
            linear_solver,
            max_iter: 100,
            niter: 0,
        }
    }
}

impl<C: NonLinearOp> NonLinearSolver<C> for NewtonNonlinearSolver<C> {
    closed spec fn has_problem(&self) -> bool {
        &&& self.problem is Some
        &&& self.convergence is Some
        &&& self.max_iter >= 1
        &&& self.convergence->Some_0.rtol_spec() == self.problem->Some_0.rtol@
        &&& self.convergence->Some_0.atol_spec() == self.problem->Some_0.atol@
        &&& self.convergence->Some_0.max_iter_spec() == self.max_iter
        &&& self.convergence->Some_0.tol_spec() == newton_tolerance(self.problem->Some_0.rtol@)
        &&& self.problem->Some_0.atol@.len() == self.problem->Some_0.f.nstates_spec()
        &&& match self.linear_solver.factors_spec() {
            Some(f) => f.mat.nrows_spec() == self.problem->Some_0.f.nstates_spec() as int
                && f.mat.ncols_spec() == f.mat.nrows_spec(),
            None => true,
        }
    }

    closed spec fn prob_op(&self) -> C {
        self.problem->Some_0.f
    }

    closed spec fn prob_atol(&self) -> Seq<int> {
        self.problem->Some_0.atol@
    }

    closed spec fn prob_rtol(&self) -> int {
        self.problem->Some_0.rtol@
    }

    closed spec fn factors_of(&self) -> Option<LuFactors> {
        self.linear_solver.factors_spec()
    }

    closed spec fn max_iter_of(&self) -> usize {
        self.max_iter
    }

    closed spec fn niter_of(&self) -> usize {
        self.niter
    }

    closed spec fn solve_model(&self, x: Seq<int>, t: int) -> (Result<(), SolverError>, Seq<int>) {
        let op = self.prob_op();
        let scale = scale_model(x, self.prob_rtol(), self.prob_atol());
        let tol = newton_tolerance(self.prob_rtol());
        match self.factors_of() {
            Some(f) => newton_run(
                op,
                t,
                f.mat@,
                f.perm@,
                scale,
                tol,
                self.max_iter_of() as int,
                0,
                None::<int>,
                x,
            ),
            None => {
                let jm = jac_materialized(op, x, t);
                if plu_ok(jm) {
                    newton_run(
                        op,
                        t,
                        plu_full(jm),
                        plu_perm(jm),
                        scale,
                        tol,
                        self.max_iter_of() as int,
                        0,
                        None::<int>,
                        x,
                    )
                } else {
                    (Err::<(), SolverError>(SolverError::SingularMatrix), x)
                }
            },
        }
    }

    fn problem(&self) -> (r: &SolverProblem<C>) {
        match &self.problem {
            Some(p) => p,
            None => {
                proof {
                    assert(false);
                }
                unreached()
            },
        }
    }

    fn set_problem(&mut self, problem: SolverProblem<C>) {
        if self.max_iter == 0 {
            self.max_iter = 1;
        }
        let atol2 = problem.atol.clone();
        self.convergence = Some(Convergence::new(problem.rtol, atol2, self.max_iter));
        self.problem = Some(problem);
        self.linear_solver.clear();
        self.niter = 0;
    }

    fn reset_jacobian(&mut self, x: &Vector, t: Fixed) -> (r: Result<(), SolverError>) {
        let mut prob_opt: Option<SolverProblem<C>> = None;
        std::mem::swap(&mut prob_opt, &mut self.problem);
        let mut prob = match prob_opt {
            Some(p) => p,
            None => {
                proof {
                    assert(false);
                }
                unreached()
            },
        };
        let j = prob.f.jacobian(x, t);
        self.problem = Some(prob);
        match self.linear_solver.set_matrix(&j) {
            Ok(()) => {
                proof {
                    assert(self.problem is Some);
                    assert(self.linear_solver.factors_spec() is Some);
                    assert(self.factors_of() is Some);
                    let f = self.linear_solver.factors_spec()->Some_0;
                    assert(f.mat.nrows_spec() == j.nrows_spec());
                    assert(j.nrows_spec() == old(self).prob_op().nout_spec() as int);
                    assert(f.mat.nrows_spec() == old(self).prob_op().nstates_spec() as int);
                    if old(self).prob_op().obeys() {
                        assert(j@ == jac_materialized(old(self).prob_op(), x@, t@));
                        assert(f.mat@ == plu_full(
                            jac_materialized(old(self).prob_op(), x@, t@),
                        ));
                        assert(f.perm@ == plu_perm(
                            jac_materialized(old(self).prob_op(), x@, t@),
                        ));
                    }
                }
                Ok(())
            },
            Err(e) => Err(e),
        }
    }

    fn solve_in_place(&mut self, x: &mut Vector, t: Fixed) -> (r: Result<(), SolverError>) {
        self.niter = 0;
        let ghost op0 = old(self).prob_op();
        let ghost sv = scale_model(old(x)@, old(self).prob_rtol(), old(self).prob_atol());
        let ghost tv = newton_tolerance(old(self).prob_rtol());
        let ghost maxi = old(self).max_iter_of() as int;
        let ghost target = old(self).solve_model(old(x)@, t@);
        if !self.linear_solver.has_factors() {
            match self.reset_jacobian(x, t) {
                Ok(()) => {},
                Err(e) => {
                    proof {
                        if op0.obeys() {
                            assert(e == SolverError::SingularMatrix);
                            assert(!plu_ok(jac_materialized(op0, old(x)@, t@)));
                            assert(target == (
                                Err::<(), SolverError>(SolverError::SingularMatrix),
                                old(x)@,
                            ));
                            assert(self.factors_of() is None);
                            assert(jac_materialized(self.problem->Some_0.f, old(x)@, t@)
                                == jac_materialized(op0, old(x)@, t@));
                            assert(self.solve_model(old(x)@, t@) == target);
                        }
                    }
                    return Err(e);
                },
            }
        }
        let ghost fv = self.linear_solver.factors_spec()->Some_0.mat@;
        let ghost pv = self.linear_solver.factors_spec()->Some_0.perm@;
        proof {
            if op0.obeys() {
                if old(self).factors_of() is Some {
                    assert(fv == old(self).factors_of()->Some_0.mat@);
                    assert(pv == old(self).factors_of()->Some_0.perm@);
                    assert(target == newton_run(
                        op0,
                        t@,
                        fv,
                        pv,
                        sv,
                        tv,
                        maxi,
                        0,
                        None::<int>,
                        old(x)@,
                    ));
                } else {
                    assert(plu_ok(jac_materialized(op0, old(x)@, t@)));
                    assert(fv == plu_full(jac_materialized(op0, old(x)@, t@)));
                    assert(pv == plu_perm(jac_materialized(op0, old(x)@, t@)));
                    assert(target == newton_run(
                        op0,
                        t@,
                        fv,
                        pv,
                        sv,
                        tv,
                        maxi,
                        0,
                        None::<int>,
                        old(x)@,
                    ));
                }
            }
        }
        let mut conv_opt: Option<Convergence> = None;
        std::mem::swap(&mut conv_opt, &mut self.convergence);
        let mut cv0 = match conv_opt {
            Some(c) => c,
            None => {
                proof {
                    assert(false);
                }
                unreached()
            },
        };
        cv0.reset(x);
        self.convergence = Some(cv0);
        proof {
            assert(self.convergence->Some_0.scale_spec() == Some(sv));
        }
        loop
            invariant
                self.problem is Some,
                self.convergence is Some,
                self.max_iter >= 1,
                self.convergence->Some_0.rtol_spec() == self.problem->Some_0.rtol@,
                self.convergence->Some_0.atol_spec() == self.problem->Some_0.atol@,
                self.convergence->Some_0.max_iter_spec() == self.max_iter,
                self.convergence->Some_0.tol_spec() == newton_tolerance(
                    self.problem->Some_0.rtol@,
                ),
                self.problem->Some_0.atol@.len() == self.problem->Some_0.f.nstates_spec(),
                (self.linear_solver.factors_spec() matches Some(f) && f.mat.nrows_spec() == self
                    .problem->Some_0.f.nstates_spec() as int && f.mat.ncols_spec()
                    == f.mat.nrows_spec()),
                self.linear_solver.factors_spec()->Some_0.mat@ == fv,
                self.linear_solver.factors_spec()->Some_0.perm@ == pv,
                self.max_iter == old(self).max_iter,
                same_nonlinear_model(old(self).prob_op(), self.problem->Some_0.f),
                stats_le(
                    old(self).prob_op().stats_spec(),
                    self.problem->Some_0.f.stats_spec(),
                ),
                self.problem->Some_0.atol@ == old(self).prob_atol(),
                self.problem->Some_0.rtol@ == old(self).prob_rtol(),
                x@.len() == old(x)@.len(),
                x@.len() == self.problem->Some_0.f.nstates_spec(),
                self.problem->Some_0.f.nstates_spec() == self.problem->Some_0.f.nout_spec(),
                self.convergence->Some_0.scale_spec() == Some(sv),
                sv.len() == x@.len(),
                self.niter == self.convergence->Some_0.iter_spec(),
                self.convergence->Some_0.iter_spec() < self.max_iter,
                op0 == old(self).prob_op(),
                maxi == old(self).max_iter_of() as int,
                tv == newton_tolerance(old(self).prob_rtol()),
                target == old(self).solve_model(old(x)@, t@),
                op0.obeys() ==> target == newton_run(
                    op0,
                    t@,
                    fv,
                    pv,
                    sv,
                    tv,
                    maxi,
                    self.convergence->Some_0.iter_spec() as int,
                    self.convergence->Some_0.old_norm_spec(),
                    x@,
                ),
            decreases self.max_iter - self.convergence->Some_0.iter_spec(),
        {
            let ghost it0 = self.convergence->Some_0.iter_spec();
            let ghost on0 = self.convergence->Some_0.old_norm_spec();
            let ghost x0 = x@;
            if self.niter < usize::MAX {
                self.niter = self.niter + 1;
            }
            let mut prob_opt: Option<SolverProblem<C>> = None;
            std::mem::swap(&mut prob_opt, &mut self.problem);
            let mut prob = match prob_opt {
                Some(p) => p,
                None => {
                    proof {
                        assert(false);
                    }
                    unreached()
                },
            };
            let mut delta = prob.f.call(x, t);
            self.problem = Some(prob);
            proof {
                if op0.obeys() {
                    assert(delta@ == op0.call_model(x0, t@));
                }
            }
            match self.linear_solver.solve_in_place(&mut delta) {
                Ok(()) => {},
                Err(_) => {
                    return Err(SolverError::SingularMatrix);
                },
            }
            let ghost dd = plu_solve(fv, pv, op0.call_model(x0, t@));
            proof {
                if op0.obeys() {
                    assert(delta@ == dd);
                }
            }
            if delta.len() != x.len() {
                proof {
                    if op0.obeys() {
                        assert(false);
                    }
                }
                return Err(SolverError::DimensionMismatch);
            }
            x.sub_assign_v(&delta);
            let ghost x2 = Seq::new(x0.len(), |i: int| sub_fx(x0[i], dd[i]));
            proof {
                if op0.obeys() {
                    assert(x@ =~= x2);
                }
            }
            let mut conv_opt2: Option<Convergence> = None;
            std::mem::swap(&mut conv_opt2, &mut self.convergence);
            let mut cv = match conv_opt2 {
                Some(c) => c,
                None => {
                    proof {
                        assert(false);
                    }
                    unreached()
                },
            };
            let st = cv.check_new_iteration(&mut delta);
            self.convergence = Some(cv);
            let ghost nn = norm_fx(scaled_seq(dd, sv));
            let ghost stt = conv_status_spec(nn, on0, it0 as int, maxi, tv);
            proof {
                if op0.obeys() {
                    assert(st == stt);
                }
            }
            match st {
                ConvergenceStatus::Continue => {
                    proof {
                        if op0.obeys() {
                            assert(newton_run(op0, t@, fv, pv, sv, tv, maxi, it0 as int, on0, x0)
                                == newton_run(
                                op0,
                                t@,
                                fv,
                                pv,
                                sv,
                                tv,
                                maxi,
                                it0 + 1,
                                Some(nn),
                                x2,
                            ));
                        }
                    }
                },
                ConvergenceStatus::Converged => {
                    proof {
                        if op0.obeys() {
                            assert(newton_run(op0, t@, fv, pv, sv, tv, maxi, it0 as int, on0, x0) == (
                                Ok::<(), SolverError>(()),
                                x2,
                            ));
                            lemma_newton_run_congruent(
                                self.problem->Some_0.f,
                                op0,
                                t@,
                                fv,
                                pv,
                                sv,
                                tv,
                                maxi,
                                0,
                                None::<int>,
                                old(x)@,
                            );
                            assert(self.solve_model(old(x)@, t@) == newton_run(
                                op0,
                                t@,
                                fv,
                                pv,
                                sv,
                                tv,
                                maxi,
                                0,
                                None::<int>,
                                old(x)@,
                            ));
                            assert(self.solve_model(old(x)@, t@) == target);
                        }
                    }
                    return Ok(());
                },
                ConvergenceStatus::Diverged => {
                    proof {
                        if op0.obeys() {
                            assert(newton_run(op0, t@, fv, pv, sv, tv, maxi, it0 as int, on0, x0) == (
                                Err::<(), SolverError>(SolverError::Diverged),
                                x2,
                            ));
                            lemma_newton_run_congruent(
                                self.problem->Some_0.f,
                                op0,
                                t@,
                                fv,
                                pv,
                                sv,
                                tv,
                                maxi,
                                0,
                                None::<int>,
                                old(x)@,
                            );
                            assert(self.solve_model(old(x)@, t@) == newton_run(
                                op0,
                                t@,
                                fv,
                                pv,
                                sv,
                                tv,
                                maxi,
                                0,
                                None::<int>,
                                old(x)@,
                            ));
                            assert(self.solve_model(old(x)@, t@) == target);
                        }
                    }
                    return Err(SolverError::Diverged);
                },
                ConvergenceStatus::MaximumIterations => {
                    proof {
                        if op0.obeys() {
                            assert(newton_run(op0, t@, fv, pv, sv, tv, maxi, it0 as int, on0, x0) == (
                                Err::<(), SolverError>(SolverError::MaxIterationsExceeded),
                                x2,
                            ));
                            lemma_newton_run_congruent(
                                self.problem->Some_0.f,
                                op0,
                                t@,
                                fv,
                                pv,
                                sv,
                                tv,
                                maxi,
                                0,
                                None::<int>,
                                old(x)@,
                            );
                            assert(self.solve_model(old(x)@, t@) == newton_run(
                                op0,
                                t@,
                                fv,
                                pv,
                                sv,
                                tv,
                                maxi,
                                0,
                                None::<int>,
                                old(x)@,
                            ));
                            assert(self.solve_model(old(x)@, t@) == target);
                        }
                    }
                    return Err(SolverError::MaxIterationsExceeded);
                },
            }
        }
    }

    fn set_max_iter(&mut self, n: usize) {
        let m = if n == 0 {
            1
        } else {
            n
        };
        self.max_iter = m;
        let mut conv_opt: Option<Convergence> = None;
        std::mem::swap(&mut conv_opt, &mut self.convergence);
        match conv_opt {
            Some(mut cv) => {
                cv.set_max_iter(m);
                self.convergence = Some(cv);
            },
            None => {},
        }
    }

    fn max_iter(&self) -> usize {
        self.max_iter
    }

    fn niter(&self) -> usize {
        self.niter
    }
}

} // verus!
