//! The solver state owned by the caller, initial-state construction
//! (including consistency with algebraic constraints), and the interface
//! integrators implement.
use vstd::prelude::*;

use crate::matrix::mat_wf;
use crate::nonlinear_solver::{NonLinearSolver, SolverProblem};
use crate::ode_solver::equations::OdeEquations;
use crate::ode_solver::problem::OdeSolverProblem;
use crate::op::filter::{gather_seq, scatter_seq, FilterCallable};
use crate::op::{
    basis_vec, lemma_probe_matrix_recovers, lin_gemv_fx, zeros_col, LinearOp, NonLinearOp, Op,
};
use crate::scalar::Fixed;
use crate::vector::{lemma_ascending_same_members, strictly_ascending, Vector};
use crate::SolverError;

verus! {

/// The state of an ODE solve: current solution, time, and step size.
#[derive(Debug)]
pub struct OdeSolverState {
    pub y: Vector,
    pub t: Fixed,
    pub h: Fixed,
}

impl OdeSolverState {
    /// The initial state of a problem, from its init function.  This does
    /// not make the state consistent with algebraic constraints.
    pub fn new<Eqn: OdeEquations>(ode_problem: &OdeSolverProblem<Eqn>) -> (r: Self)
        ensures
            r.t == ode_problem.t0,
            r.h == ode_problem.h0,
            r.y@.len() == ode_problem.eqn.nstates_spec(),
            ode_problem.eqn.init_obeys() ==> r.y@ == ode_problem.eqn.init_model(
                ode_problem.t0@,
            ),
    {
        let t = ode_problem.t0;
        let h = ode_problem.h0;
        let y = ode_problem.eqn.init(t);
        OdeSolverState { y, t, h }
    }

    /// The initial state, made consistent with the algebraic constraints:
    /// the components where the mass-matrix diagonal vanishes are solved by
    /// the given nonlinear solver and scattered back; the differential
    /// components keep their initial values.  When the mass diagonal has no
    /// zeros the init state is returned directly and the solver is not
    /// consulted.
    pub fn new_consistent<Eqn, S>(ode_problem: &OdeSolverProblem<Eqn>, root_solver: &mut S) -> (r:
        Result<Self, SolverError>)
        where Eqn: OdeEquations, S: NonLinearSolver<FilterCallable<Eqn::Rhs>>
        requires
            ode_problem.atol@.len() == ode_problem.eqn.nstates_spec(),
        ensures
            r matches Ok(s) ==> {
                &&& s.t == ode_problem.t0
                &&& s.h == ode_problem.h0
                &&& s.y@.len() == ode_problem.eqn.nstates_spec()
                &&& (ode_problem.eqn.mass_obeys() && ode_problem.eqn.init_obeys())
                    ==> forall|i: int|
                    0 <= i < ode_problem.eqn.nstates_spec() && ode_problem.eqn.mass_model(
                        ode_problem.t0@,
                    )[i][i] != 0 ==> #[trigger] s.y@[i] == ode_problem.eqn.init_model(
                        ode_problem.t0@,
                    )[i]
            },
            (ode_problem.eqn.mass_obeys() && ode_problem.eqn.init_obeys() && (forall|i: int|
                0 <= i < ode_problem.eqn.nstates_spec()
                    ==> #[trigger] ode_problem.eqn.mass_model(ode_problem.t0@)[i][i] != 0))
                ==> (r matches Ok(s) && s.y@ == ode_problem.eqn.init_model(ode_problem.t0@)),
            r matches Err(e) ==> (e == SolverError::Diverged || e
                == SolverError::MaxIterationsExceeded || e == SolverError::SingularMatrix || e
                == SolverError::DimensionMismatch),
            (ode_problem.eqn.mass_obeys() && ode_problem.eqn.init_obeys()
                && ode_problem.eqn.rhs_obeys()) ==> (r matches Err(e) ==> final(
                root_solver
            ).solve_model(
                gather_seq(
                    ode_problem.eqn.init_model(ode_problem.t0@),
                    zero_diag_indices(ode_problem.eqn.mass_model(ode_problem.t0@)),
                ),
                ode_problem.t0@,
            ).0 == Err::<(), SolverError>(e)),
            (ode_problem.eqn.mass_obeys() && ode_problem.eqn.init_obeys()
                && ode_problem.eqn.rhs_obeys()) ==> (r matches Ok(s) ==> s.y@ == scatter_seq(
                ode_problem.eqn.init_model(ode_problem.t0@),
                zero_diag_indices(ode_problem.eqn.mass_model(ode_problem.t0@)),
                final(root_solver).solve_model(
                    gather_seq(
                        ode_problem.eqn.init_model(ode_problem.t0@),
                        zero_diag_indices(ode_problem.eqn.mass_model(ode_problem.t0@)),
                    ),
                    ode_problem.t0@,
                ).1,
            )),
    {
        let t = ode_problem.t0;
        let h = ode_problem.h0;
        let ghost t0v = ode_problem.t0@;
        let ghost mm = ode_problem.eqn.mass_model(t0v);
        let ghost initm = ode_problem.eqn.init_model(t0v);
        let ghost nst = ode_problem.eqn.nstates_spec();
        let mut mass_op = ode_problem.eqn.mass();
        let mass_matrix = mass_op.matrix(t);
        let mass_diagonal = mass_matrix.diagonal();
        proof {
            if ode_problem.eqn.mass_obeys() {
                assert(mass_op.mat_model(t0v) == mm);
                assert(mass_op.nstates_spec() == nst && mass_op.nout_spec() == nst);
                lemma_probe_matrix_recovers(mass_op, t0v);
                assert forall|i: int|
                    0 <= i < nst implies #[trigger] mass_diagonal@[i] == mm[i][i] by {
                    assert(mass_matrix@[i] == lin_gemv_fx(
                        mm,
                        basis_vec(nst as int, i),
                        0,
                        zeros_col(nst as int),
                    ));
                    assert(lin_gemv_fx(mm, basis_vec(nst as int, i), 0, zeros_col(nst as int))
                        == mm[i]);
                    assert(mass_diagonal@[i] == mass_matrix@[i][i]);
                }
            }
        }
        let indices = mass_diagonal.filter_indices(Fixed::zero());
        let ghost zidx = zero_diag_indices(mm);
        proof {
            if ode_problem.eqn.mass_obeys() {
                lemma_zero_diag_characterizes(mm, nst as int);
                assert forall|x2: int| indices@.contains(x2) <==> zidx.contains(x2) by {
                    if indices@.contains(x2) {
                        let k = choose|k: int| 0 <= k < indices@.len() && indices@[k] == x2;
                        assert(mass_diagonal@[x2] == 0);
                        assert(mm[x2][x2] == 0);
                    }
                    if zidx.contains(x2) {
                        assert(mm[x2][x2] == 0);
                        assert(mass_diagonal@[x2] == 0);
                        assert(indices@.contains(x2));
                    }
                }
                lemma_ascending_same_members(indices@, zidx);
                assert(indices@ == zidx);
            }
        }
        let mut y = ode_problem.eqn.init(t);
        if indices.len() == 0 {
            proof {
                let om = ode_problem.eqn.mass_obeys();
                let oi = ode_problem.eqn.init_obeys();
                if om && oi {
                    assert(y@ == initm);
                    assert(y@ =~= scatter_seq(
                        initm,
                        zidx,
                        final(root_solver).solve_model(gather_seq(initm, zidx), t0v).1,
                    )) by {
                        assert(forall|i: int| !zidx.contains(i));
                    }
                }
            }
            return Ok(OdeSolverState { y, t, h });
        }
        proof {
            if ode_problem.eqn.mass_obeys() {
                assert(indices@[0] == zidx[0]);
                assert(zidx.contains(zidx[0]));
                assert(mm[zidx[0]][zidx[0]] == 0);
            }
        }
        let idx_copy = indices.duplicate();
        let mut y_filtered = y.filter(&indices);
        let atol = ode_problem.atol.filter(&indices);
        let rhs = ode_problem.eqn.rhs();
        let f = FilterCallable::new(rhs, &y, indices);
        let ghost fop = f;
        let rtol = ode_problem.rtol;
        let init_problem = SolverProblem::new(f, atol, rtol);
        root_solver.set_problem(init_problem);
        let ghost xf0 = y_filtered@;
        let r0 = root_solver.solve_in_place(&mut y_filtered, t);
        match r0 {
            Ok(()) => {},
            Err(e) => {
                proof {
                    if ode_problem.eqn.mass_obeys() && ode_problem.eqn.init_obeys()
                        && ode_problem.eqn.rhs_obeys() {
                        assert(fop.obeys());
                        assert((r0, y_filtered@) == final(root_solver).solve_model(xf0, t0v));
                        assert(xf0 =~= gather_seq(initm, zidx));
                    }
                }
                return Err(e);
            },
        }
        proof {
            let om = ode_problem.eqn.mass_obeys();
            let oi = ode_problem.eqn.init_obeys();
            let orh = ode_problem.eqn.rhs_obeys();
            if om && oi && orh {
                assert(fop.obeys());
                assert((r0, y_filtered@) == final(root_solver).solve_model(xf0, t0v));
                assert(xf0 =~= gather_seq(initm, zidx));
            }
        }
        y.scatter_from(&y_filtered, &idx_copy);
        proof {
            let om = ode_problem.eqn.mass_obeys();
            let oi = ode_problem.eqn.init_obeys();
            let orh = ode_problem.eqn.rhs_obeys();
            if om && oi {
                assert forall|i: int|
                    0 <= i < nst && mm[i][i] != 0 implies #[trigger] y@[i] == initm[i] by {
                    assert(!idx_copy@.contains(i)) by {
                        if idx_copy@.contains(i) {
                            assert(zidx.contains(i));
                            assert(mm[i][i] == 0);
                        }
                    }
                }
                if orh {
                    let w = final(root_solver).solve_model(gather_seq(initm, zidx), t0v).1;
                    assert(r0 is Ok);
                    assert(y_filtered@ == w);
                    assert forall|i: int|
                        0 <= i < y@.len() implies y@[i] == scatter_seq(initm, zidx, w)[i] by {
                        if zidx.contains(i) {
                            let k = zidx.index_of(i);
                            assert(0 <= k < zidx.len() && zidx[k] == i);
                            assert(idx_copy@[k] == i);
                            assert(y@[idx_copy@[k]] == y_filtered@[k]);
                        } else {
                            assert(!idx_copy@.contains(i));
                        }
                    }
                    assert(y@ =~= scatter_seq(initm, zidx, w));
                }
            }
        }
        Ok(OdeSolverState { y, t, h })
    }
}

/// The positions among the first `k` diagonal entries of `m` that are
/// zero, ascending.
pub open spec fn zero_diag_prefix(m: Seq<Seq<int>>, k: int) -> Seq<int>
    decreases k,
{
    if k <= 0 {
        Seq::empty()
    } else {
        let p = zero_diag_prefix(m, k - 1);
        if m[k - 1][k - 1] == 0 {
            p.push(k - 1)
        } else {
            p
        }
    }
}

/// The ascending positions where the diagonal of `m` vanishes: the
/// algebraic components of a mass matrix.
pub open spec fn zero_diag_indices(m: Seq<Seq<int>>) -> Seq<int> {
    zero_diag_prefix(m, m.len() as int)
}

/// `zero_diag_prefix` is strictly ascending, within bounds, and holds
/// exactly the zero-diagonal positions.
pub proof fn lemma_zero_diag_characterizes(m: Seq<Seq<int>>, k: int)
    ensures
        strictly_ascending(zero_diag_prefix(m, k)),
        forall|i: int|
            zero_diag_prefix(m, k).contains(i) <==> (0 <= i < k && m[i][i] == 0),
    decreases k,
{
    if k > 0 {
        lemma_zero_diag_characterizes(m, k - 1);
        let p = zero_diag_prefix(m, k - 1);
        let q = zero_diag_prefix(m, k);
        assert forall|i: int| q.contains(i) implies (0 <= i < k && m[i][i] == 0) by {
            let k2 = choose|k2: int| 0 <= k2 < q.len() && q[k2] == i;
            if m[k - 1][k - 1] == 0 {
                if k2 < p.len() {
                    assert(p[k2] == i);
                    assert(p.contains(i));
                }
            } else {
                assert(p[k2] == i);
                assert(p.contains(i));
            }
        }
        assert forall|i: int| (0 <= i < k && m[i][i] == 0) implies q.contains(i) by {
            if i < k - 1 {
                assert(p.contains(i));
                let k2 = choose|k2: int| 0 <= k2 < p.len() && p[k2] == i;
                assert(q[k2] == i);
            } else {
                assert(q[q.len() - 1] == i);
            }
        }
        assert forall|a: int, b: int| 0 <= a < b < q.len() implies #[trigger] q[a]
            < #[trigger] q[b] by {
            if m[k - 1][k - 1] == 0 && b == q.len() - 1 {
                assert(p[a] == q[a]);
                assert(p.contains(p[a]));
                assert(q[b] == k - 1);
            }
        }
    }
}

/// The interface of an ODE integrator: step the state forward and
/// interpolate the solution.  The solver does not own the state's
/// lifetime; the caller creates it and may take it back.
pub trait OdeSolverMethod<Eqn: OdeEquations>: Sized {
    spec fn has_state(&self) -> bool;

    spec fn holds_problem(&self) -> bool;

    spec fn state_y(&self) -> Seq<int>;

    spec fn state_t(&self) -> int;

    spec fn state_h(&self) -> int;

    /// The current problem, if one was set.
    fn problem(&self) -> (r: Option<&OdeSolverProblem<Eqn>>)
        ensures
            (r is Some) == self.holds_problem(),
    ;

    /// Set the problem and take ownership of the initial state, which is
    /// assumed consistent with any algebraic constraints.
    fn set_problem(&mut self, state: OdeSolverState, problem: &OdeSolverProblem<Eqn>)
        requires
            state.y@.len() == problem.eqn.nstates_spec(),
            problem.atol@.len() == problem.eqn.nstates_spec(),
        ensures
            final(self).has_state(),
    ;

    /// Advance the solution by one step.
    fn step(&mut self) -> (r: Result<(), SolverError>)
        requires
            old(self).has_state(),
        ensures
            final(self).has_state(),
    ;

    /// Interpolate the solution at `t`, between the current and the last
    /// step time.
    fn interpolate(&self, t: Fixed) -> (r: Result<Vector, SolverError>)
        requires
            self.has_state(),
        ensures
            r matches Ok(v) ==> v@.len() == self.state_y().len(),
    ;

    /// The current state, if one is held.
    fn state(&self) -> (r: Option<&OdeSolverState>)
        ensures
            (r is Some) == self.has_state(),
            r matches Some(s) ==> s.y@ == self.state_y() && s.t@ == self.state_t() && s.h@
                == self.state_h(),
    ;

    /// Take the current state back, unsetting the problem.
    fn take_state(&mut self) -> (r: Option<OdeSolverState>)
        ensures
            (r is Some) == old(self).has_state(),
    ;

    /// Reinitialise the state from the problem's init function and step
    /// until `t` is passed, then interpolate at `t`.
    fn solve(&mut self, problem: &OdeSolverProblem<Eqn>, t: Fixed) -> (r: Result<
        Vector,
        SolverError,
    >)
        requires
            problem.atol@.len() == problem.eqn.nstates_spec(),
        ensures
            final(self).has_state(),
    {
        let state = OdeSolverState::new(problem);
        self.set_problem(state, problem);
        let mut budget: usize = usize::MAX;
        loop
            invariant
                self.has_state(),
            decreases budget,
        {
            let cont = match self.state() {
                Some(s) => s.t.le(t),
                None => false,
            };
            if !cont || budget == 0 {
                return self.interpolate(t);
            }
            match self.step() {
                Ok(()) => {},
                Err(e) => {
                    return Err(e);
                },
            }
            budget = budget - 1;
        }
    }

    /// Reinitialise the state consistently with the algebraic constraints
    /// and step until `t` is passed, then interpolate at `t`.
    fn make_consistent_and_solve<RS: NonLinearSolver<FilterCallable<Eqn::Rhs>>>(
        &mut self,
        problem: &OdeSolverProblem<Eqn>,
        t: Fixed,
        root_solver: &mut RS,
    ) -> (r: Result<Vector, SolverError>)
        requires
            problem.atol@.len() == problem.eqn.nstates_spec(),
        ensures
            r is Ok ==> final(self).has_state(),
    {
        let state = match OdeSolverState::new_consistent(problem, root_solver) {
            Ok(s) => s,
            Err(e) => {
                return Err(e);
            },
        };
        self.set_problem(state, problem);
        let mut budget: usize = usize::MAX;
        loop
            invariant
                self.has_state(),
            decreases budget,
        {
            let cont = match self.state() {
                Some(s) => s.t.le(t),
                None => false,
            };
            if !cont || budget == 0 {
                return self.interpolate(t);
            }
            match self.step() {
                Ok(()) => {},
                Err(e) => {
                    return Err(e);
                },
            }
            budget = budget - 1;
        }
    }
}

} // verus!
