//! The ODE problem record: equations with tolerances, initial time and
//! step, and recorded solutions ordered by time.
use vstd::prelude::*;

use crate::ode_solver::equations::OdeEquations;
use crate::scalar::{clip, tdiv, Fixed, FIX_SCALE};
use crate::vector::Vector;
use crate::SolverError;

verus! {

/// An ODE problem: equations, tolerances, initial time and step size.
pub struct OdeSolverProblem<Eqn: OdeEquations> {
    pub eqn: Eqn,
    pub rtol: Fixed,
    pub atol: Vector,
    pub t0: Fixed,
    pub h0: Fixed,
}

impl<Eqn: OdeEquations> OdeSolverProblem<Eqn> {
    /// The default relative tolerance.
    pub fn default_rtol() -> (r: Fixed)
        ensures
            r@ == clip(tdiv(FIX_SCALE as int, 1000000)),
    {
        Fixed::from_ratio(1, 1000000)
    }

    /// The default absolute tolerance vector.
    pub fn default_atol(nstates: usize) -> (r: Vector)
        ensures
            r@.len() == nstates,
            forall|i: int| 0 <= i < nstates ==> r@[i] == clip(tdiv(FIX_SCALE as int, 1000000)),
    {
        Vector::from_element(nstates, Fixed::from_ratio(1, 1000000))
    }

    /// Assemble a problem.
    pub fn new(eqn: Eqn, rtol: Fixed, atol: Vector, t0: Fixed, h0: Fixed) -> (r: Self)
        requires
            atol@.len() == eqn.nstates_spec(),
        ensures
            r.eqn == eqn,
            r.rtol == rtol,
            r.atol@ == atol@,
            r.t0 == t0,
            r.h0 == h0,
    {
        OdeSolverProblem { eqn, rtol, atol, t0, h0 }
    }

    /// Rebind the parameter vector of the equations.
    pub fn set_params(&mut self, p: Vector) -> (r: Result<(), SolverError>)
        ensures
            r is Ok,
            final(self).eqn.nstates_spec() == old(self).eqn.nstates_spec(),
            final(self).eqn.params_spec() == p@,
            final(self).rtol == old(self).rtol,
            final(self).atol@ == old(self).atol@,
            final(self).t0 == old(self).t0,
            final(self).h0 == old(self).h0,
    {
        self.eqn.set_params(p);
        Ok(())
    }
}

/// One recorded solution point.
#[derive(Debug)]
pub struct OdeSolverSolutionPoint {
    pub state: Vector,
    pub t: Fixed,
}

/// A recorded solution: points kept sorted by time.
#[derive(Debug)]
pub struct OdeSolverSolution {
    pub solution_points: Vec<OdeSolverSolutionPoint>,
}

/// The points are ordered by time.
pub open spec fn points_sorted(s: Seq<OdeSolverSolutionPoint>) -> bool {
    forall|a: int, b: int| 0 <= a < b < s.len() ==> (#[trigger] s[a]).t@ <= (#[trigger] s[b]).t@
}

impl Default for OdeSolverSolution {
    fn default() -> (r: Self)
        ensures
            r.solution_points@.len() == 0,
    {
        OdeSolverSolution { solution_points: Vec::new() }
    }
}

impl OdeSolverSolution {
    /// Insert a point, keeping the times sorted: it goes in front of the
    /// first recorded point with a strictly later time.
    pub fn push(&mut self, state: Vector, t: Fixed)
        ensures
            final(self).solution_points@.len() == old(self).solution_points@.len() + 1,
            exists|p: int|
                {
                    &&& 0 <= p <= old(self).solution_points@.len()
                    &&& final(self).solution_points@ == old(self).solution_points@.insert(
                        p,
                        final(self).solution_points@[p],
                    )
                    &&& (#[trigger] final(self).solution_points@[p]).state@ == state@
                    &&& final(self).solution_points@[p].t == t
                    &&& forall|k: int|
                        0 <= k < p ==> (#[trigger] old(self).solution_points@[k]).t@ <= t@
                    &&& (p < old(self).solution_points@.len() ==> old(
                        self,
                    ).solution_points@[p].t@ > t@)
                },
            points_sorted(old(self).solution_points@) ==> points_sorted(
                final(self).solution_points@,
            ),
    {
        let n = self.solution_points.len();
        let mut index: usize = 0;
        let mut found = false;
        let mut k: usize = 0;
        while k < n
            invariant
                k <= n,
                n == self.solution_points@.len(),
                !found ==> index == k,
                found ==> index < k,
                found ==> self.solution_points@[index as int].t@ > t@,
                forall|k2: int|
                    0 <= k2 < (if found {
                        index as int
                    } else {
                        k as int
                    }) ==> (#[trigger] self.solution_points@[k2]).t@ <= t@,
            decreases n - k,
        {
            if !found {
                if self.solution_points[k].t.gt(t) {
                    found = true;
                } else {
                    index = k + 1;
                }
            }
            k = k + 1;
        }
        let pt = OdeSolverSolutionPoint { state, t };
        let ghost old_points = self.solution_points@;
        let ghost p = index as int;
        self.solution_points.insert(index, pt);
        proof {
            assert(self.solution_points@ == old_points.insert(p, pt));
            assert(0 <= p <= old_points.len());
            assert(self.solution_points@[p] == pt);
            assert(self.solution_points@ == old_points.insert(p, self.solution_points@[p]));
            assert(forall|k2: int|
                0 <= k2 < p ==> (#[trigger] old_points[k2]).t@ <= t@);
            assert(p < old_points.len() ==> old_points[p].t@ > t@);
            if points_sorted(old_points) {
                assert forall|a: int, b: int|
                    0 <= a < b < self.solution_points@.len() implies (
                #[trigger] self.solution_points@[a]).t@ <= (
                #[trigger] self.solution_points@[b]).t@ by {
                    let s = self.solution_points@;
                    if a < p && b == p {
                        assert(s[a] == old_points[a]);
                    } else if a == p && b > p {
                        assert(s[b] == old_points[b - 1]);
                        assert(old_points[b - 1].t@ >= old_points[p].t@ || b - 1 == p);
                        if b - 1 == p {
                            assert(s[b] == old_points[p]);
                        }
                    } else if a < p && b > p {
                        assert(s[a] == old_points[a]);
                        assert(s[b] == old_points[b - 1]);
                    } else if a != p && b != p {
                        assert(s[a] == old_points[a] || s[a] == old_points[a - 1]);
                    }
                }
            }
        }
    }
}

} // verus!
