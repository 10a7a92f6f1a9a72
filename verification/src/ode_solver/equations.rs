//! The equations of an ODE / DAE system `M(t) y' = f(y, t)`: right-hand
//! side, mass matrix and initial state, each exposed as an operator with a
//! spec-level model.
use vstd::prelude::*;

use crate::matrix::{mat_wf, Matrix};
use crate::op::closure::{f_obeys_of, g_obeys_of, f_model_of, g_model_of, Closure};
use crate::op::constant_closure::{h_model_of, h_obeys_of};
use crate::op::matrix_op::MatrixOp;
use crate::op::{LinearOp, NonLinearOp, Op};
use crate::scalar::Fixed;
use crate::vector::Vector;

verus! {

/// The equations of an ODE system: a right-hand side operator, a mass
/// matrix operator, and an initial-state function, with models and
/// dimension coherence.
pub trait OdeEquations: Sized {
    type Rhs: NonLinearOp;

    type Mass: LinearOp;

    spec fn nstates_spec(&self) -> usize;

    spec fn rhs_obeys(&self) -> bool;

    spec fn rhs_call_model(&self, x: Seq<int>, t: int) -> Seq<int>;

    spec fn rhs_jac_model(&self, x: Seq<int>, t: int, v: Seq<int>) -> Seq<int>;

    spec fn mass_obeys(&self) -> bool;

    spec fn mass_model(&self, t: int) -> Seq<Seq<int>>;

    spec fn init_obeys(&self) -> bool;

    spec fn init_model(&self, t: int) -> Seq<int>;

    /// The current parameter vector.
    spec fn params_spec(&self) -> Seq<int>;

    /// Number of states.
    fn nstates(&self) -> (r: usize)
        ensures
            r == self.nstates_spec(),
    ;

    /// A fresh right-hand-side operator.
    fn rhs(&self) -> (r: Self::Rhs)
        ensures
            r.nstates_spec() == self.nstates_spec(),
            r.nout_spec() == self.nstates_spec(),
            self.rhs_obeys() ==> r.obeys(),
            self.rhs_obeys() ==> forall|x2: Seq<int>, t2: int| #[trigger] r.call_model(x2, t2)
                == self.rhs_call_model(x2, t2),
            self.rhs_obeys() ==> forall|x2: Seq<int>, t2: int, v2: Seq<int>|
                #[trigger] r.jac_action_model(x2, t2, v2) == self.rhs_jac_model(x2, t2, v2),
    ;

    /// A fresh mass-matrix operator.
    fn mass(&self) -> (r: Self::Mass)
        ensures
            r.nstates_spec() == self.nstates_spec(),
            r.nout_spec() == self.nstates_spec(),
            self.mass_obeys() ==> r.lin_obeys(),
            self.mass_obeys() ==> forall|t2: int| #[trigger] r.mat_model(t2) == self.mass_model(
                t2,
            ),
            self.mass_obeys() ==> forall|t2: int| (#[trigger] self.mass_model(t2)).len()
                == self.nstates_spec() as int && mat_wf(
                self.mass_model(t2),
                self.nstates_spec() as int,
            ),
    ;

    /// The initial state at `t`.
    fn init(&self, t: Fixed) -> (r: Vector)
        ensures
            r@.len() == self.nstates_spec(),
            self.init_obeys() ==> r@ == self.init_model(t@),
    ;

    /// Rebind the parameter vector.
    fn set_params(&mut self, p: Vector)
        ensures
            final(self).nstates_spec() == old(self).nstates_spec(),
            final(self).params_spec() == p@,
            final(self).mass_obeys() == old(self).mass_obeys(),
            forall|t2: int| #[trigger] final(self).mass_model(t2) == old(self).mass_model(t2),
            final(self).init_obeys() == old(self).init_obeys(),
            forall|t2: int| #[trigger] final(self).init_model(t2) == old(self).init_model(t2),
    ;
}

/// ODE equations built from user functions: a residual and Jacobian action
/// for the right-hand side, an initial-state function, and a stored mass
/// matrix.
pub struct ClosureEquations<F, G, H> where
    F: Copy + Fn(&Vector, &Vector, Fixed) -> Vector,
    G: Copy + Fn(&Vector, &Vector, Fixed, &Vector) -> Vector,
    H: Fn(Fixed) -> Vector,
 {
    rhs_f: F,
    rhs_g: G,
    init_f: H,
    mass: Matrix,
    p: Vector,
    nstates: usize,
}

impl<F, G, H> ClosureEquations<F, G, H> where
    F: Copy + Fn(&Vector, &Vector, Fixed) -> Vector,
    G: Copy + Fn(&Vector, &Vector, Fixed, &Vector) -> Vector,
    H: Fn(Fixed) -> Vector,
 {
    #[verifier::type_invariant]
    closed spec fn inv(self) -> bool {
        &&& forall|xr: &Vector, pr: &Vector, tv: Fixed| call_requires(self.rhs_f, (xr, pr, tv))
        &&& forall|xr: &Vector, pr: &Vector, tv: Fixed, vr: &Vector|
            call_requires(self.rhs_g, (xr, pr, tv, vr))
        &&& forall|tv: Fixed| call_requires(self.init_f, (tv,))
        &&& self.mass.wf()
        &&& self.mass.nrows_spec() == self.nstates as int
        &&& self.mass.ncols_spec() == self.nstates as int
    }

    /// Build equations from the right-hand-side functions, the
    /// initial-state function, a mass matrix, and a parameter vector.  The
    /// functions must be callable on any arguments.
    pub fn new(rhs_f: F, rhs_g: G, init_f: H, mass: Matrix, p: Vector, nstates: usize) -> (r:
        Self)
        requires
            forall|xr: &Vector, pr: &Vector, tv: Fixed| call_requires(rhs_f, (xr, pr, tv)),
            forall|xr: &Vector, pr: &Vector, tv: Fixed, vr: &Vector|
                call_requires(rhs_g, (xr, pr, tv, vr)),
            forall|tv: Fixed| call_requires(init_f, (tv,)),
            mass.wf(),
            mass.nrows_spec() == nstates as int,
            mass.ncols_spec() == nstates as int,
        ensures
            r.nstates_spec() == nstates,
            r.mass_obeys(),
            forall|t2: int| #[trigger] r.mass_model(t2) == mass@,
    {
        ClosureEquations { rhs_f, rhs_g, init_f, mass, p, nstates }
    }
}

impl<F, G, H> OdeEquations for ClosureEquations<F, G, H> where
    F: Copy + Fn(&Vector, &Vector, Fixed) -> Vector,
    G: Copy + Fn(&Vector, &Vector, Fixed, &Vector) -> Vector,
    H: Fn(Fixed) -> Vector,
 {
    type Rhs = Closure<F, G>;

    type Mass = MatrixOp;

    closed spec fn nstates_spec(&self) -> usize {
        self.nstates
    }

    closed spec fn rhs_obeys(&self) -> bool {
        f_obeys_of(self.rhs_f, self.p@, self.nstates) && g_obeys_of(
            self.rhs_g,
            self.p@,
            self.nstates,
        )
    }

    closed spec fn rhs_call_model(&self, x: Seq<int>, t: int) -> Seq<int> {
        f_model_of(self.rhs_f, self.p@, x, t)
    }

    closed spec fn rhs_jac_model(&self, x: Seq<int>, t: int, v: Seq<int>) -> Seq<int> {
        g_model_of(self.rhs_g, self.p@, x, t, v)
    }

    closed spec fn mass_obeys(&self) -> bool {
        true
    }

    closed spec fn mass_model(&self, t: int) -> Seq<Seq<int>> {
        self.mass@
    }

    closed spec fn init_obeys(&self) -> bool {
        h_obeys_of(self.init_f, self.nstates)
    }

    closed spec fn init_model(&self, t: int) -> Seq<int> {
        h_model_of(self.init_f, t)
    }

    closed spec fn params_spec(&self) -> Seq<int> {
        self.p@
    }

    fn nstates(&self) -> usize {
        self.nstates
    }

    fn rhs(&self) -> Self::Rhs {
        proof {
            use_type_invariant(&*self);
        }
        Closure::new(self.rhs_f, self.rhs_g, self.nstates, self.nstates, self.p.clone())
    }

    fn mass(&self) -> Self::Mass {
        proof {
            use_type_invariant(&*self);
        }
        let n = self.mass.nrows();
        let mut m = Matrix::zeros(n, n);
        m.copy_from(&self.mass);
        proof {
            self.mass.lemma_wf();
        }
        MatrixOp::new(m)
    }

    fn init(&self, t: Fixed) -> Vector {
        proof {
            use_type_invariant(&*self);
        }
        let mut out = (self.init_f)(t);
        proof {
            if h_obeys_of(self.init_f, self.nstates) {
                assert(out@ == h_model_of(self.init_f, t@));
                assert(out@.len() == self.nstates as int);
            }
        }
        if out.len() != self.nstates {
            out.resize_to(self.nstates);
        }
        out
    }

    fn set_params(&mut self, p: Vector) {
        proof {
            use_type_invariant(&*self);
        }
        self.p = p;
    }
}

} // verus!
