//! A constant operator built from a user-supplied function of time alone:
//! `y = c(t)`, with a zero Jacobian.
use vstd::prelude::*;

use crate::matrix::SparsityPattern;
use crate::op::{ConstantOp, Op, OpStatistics};
use crate::scalar::Fixed;
use crate::vector::Vector;

verus! {

/// The function returned `yv` at a time with this view.
pub open spec fn h_rel_of<H: Fn(Fixed) -> Vector>(h: H, t: int, yv: Seq<int>) -> bool {
    exists|tv: Fixed, yr: Vector| tv@ == t && yr@ == yv && call_ensures(h, (tv,), yr)
}

/// The modelled value of `c(t)`.
pub open spec fn h_model_of<H: Fn(Fixed) -> Vector>(h: H, t: int) -> Seq<int> {
    choose|yv: Seq<int>| h_rel_of(h, t, yv)
}

/// The function is deterministic over views and length-correct.
pub open spec fn h_obeys_of<H: Fn(Fixed) -> Vector>(h: H, n: usize) -> bool {
    forall|tv: Fixed, yr: Vector|
        #[trigger] call_ensures(h, (tv,), yr) ==> yr@.len() == n as int && yr@ == h_model_of(
            h,
            tv@,
        )
}

/// A constant operator defined by a function of time.
pub struct ConstantClosure<H: Fn(Fixed) -> Vector> {
    func: H,
    nstates: usize,
    nout: usize,
    stats: OpStatistics,
}

impl<H: Fn(Fixed) -> Vector> ConstantClosure<H> {
    #[verifier::type_invariant]
    closed spec fn inv(self) -> bool {
        forall|tv: Fixed| call_requires(self.func, (tv,))
    }

    /// Wrap a function of time as a constant operator.  The function must
    /// be callable at any time.
    pub fn new(func: H, nstates: usize, nout: usize) -> (r: Self)
        requires
            forall|tv: Fixed| call_requires(func, (tv,)),
        ensures
            r.nstates_spec() == nstates,
            r.nout_spec() == nout,
            r.const_obeys() == h_obeys_of(func, nout),
            forall|t2: int| #[trigger] r.const_model(t2) == h_model_of(func, t2),
    {
        ConstantClosure { func, nstates, nout, stats: OpStatistics::new() }
    }
}

impl<H: Fn(Fixed) -> Vector> Op for ConstantClosure<H> {
    closed spec fn nstates_spec(&self) -> usize {
        self.nstates
    }

    closed spec fn nout_spec(&self) -> usize {
        self.nout
    }

    closed spec fn nparams_spec(&self) -> usize {
        0
    }

    closed spec fn stats_spec(&self) -> OpStatistics {
        self.stats
    }

    closed spec fn sparsity_spec(&self) -> Option<SparsityPattern> {
        None
    }

    fn nstates(&self) -> usize {
        self.nstates
    }

    fn nout(&self) -> usize {
        self.nout
    }

    fn nparams(&self) -> usize {
        0
    }

    fn sparsity(&self) -> Option<&SparsityPattern> {
        None
    }

    fn statistics(&self) -> OpStatistics {
        self.stats
    }
}

impl<H: Fn(Fixed) -> Vector> ConstantOp for ConstantClosure<H> {
    closed spec fn const_obeys(&self) -> bool {
        h_obeys_of(self.func, self.nout)
    }

    closed spec fn const_model(&self, t: int) -> Seq<int> {
        h_model_of(self.func, t)
    }

    fn call_inplace(&mut self, t: Fixed, y: &mut Vector) {
        proof {
            use_type_invariant(&*self);
        }
        let mut st = self.stats;
        st.increment_call();
        self.stats = st;
        let mut out = (self.func)(t);
        proof {
            if h_obeys_of(self.func, self.nout) {
                assert(out@ == h_model_of(self.func, t@));
                assert(out@.len() == self.nout as int);
            }
        }
        if out.len() != self.nout {
            out.resize_to(self.nout);
        }
        *y = out;
    }
}

} // verus!
