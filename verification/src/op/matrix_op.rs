//! A linear operator backed by a stored matrix: `y = A * x` for a fixed
//! `A`, independent of time.  Used for mass matrices.
use vstd::prelude::*;

use crate::matrix::{mat_wf, row_dot, Matrix, SparsityPattern};
use crate::op::{lin_gemv_fx, LinearOp, Op, OpStatistics};
use crate::scalar::{lemma_mul_fx_one, mul_fx, Fixed, FIX_SCALE};
use crate::vector::Vector;

verus! {

/// A time-independent linear operator holding its matrix.
#[derive(Debug)]
pub struct MatrixOp {
    m: Matrix,
    stats: OpStatistics,
}

impl MatrixOp {
    #[verifier::type_invariant]
    spec fn inv(self) -> bool {
        self.m.wf()
    }

    /// Wrap a matrix as a linear operator.
    pub fn new(m: Matrix) -> (r: MatrixOp)
        requires
            m.wf(),
        ensures
            r.nstates_spec() == m.ncols_spec(),
            r.nout_spec() == m.nrows_spec(),
            r.lin_obeys(),
            forall|t: int| #[trigger] r.mat_model(t) == m@,
    {
        let nr = m.nrows();
        let nc = m.ncols();
        MatrixOp { m, stats: OpStatistics::new() }
    }
}

impl Op for MatrixOp {
    closed spec fn nstates_spec(&self) -> usize {
        self.m.ncols_spec() as usize
    }

    closed spec fn nout_spec(&self) -> usize {
        self.m.nrows_spec() as usize
    }

    closed spec fn nparams_spec(&self) -> usize {
        0
    }

    closed spec fn stats_spec(&self) -> OpStatistics {
        self.stats
    }

    closed spec fn sparsity_spec(&self) -> Option<SparsityPattern> {
        None
    }

    fn nstates(&self) -> usize {
        self.m.ncols()
    }

    fn nout(&self) -> usize {
        proof {
            use_type_invariant(&*self);
        }
        self.m.nrows()
    }

    fn nparams(&self) -> usize {
        0
    }

    fn sparsity(&self) -> Option<&SparsityPattern> {
        None
    }

    fn statistics(&self) -> OpStatistics {
        self.stats
    }
}

impl LinearOp for MatrixOp {
    closed spec fn lin_obeys(&self) -> bool {
        true
    }

    closed spec fn mat_model(&self, t: int) -> Seq<Seq<int>> {
        self.m@
    }

    fn gemv_inplace(&mut self, x: &Vector, t: Fixed, beta: Fixed, y: &mut Vector) {
        proof {
            use_type_invariant(&*self);
        }
        let nr = self.m.nrows();
        let nc = self.m.ncols();
        let mut st = self.stats;
        st.increment_call();
        self.stats = st;
        let one = Fixed::one();
        self.m.gemv(one, x, beta, y);
        proof {
            assert forall|i: int| 0 <= i < y@.len() implies y@[i] == lin_gemv_fx(
                self.m@,
                x@,
                beta@,
                old(y)@,
            )[i] by {
                crate::matrix::lemma_row_dot_in_range(self.m@, x@, i);
                lemma_mul_fx_one(row_dot(self.m@, x@, i));
            }
            assert(y@ =~= lin_gemv_fx(self.m@, x@, beta@, old(y)@));
        }
    }
}

} // verus!
