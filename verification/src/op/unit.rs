//! A dummy operator that returns the input vector.  Usable both as a
//! `NonLinearOp` (the identity function, with the identity Jacobian) and as
//! a `LinearOp` (the identity matrix).
use vstd::prelude::*;

use crate::matrix::{row_dot, row_dot_prefix, Matrix, SparsityPattern};
use crate::op::{basis_vec, lin_gemv_fx, LinearOp, NonLinearOp, Op, OpStatistics};
use crate::scalar::{
    add_fx, fx_in_range, lemma_mul_fx_one, lemma_mul_fx_zero, mul_fx, Fixed, FIX_SCALE,
};
use crate::vector::Vector;

verus! {

/// The identity matrix view of size `n`.
pub open spec fn identity_mat(n: int) -> Seq<Seq<int>> {
    Seq::new(n as nat, |j: int| basis_vec(n, j))
}

/// Dotting row `i` of the identity with `x` recovers `x[i]`.
pub proof fn lemma_row_dot_identity_prefix(n: int, x: Seq<int>, i: int, k: int)
    requires
        0 <= i < n,
        x.len() == n,
        fx_in_range(x[i]),
        0 <= k <= n,
    ensures
        row_dot_prefix(identity_mat(n), x, i, k) == (if k > i {
            x[i]
        } else {
            0int
        }),
    decreases k,
{
    if k > 0 {
        lemma_row_dot_identity_prefix(n, x, i, k - 1);
        let m = identity_mat(n);
        if k - 1 == i {
            lemma_mul_fx_one(x[i]);
            assert(m[k - 1][i] == FIX_SCALE as int);
        } else {
            lemma_mul_fx_zero(x[k - 1]);
            assert(m[k - 1][i] == 0);
        }
    }
}

/// An operator that returns its input.
#[derive(Debug)]
pub struct UnitCallable {
    n: usize,
    stats: OpStatistics,
}

impl Default for UnitCallable {
    fn default() -> (r: Self)
        ensures
            r.nstates_spec() == 1,
            r.nout_spec() == 1,
    {
        UnitCallable::new(1)
    }
}

impl UnitCallable {
    pub fn new(n: usize) -> (r: Self)
        ensures
            r.nstates_spec() == n,
            r.nout_spec() == n,
            r.nparams_spec() == 0,
            r.obeys(),
            r.lin_obeys(),
            r.stats_spec().number_of_calls == 0,
            r.stats_spec().number_of_jac_muls == 0,
            r.stats_spec().number_of_matrix_evals == 0,
            forall|x2: Seq<int>, t2: int| #[trigger] r.call_model(x2, t2) == x2,
            forall|x2: Seq<int>, t2: int, v2: Seq<int>| #[trigger] r.jac_action_model(x2, t2, v2)
                == v2,
            forall|t2: int| #[trigger] r.mat_model(t2) == identity_mat(n as int),
    {
        UnitCallable { n, stats: OpStatistics::new() }
    }
}

impl Op for UnitCallable {
    closed spec fn nstates_spec(&self) -> usize {
        self.n
    }

    closed spec fn nout_spec(&self) -> usize {
        self.n
    }

    closed spec fn nparams_spec(&self) -> usize {
        0
    }

    closed spec fn stats_spec(&self) -> OpStatistics {
        self.stats
    }

    closed spec fn sparsity_spec(&self) -> Option<SparsityPattern> {
        None
    }

    fn nstates(&self) -> usize {
        self.n
    }

    fn nout(&self) -> usize {
        self.n
    }

    fn nparams(&self) -> usize {
        0
    }

    fn sparsity(&self) -> Option<&SparsityPattern> {
        None
    }

    fn statistics(&self) -> OpStatistics {
        self.stats
    }
}

impl NonLinearOp for UnitCallable {
    closed spec fn obeys(&self) -> bool {
        true
    }

    closed spec fn call_model(&self, x: Seq<int>, t: int) -> Seq<int> {
        x
    }

    closed spec fn jac_action_model(&self, x: Seq<int>, t: int, v: Seq<int>) -> Seq<int> {
        v
    }

    closed spec fn jac_write_model(&self, y0: Seq<Seq<int>>, x: Seq<int>, t: int) -> Seq<Seq<int>> {
        identity_mat(self.n as int)
    }

    fn call_inplace(&mut self, x: &Vector, t: Fixed, y: &mut Vector) {
        self.stats.increment_call();
        y.copy_from(x);
    }

    fn jac_mul_inplace(&mut self, x: &Vector, t: Fixed, v: &Vector, y: &mut Vector) {
        self.stats.increment_jac_mul();
        y.copy_from(v);
    }

    fn jacobian_inplace(&mut self, x: &Vector, t: Fixed, y: &mut Matrix) {
        self.stats.increment_matrix();
        self._default_jacobian_inplace(x, t, y);
        proof {
            assert(y@ =~= identity_mat(old(self).n as int));
        }
    }
}

impl LinearOp for UnitCallable {
    closed spec fn lin_obeys(&self) -> bool {
        true
    }

    closed spec fn mat_model(&self, t: int) -> Seq<Seq<int>> {
        identity_mat(self.n as int)
    }

    fn gemv_inplace(&mut self, x: &Vector, t: Fixed, beta: Fixed, y: &mut Vector) {
        let n = x.len();
        let mut k: usize = 0;
        while k < n
            invariant
                k <= n,
                n == x@.len(),
                forall|i: int| 0 <= i < k ==> fx_in_range(#[trigger] x@[i]),
            decreases n - k,
        {
            let e = x.get(k);
            e.range_fact();
            k = k + 1;
        }
        let one = Fixed::one();
        y.axpy(one, x, beta);
        proof {
            let m = identity_mat(self.n as int);
            assert forall|i: int| 0 <= i < y@.len() implies y@[i] == add_fx(
                row_dot(m, x@, i),
                mul_fx(beta@, old(y)@[i]),
            ) by {
                lemma_row_dot_identity_prefix(self.n as int, x@, i, self.n as int);
                lemma_mul_fx_one(x@[i]);
                assert(y@[i] == add_fx(mul_fx(FIX_SCALE as int, x@[i]), mul_fx(beta@, old(y)@[i])));
            }
            assert(y@ =~= lin_gemv_fx(identity_mat(self.n as int), x@, beta@, old(y)@));
        }
    }
}

} // verus!
