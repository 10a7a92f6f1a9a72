//! An operator that restricts another operator to a subset of its
//! components: inputs are scattered into a reference state at the given
//! positions, and outputs are gathered back from the same positions.  Used
//! to solve the algebraic subset of a DAE during initial-state consistency.
use vstd::prelude::*;

use crate::matrix::{Matrix, SparsityPattern};
use crate::op::{
    basis_vec, same_op_shape, stats_after_call, stats_after_jac_mul, NonLinearOp, Op, OpStatistics,
};
use crate::scalar::Fixed;
use crate::vector::{indices_in_bounds, strictly_ascending, Indices, Vector};

verus! {

/// `base` with `vals[k]` written at position `idx[k]` for each `k`.
pub open spec fn scatter_seq(base: Seq<int>, idx: Seq<int>, vals: Seq<int>) -> Seq<int> {
    Seq::new(
        base.len(),
        |i: int|
            if idx.contains(i) {
                vals[idx.index_of(i)]
            } else {
                base[i]
            },
    )
}

/// The components of `s` at the positions `idx`.
pub open spec fn gather_seq(s: Seq<int>, idx: Seq<int>) -> Seq<int> {
    Seq::new(idx.len(), |k: int| s[idx[k]])
}

/// An operator evaluating `f` on the components selected by `indices`,
/// holding the rest at the reference state `y0`.
pub struct FilterCallable<C: NonLinearOp> {
    f: C,
    y0: Vector,
    indices: Indices,
    stats: OpStatistics,
}

impl<C: NonLinearOp> FilterCallable<C> {
    /// The wrapped operator fits the reference state and the index list is
    /// a valid selection into it.
    pub closed spec fn wf(&self) -> bool {
        &&& strictly_ascending(self.indices@)
        &&& indices_in_bounds(self.indices@, self.y0@.len() as int)
        &&& self.f.nstates_spec() == self.y0@.len()
        &&& self.f.nout_spec() == self.f.nstates_spec()
    }

    pub closed spec fn indices_spec(&self) -> Seq<int> {
        self.indices@
    }

    pub closed spec fn y0_spec(&self) -> Seq<int> {
        self.y0@
    }

    pub closed spec fn inner_op(&self) -> C {
        self.f
    }

    /// Restrict `f` to the positions `indices`, holding the other
    /// components at `y`.
    pub fn new(f: C, y: &Vector, indices: Indices) -> (r: Self)
        ensures
            r.inner_op() == f,
            r.y0_spec() == y@,
            r.indices_spec() == indices@,
            r.nstates_spec() == indices@.len(),
            r.nout_spec() == indices@.len(),
            r.wf() == (strictly_ascending(indices@) && indices_in_bounds(
                indices@,
                y@.len() as int,
            ) && f.nstates_spec() == y@.len() && f.nout_spec() == f.nstates_spec()),
            r.obeys() == (f.obeys() && r.wf()),
            r.stats_spec().number_of_calls == 0,
    {
        let r = FilterCallable { f, y0: y.clone(), indices, stats: OpStatistics::new() };
        let n = r.indices.len();
        r
    }

    /// The index list of the selection.
    pub fn indices(&self) -> (r: &Indices)
        ensures
            r@ == self.indices_spec(),
    {
        &self.indices
    }

    /// All structural conditions, checked at run time.
    fn check_valid(&self) -> (r: bool)
        ensures
            r == self.wf(),
    {
        let m = self.indices.len();
        let yl = self.y0.len();
        if self.f.nstates() != yl {
            return false;
        }
        if self.f.nout() != self.f.nstates() {
            return false;
        }
        let mut k: usize = 0;
        while k < m
            invariant
                k <= m,
                m == self.indices@.len(),
                yl == self.y0@.len(),
                forall|a: int, b: int|
                    0 <= a < b < k ==> #[trigger] self.indices@[a] < #[trigger] self.indices@[b],
                forall|a: int| 0 <= a < k ==> 0 <= #[trigger] self.indices@[a] < yl as int,
            decreases m - k,
        {
            let i = self.indices.get(k);
            if i >= yl {
                return false;
            }
            if k > 0 {
                let p = self.indices.get(k - 1);
                if p >= i {
                    return false;
                }
                proof {
                    assert forall|a: int, b: int|
                        0 <= a < b < k + 1 implies #[trigger] self.indices@[a]
                        < #[trigger] self.indices@[b] by {
                        if b == k as int && a < k - 1 {
                            assert(self.indices@[a] < self.indices@[k - 1]);
                        }
                    }
                }
            }
            k = k + 1;
        }
        true
    }

    /// Scatter `x` into a copy of the reference state.
    fn full_state(&self, x: &Vector) -> (r: Vector)
        requires
            self.wf(),
            x@.len() == self.indices_spec().len(),
        ensures
            r@ == scatter_seq(self.y0_spec(), self.indices_spec(), x@),
    {
        let mut full = self.y0.clone();
        full.scatter_from(x, &self.indices);
        proof {
            assert forall|i: int|
                0 <= i < full@.len() implies full@[i] == scatter_seq(
                self.y0@,
                self.indices@,
                x@,
            )[i] by {
                if self.indices@.contains(i) {
                    let k = self.indices@.index_of(i);
                    assert(0 <= k < self.indices@.len() && self.indices@[k] == i);
                    assert(full@[self.indices@[k]] == x@[k]);
                } else {
                }
            }
            assert(full@ =~= scatter_seq(self.y0@, self.indices@, x@));
        }
        full
    }
}

impl<C: NonLinearOp> Op for FilterCallable<C> {
    closed spec fn nstates_spec(&self) -> usize {
        self.indices@.len() as usize
    }

    closed spec fn nout_spec(&self) -> usize {
        self.indices@.len() as usize
    }

    closed spec fn nparams_spec(&self) -> usize {
        self.f.nparams_spec()
    }

    closed spec fn stats_spec(&self) -> OpStatistics {
        self.stats
    }

    closed spec fn sparsity_spec(&self) -> Option<SparsityPattern> {
        None
    }

    fn nstates(&self) -> usize {
        self.indices.len()
    }

    fn nout(&self) -> usize {
        self.indices.len()
    }

    fn nparams(&self) -> usize {
        self.f.nparams()
    }

    fn sparsity(&self) -> Option<&SparsityPattern> {
        None
    }

    fn statistics(&self) -> OpStatistics {
        self.stats
    }
}

impl<C: NonLinearOp> NonLinearOp for FilterCallable<C> {
    closed spec fn obeys(&self) -> bool {
        self.f.obeys() && self.wf()
    }

    closed spec fn call_model(&self, x: Seq<int>, t: int) -> Seq<int> {
        gather_seq(
            self.f.call_model(scatter_seq(self.y0@, self.indices@, x), t),
            self.indices@,
        )
    }

    closed spec fn jac_action_model(&self, x: Seq<int>, t: int, v: Seq<int>) -> Seq<int> {
        gather_seq(
            self.f.jac_action_model(
                scatter_seq(self.y0@, self.indices@, x),
                t,
                scatter_seq(Seq::new(self.y0@.len(), |i: int| 0int), self.indices@, v),
            ),
            self.indices@,
        )
    }

    closed spec fn jac_write_model(&self, y0m: Seq<Seq<int>>, x: Seq<int>, t: int) -> Seq<
        Seq<int>,
    > {
        Seq::new(
            self.indices@.len(),
            |j: int| gather_seq(
                self.f.jac_action_model(
                    scatter_seq(self.y0@, self.indices@, x),
                    t,
                    scatter_seq(
                        Seq::new(self.y0@.len(), |i: int| 0int),
                        self.indices@,
                        basis_vec(self.indices@.len() as int, j),
                    ),
                ),
                self.indices@,
            ),
        )
    }

    fn call_inplace(&mut self, x: &Vector, t: Fixed, y: &mut Vector) {
        let mut st = self.stats;
        st.increment_call();
        self.stats = st;
        let n = self.indices.len();
        if !self.check_valid() {
            proof {
                filter_model_bridge(*old(self), *self);
            }
            *y = Vector::zeros(n);
            return ;
        }
        let full = self.full_state(x);
        let w = self.f.call(&full, t);
        let out = w.filter(&self.indices);
        proof {
            if old(self).obeys() {
                assert(w@ == self.f.call_model(
                    scatter_seq(self.y0@, self.indices@, x@),
                    t@,
                ));
                assert(out@ =~= gather_seq(w@, self.indices@));
                assert(out@ =~= old(self).call_model(x@, t@));
            }
            filter_model_bridge(*old(self), *self);
        }
        *y = out;
    }

    fn jac_mul_inplace(&mut self, x: &Vector, t: Fixed, v: &Vector, y: &mut Vector) {
        let mut st = self.stats;
        st.increment_jac_mul();
        self.stats = st;
        let n = self.indices.len();
        if !self.check_valid() {
            proof {
                filter_model_bridge(*old(self), *self);
            }
            *y = Vector::zeros(n);
            return ;
        }
        let full = self.full_state(x);
        let zero_base = Vector::zeros(self.y0.len());
        let mut vfull = zero_base;
        vfull.scatter_from(v, &self.indices);
        proof {
            assert forall|i: int|
                0 <= i < vfull@.len() implies vfull@[i] == scatter_seq(
                Seq::new(self.y0@.len(), |i2: int| 0int),
                self.indices@,
                v@,
            )[i] by {
                if self.indices@.contains(i) {
                    let k = self.indices@.index_of(i);
                    assert(0 <= k < self.indices@.len() && self.indices@[k] == i);
                    assert(vfull@[self.indices@[k]] == v@[k]);
                }
            }
            assert(vfull@ =~= scatter_seq(
                Seq::new(self.y0@.len(), |i2: int| 0int),
                self.indices@,
                v@,
            ));
        }
        let w = self.f.jac_mul(&full, t, &vfull);
        let out = w.filter(&self.indices);
        proof {
            if old(self).obeys() {
                assert(out@ =~= gather_seq(w@, self.indices@));
                assert(out@ =~= old(self).jac_action_model(x@, t@, v@));
            }
            filter_model_bridge(*old(self), *self);
        }
        *y = out;
    }

    fn jacobian_inplace(&mut self, x: &Vector, t: Fixed, y: &mut Matrix) {
        let mut st = self.stats;
        st.increment_matrix();
        self.stats = st;
        let m = self.indices.len();
        proof {
            assert(old(self).nstates_spec() as int == old(self).indices_spec().len());
        }
        self._default_jacobian_inplace(x, t, y);
        proof {
            if old(self).obeys() {
                assert forall|j: int|
                    0 <= j < old(self).nstates_spec() as int implies y@[j] == old(
                    self,
                ).jac_write_model(old(y)@, x@, t@)[j] by {
                    assert(y@[j] == old(self).jac_action_model(
                        x@,
                        t@,
                        basis_vec(old(self).nstates_spec() as int, j),
                    ));
                    assert(old(self).jac_write_model(old(y)@, x@, t@)[j] == old(
                        self,
                    ).jac_action_model(
                        x@,
                        t@,
                        basis_vec(old(self).indices_spec().len() as int, j),
                    ));
                }
                assert(y@ =~= old(self).jac_write_model(old(y)@, x@, t@));
            }
        }
    }
}

/// The models of a filtered operator are unchanged when the wrapped
/// operator's models, the reference state and the index list are unchanged.
pub proof fn filter_model_bridge<C: NonLinearOp>(a: FilterCallable<C>, b: FilterCallable<C>)
    requires
        a.y0_spec() == b.y0_spec(),
        a.indices_spec() == b.indices_spec(),
        a.wf() == b.wf(),
        a.inner_op().obeys() == b.inner_op().obeys(),
        forall|x2: Seq<int>, t2: int| #[trigger] b.inner_op().call_model(x2, t2) == a.inner_op()
            .call_model(x2, t2),
        forall|x2: Seq<int>, t2: int, v2: Seq<int>| #[trigger] b.inner_op().jac_action_model(
            x2,
            t2,
            v2,
        ) == a.inner_op().jac_action_model(x2, t2, v2),
    ensures
        a.obeys() == b.obeys(),
        forall|x2: Seq<int>, t2: int| #[trigger] b.call_model(x2, t2) == a.call_model(x2, t2),
        forall|x2: Seq<int>, t2: int, v2: Seq<int>| #[trigger] b.jac_action_model(x2, t2, v2)
            == a.jac_action_model(x2, t2, v2),
        forall|y2: Seq<Seq<int> >, x2: Seq<int>, t2: int| #[trigger] b.jac_write_model(y2, x2, t2)
            == a.jac_write_model(y2, x2, t2),
{
    assert forall|x2: Seq<int>, t2: int| #[trigger] b.call_model(x2, t2) == a.call_model(
        x2,
        t2,
    ) by {
        assert(b.inner_op().call_model(scatter_seq(b.y0_spec(), b.indices_spec(), x2), t2)
            == a.inner_op().call_model(scatter_seq(a.y0_spec(), a.indices_spec(), x2), t2));
    }
    assert forall|x2: Seq<int>, t2: int, v2: Seq<int>| #[trigger] b.jac_action_model(x2, t2, v2)
        == a.jac_action_model(x2, t2, v2) by {
        assert(b.inner_op().jac_action_model(
            scatter_seq(b.y0_spec(), b.indices_spec(), x2),
            t2,
            scatter_seq(Seq::new(b.y0_spec().len(), |i: int| 0int), b.indices_spec(), v2),
        ) == a.inner_op().jac_action_model(
            scatter_seq(a.y0_spec(), a.indices_spec(), x2),
            t2,
            scatter_seq(Seq::new(a.y0_spec().len(), |i: int| 0int), a.indices_spec(), v2),
        ));
    }
    assert forall|y2: Seq<Seq<int> >, x2: Seq<int>, t2: int| #[trigger] b.jac_write_model(
        y2,
        x2,
        t2,
    ) == a.jac_write_model(y2, x2, t2) by {
        assert forall|j: int|
            0 <= j < a.indices_spec().len() implies a.jac_write_model(y2, x2, t2)[j]
            == b.jac_write_model(y2, x2, t2)[j] by {
            assert(b.inner_op().jac_action_model(
                scatter_seq(b.y0_spec(), b.indices_spec(), x2),
                t2,
                scatter_seq(
                    Seq::new(b.y0_spec().len(), |i: int| 0int),
                    b.indices_spec(),
                    basis_vec(b.indices_spec().len() as int, j),
                ),
            ) == a.inner_op().jac_action_model(
                scatter_seq(a.y0_spec(), a.indices_spec(), x2),
                t2,
                scatter_seq(
                    Seq::new(a.y0_spec().len(), |i: int| 0int),
                    a.indices_spec(),
                    basis_vec(a.indices_spec().len() as int, j),
                ),
            ));
        }
        assert(a.jac_write_model(y2, x2, t2) =~= b.jac_write_model(y2, x2, t2));
    }
}

} // verus!
