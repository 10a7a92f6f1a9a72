//! An operator built from user-supplied functions: the residual
//! `F(x, p, t)` and the Jacobian action `J(x, p, t, v)`, together with the
//! dimensions and a parameter vector.  The operator's models are the values
//! the functions are specified to return; `obeys()` holds when the functions
//! are deterministic over the mathematical views and length-correct, and
//! every contract is exact under that condition.
use vstd::prelude::*;

use crate::jacobian::{
    coloring_apply, coloring_built_from, filter_cols, find_non_zeros_nonlinear, group_int_view,
    lemma_filter_cols_subset, pairs_view, probe_vec_of, tables_contain, JacobianColoring,
};
use crate::matrix::{pattern_contains, Matrix, SparsityPattern};
use crate::op::{basis_vec, same_op_shape, NonLinearOp, Op, OpStatistics};
use crate::scalar::Fixed;
use crate::vector::Vector;

verus! {

/// The discovered pattern and coloring of an operator stem from one
/// position list: the pattern's view is that list, and the coloring was
/// built from it by the greedy distance-1 algorithm.
pub open spec fn closure_coloring_from(
    pat: SparsityPattern,
    col: JacobianColoring,
    nzv: Seq<(usize, usize)>,
    nout: int,
    n: int,
) -> bool {
    pairs_view(nzv) == pat@ && coloring_built_from(col, nzv, nout, n)
}

/// Shape preservation apart from the sparsity descriptor.
pub open spec fn same_op_shape_except_sparsity<C: Op>(a: C, b: C) -> bool {
    &&& a.nstates_spec() == b.nstates_spec()
    &&& a.nout_spec() == b.nout_spec()
    &&& a.nparams_spec() == b.nparams_spec()
}

/// The residual function `f` with parameters `p` returned `yv` for inputs
/// with these views.
pub open spec fn f_rel_of<F: Fn(&Vector, &Vector, Fixed) -> Vector>(
    f: F,
    pv: Seq<int>,
    x: Seq<int>,
    t: int,
    yv: Seq<int>,
) -> bool {
    exists|xr: &Vector, pr: &Vector, tv: Fixed, yr: Vector|
        xr@ == x && pr@ == pv && tv@ == t && yr@ == yv && call_ensures(f, (xr, pr, tv), yr)
}

/// The modelled value of `f(x, p, t)`.
pub open spec fn f_model_of<F: Fn(&Vector, &Vector, Fixed) -> Vector>(
    f: F,
    pv: Seq<int>,
    x: Seq<int>,
    t: int,
) -> Seq<int> {
    choose|yv: Seq<int>| f_rel_of(f, pv, x, t, yv)
}

/// The Jacobian-action function `g` with parameters `p` returned `yv` for
/// inputs with these views.
pub open spec fn g_rel_of<G: Fn(&Vector, &Vector, Fixed, &Vector) -> Vector>(
    g: G,
    pv: Seq<int>,
    x: Seq<int>,
    t: int,
    v: Seq<int>,
    yv: Seq<int>,
) -> bool {
    exists|xr: &Vector, pr: &Vector, tv: Fixed, vr: &Vector, yr: Vector|
        xr@ == x && pr@ == pv && tv@ == t && vr@ == v && yr@ == yv && call_ensures(
            g,
            (xr, pr, tv, vr),
            yr,
        )
}

/// The modelled value of `g(x, p, t, v)`.
pub open spec fn g_model_of<G: Fn(&Vector, &Vector, Fixed, &Vector) -> Vector>(
    g: G,
    pv: Seq<int>,
    x: Seq<int>,
    t: int,
    v: Seq<int>,
) -> Seq<int> {
    choose|yv: Seq<int>| g_rel_of(g, pv, x, t, v, yv)
}

/// The residual function is deterministic over views and produces outputs
/// of length `nout`.
pub open spec fn f_obeys_of<F: Fn(&Vector, &Vector, Fixed) -> Vector>(
    f: F,
    pv: Seq<int>,
    nout: usize,
) -> bool {
    forall|xr: &Vector, pr: &Vector, tv: Fixed, yr: Vector|
        #[trigger] call_ensures(f, (xr, pr, tv), yr) && pr@ == pv ==> yr@.len() == nout as int
            && yr@ == f_model_of(f, pv, xr@, tv@)
}

/// The Jacobian-action function is deterministic over views and produces
/// outputs of length `nout`.
pub open spec fn g_obeys_of<G: Fn(&Vector, &Vector, Fixed, &Vector) -> Vector>(
    g: G,
    pv: Seq<int>,
    nout: usize,
) -> bool {
    forall|xr: &Vector, pr: &Vector, tv: Fixed, vr: &Vector, yr: Vector|
        #[trigger] call_ensures(g, (xr, pr, tv, vr), yr) && pr@ == pv ==> yr@.len() == nout as int
            && yr@ == g_model_of(g, pv, xr@, tv@, vr@)
}

/// The modelled effect of Jacobian materialization on a matrix whose prior
/// view was `y0`: the compressed path distributes per-color probe results
/// through the tables; the uncompressed path writes one probed column per
/// state.
pub open spec fn jac_write_model_of<G: Fn(&Vector, &Vector, Fixed, &Vector) -> Vector>(
    g: G,
    pv: Seq<int>,
    nstates: usize,
    discovered: Option<(SparsityPattern, JacobianColoring)>,
    y0: Seq<Seq<int>>,
    x: Seq<int>,
    t: int,
) -> Seq<Seq<int>> {
    match discovered {
        Some(d) => coloring_apply(
            y0,
            d.1.dsts_view(),
            d.1.srcs_view(),
            Seq::new(
                d.1.groups_view().len(),
                |c2: int| g_model_of(g, pv, x, t, probe_vec_of(d.1.groups_view()[c2], nstates as int)),
            ),
            d.1.groups_view().len() as int,
        ),
        None => Seq::new(
            nstates as nat,
            |j: int| g_model_of(g, pv, x, t, basis_vec(nstates as int, j)),
        ),
    }
}

/// An operator defined by a residual function and a Jacobian-action
/// function over a shared parameter vector.
pub struct Closure<F, G> where
    F: Fn(&Vector, &Vector, Fixed) -> Vector,
    G: Fn(&Vector, &Vector, Fixed, &Vector) -> Vector,
 {
    func: F,
    jacobian_action: G,
    nstates: usize,
    nout: usize,
    nparams: usize,
    p: Vector,
    discovered: Option<(SparsityPattern, JacobianColoring)>,
    statistics: OpStatistics,
}

impl<F, G> Closure<F, G> where
    F: Fn(&Vector, &Vector, Fixed) -> Vector,
    G: Fn(&Vector, &Vector, Fixed, &Vector) -> Vector,
 {
    #[verifier::type_invariant]
    closed spec fn inv(self) -> bool {
        &&& forall|xr: &Vector, pr: &Vector, tv: Fixed| call_requires(self.func, (xr, pr, tv))
        &&& forall|xr: &Vector, pr: &Vector, tv: Fixed, vr: &Vector|
            call_requires(self.jacobian_action, (xr, pr, tv, vr))
        &&& match self.discovered {
            Some(d) => {
                &&& d.0.wf()
                &&& d.0.nrows_spec() == self.nout as int
                &&& d.0.ncols_spec() == self.nstates as int
                &&& d.1.wf()
                &&& d.1.nrows_spec() == self.nout as int
                &&& d.1.ncols_spec() == self.nstates as int
                &&& forall|c2: int, k: int|
                    0 <= c2 < d.1.dsts_view().len() && 0 <= k < d.1.dsts_view()[c2].len()
                        ==> pattern_contains(
                        d.0@,
                        (#[trigger] d.1.dsts_view()[c2][k]).0 as int,
                        d.1.dsts_view()[c2][k].1 as int,
                    )
            },
            None => true,
        }
    }

    /// The discovered sparsity pattern and coloring, once computed.
    pub closed spec fn discovered_spec(&self) -> Option<(SparsityPattern, JacobianColoring)> {
        self.discovered
    }

    /// The residual function returned `yv` for inputs with these views.
    pub closed spec fn f_rel(&self, x: Seq<int>, t: int, yv: Seq<int>) -> bool {
        f_rel_of(self.func, self.p@, x, t, yv)
    }

    /// The modelled value of `F(x, p, t)`.
    pub closed spec fn f_model(&self, x: Seq<int>, t: int) -> Seq<int> {
        f_model_of(self.func, self.p@, x, t)
    }

    /// The Jacobian-action function returned `yv` for these views.
    pub closed spec fn g_rel(&self, x: Seq<int>, t: int, v: Seq<int>, yv: Seq<int>) -> bool {
        g_rel_of(self.jacobian_action, self.p@, x, t, v, yv)
    }

    /// The modelled value of `J(x, p, t) * v`.
    pub closed spec fn g_model(&self, x: Seq<int>, t: int, v: Seq<int>) -> Seq<int> {
        g_model_of(self.jacobian_action, self.p@, x, t, v)
    }

    /// The residual function is deterministic over views and produces
    /// outputs of length `nout`.
    pub closed spec fn f_obeys(&self) -> bool {
        f_obeys_of(self.func, self.p@, self.nout)
    }

    /// The Jacobian-action function is deterministic over views and
    /// produces outputs of length `nout`.
    pub closed spec fn g_obeys(&self) -> bool {
        g_obeys_of(self.jacobian_action, self.p@, self.nout)
    }

    /// Wrap a residual and a Jacobian action as an operator.  The functions
    /// must be callable on any arguments.
    pub fn new(func: F, jacobian_action: G, nstates: usize, nout: usize, p: Vector) -> (r: Self)
        requires
            forall|xr: &Vector, pr: &Vector, tv: Fixed| call_requires(func, (xr, pr, tv)),
            forall|xr: &Vector, pr: &Vector, tv: Fixed, vr: &Vector|
                call_requires(jacobian_action, (xr, pr, tv, vr)),
        ensures
            r.nstates_spec() == nstates,
            r.nout_spec() == nout,
            r.nparams_spec() == p@.len(),
            r.sparsity_spec() is None,
            r.stats_spec().number_of_calls == 0,
            r.stats_spec().number_of_jac_muls == 0,
            r.stats_spec().number_of_matrix_evals == 0,
            r.obeys() == (f_obeys_of(func, p@, nout) && g_obeys_of(jacobian_action, p@, nout)),
            forall|x2: Seq<int>, t2: int| #[trigger] r.call_model(x2, t2) == f_model_of(
                func,
                p@,
                x2,
                t2,
            ),
            forall|x2: Seq<int>, t2: int, v2: Seq<int>| #[trigger] r.jac_action_model(x2, t2, v2)
                == g_model_of(jacobian_action, p@, x2, t2, v2),
            r.discovered_spec() is None,
            forall|y2: Seq<Seq<int> >, x2: Seq<int>, t2: int| #[trigger] r.jac_write_model(
                y2,
                x2,
                t2,
            ) == Seq::new(
                nstates as nat,
                |j: int| g_model_of(jacobian_action, p@, x2, t2, basis_vec(nstates as int, j)),
            ),
    {
        let nparams = p.len();
        let r = Closure {
            func,
            jacobian_action,
            nstates,
            nout,
            nparams,
            p,
            statistics: OpStatistics::new(),
            discovered: None,
        };
        proof {
            assert forall|y2: Seq<Seq<int> >, x2: Seq<int>, t2: int| #[trigger] r.jac_write_model(
                y2,
                x2,
                t2,
            ) == Seq::new(
                nstates as nat,
                |j: int| g_model_of(r.jacobian_action, r.p@, x2, t2, basis_vec(nstates as int, j)),
            ) by {
                assert(r.jac_write_model(y2, x2, t2) =~= Seq::new(
                    nstates as nat,
                    |j: int| g_model_of(
                        r.jacobian_action,
                        r.p@,
                        x2,
                        t2,
                        basis_vec(nstates as int, j),
                    ),
                ));
            }
        }
        r
    }

    /// Probe the operator at `(y0, t0)`, record the discovered sparsity
    /// pattern, and precompute the Jacobian coloring for it.
    pub fn calculate_sparsity(&mut self, y0: &Vector, t0: Fixed)
        requires
            y0@.len() == old(self).nstates_spec(),
        ensures
            same_op_shape_except_sparsity(*old(self), *final(self)),
            final(self).obeys() == old(self).obeys(),
            forall|x2: Seq<int>, t2: int| #[trigger] final(self).call_model(x2, t2) == old(
                self,
            ).call_model(x2, t2),
            forall|x2: Seq<int>, t2: int, v2: Seq<int>| #[trigger] final(self).jac_action_model(
                x2,
                t2,
                v2,
            ) == old(self).jac_action_model(x2, t2, v2),
            final(self).stats_spec().number_of_calls == old(self).stats_spec().number_of_calls,
            final(self).sparsity_spec() is Some,
            old(self).obeys() ==> forall|i: int, j: int|
                0 <= i < old(self).nout_spec() as int && 0 <= j < old(self).nstates_spec() as int
                    ==> (pattern_contains(final(self).sparsity_spec()->Some_0@, i, j) <==> old(
                    self,
                ).jac_action_model(
                    y0@,
                    t0@,
                    basis_vec(old(self).nstates_spec() as int, j),
                )[i] != 0),
            (final(self).discovered_spec() matches Some(d) && final(self).sparsity_spec() == Some(
                d.0,
            ) && (exists|nzv: Seq<(usize, usize)>|
                #[trigger] closure_coloring_from(
                    d.0,
                    d.1,
                    nzv,
                    old(self).nout_spec() as int,
                    old(self).nstates_spec() as int,
                )) && (forall|y2: Seq<Seq<int> >, x2: Seq<int>, t2: int| #[trigger] final(
                self
            ).jac_write_model(y2, x2, t2) == coloring_apply(
                y2,
                d.1.dsts_view(),
                d.1.srcs_view(),
                Seq::new(
                    d.1.groups_view().len(),
                    |cx: int| final(self).jac_action_model(
                        x2,
                        t2,
                        probe_vec_of(
                            d.1.groups_view()[cx],
                            old(self).nstates_spec() as int,
                        ),
                    ),
                ),
                d.1.groups_view().len() as int,
            ))),
    {
        let non_zeros = find_non_zeros_nonlinear(self, y0, t0);
        let ghost nzv = non_zeros@;
        let copy = copy_pairs(&non_zeros);
        let nr = self.nout;
        let nc = self.nstates;
        let coloring = JacobianColoring::new_from_non_zeros(&*self, non_zeros);
        let ghost cpv = copy@;
        let pat = match SparsityPattern::try_from_indices(nr, nc, copy) {
            Ok(p) => p,
            Err(e) => {
                proof {
                    if e == crate::SolverError::IndexOutOfBounds {
                        let k = choose|k: int|
                            0 <= k < cpv.len() && ((#[trigger] cpv[k]).0 >= nr || cpv[k].1 >= nc);
                        assert(pairs_view(nzv)[k] == (cpv[k].0 as int, cpv[k].1 as int));
                        assert(false);
                    } else {
                        let (a, b) = choose|a: int, b: int|
                            0 <= a < b < cpv.len() && !((#[trigger] cpv[a]).1 < (
                            #[trigger] cpv[b]).1 || (cpv[a].1 == cpv[b].1 && cpv[a].0 < cpv[b].0));
                        assert(pairs_view(nzv)[a] == (cpv[a].0 as int, cpv[a].1 as int));
                        assert(pairs_view(nzv)[b] == (cpv[b].0 as int, cpv[b].1 as int));
                        assert(false);
                    }
                }
                unreached()
            },
        };
        proof {
            use_type_invariant(&*self);
            coloring.lemma_coloring_wf();
            assert(pat@ =~= pairs_view(nzv));
            assert forall|c2: int, k: int|
                0 <= c2 < coloring.dsts_view().len() && 0 <= k < coloring.dsts_view()[c2].len()
                    implies pattern_contains(
                pat@,
                (#[trigger] coloring.dsts_view()[c2][k]).0 as int,
                coloring.dsts_view()[c2][k].1 as int,
            ) by {
                assert(0 <= c2 < coloring.groups_view().len());
                assert(coloring.dsts_view()[c2] == filter_cols(nzv, coloring.groups_view()[c2]));
                lemma_filter_cols_subset(nzv, coloring.groups_view()[c2]);
                let e = coloring.dsts_view()[c2][k];
                assert(filter_cols(nzv, coloring.groups_view()[c2])[k] == e);
                assert(nzv.contains(e));
                let k2 = choose|k2: int| 0 <= k2 < nzv.len() && nzv[k2] == e;
                assert(pat@[k2] == (e.0 as int, e.1 as int));
            }
        }
        let ghost smid = *self;
        let ghost patg = pat;
        let ghost colg = coloring;
        self.discovered = Some((pat, coloring));
        proof {
            let d = self.discovered->Some_0;
            assert(d == (patg, colg));
            assert(pairs_view(nzv) == patg@);
            assert(closure_coloring_from(
                d.0,
                d.1,
                nzv,
                old(self).nout_spec() as int,
                old(self).nstates_spec() as int,
            ));
            assert forall|y2: Seq<Seq<int> >, x2: Seq<int>, t2: int| #[trigger] self
                .jac_write_model(y2, x2, t2) == coloring_apply(
                y2,
                d.1.dsts_view(),
                d.1.srcs_view(),
                Seq::new(
                    d.1.groups_view().len(),
                    |cx: int| self.jac_action_model(
                        x2,
                        t2,
                        probe_vec_of(
                            d.1.groups_view()[cx],
                            old(self).nstates_spec() as int,
                        ),
                    ),
                ),
                d.1.groups_view().len() as int,
            ) by {
                let ws1 = Seq::new(
                    d.1.groups_view().len(),
                    |cx: int| g_model_of(
                        self.jacobian_action,
                        self.p@,
                        x2,
                        t2,
                        probe_vec_of(d.1.groups_view()[cx], self.nstates as int),
                    ),
                );
                let ws2 = Seq::new(
                    d.1.groups_view().len(),
                    |cx: int| self.jac_action_model(
                        x2,
                        t2,
                        probe_vec_of(
                            d.1.groups_view()[cx],
                            old(self).nstates_spec() as int,
                        ),
                    ),
                );
                assert(ws1 =~= ws2);
                assert(self.jac_write_model(y2, x2, t2) == coloring_apply(
                    y2,
                    d.1.dsts_view(),
                    d.1.srcs_view(),
                    ws1,
                    d.1.groups_view().len() as int,
                ));
            }
            assert forall|x2: Seq<int>, t2: int| #[trigger] self.call_model(x2, t2) == old(
                self,
            ).call_model(x2, t2) by {
                assert(self.call_model(x2, t2) == f_model_of(self.func, self.p@, x2, t2));
                assert(smid.call_model(x2, t2) == f_model_of(smid.func, smid.p@, x2, t2));
                assert(smid.call_model(x2, t2) == old(self).call_model(x2, t2));
            }
            assert forall|x2: Seq<int>, t2: int, v2: Seq<int>| #[trigger] self.jac_action_model(
                x2,
                t2,
                v2,
            ) == old(self).jac_action_model(x2, t2, v2) by {
                assert(self.jac_action_model(x2, t2, v2) == g_model_of(
                    self.jacobian_action,
                    self.p@,
                    x2,
                    t2,
                    v2,
                ));
                assert(smid.jac_action_model(x2, t2, v2) == g_model_of(
                    smid.jacobian_action,
                    smid.p@,
                    x2,
                    t2,
                    v2,
                ));
                assert(smid.jac_action_model(x2, t2, v2) == old(self).jac_action_model(
                    x2,
                    t2,
                    v2,
                ));
            }
        }
    }
}

/// Copy a list of index pairs.
fn copy_pairs(v: &Vec<(usize, usize)>) -> (r: Vec<(usize, usize)>)
    ensures
        r@ == v@,
{
    let n = v.len();
    let mut out: Vec<(usize, usize)> = Vec::new();
    let mut k: usize = 0;
    while k < n
        invariant
            k <= n,
            out@.len() == k,
            n == v@.len(),
            forall|k2: int| 0 <= k2 < k ==> out@[k2] == v@[k2],
        decreases n - k,
    {
        out.push(v[k]);
        k = k + 1;
    }
    proof {
        assert(out@ =~= v@);
    }
    out
}

impl<F, G> Op for Closure<F, G> where
    F: Fn(&Vector, &Vector, Fixed) -> Vector,
    G: Fn(&Vector, &Vector, Fixed, &Vector) -> Vector,
 {
    closed spec fn nstates_spec(&self) -> usize {
        self.nstates
    }

    closed spec fn nout_spec(&self) -> usize {
        self.nout
    }

    closed spec fn nparams_spec(&self) -> usize {
        self.nparams
    }

    closed spec fn stats_spec(&self) -> OpStatistics {
        self.statistics
    }

    closed spec fn sparsity_spec(&self) -> Option<SparsityPattern> {
        match self.discovered {
            Some(d) => Some(d.0),
            None => None,
        }
    }

    fn nstates(&self) -> usize {
        self.nstates
    }

    fn nout(&self) -> usize {
        self.nout
    }

    fn nparams(&self) -> usize {
        self.nparams
    }

    fn sparsity(&self) -> Option<&SparsityPattern> {
        proof {
            use_type_invariant(&*self);
        }
        match &self.discovered {
            Some(d) => Some(&d.0),
            None => None,
        }
    }

    fn statistics(&self) -> OpStatistics {
        self.statistics
    }
}

impl<F, G> NonLinearOp for Closure<F, G> where
    F: Fn(&Vector, &Vector, Fixed) -> Vector,
    G: Fn(&Vector, &Vector, Fixed, &Vector) -> Vector,
 {
    closed spec fn obeys(&self) -> bool {
        self.f_obeys() && self.g_obeys()
    }

    closed spec fn call_model(&self, x: Seq<int>, t: int) -> Seq<int> {
        self.f_model(x, t)
    }

    closed spec fn jac_action_model(&self, x: Seq<int>, t: int, v: Seq<int>) -> Seq<int> {
        self.g_model(x, t, v)
    }

    closed spec fn jac_write_model(&self, y0: Seq<Seq<int>>, x: Seq<int>, t: int) -> Seq<
        Seq<int>,
    > {
        jac_write_model_of(self.jacobian_action, self.p@, self.nstates, self.discovered, y0, x, t)
    }

    fn call_inplace(&mut self, x: &Vector, t: Fixed, y: &mut Vector) {
        proof {
            use_type_invariant(&*self);
        }
        let mut st = self.statistics;
        st.increment_call();
        self.statistics = st;
        let mut out = (self.func)(x, &self.p, t);
        proof {
            if self.f_obeys() {
                assert(out@ == self.f_model(x@, t@));
                assert(out@.len() == self.nout as int);
            }
        }
        if out.len() != self.nout {
            out.resize_to(self.nout);
        }
        *y = out;
    }

    fn jac_mul_inplace(&mut self, x: &Vector, t: Fixed, v: &Vector, y: &mut Vector) {
        proof {
            use_type_invariant(&*self);
        }
        let mut st = self.statistics;
        st.increment_jac_mul();
        self.statistics = st;
        let mut out = (self.jacobian_action)(x, &self.p, t, v);
        proof {
            if self.g_obeys() {
                assert(out@ == self.g_model(x@, t@, v@));
                assert(out@.len() == self.nout as int);
            }
        }
        if out.len() != self.nout {
            out.resize_to(self.nout);
        }
        *y = out;
    }

    fn jacobian_inplace(&mut self, x: &Vector, t: Fixed, y: &mut Matrix) {
        proof {
            use_type_invariant(&*self);
        }
        let mut st = self.statistics;
        st.increment_matrix();
        self.statistics = st;
        let mut disc: Option<(SparsityPattern, JacobianColoring)> = None;
        std::mem::swap(&mut disc, &mut self.discovered);
        match disc {
            Some(d) => {
                let (sp, col) = d;
                proof {
                    col.lemma_coloring_wf();
                }
                let ng = col.ngroups();
                let n = self.nstates;
                let ghost probes = Seq::new(
                    col.groups_view().len(),
                    |cx: int| old(self).g_model(
                        x@,
                        t@,
                        probe_vec_of(col.groups_view()[cx], old(self).nstates as int),
                    ),
                );
                let mut c: usize = 0;
                while c < ng
                    invariant
                        c <= ng,
                        ng == col.groups_view().len(),
                        col.wf(),
                        col.nrows_spec() == old(self).nout_spec() as int,
                        col.ncols_spec() == old(self).nstates_spec() as int,
                        forall|c2: int, k: int|
                            0 <= c2 < col.dsts_view().len() && 0 <= k < col.dsts_view()[c2].len()
                                ==> pattern_contains(
                                sp@,
                                (#[trigger] col.dsts_view()[c2][k]).0 as int,
                                col.dsts_view()[c2][k].1 as int,
                            ),
                        n == self.nstates_spec(),
                        x@.len() == n,
                        same_op_shape_except_sparsity(*old(self), *self),
                        self.obeys() == old(self).obeys(),
                        forall|x2: Seq<int>, t2: int| #[trigger] self.call_model(x2, t2) == old(
                            self,
                        ).call_model(x2, t2),
                        forall|x2: Seq<int>, t2: int, v2: Seq<int>| #[trigger] self.jac_action_model(
                            x2,
                            t2,
                            v2,
                        ) == old(self).jac_action_model(x2, t2, v2),
                        crate::op::stats_le(old(self).stats_spec(), self.stats_spec()),
                        self.stats_spec().number_of_calls == old(
                            self,
                        ).stats_spec().number_of_calls,
                        self.stats_spec().number_of_matrix_evals == crate::op::incr_u(
                            old(self).stats_spec().number_of_matrix_evals,
                        ),
                        probes == Seq::new(
                            col.groups_view().len(),
                            |cx: int| old(self).g_model(
                                x@,
                                t@,
                                probe_vec_of(col.groups_view()[cx], old(self).nstates as int),
                            ),
                        ),
                        y.wf(),
                        y.nrows_spec() == old(y).nrows_spec(),
                        y.ncols_spec() == old(y).ncols_spec(),
                        y.sparsity_spec() == old(y).sparsity_spec(),
                        y.nrows_spec() == old(self).nout_spec() as int,
                        y.ncols_spec() == old(self).nstates_spec() as int,
                        old(self).obeys() ==> y@ == coloring_apply(
                            old(y)@,
                            col.dsts_view(),
                            col.srcs_view(),
                            probes,
                            c as int,
                        ),
                        forall|i: int, jj: int|
                            0 <= i < y.nrows_spec() && 0 <= jj < y.ncols_spec()
                                && !tables_contain(col.dsts_view(), i, jj) ==> y@[jj][i] == old(
                                y,
                            )@[jj][i],
                    decreases ng - c,
                {
                    proof {
                        col.lemma_coloring_wf();
                    }
                    let g = col.group_ref(c);
                    let ghost gc = col.groups_view()[c as int];
                    let gl = g.len();
                    let mut v = Vector::zeros(n);
                    let mut k: usize = 0;
                    while k < gl
                        invariant
                            k <= gl,
                            gl == g@.len(),
                            gc == group_int_view(g@),
                            c < ng,
                            ng == col.groups_view().len(),
                            col.wf(),
                            gc == col.groups_view()[c as int],
                            col.ncols_spec() == n as int,
                            v@.len() == n,
                            forall|kk: int|
                                0 <= kk < n as int ==> #[trigger] v@[kk] == (if exists|k2: int|
                                    0 <= k2 < k as int && gc[k2] == kk {
                                    crate::scalar::FIX_SCALE as int
                                } else {
                                    0int
                                }),
                        decreases gl - k,
                    {
                        let colx = g[k];
                        proof {
                            assert(gc[k as int] == colx as int);
                            assert(0 <= gc[k as int] < col.ncols_spec());
                        }
                        let ghost vprev = v@;
                        v.set(colx, Fixed::one());
                        proof {
                            assert forall|kk: int|
                                0 <= kk < n as int implies #[trigger] v@[kk] == (if exists|
                                k2: int|
                                    0 <= k2 < k + 1 && gc[k2] == kk {
                                    crate::scalar::FIX_SCALE as int
                                } else {
                                    0int
                                }) by {
                                if kk == colx as int {
                                    assert(gc[k as int] == kk);
                                } else {
                                    assert(v@[kk] == vprev[kk]);
                                    if exists|k2: int| 0 <= k2 < k + 1 && gc[k2] == kk {
                                        let k2 = choose|k2: int| 0 <= k2 < k + 1 && gc[k2] == kk;
                                        assert(k2 < k as int);
                                    }
                                }
                            }
                        }
                        k = k + 1;
                    }
                    proof {
                        assert forall|kk: int|
                            0 <= kk < n as int implies v@[kk] == probe_vec_of(gc, n as int)[kk] by {
                            if gc.contains(kk) {
                                let k2 = choose|k2: int| 0 <= k2 < gc.len() && gc[k2] == kk;
                                assert(exists|k3: int| 0 <= k3 < gl as int && gc[k3] == kk);
                            } else {
                                if exists|k2: int| 0 <= k2 < gl as int && gc[k2] == kk {
                                    let k2 = choose|k2: int| 0 <= k2 < gl as int && gc[k2] == kk;
                                    assert(gc.contains(kk));
                                }
                            }
                        }
                        assert(v@ =~= probe_vec_of(gc, n as int));
                    }
                    let w = self.jac_mul(x, t, &v);
                    proof {
                        y.lemma_wf();
                    }
                    let ghost yprev = y@;
                    let dt = col.dst_table(c);
                    let si = col.src_table(c);
                    proof {
                        assert forall|k2: int| 0 <= k2 < si@.len() implies 0 <= #[trigger] si@[k2]
                            < w@.len() by {
                            assert(si@[k2] == col.dsts_view()[c as int][k2].0 as int);
                        }
                    }
                    y.set_data_with_indices(dt, si, &w);
                    proof {
                        if old(self).obeys() {
                            assert(w@ == old(self).jac_action_model(
                                x@,
                                t@,
                                probe_vec_of(gc, n as int),
                            ));
                            assert(w@ == old(self).g_model(x@, t@, probe_vec_of(gc, n as int)));
                            assert(w@ == probes[c as int]);
                            assert(y@ == coloring_apply(
                                old(y)@,
                                col.dsts_view(),
                                col.srcs_view(),
                                probes,
                                c + 1,
                            ));
                        }
                        assert forall|i: int, jj: int|
                            0 <= i < y.nrows_spec() && 0 <= jj < y.ncols_spec()
                                && !tables_contain(col.dsts_view(), i, jj) implies y@[jj][i]
                            == old(y)@[jj][i] by {
                            assert forall|k2: int|
                                0 <= k2 < dt@.len() implies !((#[trigger] dt@[k2]).0 as int == i
                                    && dt@[k2].1 as int == jj) by {
                                if (dt@[k2]).0 as int == i && dt@[k2].1 as int == jj {
                                    assert(col.dsts_view()[c as int][k2] == dt@[k2]);
                                    assert(tables_contain(col.dsts_view(), i, jj));
                                }
                            }
                            assert forall|k2: int|
                                0 <= k2 < dt@.len() implies ((#[trigger] dt@[k2]).1 as int)
                                    < yprev.len() && (dt@[k2].0 as int)
                                    < yprev[dt@[k2].1 as int].len() by {
                                assert(col.dsts_view()[c as int][k2] == dt@[k2]);
                            }
                            crate::jacobian::lemma_apply_pairs_frame(
                                yprev,
                                dt@,
                                si@,
                                w@,
                                dt@.len() as int,
                                i,
                                jj,
                            );
                            assert(y@[jj][i] == yprev[jj][i]);
                        }
                    }
                    c = c + 1;
                }
                let ghost sexit = *self;
                proof {
                    use_type_invariant(&*self);
                }
                self.discovered = Some((sp, col));
                proof {
                    assert(self.jacobian_action == sexit.jacobian_action);
                    assert(self.p == sexit.p);
                    assert forall|x2: Seq<int>, t2: int| #[trigger] self.call_model(x2, t2)
                        == old(self).call_model(x2, t2) by {
                        assert(self.call_model(x2, t2) == f_model_of(self.func, self.p@, x2, t2));
                        assert(sexit.call_model(x2, t2) == f_model_of(
                            sexit.func,
                            sexit.p@,
                            x2,
                            t2,
                        ));
                        assert(sexit.call_model(x2, t2) == old(self).call_model(x2, t2));
                    }
                    assert forall|x2: Seq<int>, t2: int, v2: Seq<int>| #[trigger] self
                        .jac_action_model(x2, t2, v2) == old(self).jac_action_model(
                        x2,
                        t2,
                        v2,
                    ) by {
                        assert(self.jac_action_model(x2, t2, v2) == g_model_of(
                            self.jacobian_action,
                            self.p@,
                            x2,
                            t2,
                            v2,
                        ));
                        assert(sexit.jac_action_model(x2, t2, v2) == g_model_of(
                            sexit.jacobian_action,
                            sexit.p@,
                            x2,
                            t2,
                            v2,
                        ));
                        assert(sexit.jac_action_model(x2, t2, v2) == old(self).jac_action_model(
                            x2,
                            t2,
                            v2,
                        ));
                    }
                    assert forall|y2: Seq<Seq<int> >, x2: Seq<int>, t2: int| #[trigger] self
                        .jac_write_model(y2, x2, t2) == old(self).jac_write_model(y2, x2, t2) by {
                        let ws_new = Seq::new(
                            col.groups_view().len(),
                            |c2: int| g_model_of(
                                self.jacobian_action,
                                self.p@,
                                x2,
                                t2,
                                probe_vec_of(col.groups_view()[c2], self.nstates as int),
                            ),
                        );
                        let ws_old = Seq::new(
                            col.groups_view().len(),
                            |c2: int| g_model_of(
                                old(self).jacobian_action,
                                old(self).p@,
                                x2,
                                t2,
                                probe_vec_of(col.groups_view()[c2], old(self).nstates as int),
                            ),
                        );
                        assert forall|c2: int| 0 <= c2 < col.groups_view().len() implies ws_new[c2]
                            == ws_old[c2] by {
                            let pv = probe_vec_of(col.groups_view()[c2], self.nstates as int);
                            assert(sexit.jac_action_model(x2, t2, pv) == old(
                                self,
                            ).jac_action_model(x2, t2, pv));
                            assert(ws_new[c2] == sexit.jac_action_model(x2, t2, pv));
                            assert(ws_old[c2] == old(self).jac_action_model(x2, t2, pv));
                        }
                        assert(ws_new =~= ws_old);
                        assert(self.nstates == self.nstates_spec());
                        assert(self.nstates_spec() == old(self).nstates_spec());
                    }
                    if old(self).obeys() {
                        let ws2 = Seq::new(
                            col.groups_view().len(),
                            |c2: int| g_model_of(
                                old(self).jacobian_action,
                                old(self).p@,
                                x@,
                                t@,
                                probe_vec_of(col.groups_view()[c2], old(self).nstates as int),
                            ),
                        );
                        assert forall|c2: int| 0 <= c2 < col.groups_view().len() implies probes[c2]
                            == ws2[c2] by {
                            assert(probes[c2] == old(self).g_model(
                                x@,
                                t@,
                                probe_vec_of(col.groups_view()[c2], old(self).nstates as int),
                            ));
                        }
                        assert(probes =~= ws2);
                        assert(y@ == old(self).jac_write_model(old(y)@, x@, t@));
                    }
                    if old(self).sparsity_spec() is Some {
                        let p = old(self).sparsity_spec()->Some_0;
                        assert forall|i: int, jj: int|
                            0 <= i < old(y).nrows_spec() && 0 <= jj < old(y).ncols_spec()
                                && !crate::op::pattern_contains_ij(p@, i, jj) implies y@[jj][i]
                            == old(y)@[jj][i] by {
                            if tables_contain(col.dsts_view(), i, jj) {
                                let (c2, k) = choose|c2: int, k: int|
                                    0 <= c2 < col.dsts_view().len() && 0 <= k
                                        < col.dsts_view()[c2].len() && (
                                    #[trigger] col.dsts_view()[c2][k]).0 as int == i
                                        && col.dsts_view()[c2][k].1 as int == jj;
                                assert(pattern_contains(p@, i, jj));
                            }
                        }
                    }
                }
            },
            None => {
                self._default_jacobian_inplace(x, t, y);
                proof {
                    if old(self).obeys() {
                        assert(y@ =~= old(self).jac_write_model(old(y)@, x@, t@));
                    }
                }
            },
        }
    }
}

} // verus!
