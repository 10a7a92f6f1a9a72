//! The Jacobian engine: sparsity discovery by probing basis vectors, and
//! graph-coloring compression that materializes a sparse Jacobian with one
//! Jacobian action per color.  The coloring object precomputes, per color,
//! the (row, col) destinations and the source rows used by
//! `set_data_with_indices`.
use vstd::prelude::*;

use crate::matrix::{apply_pairs, pattern_contains, pattern_in_bounds, pattern_sorted, Matrix};
use crate::op::{basis_vec, same_op_shape, stats_le, NonLinearOp, Op};
use crate::scalar::{Fixed, FIX_SCALE};
use crate::vector::{strictly_ascending, Indices, Vector};

verus! {

/// The mathematical view of a list of (row, col) positions.
pub open spec fn pairs_view(s: Seq<(usize, usize)>) -> Seq<(int, int)> {
    Seq::new(s.len(), |k: int| (s[k].0 as int, s[k].1 as int))
}

/// The probe vector for a set of columns: the sum of their basis vectors.
pub open spec fn probe_vec_of(cols: Seq<int>, n: int) -> Seq<int> {
    Seq::new(
        n as nat,
        |k: int|
            if cols.contains(k) {
                FIX_SCALE as int
            } else {
                0int
            },
    )
}

/// The positions of `nz` whose column belongs to `cols`, in order.
pub open spec fn filter_cols(nz: Seq<(usize, usize)>, cols: Seq<int>) -> Seq<(usize, usize)>
    decreases nz.len(),
{
    if nz.len() == 0 {
        Seq::empty()
    } else {
        let pre = filter_cols(nz.drop_last(), cols);
        if cols.contains(nz.last().1 as int) {
            pre.push(nz.last())
        } else {
            pre
        }
    }
}


/// Two columns share a row of the pattern.
pub open spec fn share_row_spec(nz: Seq<(int, int)>, a: int, b: int) -> bool {
    exists|i: int|
        crate::matrix::pattern_contains(nz, i, a) && crate::matrix::pattern_contains(nz, i, b)
}

/// The column is a member of some group.
pub open spec fn placed_in_some_group(gw: Seq<Seq<int>>, col: int) -> bool {
    exists|c: int| 0 <= c < gw.len() && #[trigger] gw[c].contains(col)
}

/// The mathematical view of a column list.
pub open spec fn group_int_view(g: Seq<usize>) -> Seq<int> {
    Seq::new(g.len(), |k: int| g[k] as int)
}

/// Does column `j` hold any position of the pattern?
fn col_has_nonzero(non_zeros: &Vec<(usize, usize)>, j: usize) -> (r: bool)
    ensures
        r == exists|i: int|
            crate::matrix::pattern_contains(pairs_view(non_zeros@), i, j as int),
{
    let ghost nz = pairs_view(non_zeros@);
    let n = non_zeros.len();
    let mut k: usize = 0;
    while k < n
        invariant
            k <= n,
            n == non_zeros@.len(),
            nz == pairs_view(non_zeros@),
            forall|k2: int| 0 <= k2 < k ==> (#[trigger] nz[k2]).1 != j as int,
        decreases n - k,
    {
        let (ei, ej) = non_zeros[k];
        if ej == j {
            proof {
                assert(nz[k as int] == (ei as int, j as int));
                assert(crate::matrix::pattern_contains(nz, ei as int, j as int));
            }
            return true;
        }
        proof {
            assert(nz[k as int] == (ei as int, ej as int));
        }
        k = k + 1;
    }
    proof {
        if exists|i: int| crate::matrix::pattern_contains(nz, i, j as int) {
            let i = choose|i: int| crate::matrix::pattern_contains(nz, i, j as int);
            let k2 = choose|k2: int| 0 <= k2 < nz.len() && nz[k2] == (i, j as int);
            assert(false);
        }
    }
    false
}

/// Do columns `a` and `b` share a row of the pattern?
fn cols_share_row(non_zeros: &Vec<(usize, usize)>, a: usize, b: usize) -> (r: bool)
    ensures
        r == share_row_spec(pairs_view(non_zeros@), a as int, b as int),
{
    let ghost nz = pairs_view(non_zeros@);
    let n = non_zeros.len();
    let mut k1: usize = 0;
    while k1 < n
        invariant
            k1 <= n,
            n == non_zeros@.len(),
            nz == pairs_view(non_zeros@),
            forall|x1: int, x2: int|
                0 <= x1 < k1 && 0 <= x2 < n ==> !((#[trigger] nz[x1]).1 == a as int && (
                #[trigger] nz[x2]).1 == b as int && nz[x1].0 == nz[x2].0),
        decreases n - k1,
    {
        let (i1, j1) = non_zeros[k1];
        proof {
            assert(nz[k1 as int] == (i1 as int, j1 as int));
        }
        if j1 == a {
            let mut k2: usize = 0;
            while k2 < n
                invariant
                    k2 <= n,
                    n == non_zeros@.len(),
                    nz == pairs_view(non_zeros@),
                    nz[k1 as int] == (i1 as int, a as int),
                    k1 < n,
                    forall|x2: int|
                        0 <= x2 < k2 ==> !((#[trigger] nz[x2]).1 == b as int && nz[x2].0
                            == i1 as int),
                decreases n - k2,
            {
                let (i2, j2) = non_zeros[k2];
                proof {
                    assert(nz[k2 as int] == (i2 as int, j2 as int));
                }
                if j2 == b && i2 == i1 {
                    proof {
                        assert(crate::matrix::pattern_contains(nz, i1 as int, a as int));
                        assert(crate::matrix::pattern_contains(nz, i1 as int, b as int));
                    }
                    return true;
                }
                k2 = k2 + 1;
            }
        }
        k1 = k1 + 1;
    }
    proof {
        if share_row_spec(nz, a as int, b as int) {
            let i = choose|i: int|
                crate::matrix::pattern_contains(nz, i, a as int)
                    && crate::matrix::pattern_contains(nz, i, b as int);
            let x1 = choose|x1: int| 0 <= x1 < nz.len() && nz[x1] == (i, a as int);
            let x2 = choose|x2: int| 0 <= x2 < nz.len() && nz[x2] == (i, b as int);
            assert(false);
        }
    }
    false
}

/// Does any column already colored `c` share a row with column `j`?
fn color_conflicts(
    non_zeros: &Vec<(usize, usize)>,
    col_color: &Vec<Option<usize>>,
    c: usize,
    j: usize,
) -> (r: bool)
    ensures
        r == exists|j2: int|
            0 <= j2 < col_color@.len() && col_color@[j2] == Some(c) && share_row_spec(
                pairs_view(non_zeros@),
                j2,
                j as int,
            ),
{
    let ghost nz = pairs_view(non_zeros@);
    let n = col_color.len();
    let mut j2: usize = 0;
    while j2 < n
        invariant
            j2 <= n,
            n == col_color@.len(),
            nz == pairs_view(non_zeros@),
            forall|x: int|
                0 <= x < j2 ==> !(#[trigger] col_color@[x] == Some(c) && share_row_spec(
                    nz,
                    x,
                    j as int,
                )),
        decreases n - j2,
    {
        let is_c = match col_color[j2] {
            Some(cc) => cc == c,
            None => false,
        };
        if is_c {
            if cols_share_row(non_zeros, j2, j) {
                return true;
            }
        }
        j2 = j2 + 1;
    }
    false
}

/// The matrix left after distributing the probe results `ws[c]` of the first
/// `c` colors through their index tables.
pub open spec fn coloring_apply(
    y0: Seq<Seq<int>>,
    dsts: Seq<Seq<(usize, usize)>>,
    srcs: Seq<Seq<int>>,
    ws: Seq<Seq<int>>,
    c: int,
) -> Seq<Seq<int>>
    decreases c,
{
    if c <= 0 {
        y0
    } else {
        let prev = coloring_apply(y0, dsts, srcs, ws, c - 1);
        apply_pairs(prev, dsts[c - 1], srcs[c - 1], ws[c - 1], dsts[c - 1].len() as int)
    }
}

/// Everything the column filter keeps is an element of the original list.
pub proof fn lemma_filter_cols_subset(nz: Seq<(usize, usize)>, cols: Seq<int>)
    ensures
        forall|k: int|
            0 <= k < filter_cols(nz, cols).len() ==> nz.contains(
                #[trigger] filter_cols(nz, cols)[k],
            ),
    decreases nz.len(),
{
    if nz.len() > 0 {
        lemma_filter_cols_subset(nz.drop_last(), cols);
        let f = filter_cols(nz, cols);
        let fp = filter_cols(nz.drop_last(), cols);
        assert forall|k: int| 0 <= k < f.len() implies nz.contains(#[trigger] f[k]) by {
            if k < fp.len() {
                assert(fp[k] == f[k]);
                assert(nz.drop_last().contains(fp[k]));
                let k2 = choose|k2: int|
                    0 <= k2 < nz.drop_last().len() && nz.drop_last()[k2] == fp[k];
                assert(nz[k2] == f[k]);
            } else {
                assert(f[k] == nz.last());
                assert(nz[nz.len() - 1] == f[k]);
            }
        }
    }
}

/// Some color's table writes position (i, jj).
pub open spec fn tables_contain(dsts: Seq<Seq<(usize, usize)>>, i: int, jj: int) -> bool {
    exists|c: int, k: int|
        0 <= c < dsts.len() && 0 <= k < dsts[c].len() && (#[trigger] dsts[c][k]).0 as int == i
            && dsts[c][k].1 as int == jj
}

/// Indexed writes leave every position outside the pair list unchanged.
pub proof fn lemma_apply_pairs_frame(
    m: Seq<Seq<int>>,
    dst: Seq<(usize, usize)>,
    src: Seq<int>,
    data: Seq<int>,
    k: int,
    i: int,
    jj: int,
)
    requires
        0 <= k <= dst.len(),
        forall|k2: int|
            0 <= k2 < dst.len() ==> ((#[trigger] dst[k2]).1 as int) < m.len() && (
            dst[k2].0 as int) < m[dst[k2].1 as int].len(),
        forall|k2: int|
            0 <= k2 < dst.len() ==> !((#[trigger] dst[k2]).0 as int == i && dst[k2].1 as int
                == jj),
    ensures
        apply_pairs(m, dst, src, data, k).len() == m.len(),
        forall|j2: int|
            0 <= j2 < m.len() ==> (#[trigger] apply_pairs(m, dst, src, data, k)[j2]).len()
                == m[j2].len(),
        (0 <= jj < m.len() && 0 <= i < m[jj].len()) ==> apply_pairs(m, dst, src, data, k)[jj][i]
            == m[jj][i],
    decreases k,
{
    if k > 0 {
        lemma_apply_pairs_frame(m, dst, src, data, k - 1, i, jj);
        let prev = apply_pairs(m, dst, src, data, k - 1);
        let t = dst[k - 1];
        if 0 <= jj < m.len() && 0 <= i < m[jj].len() {
            if t.1 as int == jj {
                assert(apply_pairs(m, dst, src, data, k)[jj] == prev[jj].update(
                    t.0 as int,
                    data[src[k - 1]],
                ));
                assert(t.0 as int != i);
            } else {
                assert(apply_pairs(m, dst, src, data, k)[jj] == prev[jj]);
            }
        }
    }
}


/// Every kept entry's column belongs to the selecting column set.
pub proof fn lemma_filter_cols_in_cols(nz: Seq<(usize, usize)>, cols: Seq<int>)
    ensures
        forall|k: int|
            0 <= k < filter_cols(nz, cols).len() ==> cols.contains(
                (#[trigger] filter_cols(nz, cols)[k]).1 as int,
            ),
    decreases nz.len(),
{
    if nz.len() > 0 {
        lemma_filter_cols_in_cols(nz.drop_last(), cols);
        let f = filter_cols(nz, cols);
        let fp = filter_cols(nz.drop_last(), cols);
        assert forall|k: int| 0 <= k < f.len() implies cols.contains(
            (#[trigger] f[k]).1 as int,
        ) by {
            if k < fp.len() {
                assert(f[k] == fp[k]);
            } else {
                assert(f[k] == nz.last());
            }
        }
    }
}

/// Every position of the list whose column is selected is kept.
pub proof fn lemma_filter_cols_complete(nz: Seq<(usize, usize)>, cols: Seq<int>, e: (usize, usize))
    requires
        nz.contains(e),
        cols.contains(e.1 as int),
    ensures
        filter_cols(nz, cols).contains(e),
    decreases nz.len(),
{
    let f = filter_cols(nz, cols);
    if nz.last() == e {
        assert(f[f.len() - 1] == e);
    } else {
        let k = choose|k: int| 0 <= k < nz.len() && nz[k] == e;
        assert(nz.drop_last()[k] == e);
        assert(nz.drop_last().contains(e));
        lemma_filter_cols_complete(nz.drop_last(), cols, e);
        let fp = filter_cols(nz.drop_last(), cols);
        let k2 = choose|k2: int| 0 <= k2 < fp.len() && fp[k2] == e;
        assert(f[k2] == e);
    }
}

/// Filtering a column-major-sorted position list keeps it sorted.
pub proof fn lemma_filter_cols_sorted(nz: Seq<(usize, usize)>, cols: Seq<int>)
    requires
        pattern_sorted(pairs_view(nz)),
    ensures
        pattern_sorted(pairs_view(filter_cols(nz, cols))),
        forall|a: int, b: int|
            0 <= a < b < filter_cols(nz, cols).len() ==> #[trigger] filter_cols(nz, cols)[a]
                != #[trigger] filter_cols(nz, cols)[b],
    decreases nz.len(),
{
    if nz.len() > 0 {
        assert(pattern_sorted(pairs_view(nz.drop_last()))) by {
            assert forall|a: int, b: int|
                0 <= a < b < pairs_view(nz.drop_last()).len() implies ((#[trigger] pairs_view(
                nz.drop_last(),
            )[a]).1 < (#[trigger] pairs_view(nz.drop_last())[b]).1 || (pairs_view(
                nz.drop_last(),
            )[a].1 == pairs_view(nz.drop_last())[b].1 && pairs_view(nz.drop_last())[a].0
                < pairs_view(nz.drop_last())[b].0)) by {
                assert(pairs_view(nz.drop_last())[a] == pairs_view(nz)[a]);
                assert(pairs_view(nz.drop_last())[b] == pairs_view(nz)[b]);
            }
        }
        lemma_filter_cols_sorted(nz.drop_last(), cols);
        lemma_filter_cols_subset(nz.drop_last(), cols);
        let f = filter_cols(nz, cols);
        let fp = filter_cols(nz.drop_last(), cols);
        assert forall|a: int, b: int|
            0 <= a < b < pairs_view(f).len() implies ((#[trigger] pairs_view(f)[a]).1 < (
        #[trigger] pairs_view(f)[b]).1 || (pairs_view(f)[a].1 == pairs_view(f)[b].1
            && pairs_view(f)[a].0 < pairs_view(f)[b].0)) by {
            if b < fp.len() {
                assert(f[a] == fp[a] && f[b] == fp[b]);
                assert(pairs_view(fp)[a] == pairs_view(f)[a]);
                assert(pairs_view(fp)[b] == pairs_view(f)[b]);
            } else {
                assert(f[b] == nz.last());
                assert(f[a] == fp[a]);
                assert(nz.drop_last().contains(fp[a]));
                let k = choose|k: int|
                    0 <= k < nz.drop_last().len() && nz.drop_last()[k] == fp[a];
                assert(nz[k] == fp[a]);
                assert(pairs_view(nz)[k].1 < pairs_view(nz)[nz.len() - 1].1 || (pairs_view(
                    nz,
                )[k].1 == pairs_view(nz)[nz.len() - 1].1 && pairs_view(nz)[k].0 < pairs_view(
                    nz,
                )[nz.len() - 1].0));
                assert(pairs_view(f)[a] == (fp[a].0 as int, fp[a].1 as int));
                assert(pairs_view(f)[b] == (nz.last().0 as int, nz.last().1 as int));
            }
        }
        assert forall|a: int, b: int|
            0 <= a < b < f.len() implies #[trigger] f[a] != #[trigger] f[b] by {
            assert(pairs_view(f)[a] == (f[a].0 as int, f[a].1 as int));
            assert(pairs_view(f)[b] == (f[b].0 as int, f[b].1 as int));
        }
    }
}

/// Indexed writes preserve the shape.
pub proof fn lemma_apply_pairs_dims(
    m: Seq<Seq<int>>,
    dst: Seq<(usize, usize)>,
    src: Seq<int>,
    data: Seq<int>,
    k: int,
)
    requires
        k <= dst.len(),
        forall|k2: int|
            0 <= k2 < dst.len() ==> ((#[trigger] dst[k2]).1 as int) < m.len() && (
            dst[k2].0 as int) < m[dst[k2].1 as int].len(),
    ensures
        apply_pairs(m, dst, src, data, k).len() == m.len(),
        forall|j2: int|
            0 <= j2 < m.len() ==> (#[trigger] apply_pairs(m, dst, src, data, k)[j2]).len()
                == m[j2].len(),
    decreases k,
{
    if k > 0 {
        lemma_apply_pairs_dims(m, dst, src, data, k - 1);
        let prev = apply_pairs(m, dst, src, data, k - 1);
        let t = dst[k - 1];
        assert(apply_pairs(m, dst, src, data, k) == prev.update(
            t.1 as int,
            prev[t.1 as int].update(t.0 as int, data[src[k - 1]]),
        ));
        assert(prev[t.1 as int].len() == m[t.1 as int].len());
        assert forall|j2: int|
            0 <= j2 < m.len() implies (#[trigger] apply_pairs(m, dst, src, data, k)[j2]).len()
                == m[j2].len() by {
            if j2 == t.1 as int {
            } else {
                assert(apply_pairs(m, dst, src, data, k)[j2] == prev[j2]);
            }
        }
    }
}

/// A write whose position no later pair repeats survives to the end.
pub proof fn lemma_apply_pairs_last_write(
    m: Seq<Seq<int>>,
    dst: Seq<(usize, usize)>,
    src: Seq<int>,
    data: Seq<int>,
    k: int,
    n: int,
)
    requires
        0 <= k < n <= dst.len(),
        forall|k2: int| k < k2 < n ==> #[trigger] dst[k2] != dst[k],
        (dst[k].1 as int) < m.len(),
        (dst[k].0 as int) < m[dst[k].1 as int].len(),
        forall|k2: int|
            0 <= k2 < dst.len() ==> ((#[trigger] dst[k2]).1 as int) < m.len() && (
            dst[k2].0 as int) < m[dst[k2].1 as int].len(),
    ensures
        apply_pairs(m, dst, src, data, n)[dst[k].1 as int][dst[k].0 as int] == data[src[k]],
    decreases n,
{
    let i = dst[k].0 as int;
    let j = dst[k].1 as int;
    lemma_apply_pairs_dims(m, dst, src, data, n - 1);
    let prev = apply_pairs(m, dst, src, data, n - 1);
    if n == k + 1 {
        assert(apply_pairs(m, dst, src, data, n)[j] == prev[j].update(i, data[src[k]]));
    } else {
        lemma_apply_pairs_last_write(m, dst, src, data, k, n - 1);
        let t = dst[n - 1];
        if t.1 as int == j {
            assert(apply_pairs(m, dst, src, data, n)[j] == prev[j].update(
                t.0 as int,
                data[src[n - 1]],
            ));
            assert(t.0 as int != i);
        } else {
            assert(apply_pairs(m, dst, src, data, n)[j] == prev[j]);
        }
    }
}

/// Colors later than `c` never write position `(iu, ju)`: the value set by
/// color `c` survives to the end of the distribution.
pub proof fn lemma_coloring_apply_tail_frame(
    y0: Seq<Seq<int>>,
    dsts: Seq<Seq<(usize, usize)>>,
    srcs: Seq<Seq<int>>,
    ws: Seq<Seq<int>>,
    c: int,
    m: int,
    iu: usize,
    ju: usize,
)
    requires
        0 <= c < m <= dsts.len(),
        forall|c2: int, k2: int|
            c < c2 < m && 0 <= k2 < dsts[c2].len() ==> #[trigger] dsts[c2][k2] != (iu, ju),
        forall|c2: int, k2: int|
            0 <= c2 < dsts.len() && 0 <= k2 < dsts[c2].len() ==> ((#[trigger] dsts[c2][k2]).1
                as int) < y0.len() && (dsts[c2][k2].0 as int) < y0[dsts[c2][k2].1 as int].len(),
        (ju as int) < y0.len(),
        (iu as int) < y0[ju as int].len(),
    ensures
        coloring_apply(y0, dsts, srcs, ws, m).len() == y0.len(),
        forall|j2: int|
            0 <= j2 < y0.len() ==> (#[trigger] coloring_apply(y0, dsts, srcs, ws, m)[j2]).len()
                == y0[j2].len(),
        coloring_apply(y0, dsts, srcs, ws, m)[ju as int][iu as int] == coloring_apply(
            y0,
            dsts,
            srcs,
            ws,
            c + 1,
        )[ju as int][iu as int],
    decreases m,
{
    if m == c + 1 {
        lemma_coloring_apply_tail_frame_dims(y0, dsts, srcs, ws, m);
    } else {
        lemma_coloring_apply_tail_frame(y0, dsts, srcs, ws, c, m - 1, iu, ju);
        let prev = coloring_apply(y0, dsts, srcs, ws, m - 1);
        assert forall|k2: int|
            0 <= k2 < dsts[m - 1].len() implies !((#[trigger] dsts[m - 1][k2]).0 as int
                == iu as int && dsts[m - 1][k2].1 as int == ju as int) by {
            assert(dsts[m - 1][k2] != (iu, ju));
        }
        assert forall|k2: int|
            0 <= k2 < dsts[m - 1].len() implies ((#[trigger] dsts[m - 1][k2]).1 as int)
                < prev.len() && (dsts[m - 1][k2].0 as int)
                < prev[dsts[m - 1][k2].1 as int].len() by {
            assert(prev[dsts[m - 1][k2].1 as int].len() == y0[dsts[m - 1][k2].1 as int].len());
        }
        lemma_apply_pairs_frame(
            prev,
            dsts[m - 1],
            srcs[m - 1],
            ws[m - 1],
            dsts[m - 1].len() as int,
            iu as int,
            ju as int,
        );
    }
}

/// The color distribution preserves the shape.
pub proof fn lemma_coloring_apply_tail_frame_dims(
    y0: Seq<Seq<int>>,
    dsts: Seq<Seq<(usize, usize)>>,
    srcs: Seq<Seq<int>>,
    ws: Seq<Seq<int>>,
    m: int,
)
    requires
        m <= dsts.len(),
        forall|c2: int, k2: int|
            0 <= c2 < dsts.len() && 0 <= k2 < dsts[c2].len() ==> ((#[trigger] dsts[c2][k2]).1
                as int) < y0.len() && (dsts[c2][k2].0 as int) < y0[dsts[c2][k2].1 as int].len(),
    ensures
        coloring_apply(y0, dsts, srcs, ws, m).len() == y0.len(),
        forall|j2: int|
            0 <= j2 < y0.len() ==> (#[trigger] coloring_apply(y0, dsts, srcs, ws, m)[j2]).len()
                == y0[j2].len(),
    decreases m,
{
    if m > 0 {
        lemma_coloring_apply_tail_frame_dims(y0, dsts, srcs, ws, m - 1);
        let prev = coloring_apply(y0, dsts, srcs, ws, m - 1);
        assert forall|k2: int|
            0 <= k2 < dsts[m - 1].len() implies ((#[trigger] dsts[m - 1][k2]).1 as int)
                < prev.len() && (dsts[m - 1][k2].0 as int)
                < prev[dsts[m - 1][k2].1 as int].len() by {
            assert(prev[dsts[m - 1][k2].1 as int].len() == y0[dsts[m - 1][k2].1 as int].len());
        }
        lemma_apply_pairs_dims(
            prev,
            dsts[m - 1],
            srcs[m - 1],
            ws[m - 1],
            dsts[m - 1].len() as int,
        );
    }
}


/// The coloring was built from the position list `nz`: well-formed tables
/// holding exactly the positions of each group's columns, every nonzero
/// column placed in exactly one group, and same-colored columns sharing no
/// row.  `new_from_non_zeros` establishes this; it is what the
/// reconstruction lemmas below consume.
pub open spec fn coloring_built_from(
    c: JacobianColoring,
    nz: Seq<(usize, usize)>,
    nout: int,
    n: int,
) -> bool {
    &&& c.wf()
    &&& c.nrows_spec() == nout
    &&& c.ncols_spec() == n
    &&& pattern_sorted(pairs_view(nz))
    &&& pattern_in_bounds(pairs_view(nz), nout, n)
    &&& forall|c2: int|
        0 <= c2 < c.groups_view().len() ==> #[trigger] c.dsts_view()[c2] == filter_cols(
            nz,
            c.groups_view()[c2],
        )
    &&& forall|c1: int, c2: int, col: int|
        0 <= c1 < c.groups_view().len() && 0 <= c2 < c.groups_view().len()
            && #[trigger] c.groups_view()[c1].contains(col) && #[trigger] c.groups_view()[
            c2
        ].contains(col) ==> c1 == c2
    &&& forall|k: int|
        0 <= k < nz.len() ==> placed_in_some_group(
            c.groups_view(),
            (#[trigger] pairs_view(nz)[k]).1,
        )
    &&& forall|cx: int, a: int, b: int, i: int|
        0 <= cx < c.groups_view().len() && #[trigger] c.groups_view()[cx].contains(a)
            && #[trigger] c.groups_view()[cx].contains(b) && a != b ==> !(
        #[trigger] pattern_contains(pairs_view(nz), i, a) && pattern_contains(
            pairs_view(nz),
            i,
            b,
        ))
}

/// The value a color's probe carries for a declared position survives the
/// whole distribution: position `(iu, ju)` of the pattern, with `ju` owned
/// by color `c`, ends up holding `ws[c][iu]`.
pub proof fn lemma_coloring_apply_reconstructs(
    y0: Seq<Seq<int>>,
    dsts: Seq<Seq<(usize, usize)>>,
    srcs: Seq<Seq<int>>,
    ws: Seq<Seq<int>>,
    nz: Seq<(usize, usize)>,
    groups: Seq<Seq<int>>,
    nout: int,
    n: int,
    iu: usize,
    ju: usize,
    c: int,
)
    requires
        groups.len() == dsts.len(),
        groups.len() == srcs.len(),
        forall|c2: int|
            0 <= c2 < groups.len() ==> #[trigger] dsts[c2] == filter_cols(nz, groups[c2]),
        forall|c2: int| 0 <= c2 < groups.len() ==> (#[trigger] srcs[c2]).len() == dsts[c2].len(),
        forall|c2: int, k2: int|
            0 <= c2 < groups.len() && 0 <= k2 < dsts[c2].len() ==> #[trigger] srcs[c2][k2]
                == dsts[c2][k2].0 as int,
        forall|c1: int, c2: int, col: int|
            0 <= c1 < groups.len() && 0 <= c2 < groups.len() && #[trigger] groups[c1].contains(
                col,
            ) && #[trigger] groups[c2].contains(col) ==> c1 == c2,
        pattern_sorted(pairs_view(nz)),
        pattern_in_bounds(pairs_view(nz), nout, n),
        nz.contains((iu, ju)),
        0 <= c < groups.len(),
        groups[c].contains(ju as int),
        y0.len() == n,
        forall|j2: int| 0 <= j2 < y0.len() ==> (#[trigger] y0[j2]).len() == nout,
    ensures
        coloring_apply(y0, dsts, srcs, ws, groups.len() as int)[ju as int][iu as int] == ws[c][
            iu as int
        ],
{
    let knz = choose|knz: int| 0 <= knz < nz.len() && nz[knz] == (iu, ju);
    assert(pairs_view(nz)[knz] == (iu as int, ju as int));
    assert((ju as int) < n && (iu as int) < nout);
    assert forall|c2: int, k2: int|
        0 <= c2 < dsts.len() && 0 <= k2 < dsts[c2].len() implies ((#[trigger] dsts[c2][k2]).1
            as int) < y0.len() && (dsts[c2][k2].0 as int) < y0[dsts[c2][k2].1 as int].len() by {
        lemma_filter_cols_subset(nz, groups[c2]);
        assert(nz.contains(dsts[c2][k2]));
        let ke = choose|ke: int| 0 <= ke < nz.len() && nz[ke] == dsts[c2][k2];
        assert(pairs_view(nz)[ke] == (dsts[c2][k2].0 as int, dsts[c2][k2].1 as int));
    }
    lemma_filter_cols_complete(nz, groups[c], (iu, ju));
    let k = choose|k: int| 0 <= k < dsts[c].len() && dsts[c][k] == (iu, ju);
    lemma_filter_cols_sorted(nz, groups[c]);
    lemma_coloring_apply_tail_frame_dims(y0, dsts, srcs, ws, c);
    let mid = coloring_apply(y0, dsts, srcs, ws, c);
    assert forall|k2: int|
        0 <= k2 < dsts[c].len() implies ((#[trigger] dsts[c][k2]).1 as int) < mid.len() && (
        dsts[c][k2].0 as int) < mid[dsts[c][k2].1 as int].len() by {
        assert(mid[dsts[c][k2].1 as int].len() == y0[dsts[c][k2].1 as int].len());
    }
    lemma_apply_pairs_last_write(mid, dsts[c], srcs[c], ws[c], k, dsts[c].len() as int);
    assert(coloring_apply(y0, dsts, srcs, ws, c + 1)[ju as int][iu as int] == ws[c][
        srcs[c][k]
    ]);
    assert(srcs[c][k] == iu as int);
    if c + 1 < groups.len() {
        assert forall|c2: int, k2: int|
            c < c2 < groups.len() && 0 <= k2 < dsts[c2].len() implies #[trigger] dsts[c2][k2] != (
            iu,
            ju,
        ) by {
            if dsts[c2][k2] == (iu, ju) {
                lemma_filter_cols_in_cols(nz, groups[c2]);
                assert(groups[c2].contains(ju as int));
            }
        }
        lemma_coloring_apply_tail_frame(y0, dsts, srcs, ws, c, groups.len() as int, iu, ju);
    }
}

/// The compressed Jacobian agrees with per-column probing at every declared
/// position, provided each color's probe result agrees at the rows its
/// columns own.  That hypothesis is what a Jacobian action that is linear
/// in its direction supplies: within a color the other columns hold no
/// position in the row, so the summed probe reduces to the single column's
/// probe there.
pub proof fn lemma_colored_jacobian_matches_columns<C: NonLinearOp>(
    op: C,
    y0: Seq<Seq<int>>,
    dsts: Seq<Seq<(usize, usize)>>,
    srcs: Seq<Seq<int>>,
    nz: Seq<(usize, usize)>,
    groups: Seq<Seq<int>>,
    x: Seq<int>,
    t: int,
    iu: usize,
    ju: usize,
    c: int,
)
    requires
        groups.len() == dsts.len(),
        groups.len() == srcs.len(),
        forall|c2: int|
            0 <= c2 < groups.len() ==> #[trigger] dsts[c2] == filter_cols(nz, groups[c2]),
        forall|c2: int| 0 <= c2 < groups.len() ==> (#[trigger] srcs[c2]).len() == dsts[c2].len(),
        forall|c2: int, k2: int|
            0 <= c2 < groups.len() && 0 <= k2 < dsts[c2].len() ==> #[trigger] srcs[c2][k2]
                == dsts[c2][k2].0 as int,
        forall|c1: int, c2: int, col: int|
            0 <= c1 < groups.len() && 0 <= c2 < groups.len() && #[trigger] groups[c1].contains(
                col,
            ) && #[trigger] groups[c2].contains(col) ==> c1 == c2,
        pattern_sorted(pairs_view(nz)),
        pattern_in_bounds(pairs_view(nz), op.nout_spec() as int, op.nstates_spec() as int),
        nz.contains((iu, ju)),
        0 <= c < groups.len(),
        groups[c].contains(ju as int),
        y0.len() == op.nstates_spec() as int,
        forall|j2: int|
            0 <= j2 < y0.len() ==> (#[trigger] y0[j2]).len() == op.nout_spec() as int,
        op.jac_action_model(x, t, probe_vec_of(groups[c], op.nstates_spec() as int))[iu as int]
            == op.jac_action_model(
            x,
            t,
            basis_vec(op.nstates_spec() as int, ju as int),
        )[iu as int],
    ensures
        coloring_apply(
            y0,
            dsts,
            srcs,
            Seq::new(
                groups.len(),
                |c2: int| op.jac_action_model(
                    x,
                    t,
                    probe_vec_of(groups[c2], op.nstates_spec() as int),
                ),
            ),
            groups.len() as int,
        )[ju as int][iu as int] == op.jac_action_model(
            x,
            t,
            basis_vec(op.nstates_spec() as int, ju as int),
        )[iu as int],
{
    let ws = Seq::new(
        groups.len(),
        |c2: int| op.jac_action_model(x, t, probe_vec_of(groups[c2], op.nstates_spec() as int)),
    );
    lemma_coloring_apply_reconstructs(
        y0,
        dsts,
        srcs,
        ws,
        nz,
        groups,
        op.nout_spec() as int,
        op.nstates_spec() as int,
        iu,
        ju,
        c,
    );
}

/// Probe the operator with every basis vector and report the positions where
/// the Jacobian action was nonzero, in column-major order.
pub fn find_non_zeros_nonlinear<C: NonLinearOp>(op: &mut C, x: &Vector, t: Fixed) -> (r: Vec<
    (usize, usize),
>)
    requires
        x@.len() == old(op).nstates_spec(),
    ensures
        same_op_shape(*old(op), *final(op)),
        final(op).obeys() == old(op).obeys(),
        forall|x2: Seq<int>, t2: int| #[trigger] final(op).call_model(x2, t2) == old(
            op,
        ).call_model(x2, t2),
        forall|x2: Seq<int>, t2: int, v2: Seq<int>| #[trigger] final(op).jac_action_model(
            x2,
            t2,
            v2,
        ) == old(op).jac_action_model(x2, t2, v2),
        forall|y2: Seq<Seq<int> >, x2: Seq<int>, t2: int| #[trigger] final(op).jac_write_model(
            y2,
            x2,
            t2,
        ) == old(op).jac_write_model(y2, x2, t2),
        stats_le(old(op).stats_spec(), final(op).stats_spec()),
        final(op).stats_spec().number_of_calls == old(op).stats_spec().number_of_calls,
        pattern_sorted(pairs_view(r@)),
        pattern_in_bounds(
            pairs_view(r@),
            old(op).nout_spec() as int,
            old(op).nstates_spec() as int,
        ),
        old(op).obeys() ==> forall|i: int, j: int|
            0 <= i < old(op).nout_spec() as int && 0 <= j < old(op).nstates_spec() as int ==> (
            crate::matrix::pattern_contains(pairs_view(r@), i, j) <==> old(op).jac_action_model(
                x@,
                t@,
                basis_vec(old(op).nstates_spec() as int, j),
            )[i] != 0),
{
    let n = op.nstates();
    let nout = op.nout();
    let mut v = Vector::zeros(n);
    let mut out: Vec<(usize, usize)> = Vec::new();
    let mut j: usize = 0;
    while j < n
        invariant
            j <= n,
            n == op.nstates_spec(),
            nout == op.nout_spec(),
            x@.len() == n,
            same_op_shape(*old(op), *op),
            op.obeys() == old(op).obeys(),
            forall|x2: Seq<int>, t2: int| #[trigger] op.call_model(x2, t2) == old(op).call_model(
                x2,
                t2,
            ),
            forall|x2: Seq<int>, t2: int, v2: Seq<int>| #[trigger] op.jac_action_model(x2, t2, v2)
                == old(op).jac_action_model(x2, t2, v2),
            forall|y2: Seq<Seq<int> >, x2: Seq<int>, t2: int| #[trigger] op.jac_write_model(
                y2,
                x2,
                t2,
            ) == old(op).jac_write_model(y2, x2, t2),
            stats_le(old(op).stats_spec(), op.stats_spec()),
            op.stats_spec().number_of_calls == old(op).stats_spec().number_of_calls,
            v@.len() == n,
            forall|k: int| 0 <= k < n ==> v@[k] == 0,
            forall|k: int|
                0 <= k < out@.len() ==> 0 <= (#[trigger] pairs_view(out@)[k]).0 < nout as int && 0
                    <= pairs_view(out@)[k].1 < j as int,
            pattern_sorted(pairs_view(out@)),
            old(op).obeys() ==> forall|i2: int, j2: int|
                0 <= i2 < nout as int && 0 <= j2 < j as int ==> (crate::matrix::pattern_contains(
                    pairs_view(out@),
                    i2,
                    j2,
                ) <==> old(op).jac_action_model(x@, t@, basis_vec(n as int, j2))[i2] != 0),
        decreases n - j,
    {
        v.set(j, Fixed::one());
        proof {
            assert(v@ =~= basis_vec(n as int, j as int));
        }
        let col = op.jac_mul(x, t, &v);
        v.set(j, Fixed::zero());
        let m = col.len();
        let mut i: usize = 0;
        while i < m
            invariant
                i <= m,
                m == col@.len(),
                m == nout,
                j < n,
                forall|k: int|
                    0 <= k < out@.len() ==> 0 <= (#[trigger] pairs_view(out@)[k]).0 < nout as int
                        && 0 <= pairs_view(out@)[k].1 <= j as int,
                forall|k: int|
                    0 <= k < out@.len() && (#[trigger] pairs_view(out@)[k]).1 == j as int
                        ==> pairs_view(out@)[k].0 < i as int,
                pattern_sorted(pairs_view(out@)),
                old(op).obeys() ==> forall|i2: int, j2: int|
                    0 <= i2 < nout as int && 0 <= j2 < j as int ==> (
                    crate::matrix::pattern_contains(pairs_view(out@), i2, j2) <==> old(
                        op,
                    ).jac_action_model(x@, t@, basis_vec(n as int, j2))[i2] != 0),
                old(op).obeys() ==> forall|i2: int|
                    0 <= i2 < i as int ==> (crate::matrix::pattern_contains(
                        pairs_view(out@),
                        i2,
                        j as int,
                    ) <==> col@[i2] != 0),
                old(op).obeys() ==> col@ == old(op).jac_action_model(
                    x@,
                    t@,
                    basis_vec(n as int, j as int),
                ),
            decreases m - i,
        {
            let ghost prev = out@;
            let e = col.get(i);
            if !e.is_zero() {
                out.push((i, j));
                proof {
                    assert(pairs_view(out@) =~= pairs_view(prev).push((i as int, j as int)));
                    assert forall|a: int, b: int|
                        0 <= a < b < pairs_view(out@).len() implies ((#[trigger] pairs_view(
                        out@,
                    )[a]).1 < (#[trigger] pairs_view(out@)[b]).1 || (pairs_view(out@)[a].1
                        == pairs_view(out@)[b].1 && pairs_view(out@)[a].0 < pairs_view(
                        out@,
                    )[b].0)) by {
                        if b == pairs_view(out@).len() - 1 {
                            assert(pairs_view(out@)[a] == pairs_view(prev)[a]);
                        }
                    }
                }
            }
            proof {
                let cur = pairs_view(out@);
                let prv = pairs_view(prev);
                assert(cur.len() == prv.len() || (cur.len() == prv.len() + 1 && cur[prv.len() as int]
                    == (i as int, j as int)));
                assert(forall|k: int| 0 <= k < prv.len() ==> #[trigger] cur[k] == prv[k]);
                if old(op).obeys() {
                    assert forall|i2: int, j2: int|
                        0 <= i2 < nout as int && 0 <= j2 < j as int implies (
                    crate::matrix::pattern_contains(cur, i2, j2) <==> old(op).jac_action_model(
                        x@,
                        t@,
                        basis_vec(n as int, j2),
                    )[i2] != 0) by {
                        if crate::matrix::pattern_contains(prv, i2, j2) {
                            let k = choose|k: int| 0 <= k < prv.len() && prv[k] == (i2, j2);
                            assert(cur[k] == (i2, j2));
                        }
                        if crate::matrix::pattern_contains(cur, i2, j2) {
                            let k = choose|k: int| 0 <= k < cur.len() && cur[k] == (i2, j2);
                            if k < prv.len() {
                                assert(prv[k] == (i2, j2));
                            } else {
                                assert(cur[k] == (i as int, j as int));
                            }
                        }
                    }
                    assert forall|i2: int|
                        0 <= i2 < i + 1 implies (crate::matrix::pattern_contains(
                        cur,
                        i2,
                        j as int,
                    ) <==> col@[i2] != 0) by {
                        if i2 == i as int {
                            if col@[i2] != 0 {
                                assert(cur[cur.len() - 1] == (i as int, j as int));
                            } else {
                                assert(forall|k: int|
                                    0 <= k < cur.len() ==> #[trigger] cur[k] != (
                                    i as int,
                                    j as int,
                                ));
                            }
                        } else {
                            if crate::matrix::pattern_contains(prv, i2, j as int) {
                                let k = choose|k: int|
                                    0 <= k < prv.len() && prv[k] == (i2, j as int);
                                assert(cur[k] == (i2, j as int));
                            }
                            if crate::matrix::pattern_contains(cur, i2, j as int) {
                                let k = choose|k: int|
                                    0 <= k < cur.len() && cur[k] == (i2, j as int);
                                if k < prv.len() {
                                    assert(prv[k] == (i2, j as int));
                                } else {
                                    assert(cur[k] == (i as int, j as int));
                                }
                            }
                        }
                    }
                }
            }
            i = i + 1;
        }
        proof {
            if old(op).obeys() {
                assert forall|i2: int, j2: int|
                    0 <= i2 < nout as int && 0 <= j2 < j + 1 implies (
                crate::matrix::pattern_contains(pairs_view(out@), i2, j2) <==> old(
                    op,
                ).jac_action_model(x@, t@, basis_vec(n as int, j2))[i2] != 0) by {}
            }
        }
        j = j + 1;
    }
    out
}

/// A greedy distance-1 coloring of the columns of a sparsity pattern, with
/// the per-color index tables used to distribute probe results.
#[derive(Debug)]
pub struct JacobianColoring {
    nrows: usize,
    ncols: usize,
    groups: Vec<Vec<usize>>,
    dst_per_color: Vec<Vec<(usize, usize)>>,
    src_per_color: Vec<Indices>,
}

impl JacobianColoring {
    pub closed spec fn nrows_spec(&self) -> int {
        self.nrows as int
    }

    pub closed spec fn ncols_spec(&self) -> int {
        self.ncols as int
    }

    /// The column groups (one sequence of column indices per color).
    pub closed spec fn groups_view(&self) -> Seq<Seq<int>> {
        Seq::new(
            self.groups@.len(),
            |c: int| Seq::new(self.groups@[c]@.len(), |k: int| self.groups@[c]@[k] as int),
        )
    }

    /// The (row, col) destinations of each color.
    pub closed spec fn dsts_view(&self) -> Seq<Seq<(usize, usize)>> {
        Seq::new(self.dst_per_color@.len(), |c: int| self.dst_per_color@[c]@)
    }

    /// The source rows of each color.
    pub closed spec fn srcs_view(&self) -> Seq<Seq<int>> {
        Seq::new(self.src_per_color@.len(), |c: int| self.src_per_color@[c]@)
    }

    pub closed spec fn wf(&self) -> bool {
        &&& self.groups@.len() == self.dst_per_color@.len()
        &&& self.groups@.len() == self.src_per_color@.len()
        &&& forall|c: int|
            0 <= c < self.groups@.len() ==> strictly_ascending(#[trigger] self.groups_view()[c])
        &&& forall|c: int, k: int|
            0 <= c < self.groups@.len() && 0 <= k < self.groups_view()[c].len() ==> 0 <= (
            #[trigger] self.groups_view()[c][k]) < self.ncols as int
        &&& forall|c: int|
            0 <= c < self.groups@.len() ==> (#[trigger] self.dsts_view()[c]).len()
                == self.srcs_view()[c].len()
        &&& forall|c: int, k: int|
            0 <= c < self.groups@.len() && 0 <= k < self.dsts_view()[c].len() ==> (
            #[trigger] self.dsts_view()[c][k]).0 < self.nrows && self.dsts_view()[c][k].1
                < self.ncols
        &&& forall|c: int, k: int|
            0 <= c < self.groups@.len() && 0 <= k < self.dsts_view()[c].len()
                ==> #[trigger] self.srcs_view()[c][k] == self.dsts_view()[c][k].0 as int
    }

    /// Build a greedy distance-1 coloring from a sorted, in-bounds list of
    /// nonzero positions, and precompute the per-color index tables.
    pub fn new_from_non_zeros<C: Op>(op: &C, non_zeros: Vec<(usize, usize)>) -> (r:
        JacobianColoring)
        requires
            pattern_sorted(pairs_view(non_zeros@)),
            pattern_in_bounds(
                pairs_view(non_zeros@),
                op.nout_spec() as int,
                op.nstates_spec() as int,
            ),
        ensures
            r.wf(),
            r.nrows_spec() == op.nout_spec() as int,
            r.ncols_spec() == op.nstates_spec() as int,
            forall|c: int|
                0 <= c < r.groups_view().len() ==> #[trigger] r.dsts_view()[c] == filter_cols(
                    non_zeros@,
                    r.groups_view()[c],
                ),
            forall|c1: int, c2: int, col: int|
                0 <= c1 < r.groups_view().len() && 0 <= c2 < r.groups_view().len()
                    && #[trigger] r.groups_view()[c1].contains(col)
                    && #[trigger] r.groups_view()[c2].contains(col) ==> c1 == c2,
            forall|k: int|
                0 <= k < non_zeros@.len() ==> placed_in_some_group(
                    r.groups_view(),
                    (#[trigger] pairs_view(non_zeros@)[k]).1,
                ),
            forall|c: int, a: int, b: int, i: int|
                0 <= c < r.groups_view().len() && #[trigger] r.groups_view()[c].contains(a)
                    && #[trigger] r.groups_view()[c].contains(b) && a != b ==> !(
                #[trigger] crate::matrix::pattern_contains(pairs_view(non_zeros@), i, a)
                    && crate::matrix::pattern_contains(pairs_view(non_zeros@), i, b)),
    {
        let nr = op.nout();
        let nc = op.nstates();
        let nnz = non_zeros.len();
        let ghost nz = pairs_view(non_zeros@);
        // Phase 1: assign each column with a nonzero the lowest color whose
        // members share no row with it.
        let mut col_color: Vec<Option<usize>> = Vec::new();
        let mut ng: usize = 0;
        let mut j: usize = 0;
        while j < nc
            invariant
                j <= nc,
                nnz == non_zeros@.len(),
                nz == pairs_view(non_zeros@),
                pattern_in_bounds(nz, nr as int, nc as int),
                col_color@.len() == j,
                ng <= j,
                forall|j2: int|
                    0 <= j2 < j ==> ((#[trigger] col_color@[j2]) matches Some(c) ==> c < ng),
                forall|j2: int|
                    0 <= j2 < j ==> ((#[trigger] col_color@[j2]) is Some <==> exists|i: int|
                        crate::matrix::pattern_contains(nz, i, j2)),
                forall|a: int, b: int, i: int|
                    0 <= a < j && 0 <= b < j && a != b && #[trigger] col_color@[a] is Some
                        && col_color@[a] == #[trigger] col_color@[b] ==> !(
                    #[trigger] crate::matrix::pattern_contains(nz, i, a)
                        && crate::matrix::pattern_contains(nz, i, b)),
            decreases nc - j,
        {
            let present = col_has_nonzero(&non_zeros, j);
            if !present {
                col_color.push(None);
            } else {
                let mut chosen: usize = ng;
                let mut c: usize = 0;
                while c < ng
                    invariant
                        c <= ng,
                        chosen <= ng,
                        col_color@.len() == j,
                        nz == pairs_view(non_zeros@),
                        chosen < ng ==> !(exists|j2: int|
                            0 <= j2 < j as int && col_color@[j2] == Some(chosen)
                                && share_row_spec(nz, j2, j as int)),
                    decreases ng - c,
                {
                    if chosen == ng {
                        let cfl = color_conflicts(&non_zeros, &col_color, c, j);
                        if !cfl {
                            chosen = c;
                        }
                    }
                    c = c + 1;
                }
                let ghost ng0 = ng;
                let ghost ccv0 = col_color@;
                if chosen == ng {
                    ng = ng + 1;
                }
                col_color.push(Some(chosen));
                proof {
                    let ccv = col_color@;
                    assert(forall|x: int| 0 <= x < j as int ==> #[trigger] ccv[x] == ccv0[x]);
                    assert(ccv[j as int] == Some(chosen));
                    assert forall|a: int, b: int, i: int|
                        0 <= a < j + 1 && 0 <= b < j + 1 && a != b && #[trigger] ccv[a] is Some
                            && ccv[a] == #[trigger] ccv[b] implies !(
                    #[trigger] crate::matrix::pattern_contains(nz, i, a)
                        && crate::matrix::pattern_contains(nz, i, b)) by {
                        if a == j as int || b == j as int {
                            let o = if a == j as int {
                                b
                            } else {
                                a
                            };
                            if crate::matrix::pattern_contains(nz, i, a)
                                && crate::matrix::pattern_contains(nz, i, b) {
                                assert(ccv0[o] == Some(chosen));
                                assert(chosen < ng0);
                                assert(share_row_spec(nz, o, j as int));
                                assert(false);
                            }
                        }
                    }
                }
            }
            j = j + 1;
        }
        // Phase 2: collect the columns of each color, ascending.
        let mut groups: Vec<Vec<usize>> = Vec::new();
        let mut c: usize = 0;
        while c < ng
            invariant
                c <= ng,
                col_color@.len() == nc,
                groups@.len() == c,
                forall|c2: int, k2: int|
                    0 <= c2 < c && 0 <= k2 < groups@[c2]@.len() ==> (
                    #[trigger] groups@[c2]@[k2]) < nc && col_color@[groups@[c2]@[k2] as int]
                        == Some(c2 as usize),
                forall|c2: int, j2: int|
                    0 <= c2 < c && 0 <= j2 < nc as int && #[trigger] col_color@[j2] == Some(
                        c2 as usize,
                    ) ==> (#[trigger] groups@[c2])@.contains(j2 as usize),
                forall|c2: int, a: int, b: int|
                    0 <= c2 < c && 0 <= a < b < groups@[c2]@.len()
                        ==> #[trigger] groups@[c2]@[a] < #[trigger] groups@[c2]@[b],
            decreases ng - c,
        {
            let mut g: Vec<usize> = Vec::new();
            let mut j2: usize = 0;
            while j2 < nc
                invariant
                    j2 <= nc,
                    col_color@.len() == nc,
                    forall|k2: int|
                        0 <= k2 < g@.len() ==> (#[trigger] g@[k2]) < j2 && col_color@[g@[k2] as int]
                            == Some(c),
                    forall|jx: int|
                        0 <= jx < j2 && col_color@[jx] == Some(c) ==> g@.contains(jx as usize),
                    forall|a: int, b: int| 0 <= a < b < g@.len() ==> g@[a] < g@[b],
                decreases nc - j2,
            {
                let take = match col_color[j2] {
                    Some(cc) => cc == c,
                    None => false,
                };
                if take {
                    let ghost gprev = g@;
                    g.push(j2);
                    proof {
                        assert forall|jx: int|
                            0 <= jx < j2 + 1 && col_color@[jx] == Some(c) implies g@.contains(
                            jx as usize,
                        ) by {
                            if jx == j2 as int {
                                assert(g@[g@.len() - 1] == j2);
                            } else {
                                assert(gprev.contains(jx as usize));
                                let k2 = choose|k2: int|
                                    0 <= k2 < gprev.len() && gprev[k2] == jx as usize;
                                assert(g@[k2] == jx as usize);
                            }
                        }
                    }
                }
                j2 = j2 + 1;
            }
            groups.push(g);
            c = c + 1;
        }
        // Phase 3: per color, the (row, col) destinations and source rows.
        let mut dsts: Vec<Vec<(usize, usize)>> = Vec::new();
        let mut srcs: Vec<Indices> = Vec::new();
        let mut c3: usize = 0;
        while c3 < ng
            invariant
                c3 <= ng,
                nnz == non_zeros@.len(),
                nz == pairs_view(non_zeros@),
                pattern_in_bounds(nz, nr as int, nc as int),
                col_color@.len() == nc,
                groups@.len() == ng,
                dsts@.len() == c3,
                srcs@.len() == c3,
                forall|c2: int, k2: int|
                    0 <= c2 < ng && 0 <= k2 < groups@[c2]@.len() ==> (
                    #[trigger] groups@[c2]@[k2]) < nc && col_color@[groups@[c2]@[k2] as int]
                        == Some(c2 as usize),
                forall|c2: int, j2: int|
                    0 <= c2 < ng && 0 <= j2 < nc as int && #[trigger] col_color@[j2] == Some(
                        c2 as usize,
                    ) ==> (#[trigger] groups@[c2])@.contains(j2 as usize),
                forall|c2: int|
                    0 <= c2 < c3 ==> #[trigger] dsts@[c2]@ == filter_cols(
                        non_zeros@,
                        group_int_view(groups@[c2]@),
                    ),
                forall|c2: int, k2: int|
                    0 <= c2 < c3 && 0 <= k2 < dsts@[c2]@.len() ==> (#[trigger] dsts@[c2]@[k2]).0
                        < nr && dsts@[c2]@[k2].1 < nc,
                forall|c2: int|
                    0 <= c2 < c3 ==> (#[trigger] srcs@[c2])@.len() == dsts@[c2]@.len(),
                forall|c2: int, k2: int|
                    0 <= c2 < c3 && 0 <= k2 < srcs@[c2]@.len() ==> #[trigger] srcs@[c2]@[k2]
                        == dsts@[c2]@[k2].0 as int,
            decreases ng - c3,
        {
            let ghost gc = group_int_view(groups@[c3 as int]@);
            let mut d: Vec<(usize, usize)> = Vec::new();
            let mut si = Indices::empty();
            let mut k: usize = 0;
            while k < nnz
                invariant
                    k <= nnz,
                    c3 < ng,
                    nnz == non_zeros@.len(),
                    nz == pairs_view(non_zeros@),
                    pattern_in_bounds(nz, nr as int, nc as int),
                    col_color@.len() == nc,
                    groups@.len() == ng,
                    gc == group_int_view(groups@[c3 as int]@),
                    forall|c2: int, k2: int|
                        0 <= c2 < ng && 0 <= k2 < groups@[c2]@.len() ==> (
                        #[trigger] groups@[c2]@[k2]) < nc && col_color@[groups@[c2]@[k2] as int]
                            == Some(c2 as usize),
                    forall|c2: int, j2: int|
                        0 <= c2 < ng && 0 <= j2 < nc as int && #[trigger] col_color@[j2] == Some(
                            c2 as usize,
                        ) ==> (#[trigger] groups@[c2])@.contains(j2 as usize),
                    d@ == filter_cols(non_zeros@.subrange(0, k as int), gc),
                    forall|k2: int|
                        0 <= k2 < d@.len() ==> (#[trigger] d@[k2]).0 < nr && d@[k2].1 < nc,
                    si@.len() == d@.len(),
                    forall|k2: int| 0 <= k2 < si@.len() ==> #[trigger] si@[k2] == d@[k2].0 as int,
                decreases nnz - k,
            {
                let (ei, ej) = non_zeros[k];
                proof {
                    assert(non_zeros@[k as int] == (ei, ej));
                    assert(nz[k as int] == (ei as int, ej as int));
                }
                let take = match col_color[ej] {
                    Some(cc) => cc == c3,
                    None => false,
                };
                proof {
                    if take {
                        assert(groups@[c3 as int]@.contains(ej));
                        let k2 = choose|k2: int|
                            0 <= k2 < groups@[c3 as int]@.len() && groups@[c3 as int]@[k2] == ej;
                        assert(gc[k2] == ej as int);
                        assert(gc.contains(ej as int));
                    } else {
                        if gc.contains(ej as int) {
                            let k2 = choose|k2: int| 0 <= k2 < gc.len() && gc[k2] == ej as int;
                            assert(groups@[c3 as int]@[k2] == ej);
                            assert(col_color@[ej as int] == Some(c3));
                        }
                    }
                    let sub1 = non_zeros@.subrange(0, k + 1);
                    assert(sub1.drop_last() =~= non_zeros@.subrange(0, k as int));
                    assert(sub1.last() == non_zeros@[k as int]);
                }
                if take {
                    d.push((ei, ej));
                    si.push(ei);
                }
                k = k + 1;
            }
            proof {
                assert(non_zeros@.subrange(0, nnz as int) =~= non_zeros@);
            }
            dsts.push(d);
            srcs.push(si);
            c3 = c3 + 1;
        }
        let ghost gseq = groups@;
        let ghost dseq = dsts@;
        let ghost sseq = srcs@;
        let r = JacobianColoring {
            nrows: nr,
            ncols: nc,
            groups,
            dst_per_color: dsts,
            src_per_color: srcs,
        };
        proof {
            let gw = r.groups_view();
            assert(r.groups@ == gseq);
            assert(r.dst_per_color@ == dseq);
            assert(r.src_per_color@ == sseq);
            assert(gw.len() == ng as int);
            assert forall|c2: int| 0 <= c2 < ng as int implies #[trigger] gw[c2]
                == group_int_view(gseq[c2]@) by {
                assert(gw[c2] =~= group_int_view(gseq[c2]@));
            }
            assert forall|c2: int| 0 <= c2 < ng as int implies #[trigger] r.dsts_view()[c2]
                == filter_cols(non_zeros@, gw[c2]) by {
                assert(r.dsts_view()[c2] == dseq[c2]@);
            }
            assert forall|c2: int, col: int|
                0 <= c2 < ng as int && #[trigger] gw[c2].contains(col) implies 0 <= col
                    < nc as int && col_color@[col] == Some(c2 as usize) by {
                let k2 = choose|k2: int| 0 <= k2 < gw[c2].len() && gw[c2][k2] == col;
                assert(gseq[c2]@[k2] as int == col);
            }
            assert forall|k: int| 0 <= k < non_zeros@.len() implies placed_in_some_group(
                r.groups_view(),
                (#[trigger] pairs_view(non_zeros@)[k]).1,
            ) by {
                let e = pairs_view(non_zeros@)[k];
                assert(crate::matrix::pattern_contains(nz, e.0, e.1));
                assert(col_color@[e.1] is Some);
                let cx = col_color@[e.1]->0;
                assert(gseq[cx as int]@.contains(e.1 as usize));
                let k2 = choose|k2: int|
                    0 <= k2 < gseq[cx as int]@.len() && gseq[cx as int]@[k2] == e.1 as usize;
                assert(gw[cx as int][k2] == e.1);
                assert(gw[cx as int].contains(e.1));
                assert((cx as int) < r.groups_view().len());
                assert(r.groups_view()[cx as int].contains((pairs_view(non_zeros@)[k]).1));
            }
            assert forall|c2: int, a: int, b: int, i: int|
                0 <= c2 < gw.len() && #[trigger] gw[c2].contains(a) && #[trigger] gw[c2].contains(
                    b,
                ) && a != b implies !(#[trigger] crate::matrix::pattern_contains(nz, i, a)
                && crate::matrix::pattern_contains(nz, i, b)) by {
                assert(col_color@[a] == Some(c2 as usize));
                assert(col_color@[b] == Some(c2 as usize));
            }
            assert forall|c2: int|
                0 <= c2 < gseq.len() implies strictly_ascending(#[trigger] gw[c2]) by {}
        }
        r
    }

    /// Materialize the Jacobian of `op` at `(x, t)` into `y`: one Jacobian
    /// action per color, distributed through the precomputed index tables.
    /// Positions outside the tables are never written.
    pub fn jacobian_inplace<C: NonLinearOp>(&self, op: &mut C, x: &Vector, t: Fixed, y: &mut Matrix)
        requires
            self.wf(),
            x@.len() == old(op).nstates_spec(),
            old(op).nstates_spec() as int == self.ncols_spec(),
            old(op).nout_spec() as int == self.nrows_spec(),
            old(y).wf(),
            old(y).nrows_spec() == self.nrows_spec(),
            old(y).ncols_spec() == self.ncols_spec(),
            match old(y).sparsity_spec() {
                Some(p) => forall|c: int, k: int|
                    0 <= c < self.dsts_view().len() && 0 <= k < self.dsts_view()[c].len()
                        ==> crate::matrix::pattern_contains(
                        p@,
                        (#[trigger] self.dsts_view()[c][k]).0 as int,
                        self.dsts_view()[c][k].1 as int,
                    ),
                None => true,
            },
        ensures
            same_op_shape(*old(op), *final(op)),
            final(op).obeys() == old(op).obeys(),
            forall|x2: Seq<int>, t2: int| #[trigger] final(op).call_model(x2, t2) == old(
                op,
            ).call_model(x2, t2),
            forall|x2: Seq<int>, t2: int, v2: Seq<int>| #[trigger] final(op).jac_action_model(
                x2,
                t2,
                v2,
            ) == old(op).jac_action_model(x2, t2, v2),
            forall|y2: Seq<Seq<int> >, x2: Seq<int>, t2: int| #[trigger] final(op).jac_write_model(
                y2,
                x2,
                t2,
            ) == old(op).jac_write_model(y2, x2, t2),
            stats_le(old(op).stats_spec(), final(op).stats_spec()),
            final(op).stats_spec().number_of_calls == old(op).stats_spec().number_of_calls,
            final(y).wf(),
            final(y).nrows_spec() == old(y).nrows_spec(),
            final(y).ncols_spec() == old(y).ncols_spec(),
            final(y).sparsity_spec() == old(y).sparsity_spec(),
            old(op).obeys() ==> final(y)@ == coloring_apply(
                old(y)@,
                self.dsts_view(),
                self.srcs_view(),
                Seq::new(
                    self.groups_view().len(),
                    |cx: int| old(op).jac_action_model(
                        x@,
                        t@,
                        probe_vec_of(self.groups_view()[cx], self.ncols_spec()),
                    ),
                ),
                self.groups_view().len() as int,
            ),
            forall|i: int, jj: int|
                0 <= i < self.nrows_spec() && 0 <= jj < self.ncols_spec() && !tables_contain(
                    self.dsts_view(),
                    i,
                    jj,
                ) ==> final(y)@[jj][i] == old(y)@[jj][i],
    {
        let ng = self.groups.len();
        let n = op.nstates();
        let ghost probes = Seq::new(
            self.groups_view().len(),
            |cx: int| old(op).jac_action_model(
                x@,
                t@,
                probe_vec_of(self.groups_view()[cx], self.ncols_spec()),
            ),
        );
        let mut c: usize = 0;
        while c < ng
            invariant
                c <= ng,
                ng == self.groups_view().len(),
                self.wf(),
                n == op.nstates_spec(),
                x@.len() == n,
                op.nstates_spec() as int == self.ncols_spec(),
                op.nout_spec() as int == self.nrows_spec(),
                same_op_shape(*old(op), *op),
                op.obeys() == old(op).obeys(),
                forall|x2: Seq<int>, t2: int| #[trigger] op.call_model(x2, t2) == old(
                    op,
                ).call_model(x2, t2),
                forall|x2: Seq<int>, t2: int, v2: Seq<int>| #[trigger] op.jac_action_model(
                    x2,
                    t2,
                    v2,
                ) == old(op).jac_action_model(x2, t2, v2),
                forall|y2: Seq<Seq<int> >, x2: Seq<int>, t2: int| #[trigger] op.jac_write_model(
                    y2,
                    x2,
                    t2,
                ) == old(op).jac_write_model(y2, x2, t2),
                stats_le(old(op).stats_spec(), op.stats_spec()),
                op.stats_spec().number_of_calls == old(op).stats_spec().number_of_calls,
                y.wf(),
                y.nrows_spec() == old(y).nrows_spec(),
                y.ncols_spec() == old(y).ncols_spec(),
                y.sparsity_spec() == old(y).sparsity_spec(),
                probes == Seq::new(
                    self.groups_view().len(),
                    |cx: int| old(op).jac_action_model(
                        x@,
                        t@,
                        probe_vec_of(self.groups_view()[cx], self.ncols_spec()),
                    ),
                ),
                old(op).obeys() ==> y@ == coloring_apply(
                    old(y)@,
                    self.dsts_view(),
                    self.srcs_view(),
                    probes,
                    c as int,
                ),
                forall|i: int, jj: int|
                    0 <= i < self.nrows_spec() && 0 <= jj < self.ncols_spec() && !tables_contain(
                        self.dsts_view(),
                        i,
                        jj,
                    ) ==> y@[jj][i] == old(y)@[jj][i],
            decreases ng - c,
        {
            let g = &self.groups[c];
            let ghost gc = self.groups_view()[c as int];
            proof {
                assert(gc =~= group_int_view(g@));
            }
            let gl = g.len();
            let mut v = Vector::zeros(n);
            let mut k: usize = 0;
            while k < gl
                invariant
                    k <= gl,
                    gl == g@.len(),
                    g@ == self.groups@[c as int]@,
                    c < ng,
                    ng == self.groups_view().len(),
                    self.wf(),
                    gc == self.groups_view()[c as int],
                    gc =~= group_int_view(g@),
                    v@.len() == n,
                    n as int == self.ncols_spec(),
                    forall|kk: int|
                        0 <= kk < n as int ==> #[trigger] v@[kk] == (if exists|k2: int|
                            0 <= k2 < k as int && gc[k2] == kk {
                            FIX_SCALE as int
                        } else {
                            0int
                        }),
                decreases gl - k,
            {
                let col = g[k];
                proof {
                    assert(gc[k as int] == col as int);
                    assert(0 <= gc[k as int] < self.ncols_spec());
                }
                let ghost vprev = v@;
                v.set(col, Fixed::one());
                proof {
                    assert forall|kk: int|
                        0 <= kk < n as int implies #[trigger] v@[kk] == (if exists|k2: int|
                            0 <= k2 < k + 1 && gc[k2] == kk {
                            FIX_SCALE as int
                        } else {
                            0int
                        }) by {
                        if kk == col as int {
                            assert(gc[k as int] == kk);
                        } else {
                            assert(v@[kk] == vprev[kk]);
                            if exists|k2: int| 0 <= k2 < k + 1 && gc[k2] == kk {
                                let k2 = choose|k2: int| 0 <= k2 < k + 1 && gc[k2] == kk;
                                assert(k2 < k as int);
                            }
                        }
                    }
                }
                k = k + 1;
            }
            proof {
                assert forall|kk: int|
                    0 <= kk < n as int implies v@[kk] == probe_vec_of(gc, n as int)[kk] by {
                    if gc.contains(kk) {
                        let k2 = choose|k2: int| 0 <= k2 < gc.len() && gc[k2] == kk;
                        assert(exists|k3: int| 0 <= k3 < gl as int && gc[k3] == kk);
                    } else {
                        if exists|k2: int| 0 <= k2 < gl as int && gc[k2] == kk {
                            let k2 = choose|k2: int| 0 <= k2 < gl as int && gc[k2] == kk;
                            assert(gc.contains(kk));
                        }
                    }
                }
                assert(v@ =~= probe_vec_of(gc, n as int));
            }
            let w = op.jac_mul(x, t, &v);
            proof {
                y.lemma_wf();
            }
            let ghost yprev = y@;
            let d = &self.dst_per_color[c];
            let si = &self.src_per_color[c];
            proof {
                assert(d@ == self.dsts_view()[c as int]);
                assert(si@ == self.srcs_view()[c as int]);
                assert forall|k2: int| 0 <= k2 < si@.len() implies 0 <= #[trigger] si@[k2]
                    < w@.len() by {
                    assert(si@[k2] == self.dsts_view()[c as int][k2].0 as int);
                }
            }
            y.set_data_with_indices(d, si, &w);
            proof {
                if old(op).obeys() {
                    assert(w@ == probes[c as int]);
                    assert(y@ == coloring_apply(
                        old(y)@,
                        self.dsts_view(),
                        self.srcs_view(),
                        probes,
                        c + 1,
                    ));
                }
                assert forall|i: int, jj: int|
                    0 <= i < self.nrows_spec() && 0 <= jj < self.ncols_spec() && !tables_contain(
                        self.dsts_view(),
                        i,
                        jj,
                    ) implies y@[jj][i] == old(y)@[jj][i] by {
                    assert forall|k2: int|
                        0 <= k2 < d@.len() implies !((#[trigger] d@[k2]).0 as int == i
                            && d@[k2].1 as int == jj) by {
                        if (d@[k2]).0 as int == i && d@[k2].1 as int == jj {
                            assert(self.dsts_view()[c as int][k2] == d@[k2]);
                            assert(tables_contain(self.dsts_view(), i, jj));
                        }
                    }
                    assert forall|k2: int|
                        0 <= k2 < d@.len() implies ((#[trigger] d@[k2]).1 as int) < yprev.len()
                            && (d@[k2].0 as int) < yprev[d@[k2].1 as int].len() by {
                        assert(self.dsts_view()[c as int][k2] == d@[k2]);
                    }
                    lemma_apply_pairs_frame(yprev, d@, si@, w@, d@.len() as int, i, jj);
                    assert(y@[jj][i] == yprev[jj][i]);
                }
            }
            c = c + 1;
        }
    }

    /// What well-formedness gives about the views.
    pub proof fn lemma_coloring_wf(&self)
        requires
            self.wf(),
        ensures
            self.groups_view().len() == self.dsts_view().len(),
            self.groups_view().len() == self.srcs_view().len(),
            forall|cx: int|
                0 <= cx < self.groups_view().len() ==> strictly_ascending(
                    #[trigger] self.groups_view()[cx],
                ),
            forall|cx: int, k: int|
                0 <= cx < self.groups_view().len() && 0 <= k < self.groups_view()[cx].len() ==> 0
                    <= (#[trigger] self.groups_view()[cx][k]) < self.ncols_spec(),
            forall|cx: int|
                0 <= cx < self.groups_view().len() ==> (#[trigger] self.dsts_view()[cx]).len()
                    == self.srcs_view()[cx].len(),
            forall|cx: int, k: int|
                0 <= cx < self.groups_view().len() && 0 <= k < self.dsts_view()[cx].len() ==> ((
                #[trigger] self.dsts_view()[cx][k]).0 as int) < self.nrows_spec() && (
                self.dsts_view()[cx][k].1 as int) < self.ncols_spec(),
            forall|cx: int, k: int|
                0 <= cx < self.groups_view().len() && 0 <= k < self.dsts_view()[cx].len()
                    ==> #[trigger] self.srcs_view()[cx][k] == self.dsts_view()[cx][k].0 as int,
    {
    }

    /// The columns of color `c`, borrowed.
    pub fn group_ref(&self, c: usize) -> (r: &Vec<usize>)
        requires
            c < self.groups_view().len(),
        ensures
            group_int_view(r@) == self.groups_view()[c as int],
    {
        proof {
            assert(group_int_view(self.groups@[c as int]@) =~= self.groups_view()[c as int]);
        }
        &self.groups[c]
    }

    /// The (row, col) destinations of color `c`, borrowed.
    pub fn dst_table(&self, c: usize) -> (r: &Vec<(usize, usize)>)
        requires
            c < self.dsts_view().len(),
        ensures
            r@ == self.dsts_view()[c as int],
    {
        &self.dst_per_color[c]
    }

    /// The source rows of color `c`, borrowed.
    pub fn src_table(&self, c: usize) -> (r: &crate::vector::Indices)
        requires
            c < self.srcs_view().len(),
        ensures
            r@ == self.srcs_view()[c as int],
    {
        &self.src_per_color[c]
    }

    /// Number of colors.
    pub fn ngroups(&self) -> (r: usize)
        ensures
            r == self.groups_view().len(),
    {
        self.groups.len()
    }

    /// The columns of color `c`.
    pub fn group(&self, c: usize) -> (r: Vec<usize>)
        requires
            c < self.groups_view().len(),
        ensures
            r@.len() == self.groups_view()[c as int].len(),
            forall|k: int| 0 <= k < r@.len() ==> r@[k] as int == self.groups_view()[c as int][k],
    {
        let g = &self.groups[c];
        let n = g.len();
        let mut out: Vec<usize> = Vec::new();
        let mut k: usize = 0;
        while k < n
            invariant
                k <= n,
                n == g@.len(),
                g@ == self.groups@[c as int]@,
                out@.len() == k,
                forall|k2: int| 0 <= k2 < k ==> out@[k2] == g@[k2],
            decreases n - k,
        {
            out.push(g[k]);
            k = k + 1;
        }
        out
    }
}

} // verus!
