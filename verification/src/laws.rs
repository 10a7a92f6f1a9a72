//! Cross-cutting laws of the library, stated and proved over the spec-level
//! models that the operation contracts use.
use vstd::prelude::*;

use crate::matrix::{
    apply_triplets, col_trips_prefix, gemv_fx, lemma_row_dot_in_range, mat_trips,
    mat_trips_prefix, row_dot, row_dot_prefix, zeros_mat,
};
use crate::op::filter::{gather_seq, scatter_seq};
use crate::scalar::{add_fx, clip, lemma_mul_fx_one, lemma_mul_fx_zero, mul_fx, FIX_SCALE};
use crate::vector::{indices_in_bounds, strictly_ascending};

verus! {

/// GEMV with coefficient one and accumulator zero computes exactly the
/// fixed-point matrix-vector product: for every row, the result is the dot
/// product of that row with the input.
pub proof fn lemma_gemv_identity_scaling(m: Seq<Seq<int>>, x: Seq<int>, y: Seq<int>)
    ensures
        forall|i: int|
            0 <= i < y.len() ==> #[trigger] gemv_fx(m, x, FIX_SCALE as int, 0, y)[i] == row_dot(
                m,
                x,
                i,
            ),
{
    assert forall|i: int|
        0 <= i < y.len() implies #[trigger] gemv_fx(m, x, FIX_SCALE as int, 0, y)[i] == row_dot(
        m,
        x,
        i,
    ) by {
        lemma_row_dot_in_range(m, x, i);
        lemma_mul_fx_one(row_dot(m, x, i));
        lemma_mul_fx_zero(y[i]);
        assert(gemv_fx(m, x, FIX_SCALE as int, 0, y)[i] == add_fx(row_dot(m, x, i), 0));
        assert(add_fx(row_dot(m, x, i), 0) == clip(row_dot(m, x, i)));
    }
}

/// Scattering the gathered components back through the same valid index
/// set is the identity: `scatter(filter(v, I), I)` leaves `v` unchanged on
/// every position, inside and outside `I`.
pub proof fn lemma_scatter_filter_identity(v: Seq<int>, idx: Seq<int>)
    requires
        strictly_ascending(idx),
        indices_in_bounds(idx, v.len() as int),
    ensures
        scatter_seq(v, idx, gather_seq(v, idx)) == v,
{
    assert forall|i: int|
        0 <= i < v.len() implies scatter_seq(v, idx, gather_seq(v, idx))[i] == v[i] by {
        if idx.contains(i) {
            let k = idx.index_of(i);
            assert(0 <= k < idx.len() && idx[k] == i);
            assert(gather_seq(v, idx)[k] == v[idx[k]]);
        }
    }
    assert(scatter_seq(v, idx, gather_seq(v, idx)) =~= v);
}

/// Applying a prefix only reads that prefix.
proof fn lemma_apply_prefix_concat(
    m0: Seq<Seq<int>>,
    a: Seq<(int, int, int)>,
    b: Seq<(int, int, int)>,
    k: int,
)
    requires
        0 <= k <= a.len(),
    ensures
        apply_triplets(m0, a + b, k) == apply_triplets(m0, a, k),
    decreases k,
{
    if k > 0 {
        lemma_apply_prefix_concat(m0, a, b, k - 1);
        assert((a + b)[k - 1] == a[k - 1]);
    }
}

/// Applying a concatenation applies the parts in order.
proof fn lemma_apply_concat(
    m0: Seq<Seq<int>>,
    a: Seq<(int, int, int)>,
    b: Seq<(int, int, int)>,
    k: int,
)
    requires
        0 <= k <= b.len(),
    ensures
        apply_triplets(m0, a + b, a.len() + k) == apply_triplets(
            apply_triplets(m0, a, a.len() as int),
            b,
            k,
        ),
    decreases k,
{
    if k == 0 {
        lemma_apply_prefix_concat(m0, a, b, a.len() as int);
    } else {
        lemma_apply_concat(m0, a, b, k - 1);
        assert((a + b)[a.len() + k - 1] == b[k - 1]);
    }
}

/// The column prefix list has one triplet per row.
proof fn lemma_col_trips_len(col: Seq<int>, j: int, i: int)
    requires
        i >= 0,
    ensures
        col_trips_prefix(col, j, i).len() == i,
    decreases i,
{
    if i > 0 {
        lemma_col_trips_len(col, j, i - 1);
    }
}

/// A column overwritten on its first `i` rows.
spec fn overwrite_prefix(base: Seq<int>, col: Seq<int>, i: int) -> Seq<int> {
    Seq::new(
        base.len(),
        |r: int|
            if r < i {
                col[r]
            } else {
                base[r]
            },
    )
}

/// Applying to a longer list a number of steps only reads that many.
proof fn lemma_apply_push_stable(
    m0: Seq<Seq<int>>,
    ts: Seq<(int, int, int)>,
    t: (int, int, int),
    k: int,
)
    requires
        0 <= k <= ts.len(),
    ensures
        apply_triplets(m0, ts.push(t), k) == apply_triplets(m0, ts, k),
    decreases k,
{
    if k > 0 {
        lemma_apply_push_stable(m0, ts, t, k - 1);
        assert(ts.push(t)[k - 1] == ts[k - 1]);
    }
}

/// Applying the triplets of one column overwrites exactly that column.
proof fn lemma_apply_col(m0: Seq<Seq<int>>, col: Seq<int>, j: int, i: int)
    requires
        0 <= j < m0.len(),
        0 <= i <= col.len(),
        col.len() == m0[j].len(),
    ensures
        apply_triplets(m0, col_trips_prefix(col, j, i), i) == m0.update(
            j,
            overwrite_prefix(m0[j], col, i),
        ),
    decreases i,
{
    lemma_col_trips_len(col, j, i);
    if i == 0 {
        assert(overwrite_prefix(m0[j], col, 0) =~= m0[j]);
        assert(m0.update(j, overwrite_prefix(m0[j], col, 0)) =~= m0);
    } else {
        lemma_apply_col(m0, col, j, i - 1);
        lemma_col_trips_len(col, j, i - 1);
        let tsp = col_trips_prefix(col, j, i - 1);
        let t = (i - 1, j, col[i - 1]);
        assert(col_trips_prefix(col, j, i) == tsp.push(t));
        lemma_apply_push_stable(m0, tsp, t, i - 1);
        let prev = apply_triplets(m0, col_trips_prefix(col, j, i), i - 1);
        assert(prev == m0.update(j, overwrite_prefix(m0[j], col, i - 1)));
        assert(col_trips_prefix(col, j, i)[i - 1] == t);
        let nxt = prev.update(j, prev[j].update(i - 1, col[i - 1]));
        assert(apply_triplets(m0, col_trips_prefix(col, j, i), i) == nxt);
        assert(prev[j] == overwrite_prefix(m0[j], col, i - 1));
        assert(prev[j].update(i - 1, col[i - 1]) =~= overwrite_prefix(m0[j], col, i));
        assert(nxt =~= m0.update(j, overwrite_prefix(m0[j], col, i)));
    }
}

/// The matrix rebuilt from the triplets of its first `jj` columns: those
/// columns restored, the rest still zero.
spec fn rebuilt_prefix(m: Seq<Seq<int>>, nrows: int, jj: int) -> Seq<Seq<int>> {
    Seq::new(
        m.len(),
        |j: int|
            if j < jj {
                m[j]
            } else {
                Seq::new(nrows as nat, |i: int| 0int)
            },
    )
}

proof fn lemma_apply_mat_prefix(m: Seq<Seq<int>>, nrows: int, jj: int)
    requires
        nrows >= 0,
        forall|j: int| 0 <= j < m.len() ==> (#[trigger] m[j]).len() == nrows,
        0 <= jj <= m.len(),
    ensures
        apply_triplets(
            zeros_mat(nrows, m.len() as int),
            mat_trips_prefix(m, nrows, jj),
            mat_trips_prefix(m, nrows, jj).len() as int,
        ) == rebuilt_prefix(m, nrows, jj),
    decreases jj,
{
    let z = zeros_mat(nrows, m.len() as int);
    if jj == 0 {
        assert(mat_trips_prefix(m, nrows, 0) == Seq::<(int, int, int)>::empty());
        assert(apply_triplets(z, mat_trips_prefix(m, nrows, 0), 0) == z);
        assert(z =~= rebuilt_prefix(m, nrows, 0));
    } else {
        lemma_apply_mat_prefix(m, nrows, jj - 1);
        let a = mat_trips_prefix(m, nrows, jj - 1);
        let b = col_trips_prefix(m[jj - 1], jj - 1, nrows);
        lemma_col_trips_len(m[jj - 1], jj - 1, nrows);
        assert(mat_trips_prefix(m, nrows, jj) == a + b);
        lemma_apply_concat(z, a, b, nrows);
        let mid = apply_triplets(z, a, a.len() as int);
        assert(mid == rebuilt_prefix(m, nrows, jj - 1));
        lemma_apply_col(mid, m[jj - 1], jj - 1, nrows);
        assert(apply_triplets(z, a + b, a.len() + nrows) == mid.update(
            jj - 1,
            overwrite_prefix(mid[jj - 1], m[jj - 1], nrows),
        ));
        assert(overwrite_prefix(mid[jj - 1], m[jj - 1], nrows) =~= m[jj - 1]);
        assert(mid.update(jj - 1, overwrite_prefix(mid[jj - 1], m[jj - 1], nrows))
            =~= rebuilt_prefix(m, nrows, jj));
        assert((a + b).len() == a.len() + nrows);
    }
}

/// Rebuilding a matrix from its own triplet enumeration restores it
/// exactly: `from_triplets(shape, triplets_of(M))` yields `M`.
pub proof fn lemma_from_triplets_roundtrip(m: Seq<Seq<int>>, nrows: int)
    requires
        nrows >= 0,
        forall|j: int| 0 <= j < m.len() ==> (#[trigger] m[j]).len() == nrows,
    ensures
        apply_triplets(
            zeros_mat(nrows, m.len() as int),
            mat_trips(m, nrows),
            mat_trips(m, nrows).len() as int,
        ) == m,
{
    lemma_apply_mat_prefix(m, nrows, m.len() as int);
    assert(rebuilt_prefix(m, nrows, m.len() as int) =~= m);
}

} // verus!
