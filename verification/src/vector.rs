//! Dense vectors of scalars with BLAS-1 style operations, and ordered index
//! lists used by the filter / scatter pair.  Every operation is specified
//! elementwise over the fixed-point spec functions, so callers know exactly
//! which rounded value each component holds.
use vstd::prelude::*;

use crate::scalar::{abs_fx, add_fx, div_fx, fx_in_range, mul_fx, sub_fx, sqrt_fx, Fixed};

verus! {

/// Elementwise admissible-range predicate on a mathematical vector.
pub open spec fn seq_in_range(s: Seq<int>) -> bool {
    forall|i: int| 0 <= i < s.len() ==> fx_in_range(#[trigger] s[i])
}

/// Strictly ascending index sequence: all positions distinct and ordered.
pub open spec fn strictly_ascending(s: Seq<int>) -> bool {
    forall|a: int, b: int| 0 <= a < b < s.len() ==> #[trigger] s[a] < #[trigger] s[b]
}

/// All indices valid for a vector of length `n`.
pub open spec fn indices_in_bounds(s: Seq<int>, n: int) -> bool {
    forall|k: int| 0 <= k < s.len() ==> 0 <= #[trigger] s[k] < n
}

/// Two strictly ascending index lists with the same members are equal.
pub proof fn lemma_ascending_same_members(a: Seq<int>, b: Seq<int>)
    requires
        strictly_ascending(a),
        strictly_ascending(b),
        forall|x: int| a.contains(x) <==> b.contains(x),
    ensures
        a == b,
    decreases a.len(),
{
    if a.len() == 0 {
        if b.len() > 0 {
            assert(b.contains(b[0]));
            assert(a.contains(b[0]));
            let k = choose|k: int| 0 <= k < a.len() && a[k] == b[0];
            assert(false);
        }
        assert(a =~= b);
    } else {
        assert(a.contains(a[0]));
        assert(b.contains(a[0]));
        let kb = choose|kb: int| 0 <= kb < b.len() && b[kb] == a[0];
        assert(b[0] <= a[0]) by {
            if kb > 0 {
                assert(b[0] < b[kb]);
            }
        }
        assert(b.contains(b[0]));
        assert(a.contains(b[0]));
        let ka = choose|ka: int| 0 <= ka < a.len() && a[ka] == b[0];
        assert(a[0] <= b[0]) by {
            if ka > 0 {
                assert(a[0] < a[ka]);
            }
        }
        assert(a[0] == b[0]);
        let at = a.subrange(1, a.len() as int);
        let bt = b.subrange(1, b.len() as int);
        assert(strictly_ascending(at)) by {
            assert forall|i: int, j: int| 0 <= i < j < at.len() implies #[trigger] at[i]
                < #[trigger] at[j] by {
                assert(at[i] == a[i + 1] && at[j] == a[j + 1]);
            }
        }
        assert(strictly_ascending(bt)) by {
            assert forall|i: int, j: int| 0 <= i < j < bt.len() implies #[trigger] bt[i]
                < #[trigger] bt[j] by {
                assert(bt[i] == b[i + 1] && bt[j] == b[j + 1]);
            }
        }
        assert forall|x: int| at.contains(x) <==> bt.contains(x) by {
            if at.contains(x) {
                let k = choose|k: int| 0 <= k < at.len() && at[k] == x;
                assert(a[k + 1] == x);
                assert(a.contains(x));
                assert(x > a[0]);
                assert(b.contains(x));
                let k2 = choose|k2: int| 0 <= k2 < b.len() && b[k2] == x;
                assert(k2 > 0) by {
                    if k2 == 0 {
                        assert(b[0] == x && b[0] == a[0]);
                    }
                }
                assert(bt[k2 - 1] == x);
                assert(bt.contains(x));
            }
            if bt.contains(x) {
                let k = choose|k: int| 0 <= k < bt.len() && bt[k] == x;
                assert(b[k + 1] == x);
                assert(b.contains(x));
                assert(x > b[0]);
                assert(a.contains(x));
                let k2 = choose|k2: int| 0 <= k2 < a.len() && a[k2] == x;
                assert(k2 > 0) by {
                    if k2 == 0 {
                        assert(a[0] == x && a[0] == b[0]);
                    }
                }
                assert(at[k2 - 1] == x);
                assert(at.contains(x));
            }
        }
        lemma_ascending_same_members(at, bt);
        assert(a =~= b) by {
            assert forall|i: int| 0 <= i < a.len() implies a[i] == b[i] by {
                if i > 0 {
                    assert(at[i - 1] == bt[i - 1]);
                }
            }
        }
    }
}

/// Partial sum of squares of the first `k` components, in fixed-point
/// arithmetic (the accumulation order the executable code uses).
pub open spec fn sumsq_prefix(s: Seq<int>, k: int) -> int
    decreases k,
{
    if k <= 0 {
        0
    } else {
        add_fx(sumsq_prefix(s, k - 1), mul_fx(s[k - 1], s[k - 1]))
    }
}

/// The 2-norm as computed: fixed-point square root of the clipped sum of
/// squares.
pub open spec fn norm_fx(s: Seq<int>) -> int {
    sqrt_fx(sumsq_prefix(s, s.len() as int))
}

/// An ordered sequence of unsigned positions into a vector.
#[derive(Debug)]
pub struct Indices {
    data: Vec<usize>,
}

impl View for Indices {
    type V = Seq<int>;

    closed spec fn view(&self) -> Seq<int> {
        Seq::new(self.data@.len(), |i: int| self.data@[i] as int)
    }
}

impl Indices {
    pub fn from_vec(data: Vec<usize>) -> (r: Indices)
        ensures
            r@.len() == data@.len(),
            forall|k: int| 0 <= k < data@.len() ==> r@[k] == data@[k] as int,
    {
        Indices { data }
    }

    pub fn empty() -> (r: Indices)
        ensures
            r@.len() == 0,
    {
        Indices { data: Vec::new() }
    }

    pub fn len(&self) -> (r: usize)
        ensures
            r == self@.len(),
    {
        self.data.len()
    }

    pub fn get(&self, k: usize) -> (r: usize)
        requires
            k < self@.len(),
        ensures
            r as int == self@[k as int],
    {
        self.data[k]
    }

    pub fn push(&mut self, i: usize)
        ensures
            final(self)@ == old(self)@.push(i as int),
    {
        self.data.push(i);
        proof {
            assert(self@ =~= old(self)@.push(i as int));
        }
    }

    /// A fresh copy of this index list.
    pub fn duplicate(&self) -> (r: Indices)
        ensures
            r@ == self@,
    {
        let n = self.data.len();
        let mut out: Vec<usize> = Vec::new();
        let mut k: usize = 0;
        while k < n
            invariant
                k <= n,
                out@.len() == k,
                forall|i: int| 0 <= i < k ==> out@[i] == self.data@[i],
            decreases n - k,
        {
            out.push(self.data[k]);
            k = k + 1;
        }
        let r = Indices { data: out };
        proof {
            assert(r@ =~= self@);
        }
        r
    }
}

/// A dense vector of scalars of fixed length.
#[derive(Debug)]
pub struct Vector {
    data: Vec<Fixed>,
}

impl View for Vector {
    type V = Seq<int>;

    closed spec fn view(&self) -> Seq<int> {
        Seq::new(self.data@.len(), |i: int| self.data@[i]@)
    }
}

impl Clone for Vector {
    fn clone(&self) -> (r: Self)
        ensures
            r@ == self@,
    {
        let n = self.data.len();
        let mut out: Vec<Fixed> = Vec::new();
        let mut k: usize = 0;
        while k < n
            invariant
                k <= n,
                out@.len() == k,
                forall|i: int| 0 <= i < k ==> out@[i]@ == self@[i],
            decreases n - k,
        {
            out.push(self.data[k]);
            k = k + 1;
        }
        let r = Vector { data: out };
        proof {
            assert(r@ =~= self@);
        }
        r
    }
}

impl Vector {
    /// The all-zero vector of length `n`.
    pub fn zeros(n: usize) -> (r: Vector)
        ensures
            r@.len() == n,
            forall|i: int| 0 <= i < n ==> r@[i] == 0,
    {
        Vector::from_element(n, Fixed::zero())
    }

    /// A vector with every component equal to `v`.
    pub fn from_element(n: usize, v: Fixed) -> (r: Vector)
        ensures
            r@.len() == n,
            forall|i: int| 0 <= i < n ==> r@[i] == v@,
    {
        let mut out: Vec<Fixed> = Vec::new();
        let mut k: usize = 0;
        while k < n
            invariant
                k <= n,
                out@.len() == k,
                forall|i: int| 0 <= i < k ==> out@[i]@ == v@,
            decreases n - k,
        {
            out.push(v);
            k = k + 1;
        }
        Vector { data: out }
    }

    pub fn from_vec(data: Vec<Fixed>) -> (r: Vector)
        ensures
            r@.len() == data@.len(),
            forall|k: int| 0 <= k < data@.len() ==> r@[k] == data@[k]@,
    {
        Vector { data }
    }

    pub fn len(&self) -> (r: usize)
        ensures
            r == self@.len(),
    {
        self.data.len()
    }

    pub fn get(&self, i: usize) -> (r: Fixed)
        requires
            i < self@.len(),
        ensures
            r@ == self@[i as int],
    {
        self.data[i]
    }

    pub fn set(&mut self, i: usize, v: Fixed)
        requires
            i < old(self)@.len(),
        ensures
            final(self)@ == old(self)@.update(i as int, v@),
    {
        self.data[i] = v;
        proof {
            assert(self@ =~= old(self)@.update(i as int, v@));
        }
    }

    /// Elementwise absolute value.
    pub fn abs(&self) -> (r: Vector)
        ensures
            r@.len() == self@.len(),
            forall|i: int| 0 <= i < self@.len() ==> r@[i] == abs_fx(#[trigger] self@[i]),
    {
        let n = self.data.len();
        let mut out: Vec<Fixed> = Vec::new();
        let mut k: usize = 0;
        while k < n
            invariant
                k <= n,
                out@.len() == k,
                forall|i: int| 0 <= i < k ==> out@[i]@ == abs_fx(#[trigger] self@[i]),
            decreases n - k,
        {
            out.push(self.data[k].abs());
            k = k + 1;
        }
        Vector { data: out }
    }

    /// Overwrite with the contents of `other`.
    pub fn copy_from(&mut self, other: &Vector)
        requires
            old(self)@.len() == other@.len(),
        ensures
            final(self)@ == other@,
    {
        let n = self.data.len();
        let mut k: usize = 0;
        while k < n
            invariant
                k <= n,
                self@.len() == n,
                other@.len() == n,
                forall|i: int| 0 <= i < k ==> self@[i] == other@[i],
            decreases n - k,
        {
            self.data[k] = other.data[k];
            k = k + 1;
        }
        proof {
            assert(self@ =~= other@);
        }
    }

    /// `self <- alpha * x + beta * self`, elementwise in fixed-point.
    pub fn axpy(&mut self, alpha: Fixed, x: &Vector, beta: Fixed)
        requires
            old(self)@.len() == x@.len(),
        ensures
            final(self)@.len() == old(self)@.len(),
            forall|i: int|
                0 <= i < old(self)@.len() ==> final(self)@[i] == add_fx(
                    mul_fx(alpha@, x@[i]),
                    mul_fx(beta@, #[trigger] old(self)@[i]),
                ),
    {
        let n = self.data.len();
        let mut k: usize = 0;
        while k < n
            invariant
                k <= n,
                self@.len() == n,
                x@.len() == n,
                forall|i: int|
                    0 <= i < k ==> self@[i] == add_fx(
                        mul_fx(alpha@, x@[i]),
                        mul_fx(beta@, #[trigger] old(self)@[i]),
                    ),
                forall|i: int| k <= i < n ==> self@[i] == old(self)@[i],
            decreases n - k,
        {
            let v = alpha.mul(x.data[k]).add(beta.mul(self.data[k]));
            self.data[k] = v;
            k = k + 1;
        }
    }

    /// Elementwise multiply in place.
    pub fn component_mul_assign(&mut self, other: &Vector)
        requires
            old(self)@.len() == other@.len(),
        ensures
            final(self)@.len() == old(self)@.len(),
            forall|i: int|
                0 <= i < old(self)@.len() ==> final(self)@[i] == mul_fx(
                    #[trigger] old(self)@[i],
                    other@[i],
                ),
    {
        let n = self.data.len();
        let mut k: usize = 0;
        while k < n
            invariant
                k <= n,
                self@.len() == n,
                other@.len() == n,
                forall|i: int|
                    0 <= i < k ==> self@[i] == mul_fx(#[trigger] old(self)@[i], other@[i]),
                forall|i: int| k <= i < n ==> self@[i] == old(self)@[i],
            decreases n - k,
        {
            let v = self.data[k].mul(other.data[k]);
            self.data[k] = v;
            k = k + 1;
        }
    }

    /// Elementwise divide in place.
    pub fn component_div_assign(&mut self, other: &Vector)
        requires
            old(self)@.len() == other@.len(),
        ensures
            final(self)@.len() == old(self)@.len(),
            forall|i: int|
                0 <= i < old(self)@.len() ==> final(self)@[i] == div_fx(
                    #[trigger] old(self)@[i],
                    other@[i],
                ),
    {
        let n = self.data.len();
        let mut k: usize = 0;
        while k < n
            invariant
                k <= n,
                self@.len() == n,
                other@.len() == n,
                forall|i: int|
                    0 <= i < k ==> self@[i] == div_fx(#[trigger] old(self)@[i], other@[i]),
                forall|i: int| k <= i < n ==> self@[i] == old(self)@[i],
            decreases n - k,
        {
            let v = self.data[k].div(other.data[k]);
            self.data[k] = v;
            k = k + 1;
        }
    }

    /// Elementwise add in place.
    pub fn add_assign_v(&mut self, other: &Vector)
        requires
            old(self)@.len() == other@.len(),
        ensures
            final(self)@.len() == old(self)@.len(),
            forall|i: int|
                0 <= i < old(self)@.len() ==> final(self)@[i] == add_fx(
                    #[trigger] old(self)@[i],
                    other@[i],
                ),
    {
        let n = self.data.len();
        let mut k: usize = 0;
        while k < n
            invariant
                k <= n,
                self@.len() == n,
                other@.len() == n,
                forall|i: int|
                    0 <= i < k ==> self@[i] == add_fx(#[trigger] old(self)@[i], other@[i]),
                forall|i: int| k <= i < n ==> self@[i] == old(self)@[i],
            decreases n - k,
        {
            let v = self.data[k].add(other.data[k]);
            self.data[k] = v;
            k = k + 1;
        }
    }

    /// Elementwise subtract in place.
    pub fn sub_assign_v(&mut self, other: &Vector)
        requires
            old(self)@.len() == other@.len(),
        ensures
            final(self)@.len() == old(self)@.len(),
            forall|i: int|
                0 <= i < old(self)@.len() ==> final(self)@[i] == sub_fx(
                    #[trigger] old(self)@[i],
                    other@[i],
                ),
    {
        let n = self.data.len();
        let mut k: usize = 0;
        while k < n
            invariant
                k <= n,
                self@.len() == n,
                other@.len() == n,
                forall|i: int|
                    0 <= i < k ==> self@[i] == sub_fx(#[trigger] old(self)@[i], other@[i]),
                forall|i: int| k <= i < n ==> self@[i] == old(self)@[i],
            decreases n - k,
        {
            let v = self.data[k].sub(other.data[k]);
            self.data[k] = v;
            k = k + 1;
        }
    }

    /// Multiply every component by `alpha` in place.
    pub fn scale_assign(&mut self, alpha: Fixed)
        ensures
            final(self)@.len() == old(self)@.len(),
            forall|i: int|
                0 <= i < old(self)@.len() ==> final(self)@[i] == mul_fx(
                    #[trigger] old(self)@[i],
                    alpha@,
                ),
    {
        let n = self.data.len();
        let mut k: usize = 0;
        while k < n
            invariant
                k <= n,
                self@.len() == n,
                forall|i: int| 0 <= i < k ==> self@[i] == mul_fx(#[trigger] old(self)@[i], alpha@),
                forall|i: int| k <= i < n ==> self@[i] == old(self)@[i],
            decreases n - k,
        {
            let v = self.data[k].mul(alpha);
            self.data[k] = v;
            k = k + 1;
        }
    }

    /// Add the scalar `c` to every component in place.
    pub fn add_scalar_assign(&mut self, c: Fixed)
        ensures
            final(self)@.len() == old(self)@.len(),
            forall|i: int|
                0 <= i < old(self)@.len() ==> final(self)@[i] == add_fx(
                    #[trigger] old(self)@[i],
                    c@,
                ),
    {
        let n = self.data.len();
        let mut k: usize = 0;
        while k < n
            invariant
                k <= n,
                self@.len() == n,
                forall|i: int| 0 <= i < k ==> self@[i] == add_fx(#[trigger] old(self)@[i], c@),
                forall|i: int| k <= i < n ==> self@[i] == old(self)@[i],
            decreases n - k,
        {
            let v = self.data[k].add(c);
            self.data[k] = v;
            k = k + 1;
        }
    }

    /// The 2-norm in fixed-point arithmetic.
    pub fn norm(&self) -> (r: Fixed)
        ensures
            r@ == norm_fx(self@),
    {
        let n = self.data.len();
        let mut acc = Fixed::zero();
        let mut k: usize = 0;
        while k < n
            invariant
                k <= n,
                acc@ == sumsq_prefix(self@, k as int),
            decreases n - k,
        {
            let e = self.data[k];
            acc = acc.add(e.mul(e));
            k = k + 1;
        }
        acc.sqrt()
    }

    /// Truncate or zero-pad to length `n`.
    pub fn resize_to(&mut self, n: usize)
        ensures
            final(self)@.len() == n,
            forall|i: int|
                0 <= i < n ==> final(self)@[i] == (if i < old(self)@.len() {
                    old(self)@[i]
                } else {
                    0
                }),
    {
        while self.data.len() > n
            invariant
                self@.len() <= old(self)@.len(),
                self@.len() >= n || self@.len() == old(self)@.len(),
                forall|i: int| 0 <= i < self@.len() ==> self@[i] == old(self)@[i],
            decreases self@.len(),
        {
            self.data.pop();
        }
        while self.data.len() < n
            invariant
                self@.len() <= n,
                self@.len() >= old(self)@.len() || self@.len() >= n,
                forall|i: int|
                    0 <= i < self@.len() ==> self@[i] == (if i < old(self)@.len() {
                        old(self)@[i]
                    } else {
                        0
                    }),
            decreases n - self@.len(),
        {
            let ghost prev = self@;
            self.data.push(Fixed::zero());
            proof {
                assert forall|i: int|
                    0 <= i < self@.len() implies self@[i] == (if i < old(self)@.len() {
                    old(self)@[i]
                } else {
                    0
                }) by {
                    if i < prev.len() {
                        assert(self@[i] == prev[i]);
                    } else {
                        assert(self@[i] == 0);
                        assert(prev.len() >= old(self)@.len());
                    }
                }
            }
        }
    }

    /// The ascending list of positions whose component equals `target`.
    pub fn filter_indices(&self, target: Fixed) -> (r: Indices)
        ensures
            strictly_ascending(r@),
            indices_in_bounds(r@, self@.len() as int),
            forall|k: int| 0 <= k < r@.len() ==> self@[#[trigger] r@[k]] == target@,
            forall|i: int| 0 <= i < self@.len() && self@[i] == target@ ==> r@.contains(i),
    {
        let n = self.data.len();
        let mut out = Indices::empty();
        let mut k: usize = 0;
        while k < n
            invariant
                k <= n,
                strictly_ascending(out@),
                indices_in_bounds(out@, k as int),
                forall|j: int| 0 <= j < out@.len() ==> self@[#[trigger] out@[j]] == target@,
                forall|i: int| 0 <= i < k && self@[i] == target@ ==> out@.contains(i),
            decreases n - k,
        {
            let ghost prev = out@;
            if self.data[k].eq_val(target) {
                out.push(k);
                proof {
                    assert forall|i: int|
                        0 <= i < k + 1 && self@[i] == target@ implies out@.contains(i) by {
                        if i == k as int {
                            assert(out@[out@.len() - 1] == i);
                        } else {
                            assert(prev.contains(i));
                            let j = choose|j: int| 0 <= j < prev.len() && prev[j] == i;
                            assert(out@[j] == i);
                        }
                    }
                    assert forall|a: int, b: int|
                        0 <= a < b < out@.len() implies #[trigger] out@[a] < #[trigger] out@[b] by {
                        if b == out@.len() - 1 {
                            assert(out@[a] == prev[a]);
                            assert(0 <= out@[a] < k as int);
                        }
                    }
                }
            }
            k = k + 1;
        }
        out
    }

    /// Gather: the components of `self` at the given positions.
    pub fn filter(&self, idx: &Indices) -> (r: Vector)
        requires
            indices_in_bounds(idx@, self@.len() as int),
        ensures
            r@.len() == idx@.len(),
            forall|k: int| 0 <= k < idx@.len() ==> r@[k] == self@[#[trigger] idx@[k]],
    {
        let m = idx.len();
        let mut out: Vec<Fixed> = Vec::new();
        let mut k: usize = 0;
        while k < m
            invariant
                k <= m,
                out@.len() == k,
                forall|j: int| 0 <= j < k ==> out@[j]@ == self@[#[trigger] idx@[j]],
            decreases m - k,
        {
            let i = idx.get(k);
            out.push(self.data[i]);
            k = k + 1;
        }
        Vector { data: out }
    }

    /// Scatter: write `values[k]` into `self[idx[k]]` for each `k`, leaving
    /// all other components unchanged.
    pub fn scatter_from(&mut self, values: &Vector, idx: &Indices)
        requires
            strictly_ascending(idx@),
            indices_in_bounds(idx@, old(self)@.len() as int),
            values@.len() == idx@.len(),
        ensures
            final(self)@.len() == old(self)@.len(),
            forall|k: int|
                0 <= k < idx@.len() ==> final(self)@[#[trigger] idx@[k]] == values@[k],
            forall|i: int|
                0 <= i < old(self)@.len() && !idx@.contains(i) ==> final(self)@[i] == old(
                    self,
                )@[i],
    {
        let m = idx.len();
        let mut k: usize = 0;
        while k < m
            invariant
                k <= m,
                self@.len() == old(self)@.len(),
                forall|j: int| 0 <= j < k ==> self@[#[trigger] idx@[j]] == values@[j],
                forall|i: int|
                    0 <= i < self@.len() && !(exists|j: int| 0 <= j < k && idx@[j] == i)
                        ==> self@[i] == old(self)@[i],
            decreases m - k,
        {
            let i = idx.get(k);
            let v = values.get(k);
            self.data[i] = v;
            k = k + 1;
        }
        proof {
            assert(forall|i: int|
                0 <= i < old(self)@.len() && !idx@.contains(i) ==> self@[i] == old(self)@[i]);
        }
    }
}

} // verus!
