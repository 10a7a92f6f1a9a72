//! The scalar field used throughout the library: a signed fixed-point number
//! with `FIX_SCALE` as the denominator.  Every operation is total: results are
//! clamped to the symmetric range `[-FIX_MAX, FIX_MAX]` (saturation) and
//! division by zero saturates.  Each executable operation is pinned to a spec
//! function over the raw integer representation, so the arithmetic performed
//! by the library is described exactly, including rounding.
use vstd::prelude::*;

verus! {

/// The value of a `Fixed` is `raw / FIX_SCALE`.
pub const FIX_SCALE: i64 = 1073741824;

/// Largest admissible magnitude of a raw representation.
pub const FIX_MAX: i64 = 9223372036854775807;

/// Raw representations stay in the symmetric range, so negation and absolute
/// value never overflow.
pub open spec fn fx_in_range(r: int) -> bool {
    -(FIX_MAX as int) <= r <= FIX_MAX as int
}

/// Saturation to the admissible raw range.
pub open spec fn clip(r: int) -> int {
    if r > FIX_MAX as int {
        FIX_MAX as int
    } else if r < -(FIX_MAX as int) {
        -(FIX_MAX as int)
    } else {
        r
    }
}

/// Division truncated toward zero, as the executable code computes it.
pub open spec fn tdiv(a: int, b: int) -> int
    recommends
        b != 0,
{
    if a >= 0 && b > 0 {
        a / b
    } else if a < 0 && b > 0 {
        -((-a) / b)
    } else if a >= 0 && b < 0 {
        -(a / (-b))
    } else {
        (-a) / (-b)
    }
}

pub open spec fn add_fx(a: int, b: int) -> int {
    clip(a + b)
}

pub open spec fn sub_fx(a: int, b: int) -> int {
    clip(a - b)
}

pub open spec fn neg_fx(a: int) -> int {
    clip(-a)
}

pub open spec fn abs_fx(a: int) -> int {
    if a < 0 {
        clip(-a)
    } else {
        clip(a)
    }
}

pub open spec fn mul_fx(a: int, b: int) -> int {
    clip(tdiv(a * b, FIX_SCALE as int))
}

pub open spec fn div_fx(a: int, b: int) -> int {
    if b == 0 {
        if a > 0 {
            FIX_MAX as int
        } else if a < 0 {
            -(FIX_MAX as int)
        } else {
            0
        }
    } else {
        clip(tdiv(a * (FIX_SCALE as int), b))
    }
}

/// `r` is the integer square root of `n`.
pub open spec fn is_isqrt(n: int, r: int) -> bool {
    0 <= r && r * r <= n && n < (r + 1) * (r + 1)
}

pub open spec fn isqrt_of(n: int) -> int
    recommends
        n >= 0,
{
    choose|r: int| is_isqrt(n, r)
}

/// Fixed-point square root: the integer square root of `a * FIX_SCALE`
/// (nonpositive inputs map to zero).
pub open spec fn sqrt_fx(a: int) -> int {
    if a <= 0 {
        0
    } else {
        isqrt_of(a * (FIX_SCALE as int))
    }
}

/// Fixed-point integer power by repeated multiplication.
pub open spec fn pow_fx(a: int, k: nat) -> int
    decreases k,
{
    if k == 0 {
        FIX_SCALE as int
    } else {
        mul_fx(pow_fx(a, (k - 1) as nat), a)
    }
}

pub proof fn lemma_div_le(a: int, b: int)
    requires
        a >= 0,
        b >= 1,
    ensures
        0 <= a / b,
        a / b <= a,
{
    vstd::arithmetic::div_mod::lemma_div_pos_is_pos(a, b);
    vstd::arithmetic::div_mod::lemma_div_nonincreasing(a, b);
}

/// The integer square root is unique.
pub proof fn lemma_isqrt_unique(n: int, r: int)
    requires
        is_isqrt(n, r),
    ensures
        r == isqrt_of(n),
{
    let r2 = isqrt_of(n);
    assert(is_isqrt(n, r2));
    assert(r == r2) by (nonlinear_arith)
        requires
            0 <= r,
            r * r <= n,
            n < (r + 1) * (r + 1),
            0 <= r2,
            r2 * r2 <= n,
            n < (r2 + 1) * (r2 + 1),
    {}
}

/// Multiplying by one is the identity on admissible values.
pub proof fn lemma_mul_fx_one(a: int)
    requires
        fx_in_range(a),
    ensures
        mul_fx(FIX_SCALE as int, a) == a,
        mul_fx(a, FIX_SCALE as int) == a,
{
    let s = FIX_SCALE as int;
    if a >= 0 {
        vstd::arithmetic::div_mod::lemma_div_multiples_vanish(a, s);
        assert(s * a == a * s) by (nonlinear_arith) {}
        assert(tdiv(s * a, s) == a);
    } else {
        vstd::arithmetic::div_mod::lemma_div_multiples_vanish(-a, s);
        assert(s * (-a) == -(s * a)) by (nonlinear_arith) {}
        assert(s * a == a * s) by (nonlinear_arith) {}
        assert(tdiv(s * a, s) == a);
    }
}

/// Multiplying by zero gives zero.
pub proof fn lemma_mul_fx_zero(a: int)
    ensures
        mul_fx(0, a) == 0,
        mul_fx(a, 0) == 0,
{
    let s = FIX_SCALE as int;
    assert(0 * a == 0) by (nonlinear_arith) {}
    assert(a * 0 == 0) by (nonlinear_arith) {}
    vstd::arithmetic::div_mod::lemma_div_of0(s);
}

/// A scalar: fixed-point with `FIX_SCALE` as denominator, saturating.
#[derive(Clone, Copy, Debug, PartialEq, Eq, Structural)]
pub struct Fixed {
    raw: i64,
}

impl View for Fixed {
    type V = int;

    closed spec fn view(&self) -> int {
        self.raw as int
    }
}

/// Clamp a wide intermediate result back into the admissible raw range.
fn clamp_i128(v: i128) -> (r: i64)
    requires
        v > i128::MIN,
    ensures
        r as int == clip(v as int),
        fx_in_range(r as int),
{
    if v > i64::MAX as i128 {
        i64::MAX
    } else if v < -(i64::MAX as i128) {
        -i64::MAX
    } else {
        v as i64
    }
}

/// Truncated division of a wide intermediate by a positive divisor.
fn tdiv_i128(p: i128, d: i128) -> (r: i128)
    requires
        d > 0,
        p > i128::MIN,
    ensures
        r == tdiv(p as int, d as int),
        r > i128::MIN,
{
    if p >= 0 {
        let q = (p as u128) / (d as u128);
        proof {
            lemma_div_le(p as int, d as int);
        }
        q as i128
    } else {
        let q = ((-p) as u128) / (d as u128);
        proof {
            lemma_div_le(-(p as int), d as int);
        }
        -(q as i128)
    }
}

impl Fixed {
    #[verifier::type_invariant]
    spec fn inv(self) -> bool {
        fx_in_range(self.raw as int)
    }

    /// Build a scalar from its raw representation (clamped into range).
    pub fn from_raw(raw: i64) -> (r: Fixed)
        ensures
            r@ == clip(raw as int),
    {
        if raw == i64::MIN {
            Fixed { raw: -i64::MAX }
        } else {
            Fixed { raw }
        }
    }

    /// The raw representation.
    pub fn raw(&self) -> (r: i64)
        ensures
            r as int == self@,
    {
        self.raw
    }

    pub fn zero() -> (r: Fixed)
        ensures
            r@ == 0,
    {
        Fixed { raw: 0 }
    }

    pub fn one() -> (r: Fixed)
        ensures
            r@ == FIX_SCALE as int,
    {
        Fixed { raw: FIX_SCALE }
    }

    /// The machine-epsilon constant: the smallest positive scalar.
    pub fn epsilon() -> (r: Fixed)
        ensures
            r@ == 1,
    {
        Fixed { raw: 1 }
    }

    /// Conversion from a (small) integer.
    pub fn from_int(n: i64) -> (r: Fixed)
        ensures
            r@ == clip(n as int * FIX_SCALE as int),
    {
        let p: i128 = (n as i128) * (FIX_SCALE as i128);
        Fixed { raw: clamp_i128(p) }
    }

    /// Conversion from a small rational `num / den`.
    pub fn from_ratio(num: i64, den: i64) -> (r: Fixed)
        requires
            den > 0,
        ensures
            r@ == clip(tdiv(num as int * FIX_SCALE as int, den as int)),
    {
        let p: i128 = (num as i128) * (FIX_SCALE as i128);
        let q = tdiv_i128(p, den as i128);
        Fixed { raw: clamp_i128(q) }
    }

    pub fn add(self, other: Fixed) -> (r: Fixed)
        ensures
            r@ == add_fx(self@, other@),
    {
        proof {
            use_type_invariant(self);
            use_type_invariant(other);
        }
        let s: i128 = self.raw as i128 + other.raw as i128;
        Fixed { raw: clamp_i128(s) }
    }

    pub fn sub(self, other: Fixed) -> (r: Fixed)
        ensures
            r@ == sub_fx(self@, other@),
    {
        proof {
            use_type_invariant(self);
            use_type_invariant(other);
        }
        let s: i128 = self.raw as i128 - other.raw as i128;
        Fixed { raw: clamp_i128(s) }
    }

    pub fn neg(self) -> (r: Fixed)
        ensures
            r@ == neg_fx(self@),
    {
        proof {
            use_type_invariant(self);
        }
        Fixed { raw: -self.raw }
    }

    pub fn abs(self) -> (r: Fixed)
        ensures
            r@ == abs_fx(self@),
    {
        proof {
            use_type_invariant(self);
        }
        if self.raw < 0 {
            Fixed { raw: -self.raw }
        } else {
            Fixed { raw: self.raw }
        }
    }

    pub fn mul(self, other: Fixed) -> (r: Fixed)
        ensures
            r@ == mul_fx(self@, other@),
    {
        proof {
            use_type_invariant(self);
            use_type_invariant(other);
            assert((self.raw as int) * (other.raw as int) <= (FIX_MAX as int) * (FIX_MAX as int)
                && (self.raw as int) * (other.raw as int) >= -((FIX_MAX as int) * (
            FIX_MAX as int))) by (nonlinear_arith)
                requires
                    fx_in_range(self.raw as int),
                    fx_in_range(other.raw as int),
            {}
        }
        let p: i128 = (self.raw as i128) * (other.raw as i128);
        let q = tdiv_i128(p, FIX_SCALE as i128);
        Fixed { raw: clamp_i128(q) }
    }

    pub fn div(self, other: Fixed) -> (r: Fixed)
        ensures
            r@ == div_fx(self@, other@),
    {
        proof {
            use_type_invariant(self);
            use_type_invariant(other);
        }
        if other.raw == 0 {
            if self.raw > 0 {
                Fixed { raw: i64::MAX }
            } else if self.raw < 0 {
                Fixed { raw: -i64::MAX }
            } else {
                Fixed { raw: 0 }
            }
        } else {
            proof {
                assert((self.raw as int) * (FIX_SCALE as int) <= (i64::MAX as int) * (
                FIX_SCALE as int) && (self.raw as int) * (FIX_SCALE as int) >= (-(
                i64::MAX as int)) * (FIX_SCALE as int)) by (nonlinear_arith)
                    requires
                        fx_in_range(self.raw as int),
                {}
            }
            let p: i128 = (self.raw as i128) * (FIX_SCALE as i128);
            let neg_d = other.raw < 0;
            let d: i128 = if neg_d {
                -(other.raw as i128)
            } else {
                other.raw as i128
            };
            let q = tdiv_i128(p, d);
            let q2: i128 = if neg_d {
                -q
            } else {
                q
            };
            proof {
                let a = self.raw as int;
                let b = other.raw as int;
                let s = FIX_SCALE as int;
                if neg_d {
                    assert(q2 as int == tdiv(a * s, b));
                }
            }
            Fixed { raw: clamp_i128(q2) }
        }
    }

    pub fn sqrt(self) -> (r: Fixed)
        ensures
            r@ == sqrt_fx(self@),
    {
        proof {
            use_type_invariant(self);
        }
        if self.raw <= 0 {
            Fixed { raw: 0 }
        } else {
            let n: u128 = (self.raw as u128) * (FIX_SCALE as u128);
            let s = isqrt_u128(n);
            proof {
                lemma_isqrt_unique(n as int, s as int);
                assert(n as int <= (i64::MAX as int) * (FIX_SCALE as int));
                assert((s as int) <= i64::MAX as int) by (nonlinear_arith)
                    requires
                        0 <= (s as int),
                        (s as int) * (s as int) <= (n as int),
                        (n as int) <= (i64::MAX as int) * (FIX_SCALE as int),
                {}
            }
            Fixed { raw: s as i64 }
        }
    }

    /// Integer power by repeated multiplication.
    pub fn pow(self, e: usize) -> (r: Fixed)
        ensures
            r@ == pow_fx(self@, e as nat),
    {
        let mut acc = Fixed::one();
        let mut i: usize = 0;
        while i < e
            invariant
                i <= e,
                acc@ == pow_fx(self@, i as nat),
            decreases e - i,
        {
            acc = acc.mul(self);
            i = i + 1;
        }
        acc
    }

    pub fn lt(self, other: Fixed) -> (r: bool)
        ensures
            r == (self@ < other@),
    {
        self.raw < other.raw
    }

    pub fn le(self, other: Fixed) -> (r: bool)
        ensures
            r == (self@ <= other@),
    {
        self.raw <= other.raw
    }

    pub fn gt(self, other: Fixed) -> (r: bool)
        ensures
            r == (self@ > other@),
    {
        self.raw > other.raw
    }

    pub fn ge(self, other: Fixed) -> (r: bool)
        ensures
            r == (self@ >= other@),
    {
        self.raw >= other.raw
    }

    pub fn is_zero(self) -> (r: bool)
        ensures
            r == (self@ == 0),
    {
        self.raw == 0
    }

    /// Establishes, in executable context, that this value's raw
    /// representation lies in the admissible range.
    pub fn range_fact(self)
        ensures
            fx_in_range(self@),
    {
        proof {
            use_type_invariant(self);
        }
    }

    pub fn eq_val(self, other: Fixed) -> (r: bool)
        ensures
            r == (self@ == other@),
    {
        self.raw == other.raw
    }
}

/// Integer square root by binary search.
fn isqrt_u128(n: u128) -> (r: u128)
    ensures
        is_isqrt(n as int, r as int),
{
    let mut lo: u128 = 0;
    let mut hi: u128 = 0xFFFF_FFFF_FFFF_FFFF;
    proof {
        assert((hi as int + 1) * (hi as int + 1) > n as int) by (nonlinear_arith)
            requires
                (n as int) < 0x1_0000_0000_0000_0000_0000_0000_0000_0000,
                (hi as int) == 0xFFFF_FFFF_FFFF_FFFF,
        {}
    }
    while lo < hi
        invariant
            lo <= hi,
            hi <= 0xFFFF_FFFF_FFFF_FFFF,
            (lo as int) * (lo as int) <= n as int,
            (hi as int + 1) * (hi as int + 1) > n as int,
        decreases hi - lo,
    {
        let mid = lo + (hi - lo + 1) / 2;
        proof {
            assert((mid as int) * (mid as int) < 0x1_0000_0000_0000_0000_0000_0000_0000_0000)
                by (nonlinear_arith)
                requires
                    (mid as int) <= 0xFFFF_FFFF_FFFF_FFFF,
                    (mid as int) >= 0,
            {}
        }
        let sq = mid * mid;
        if sq <= n {
            lo = mid;
        } else {
            hi = mid - 1;
        }
    }
    lo
}

} // verus!
