//! Saturating decimal fixed-point scalars.
//!
//! A [`Fixed`] holds a signed count of billionths. Every operation is total:
//! a result that does not fit is clamped to the nearest representable value,
//! and quotients are rounded toward zero.

use vstd::prelude::*;

verus! {

/// Raw units per whole unit.
pub const SCALE: i64 = 1_000_000_000;

/// Clamps an integer into the representable raw range.
pub open spec fn sat(v: int) -> int {
    if v < i64::MIN as int {
        i64::MIN as int
    } else if v > i64::MAX as int {
        i64::MAX as int
    } else {
        v
    }
}

/// Whether `v` lies strictly inside the representable raw range. A result
/// strictly inside was not clamped.
pub open spec fn unclamped(v: int) -> bool {
    i64::MIN < v < i64::MAX
}

/// Quotient of `n` by `d` rounded toward zero.
pub open spec fn quot(n: int, d: int) -> int
    recommends
        d != 0,
{
    if d > 0 {
        if n >= 0 {
            n / d
        } else {
            -((-n) / d)
        }
    } else {
        if n >= 0 {
            -(n / (-d))
        } else {
            (-n) / (-d)
        }
    }
}

/// Raw sum.
pub open spec fn add_raw(a: int, b: int) -> int {
    sat(a + b)
}

/// Raw difference.
pub open spec fn sub_raw(a: int, b: int) -> int {
    sat(a - b)
}

/// Raw negation.
pub open spec fn neg_raw(a: int) -> int {
    sat(-a)
}

/// Raw absolute value.
pub open spec fn abs_raw(a: int) -> int {
    sat(if a < 0 { -a } else { a })
}

/// Raw product of two scaled values.
pub open spec fn mul_raw(a: int, b: int) -> int {
    sat(quot(a * b, SCALE as int))
}

/// Raw quotient of two scaled values.
pub open spec fn div_raw(a: int, b: int) -> int
    recommends
        b != 0,
{
    sat(quot(a * SCALE, b))
}

/// Raw value of half of `a`.
pub open spec fn half_raw(a: int) -> int {
    quot(a, 2)
}

/// The lesser of two raw values.
pub open spec fn min_raw(a: int, b: int) -> int {
    if a <= b {
        a
    } else {
        b
    }
}

/// Raw scaling of the whole number `n`.
pub open spec fn int_raw(n: int) -> int {
    sat(n * SCALE)
}

/// Raw value of the fraction `num / den`.
pub open spec fn ratio_raw(num: int, den: int) -> int
    recommends
        den != 0,
{
    sat(quot(num * SCALE, den))
}

/// `r` is the integer square root of `n`: the largest integer whose square
/// does not exceed `n`.
pub open spec fn is_isqrt(n: int, r: int) -> bool {
    &&& 0 <= r
    &&& r * r <= n
    &&& n < (r + 1) * (r + 1)
}

/// Integer square root of a non-negative integer.
pub open spec fn isqrt(n: int) -> int
    recommends
        n >= 0,
{
    choose|r: int| is_isqrt(n, r)
}

/// A quotient rounded toward zero is off by less than one unit of the
/// divisor, and lies between zero and the exact quotient.
pub proof fn lemma_quot_error(n: int, d: int)
    requires
        d > 0,
    ensures
        -d < n - d * quot(n, d) < d,
        n >= 0 ==> 0 <= d * quot(n, d) <= n,
        n <= 0 ==> n <= d * quot(n, d) <= 0,
{
    if n >= 0 {
        assert(0 <= n - d * (n / d) < d && 0 <= d * (n / d)) by (nonlinear_arith)
            requires
                d > 0,
                n >= 0,
        ;
    } else {
        let m = -n;
        assert(0 <= m - d * (m / d) < d && 0 <= d * (m / d)) by (nonlinear_arith)
            requires
                d > 0,
                m >= 0,
        ;
        assert(d * (-(m / d)) == -(d * (m / d))) by (nonlinear_arith);
    }
}

/// The quotient of a multiple of the divisor is exact.
pub proof fn lemma_quot_multiple(k: int, d: int)
    requires
        d > 0,
    ensures
        quot(k * d, d) == k,
{
    lemma_quot_error(k * d, d);
    let q = quot(k * d, d);
    assert(q == k) by (nonlinear_arith)
        requires
            d > 0,
            -d < k * d - d * q < d,
    ;
}

/// Rounding toward zero is symmetric: the quotient of the negated number
/// is the negated quotient.
pub proof fn lemma_quot_negated(n: int, d: int)
    requires
        d > 0,
    ensures
        quot(-n, d) == -quot(n, d),
{
}

/// Adding a multiple of the divisor of the same sign adds the multiplier
/// to the quotient.
pub proof fn lemma_quot_add_multiple(k: int, n: int, d: int)
    requires
        d > 0,
        (k >= 0 && n >= 0) || (k <= 0 && n <= 0),
    ensures
        quot(k * d + n, d) == k + quot(n, d),
{
    lemma_quot_error(n, d);
    lemma_quot_error(k * d + n, d);
    let q = quot(k * d + n, d);
    let p = quot(n, d);
    assert((k >= 0 && k * d >= 0) || (k <= 0 && k * d <= 0)) by (nonlinear_arith)
        requires
            d > 0,
    ;
    let rq = (k * d + n) - d * q;
    let rp = n - d * p;
    assert(d * (q - k - p) == rp - rq) by (nonlinear_arith)
        requires
            rq == (k * d + n) - d * q,
            rp == n - d * p,
    ;
    assert((0 <= rq < d && 0 <= rp < d) || (-d < rq <= 0 && -d < rp <= 0));
    assert(q - k - p == 0) by (nonlinear_arith)
        requires
            d > 0,
            -d < d * (q - k - p) < d,
    ;
}

/// Squaring is strictly increasing on the non-negative integers.
pub proof fn lemma_square_strictly_monotonic(a: int, b: int)
    by (nonlinear_arith)
    requires
        0 <= a < b,
    ensures
        a * a < b * b,
{
}

/// An integer square root is unique, so any witness equals [`isqrt`].
pub proof fn lemma_isqrt_unique(n: int, r: int)
    requires
        is_isqrt(n, r),
    ensures
        isqrt(n) == r,
{
    let c = isqrt(n);
    assert(is_isqrt(n, c));
    if c < r {
        lemma_square_strictly_monotonic(c, r);
        assert((c + 1) * (c + 1) <= r * r) by (nonlinear_arith)
            requires
                0 <= c + 1 <= r,
        ;
    } else if r < c {
        assert((r + 1) * (r + 1) <= c * c) by (nonlinear_arith)
            requires
                0 <= r + 1 <= c,
        ;
    }
}

/// Every non-negative integer has an integer square root.
pub proof fn lemma_isqrt_exists(n: int)
    requires
        0 <= n,
    ensures
        is_isqrt(n, isqrt(n)),
    decreases n,
{
    if n == 0 {
        assert(is_isqrt(0, 0));
    } else {
        lemma_isqrt_exists(n - 1);
        let r = isqrt(n - 1);
        if n < (r + 1) * (r + 1) {
            assert(is_isqrt(n, r));
        } else {
            assert((r + 2) * (r + 2) > (r + 1) * (r + 1)) by (nonlinear_arith)
                requires
                    r >= 0,
            ;
            assert(is_isqrt(n, r + 1));
        }
    }
}

/// The integer square root is zero for zero only, and never exceeds its
/// argument.
pub proof fn lemma_isqrt_bounds(n: int)
    requires
        0 <= n,
    ensures
        0 <= isqrt(n) <= n,
        isqrt(n) == 0 <==> n == 0,
{
    lemma_isqrt_exists(n);
    let r = isqrt(n);
    assert(r <= r * r) by (nonlinear_arith)
        requires
            0 <= r,
    ;
}

/// A fixed-point number: `raw` billionths.
#[derive(Clone, Copy, Debug, PartialEq, Eq, Structural, PartialOrd, Ord, Hash)]
pub struct Fixed {
    pub raw: i64,
}

impl View for Fixed {
    type V = int;

    open spec fn view(&self) -> int {
        self.raw as int
    }
}

fn clamp_wide(v: i128) -> (r: i64)
    ensures
        r as int == sat(v as int),
{
    if v < i64::MIN as i128 {
        i64::MIN
    } else if v > i64::MAX as i128 {
        i64::MAX
    } else {
        v as i64
    }
}

fn quot_wide(n: i128, d: i128) -> (q: i128)
    requires
        d != 0,
        n != i128::MIN,
        d != i128::MIN,
    ensures
        q as int == quot(n as int, d as int),
{
    let nn: u128 = if n < 0 { (-n) as u128 } else { n as u128 };
    let dd: u128 = if d < 0 { (-d) as u128 } else { d as u128 };
    let m: u128 = nn / dd;
    assert(m <= nn) by (nonlinear_arith)
        requires
            m == nn / dd,
            dd >= 1,
    ;
    if (n < 0) == (d < 0) {
        m as i128
    } else {
        -(m as i128)
    }
}

fn scale_up(v: i64) -> (r: i128)
    ensures
        r as int == v as int * SCALE as int,
{
    let w: i128 = v as i128;
    let s: i128 = SCALE as i128;
    assert(-0x8000_0000_0000_0000 * 0x4000_0000 <= w * s <= 0x8000_0000_0000_0000 * 0x4000_0000)
        by (nonlinear_arith)
        requires
            -0x8000_0000_0000_0000 <= w <= 0x8000_0000_0000_0000,
            0 < s <= 0x4000_0000,
    ;
    w * s
}

/// Integer square root by bisection.
pub fn isqrt_wide(n: u128) -> (r: u128)
    ensures
        r as int == isqrt(n as int),
        r < 0x1_0000_0000_0000_0000,
{
    let mut lo: u128 = 0;
    let mut hi: u128 = 0x1_0000_0000_0000_0000;
    assert(n < hi * hi) by (nonlinear_arith)
        requires
            hi == 0x1_0000_0000_0000_0000,
            n <= u128::MAX,
    ;
    while hi - lo > 1
        invariant
            lo < hi <= 0x1_0000_0000_0000_0000,
            lo * lo <= n,
            n < hi * hi,
        decreases hi - lo,
    {
        let mid: u128 = lo + (hi - lo) / 2;
        assert(mid * mid < 0x1_0000_0000_0000_0000_0000_0000_0000_0000) by (nonlinear_arith)
            requires
                0 <= mid < 0x1_0000_0000_0000_0000,
        ;
        if mid * mid <= n {
            lo = mid;
        } else {
            hi = mid;
        }
    }
    proof {
        lemma_isqrt_unique(n as int, lo as int);
    }
    lo
}

impl Fixed {
    /// The value with the given raw count of billionths.
    pub fn from_raw(raw: i64) -> (r: Fixed)
        ensures
            r@ == raw,
    {
        Fixed { raw }
    }

    /// The whole number `n`, clamped.
    pub fn from_int(n: i64) -> (r: Fixed)
        ensures
            r@ == int_raw(n as int),
    {
        Fixed { raw: clamp_wide(scale_up(n)) }
    }

    /// The fraction `num / den`, rounded toward zero and clamped.
    pub fn from_ratio(num: i64, den: i64) -> (r: Fixed)
        requires
            den != 0,
        ensures
            r@ == ratio_raw(num as int, den as int),
    {
        Fixed { raw: clamp_wide(quot_wide(scale_up(num), den as i128)) }
    }

    /// Zero.
    pub fn zero() -> (r: Fixed)
        ensures
            r@ == 0,
    {
        Fixed { raw: 0 }
    }

    /// One whole unit.
    pub fn one() -> (r: Fixed)
        ensures
            r@ == SCALE,
    {
        Fixed { raw: SCALE }
    }

    /// Sum, clamped.
    pub fn add(self, rhs: Fixed) -> (r: Fixed)
        ensures
            r@ == add_raw(self@, rhs@),
    {
        Fixed { raw: clamp_wide(self.raw as i128 + rhs.raw as i128) }
    }

    /// Difference, clamped.
    pub fn sub(self, rhs: Fixed) -> (r: Fixed)
        ensures
            r@ == sub_raw(self@, rhs@),
    {
        Fixed { raw: clamp_wide(self.raw as i128 - rhs.raw as i128) }
    }

    /// Negation, clamped.
    pub fn neg(self) -> (r: Fixed)
        ensures
            r@ == neg_raw(self@),
    {
        Fixed { raw: clamp_wide(-(self.raw as i128)) }
    }

    /// Absolute value, clamped.
    pub fn abs(self) -> (r: Fixed)
        ensures
            r@ == abs_raw(self@),
    {
        if self.raw < 0 {
            Fixed { raw: clamp_wide(-(self.raw as i128)) }
        } else {
            self
        }
    }

    /// Product, rounded toward zero and clamped.
    pub fn mul(self, rhs: Fixed) -> (r: Fixed)
        ensures
            r@ == mul_raw(self@, rhs@),
    {
        let a: i128 = self.raw as i128;
        let b: i128 = rhs.raw as i128;
        assert(-0x4000_0000_0000_0000_0000_0000_0000_0000 <= a * b
            <= 0x4000_0000_0000_0000_0000_0000_0000_0000) by (nonlinear_arith)
            requires
                -0x8000_0000_0000_0000 <= a <= 0x8000_0000_0000_0000,
                -0x8000_0000_0000_0000 <= b <= 0x8000_0000_0000_0000,
        ;
        let p: i128 = a * b;
        Fixed { raw: clamp_wide(quot_wide(p, SCALE as i128)) }
    }

    /// Quotient, rounded toward zero and clamped.
    pub fn div(self, rhs: Fixed) -> (r: Fixed)
        requires
            rhs@ != 0,
        ensures
            r@ == div_raw(self@, rhs@),
    {
        Fixed { raw: clamp_wide(quot_wide(scale_up(self.raw), rhs.raw as i128)) }
    }

    /// Quotient, or `None` when the divisor is zero.
    pub fn checked_div(self, rhs: Fixed) -> (r: Option<Fixed>)
        ensures
            rhs@ == 0 <==> r is None,
            r matches Some(q) ==> q@ == div_raw(self@, rhs@),
    {
        if rhs.raw == 0 {
            None
        } else {
            Some(self.div(rhs))
        }
    }

    /// Half, rounded toward zero.
    pub fn half(self) -> (r: Fixed)
        ensures
            r@ == half_raw(self@),
    {
        Fixed { raw: clamp_wide(quot_wide(self.raw as i128, 2)) }
    }

    /// The lesser of two values.
    pub fn min(self, rhs: Fixed) -> (r: Fixed)
        ensures
            r@ == min_raw(self@, rhs@),
    {
        if self.raw <= rhs.raw {
            self
        } else {
            rhs
        }
    }

    /// The raw count of billionths.
    pub fn to_raw(self) -> (r: i64)
        ensures
            r == self@,
    {
        self.raw
    }
}

} // verus!
