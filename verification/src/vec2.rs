//! Two-dimensional vectors over [`Fixed`] scalars.

use vstd::prelude::*;
use crate::fixed::{
    Fixed, SCALE, add_raw, sub_raw, neg_raw, mul_raw, div_raw, sat, quot, isqrt, isqrt_wide,
    unclamped, lemma_isqrt_bounds, lemma_isqrt_exists, lemma_quot_error,
};

verus! {

/// Mathematical model of a vector: its two raw components.
pub struct V2 {
    pub x: int,
    pub y: int,
}

impl V2 {
    /// The zero vector.
    pub open spec fn zero() -> V2 {
        V2 { x: 0, y: 0 }
    }

    /// Componentwise sum.
    pub open spec fn add(self, o: V2) -> V2 {
        V2 { x: add_raw(self.x, o.x), y: add_raw(self.y, o.y) }
    }

    /// Componentwise difference.
    pub open spec fn sub(self, o: V2) -> V2 {
        V2 { x: sub_raw(self.x, o.x), y: sub_raw(self.y, o.y) }
    }

    /// Product with the scalar `s`.
    pub open spec fn mul(self, s: int) -> V2 {
        V2 { x: mul_raw(self.x, s), y: mul_raw(self.y, s) }
    }

    /// Quotient by the scalar `s`.
    pub open spec fn div(self, s: int) -> V2
        recommends
            s != 0,
    {
        V2 { x: div_raw(self.x, s), y: div_raw(self.y, s) }
    }

    /// Dot product.
    pub open spec fn dot(self, o: V2) -> int {
        add_raw(mul_raw(self.x, o.x), mul_raw(self.y, o.y))
    }

    /// Sum of the squared raw components.
    pub open spec fn norm_sq(self) -> int {
        self.x * self.x + self.y * self.y
    }

    /// Euclidean length, rounded down to a whole raw unit and clamped.
    pub open spec fn length(self) -> int {
        sat(isqrt(self.norm_sq()))
    }

    /// The vector scaled to unit length; a vector of length zero is
    /// returned unchanged.
    pub open spec fn normalized(self) -> V2 {
        if self.length() > 0 {
            self.div(self.length())
        } else {
            self
        }
    }

    /// The vector turned a quarter turn: `(-y, x)`.
    pub open spec fn perp(self) -> V2 {
        V2 { x: neg_raw(self.y), y: self.x }
    }

    /// Whether both components lie strictly inside the representable raw
    /// range.
    pub open spec fn unclamped(self) -> bool {
        unclamped(self.x) && unclamped(self.y)
    }
}

/// A vector has length zero only if both its components are zero.
pub proof fn lemma_length_zero(v: V2)
    ensures
        v.length() >= 0,
        v.length() == 0 <==> v == V2::zero(),
{
    assert(v.x * v.x >= 0 && (v.x != 0 ==> v.x * v.x > 0)) by (nonlinear_arith);
    assert(v.y * v.y >= 0 && (v.y != 0 ==> v.y * v.y > 0)) by (nonlinear_arith);
    lemma_isqrt_bounds(v.norm_sq());
}

/// No component of a vector exceeds its length.
pub proof fn lemma_component_within_length(v: V2)
    requires
        v.unclamped(),
    ensures
        -v.length() <= v.x <= v.length(),
        -v.length() <= v.y <= v.length(),
{
    let n = v.norm_sq();
    assert(v.x * v.x >= 0 && v.y * v.y >= 0) by (nonlinear_arith);
    lemma_isqrt_exists(n);
    let r = isqrt(n);
    assert(-r <= v.x <= r) by (nonlinear_arith)
        requires
            0 <= r,
            v.x * v.x < (r + 1) * (r + 1),
    ;
    assert(-r <= v.y <= r) by (nonlinear_arith)
        requires
            0 <= r,
            v.y * v.y < (r + 1) * (r + 1),
    ;
}

/// The components of a normalized vector lie between minus one and one.
pub proof fn lemma_normalized_within_unit(v: V2)
    requires
        v.unclamped(),
    ensures
        -SCALE <= v.normalized().x <= SCALE,
        -SCALE <= v.normalized().y <= SCALE,
{
    lemma_component_within_length(v);
    let len = v.length();
    if len > 0 {
        lemma_scaled_quot_within_unit(v.x, len);
        lemma_scaled_quot_within_unit(v.y, len);
    }
}

/// The scaled quotient of a number by one of at least its size lies
/// between minus one and one.
pub proof fn lemma_scaled_quot_within_unit(x: int, len: int)
    requires
        0 < len,
        -len <= x <= len,
    ensures
        -SCALE <= div_raw(x, len) <= SCALE,
        div_raw(x, len) == quot(x * SCALE, len),
{
    let q = quot(x * SCALE, len);
    lemma_quot_error(x * SCALE, len);
    assert(-SCALE <= q <= SCALE) by (nonlinear_arith)
        requires
            0 < len,
            -len <= x <= len,
            -len < x * SCALE - len * q < len,
    ;
}

/// A vector with `Fixed` components.
#[derive(Clone, Copy, Debug, PartialEq, Eq, Structural)]
pub struct Vec2 {
    pub x: Fixed,
    pub y: Fixed,
}

impl View for Vec2 {
    type V = V2;

    open spec fn view(&self) -> V2 {
        V2 { x: self.x@, y: self.y@ }
    }
}

fn magnitude(v: i64) -> (r: u128)
    ensures
        r as int * r as int == v as int * v as int,
        r <= 0x8000_0000_0000_0000,
{
    let w: i128 = v as i128;
    if w < 0 {
        assert((-w) * (-w) == w * w) by (nonlinear_arith);
        (-w) as u128
    } else {
        w as u128
    }
}

impl Vec2 {
    /// The vector with the given components.
    pub fn new(x: Fixed, y: Fixed) -> (r: Vec2)
        ensures
            r@ == (V2 { x: x@, y: y@ }),
    {
        Vec2 { x, y }
    }

    /// The zero vector.
    pub fn zero() -> (r: Vec2)
        ensures
            r@ == V2::zero(),
    {
        Vec2 { x: Fixed::zero(), y: Fixed::zero() }
    }

    /// Componentwise sum.
    pub fn add(self, other: Vec2) -> (r: Vec2)
        ensures
            r@ == self@.add(other@),
    {
        Vec2 { x: self.x.add(other.x), y: self.y.add(other.y) }
    }

    /// Componentwise difference.
    pub fn sub(self, other: Vec2) -> (r: Vec2)
        ensures
            r@ == self@.sub(other@),
    {
        Vec2 { x: self.x.sub(other.x), y: self.y.sub(other.y) }
    }

    /// Product with a scalar.
    pub fn mul(self, scalar: Fixed) -> (r: Vec2)
        ensures
            r@ == self@.mul(scalar@),
    {
        Vec2 { x: self.x.mul(scalar), y: self.y.mul(scalar) }
    }

    /// Quotient by a non-zero scalar.
    pub fn div(self, scalar: Fixed) -> (r: Vec2)
        requires
            scalar@ != 0,
        ensures
            r@ == self@.div(scalar@),
    {
        Vec2 { x: self.x.div(scalar), y: self.y.div(scalar) }
    }

    /// Dot product.
    pub fn dot(&self, other: &Vec2) -> (r: Fixed)
        ensures
            r@ == self@.dot(other@),
    {
        self.x.mul(other.x).add(self.y.mul(other.y))
    }

    /// Euclidean length, rounded down to a whole raw unit and clamped.
    pub fn length(&self) -> (r: Fixed)
        ensures
            r@ == self@.length(),
            r@ >= 0,
    {
        let ax: u128 = magnitude(self.x.raw);
        let ay: u128 = magnitude(self.y.raw);
        assert(ax * ax <= 0x4000_0000_0000_0000_0000_0000_0000_0000) by (nonlinear_arith)
            requires
                0 <= ax <= 0x8000_0000_0000_0000,
        ;
        assert(ay * ay <= 0x4000_0000_0000_0000_0000_0000_0000_0000) by (nonlinear_arith)
            requires
                0 <= ay <= 0x8000_0000_0000_0000,
        ;
        let root: u128 = isqrt_wide(ax * ax + ay * ay);
        if root > i64::MAX as u128 {
            Fixed { raw: i64::MAX }
        } else {
            Fixed { raw: root as i64 }
        }
    }

    /// The vector scaled to unit length; a vector of length zero is
    /// returned unchanged.
    pub fn normalized(&self) -> (r: Vec2)
        ensures
            r@ == self@.normalized(),
    {
        let len = self.length();
        if len.raw > 0 {
            self.div(len)
        } else {
            *self
        }
    }

    /// The vector turned a quarter turn: `(-y, x)`.
    pub fn perp(&self) -> (r: Vec2)
        ensures
            r@ == self@.perp(),
    {
        Vec2 { x: self.y.neg(), y: self.x }
    }
}

} // verus!
