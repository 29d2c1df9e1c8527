//! Immutable 2D vectors over fixed-point scalars, with componentwise
//! arithmetic and Euclidean distance.

use vstd::prelude::*;

use crate::scalar::{fits, isqrt, trunc_div, Scalar, UNIT};

verus! {

/// Floor of the square root of a non-negative integer, defined so the
/// distance function has an exact, deterministic contract.
pub open spec fn sqrt_floor(x: int) -> int
    decreases x,
{
    if x <= 0 {
        0
    } else {
        let r = sqrt_floor(x - 1);
        if (r + 1) * (r + 1) <= x {
            r + 1
        } else {
            r
        }
    }
}

/// `sqrt_floor(x)` is the unique `r >= 0` with `r * r <= x < (r + 1) * (r + 1)`.
pub proof fn lemma_sqrt_floor(x: int)
    requires
        x >= 0,
    ensures
        sqrt_floor(x) >= 0,
        sqrt_floor(x) * sqrt_floor(x) <= x,
        (sqrt_floor(x) + 1) * (sqrt_floor(x) + 1) > x,
    decreases x,
{
    if x > 0 {
        lemma_sqrt_floor(x - 1);
        let r = sqrt_floor(x - 1);
        if (r + 1) * (r + 1) <= x {
            assert((r + 2) * (r + 2) > (r + 1) * (r + 1)) by (nonlinear_arith)
                requires
                    r >= 0,
            ;
        }
    }
}

/// Any `r` in the square-root window equals `sqrt_floor(x)`.
pub proof fn lemma_sqrt_floor_unique(x: int, r: int)
    requires
        x >= 0,
        r >= 0,
        r * r <= x,
        (r + 1) * (r + 1) > x,
    ensures
        r == sqrt_floor(x),
{
    lemma_sqrt_floor(x);
    let s = sqrt_floor(x);
    if r < s {
        assert((r + 1) * (r + 1) <= s * s) by (nonlinear_arith)
            requires
                0 <= r && r < s,
        ;
    }
    if s < r {
        assert((s + 1) * (s + 1) <= r * r) by (nonlinear_arith)
            requires
                0 <= s && s < r,
        ;
    }
}

/// Squared Euclidean distance between two points, in raw units squared.
pub open spec fn sq_dist(a: Vec2, b: Vec2) -> int {
    (a.x.v() - b.x.v()) * (a.x.v() - b.x.v()) + (a.y.v() - b.y.v()) * (a.y.v() - b.y.v())
}

/// A 2D vector; a pure value type.
#[derive(Clone, Copy, PartialEq, Eq, Structural, Debug)]
pub struct Vec2 {
    pub x: Scalar,
    pub y: Scalar,
}

impl Vec2 {
    /// Builds the vector `(x, y)`.
    pub fn new(x: Scalar, y: Scalar) -> (r: Vec2)
        ensures
            r.x == x,
            r.y == y,
    {
        Vec2 { x, y }
    }

    /// The origin `(0, 0)`.
    pub fn zero() -> (r: Vec2)
        ensures
            r.x.v() == 0,
            r.y.v() == 0,
    {
        Vec2 { x: Scalar::zero(), y: Scalar::zero() }
    }

    /// The vector `(1, 1)`.
    pub fn unit() -> (r: Vec2)
        ensures
            r.x.v() == UNIT,
            r.y.v() == UNIT,
    {
        Vec2 { x: Scalar::from_int(1), y: Scalar::from_int(1) }
    }

    /// The first component.
    pub fn x(&self) -> (r: Scalar)
        ensures
            r == self.x,
    {
        self.x
    }

    /// The second component.
    pub fn y(&self) -> (r: Scalar)
        ensures
            r == self.y,
    {
        self.y
    }

    /// Componentwise sum.
    pub fn add(self, rhs: Vec2) -> (r: Vec2)
        requires
            fits(self.x.v() + rhs.x.v()),
            fits(self.y.v() + rhs.y.v()),
        ensures
            r.x.v() == self.x.v() + rhs.x.v(),
            r.y.v() == self.y.v() + rhs.y.v(),
    {
        Vec2 { x: self.x.add(rhs.x), y: self.y.add(rhs.y) }
    }

    /// Componentwise difference.
    pub fn sub(self, rhs: Vec2) -> (r: Vec2)
        requires
            fits(self.x.v() - rhs.x.v()),
            fits(self.y.v() - rhs.y.v()),
        ensures
            r.x.v() == self.x.v() - rhs.x.v(),
            r.y.v() == self.y.v() - rhs.y.v(),
    {
        Vec2 { x: self.x.sub(rhs.x), y: self.y.sub(rhs.y) }
    }

    /// Componentwise product.
    pub fn mul(self, rhs: Vec2) -> (r: Vec2)
        requires
            fits(self.x.v() * rhs.x.v()),
            fits(self.y.v() * rhs.y.v()),
        ensures
            r.x.v() == trunc_div(self.x.v() * rhs.x.v(), UNIT as int),
            r.y.v() == trunc_div(self.y.v() * rhs.y.v(), UNIT as int),
    {
        Vec2 { x: self.x.mul(rhs.x), y: self.y.mul(rhs.y) }
    }

    /// Product with a scalar.
    pub fn scale(self, rhs: Scalar) -> (r: Vec2)
        requires
            fits(self.x.v() * rhs.v()),
            fits(self.y.v() * rhs.v()),
        ensures
            r.x.v() == trunc_div(self.x.v() * rhs.v(), UNIT as int),
            r.y.v() == trunc_div(self.y.v() * rhs.v(), UNIT as int),
    {
        Vec2 { x: self.x.mul(rhs), y: self.y.mul(rhs) }
    }

    /// Quotient by a positive scalar.
    pub fn div(self, rhs: Scalar) -> (r: Vec2)
        requires
            rhs.v() > 0,
            fits(self.x.v() * UNIT),
            fits(self.y.v() * UNIT),
        ensures
            r.x.v() == trunc_div(self.x.v() * UNIT, rhs.v()),
            r.y.v() == trunc_div(self.y.v() * UNIT, rhs.v()),
    {
        Vec2 { x: self.x.div(rhs), y: self.y.div(rhs) }
    }

    /// Euclidean distance, rounded down to the scalar resolution.
    pub fn dist(&self, other: &Vec2) -> (r: Scalar)
        requires
            fits(self.x.v() - other.x.v()),
            fits(self.y.v() - other.y.v()),
            sq_dist(*self, *other) <= i128::MAX as int,
        ensures
            r.v() == sqrt_floor(sq_dist(*self, *other)),
    {
        let dx: i128 = self.x.raw - other.x.raw;
        let dy: i128 = self.y.raw - other.y.raw;
        let dxa: u128 = if dx < 0 {
            (-dx) as u128
        } else {
            dx as u128
        };
        let dya: u128 = if dy < 0 {
            (-dy) as u128
        } else {
            dy as u128
        };
        proof {
            assert(dxa * dxa == dx * dx && dya * dya == dy * dy) by (nonlinear_arith)
                requires
                    (dx < 0 ==> dxa == -dx) && (dx >= 0 ==> dxa == dx) && (dy < 0 ==> dya == -dy)
                        && (dy >= 0 ==> dya == dy),
            ;
            assert(dxa * dxa + dya * dya <= u128::MAX as int);
        }
        let s: u128 = dxa * dxa + dya * dya;
        let r: u128 = isqrt(s);
        proof {
            lemma_sqrt_floor_unique(s as int, r as int);
        }
        Scalar { raw: r as i128 }
    }
}

} // verus!
