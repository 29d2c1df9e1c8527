//! Point masses: position, velocity, an accumulated per-step force, and
//! the gravitational interactions between them.

use vstd::prelude::*;

use crate::scalar::{fits, trunc_div, Scalar, UNIT};
use crate::vec2::{lemma_sqrt_floor, sq_dist, sqrt_floor, Vec2};

verus! {

/// The gravitational constant `6.67408e-11`, in raw fixed-point units.
pub const G_RAW: i128 = 667_408;

/// The gravitational constant as a scalar.
pub fn g() -> (r: Scalar)
    ensures
        r.v() == G_RAW,
{
    Scalar { raw: G_RAW }
}

/// Fixed-point product of two raw values.
pub open spec fn spec_mul(a: int, b: int) -> int {
    trunc_div(a * b, UNIT as int)
}

/// Fixed-point quotient of two raw values.
pub open spec fn spec_div(a: int, b: int) -> int {
    trunc_div(a * UNIT, b)
}

/// A point mass. `force` accumulates the net gravitational force over one
/// step; `mass` is fixed after construction and must be positive for
/// integration to be meaningful.
#[derive(Clone, Copy, PartialEq, Eq, Structural, Debug)]
pub struct Body {
    pub pos: Vec2,
    pub velocity: Vec2,
    pub force: Vec2,
    pub mass: Scalar,
}

/// The distance between the positions of `a` and `b`, as `dist` computes it.
pub open spec fn body_dist(a: Body, b: Body) -> int {
    sqrt_floor(sq_dist(a.pos, b.pos))
}

/// Whether every intermediate of `add_force(a, b)` stays in machine range
/// and no division degenerates; positions closer than the scalar
/// resolution (in particular, coincident ones) are excluded here, the
/// fixed-point echo of the zero-distance singularity.
pub open spec fn add_force_defined(a: Body, b: Body) -> bool {
    let d = body_dist(a, b);
    let d2 = spec_mul(d, d);
    let f1 = spec_mul(a.mass.v(), b.mass.v());
    let f2 = spec_mul(f1, G_RAW as int);
    let f = spec_div(f2, d2);
    let dx = a.pos.x.v() - b.pos.x.v();
    let dy = a.pos.y.v() - b.pos.y.v();
    &&& fits(dx)
    &&& fits(dy)
    &&& sq_dist(a.pos, b.pos) <= i128::MAX as int
    &&& d2 > 0
    &&& fits(a.mass.v() * b.mass.v())
    &&& fits(f1 * G_RAW)
    &&& fits(f2 * UNIT)
    &&& fits(dx * f)
    &&& fits(dy * f)
    &&& fits(spec_mul(dx, f) * UNIT)
    &&& fits(spec_mul(dy, f) * UNIT)
    &&& fits(a.force.x.v() + spec_div(spec_mul(dx, f), d))
    &&& fits(a.force.y.v() + spec_div(spec_mul(dy, f), d))
}

/// The contribution `add_force(a, b)` accumulates into `a.force`: Newton's
/// law `G * m_a * m_b / d^2`, directed from `b` toward `a`.
pub open spec fn force_delta(a: Body, b: Body) -> Vec2 {
    let d = body_dist(a, b);
    let d2 = spec_mul(d, d);
    let f = spec_div(spec_mul(spec_mul(a.mass.v(), b.mass.v()), G_RAW as int), d2);
    let dx = a.pos.x.v() - b.pos.x.v();
    let dy = a.pos.y.v() - b.pos.y.v();
    Vec2 {
        x: Scalar { raw: spec_div(spec_mul(dx, f), d) as i128 },
        y: Scalar { raw: spec_div(spec_mul(dy, f), d) as i128 },
    }
}

/// Whether every intermediate of `update(b, dt)` stays in machine range.
pub open spec fn update_defined(b: Body, dt: Scalar) -> bool {
    let ax = spec_div(spec_mul(b.force.x.v(), dt.v()), b.mass.v());
    let ay = spec_div(spec_mul(b.force.y.v(), dt.v()), b.mass.v());
    let vx = b.velocity.x.v() + ax;
    let vy = b.velocity.y.v() + ay;
    &&& b.mass.v() > 0
    &&& fits(b.force.x.v() * dt.v())
    &&& fits(b.force.y.v() * dt.v())
    &&& fits(spec_mul(b.force.x.v(), dt.v()) * UNIT)
    &&& fits(spec_mul(b.force.y.v(), dt.v()) * UNIT)
    &&& fits(vx)
    &&& fits(vy)
    &&& fits(vx * dt.v())
    &&& fits(vy * dt.v())
    &&& fits(b.pos.x.v() + spec_mul(vx, dt.v()))
    &&& fits(b.pos.y.v() + spec_mul(vy, dt.v()))
}

/// The body after one semi-implicit Euler step: velocity first, from the
/// current force, then position, from the new velocity.
pub open spec fn updated(b: Body, dt: Scalar) -> Body {
    let vx = b.velocity.x.v() + spec_div(spec_mul(b.force.x.v(), dt.v()), b.mass.v());
    let vy = b.velocity.y.v() + spec_div(spec_mul(b.force.y.v(), dt.v()), b.mass.v());
    Body {
        pos: Vec2 {
            x: Scalar { raw: (b.pos.x.v() + spec_mul(vx, dt.v())) as i128 },
            y: Scalar { raw: (b.pos.y.v() + spec_mul(vy, dt.v())) as i128 },
        },
        velocity: Vec2 { x: Scalar { raw: vx as i128 }, y: Scalar { raw: vy as i128 } },
        force: b.force,
        mass: b.mass,
    }
}

/// Whether every intermediate of `combine(a, b)` stays in machine range.
pub open spec fn combine_defined(a: Body, b: Body) -> bool {
    &&& a.mass.v() > 0
    &&& b.mass.v() > 0
    &&& fits(a.mass.v() + b.mass.v())
    &&& fits(a.pos.x.v() * a.mass.v())
    &&& fits(a.pos.y.v() * a.mass.v())
    &&& fits(b.pos.x.v() * b.mass.v())
    &&& fits(b.pos.y.v() * b.mass.v())
    &&& fits(spec_mul(a.pos.x.v(), a.mass.v()) + spec_mul(b.pos.x.v(), b.mass.v()))
    &&& fits(spec_mul(a.pos.y.v(), a.mass.v()) + spec_mul(b.pos.y.v(), b.mass.v()))
    &&& fits((spec_mul(a.pos.x.v(), a.mass.v()) + spec_mul(b.pos.x.v(), b.mass.v())) * UNIT)
    &&& fits((spec_mul(a.pos.y.v(), a.mass.v()) + spec_mul(b.pos.y.v(), b.mass.v())) * UNIT)
}

/// The synthetic aggregate of two bodies: summed mass, mass-weighted
/// centroid; velocity and force carry over from the first operand and are
/// never read for aggregates.
pub open spec fn combined(a: Body, b: Body) -> Body {
    let m = a.mass.v() + b.mass.v();
    let px = spec_div(spec_mul(a.pos.x.v(), a.mass.v()) + spec_mul(b.pos.x.v(), b.mass.v()), m);
    let py = spec_div(spec_mul(a.pos.y.v(), a.mass.v()) + spec_mul(b.pos.y.v(), b.mass.v()), m);
    Body {
        pos: Vec2 { x: Scalar { raw: px as i128 }, y: Scalar { raw: py as i128 } },
        velocity: a.velocity,
        force: a.force,
        mass: Scalar { raw: m as i128 },
    }
}

impl Body {
    /// Builds a body at `pos` with the given velocity and mass, and no
    /// accumulated force yet.
    pub fn new(pos: Vec2, velocity: Vec2, mass: Scalar) -> (r: Body)
        ensures
            r.pos == pos,
            r.velocity == velocity,
            r.mass == mass,
            r.force.x.v() == 0,
            r.force.y.v() == 0,
    {
        Body { pos, velocity, force: Vec2::zero(), mass }
    }

    /// The current position.
    pub fn pos(&self) -> (r: &Vec2)
        ensures
            *r == self.pos,
    {
        &self.pos
    }

    /// The current velocity.
    pub fn velocity(&self) -> (r: &Vec2)
        ensures
            *r == self.velocity,
    {
        &self.velocity
    }

    /// The force accumulated so far this step.
    pub fn force(&self) -> (r: &Vec2)
        ensures
            *r == self.force,
    {
        &self.force
    }

    /// The mass.
    pub fn mass(&self) -> (r: Scalar)
        ensures
            r == self.mass,
    {
        self.mass
    }

    /// Clears the force accumulator at the start of a step.
    pub fn reset_force(&mut self)
        ensures
            final(self).force.x.v() == 0,
            final(self).force.y.v() == 0,
            final(self).pos == old(self).pos,
            final(self).velocity == old(self).velocity,
            final(self).mass == old(self).mass,
    {
        self.force = Vec2::zero();
    }

    /// Accumulates into `self.force` the gravitational pull of `other` on
    /// `self`, directed from `other` toward `self`.
    pub fn add_force(&mut self, other: &Body)
        requires
            add_force_defined(*old(self), *other),
        ensures
            final(self).force.x.v() == old(self).force.x.v() + force_delta(*old(self), *other).x.v(),
            final(self).force.y.v() == old(self).force.y.v() + force_delta(*old(self), *other).y.v(),
            final(self).pos == old(self).pos,
            final(self).velocity == old(self).velocity,
            final(self).mass == old(self).mass,
    {
        proof {
            lemma_sqrt_floor(sq_dist(self.pos, other.pos));
            let d = body_dist(*self, *other);
            assert(spec_mul(d, d) > 0 ==> d > 0);
        }
        let diff = self.pos.sub(other.pos);
        let d = self.pos.dist(&other.pos);
        let d2 = d.mul(d);
        let f = self.mass.mul(other.mass).mul(g()).div(d2);
        let delta = diff.scale(f).div(d);
        self.force = self.force.add(delta);
    }

    /// Advances velocity from the accumulated force, then position from
    /// the new velocity, over the interval `dt`.
    pub fn update(&mut self, dt: Scalar)
        requires
            update_defined(*old(self), dt),
        ensures
            *final(self) == updated(*old(self), dt),
    {
        self.velocity = self.velocity.add(self.force.scale(dt).div(self.mass));
        self.pos = self.pos.add(self.velocity.scale(dt));
    }

    /// Returns the mass-weighted aggregate of `self` and `other`.
    pub fn combine(&self, other: &Body) -> (r: Body)
        requires
            combine_defined(*self, *other),
        ensures
            r == combined(*self, *other),
    {
        let m = self.mass.add(other.mass);
        let weighted = self.pos.scale(self.mass).add(other.pos.scale(other.mass));
        Body { pos: weighted.div(m), velocity: self.velocity, force: self.force, mass: m }
    }
}

/// A defined contribution stays in machine range: the force delta's
/// components are exact values and adding them to the accumulator fits.
pub proof fn lemma_force_delta_in_range(a: Body, b: Body)
    requires
        add_force_defined(a, b),
    ensures
        fits(force_delta(a, b).x.v()),
        fits(force_delta(a, b).y.v()),
        force_delta(a, b).x.v() == spec_div(
            spec_mul(
                a.pos.x.v() - b.pos.x.v(),
                spec_div(spec_mul(spec_mul(a.mass.v(), b.mass.v()), G_RAW as int), spec_mul(body_dist(a, b), body_dist(a, b))),
            ),
            body_dist(a, b),
        ),
        fits(a.force.x.v() + force_delta(a, b).x.v()),
        fits(a.force.y.v() + force_delta(a, b).y.v()),
{
    let d = body_dist(a, b);
    let d2 = spec_mul(d, d);
    lemma_sqrt_floor(sq_dist(a.pos, b.pos));
    assert(d > 0);
    let f = spec_div(spec_mul(spec_mul(a.mass.v(), b.mass.v()), G_RAW as int), d2);
    let dx = a.pos.x.v() - b.pos.x.v();
    let dy = a.pos.y.v() - b.pos.y.v();
    crate::scalar::lemma_trunc_div_le(spec_mul(dx, f) * UNIT, d);
    crate::scalar::lemma_trunc_div_le(spec_mul(dy, f) * UNIT, d);
    assert(fits(spec_div(spec_mul(dx, f), d)));
    assert(fits(spec_div(spec_mul(dy, f), d)));
}

/// Newton's third law: for bodies at distinct positions the two pairwise
/// contributions are equal in magnitude and opposite in direction.
pub proof fn lemma_newton_third_law(a: Body, b: Body)
    requires
        add_force_defined(a, b),
        add_force_defined(b, a),
    ensures
        force_delta(a, b).x.v() == -force_delta(b, a).x.v(),
        force_delta(a, b).y.v() == -force_delta(b, a).y.v(),
{
    let dxa = a.pos.x.v() - b.pos.x.v();
    let dya = a.pos.y.v() - b.pos.y.v();
    assert(sq_dist(a.pos, b.pos) == sq_dist(b.pos, a.pos)) by (nonlinear_arith);
    let d = body_dist(a, b);
    let d2 = spec_mul(d, d);
    lemma_sqrt_floor(sq_dist(a.pos, b.pos));
    assert(d > 0);
    assert(a.mass.v() * b.mass.v() == b.mass.v() * a.mass.v()) by (nonlinear_arith);
    let f = spec_div(spec_mul(spec_mul(a.mass.v(), b.mass.v()), G_RAW as int), d2);
    assert((-dxa) * f == -(dxa * f)) by (nonlinear_arith);
    assert((-dya) * f == -(dya * f)) by (nonlinear_arith);
    crate::scalar::lemma_trunc_div_neg(dxa * f, UNIT as int);
    crate::scalar::lemma_trunc_div_neg(dya * f, UNIT as int);
    assert((-spec_mul(dxa, f)) * UNIT == -(spec_mul(dxa, f) * UNIT)) by (nonlinear_arith);
    assert((-spec_mul(dya, f)) * UNIT == -(spec_mul(dya, f) * UNIT)) by (nonlinear_arith);
    crate::scalar::lemma_trunc_div_neg(spec_mul(dxa, f) * UNIT, d);
    crate::scalar::lemma_trunc_div_neg(spec_mul(dya, f) * UNIT, d);
}

/// Combining is order-independent: both orders give the same mass and the
/// same centroid position.
pub proof fn lemma_combine_commutes(a: Body, b: Body)
    requires
        combine_defined(a, b),
        combine_defined(b, a),
    ensures
        combined(a, b).mass == combined(b, a).mass,
        combined(a, b).pos == combined(b, a).pos,
{
}

} // verus!
