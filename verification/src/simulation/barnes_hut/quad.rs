//! Axis-aligned square regions: inclusive containment and subdivision
//! into four equal quadrants.

use vstd::prelude::*;

use crate::scalar::{trunc_div, Scalar};
use crate::vec2::Vec2;

verus! {

/// Greatest magnitude a region coordinate or side length may have; keeps
/// every subdivision and containment computation inside machine range.
pub const COORD_LIMIT: i128 = 4_000_000_000_000_000_000;

/// A square region of side `length` centered at `center`.
#[derive(Clone, Copy, PartialEq, Eq, Structural, Debug)]
pub struct Quad {
    pub center: Vec2,
    pub length: Scalar,
}

/// Half the side length, rounded toward zero.
pub open spec fn half_v(q: Quad) -> int {
    trunc_div(q.length.v(), 2)
}

/// A quarter of the side length, rounded toward zero.
pub open spec fn quarter_v(q: Quad) -> int {
    trunc_div(q.length.v(), 4)
}

/// Inclusive containment: boundary points belong to the region.
pub open spec fn spec_contains(q: Quad, p: Vec2) -> bool {
    &&& p.x.v() <= q.center.x.v() + half_v(q)
    &&& p.x.v() >= q.center.x.v() - half_v(q)
    &&& p.y.v() <= q.center.y.v() + half_v(q)
    &&& p.y.v() >= q.center.y.v() - half_v(q)
}

/// Strict containment: the open interior of the region.
pub open spec fn spec_inside(q: Quad, p: Vec2) -> bool {
    &&& p.x.v() < q.center.x.v() + half_v(q)
    &&& p.x.v() > q.center.x.v() - half_v(q)
    &&& p.y.v() < q.center.y.v() + half_v(q)
    &&& p.y.v() > q.center.y.v() - half_v(q)
}

pub open spec fn spec_northwest(q: Quad) -> Quad {
    Quad {
        center: Vec2 {
            x: Scalar { raw: (q.center.x.v() - quarter_v(q)) as i128 },
            y: Scalar { raw: (q.center.y.v() + quarter_v(q)) as i128 },
        },
        length: Scalar { raw: half_v(q) as i128 },
    }
}

pub open spec fn spec_northeast(q: Quad) -> Quad {
    Quad {
        center: Vec2 {
            x: Scalar { raw: (q.center.x.v() + quarter_v(q)) as i128 },
            y: Scalar { raw: (q.center.y.v() + quarter_v(q)) as i128 },
        },
        length: Scalar { raw: half_v(q) as i128 },
    }
}

pub open spec fn spec_southwest(q: Quad) -> Quad {
    Quad {
        center: Vec2 {
            x: Scalar { raw: (q.center.x.v() - quarter_v(q)) as i128 },
            y: Scalar { raw: (q.center.y.v() - quarter_v(q)) as i128 },
        },
        length: Scalar { raw: half_v(q) as i128 },
    }
}

pub open spec fn spec_southeast(q: Quad) -> Quad {
    Quad {
        center: Vec2 {
            x: Scalar { raw: (q.center.x.v() + quarter_v(q)) as i128 },
            y: Scalar { raw: (q.center.y.v() - quarter_v(q)) as i128 },
        },
        length: Scalar { raw: half_v(q) as i128 },
    }
}

impl Quad {
    /// A region is well formed when its side is non-negative and it sits
    /// within the coordinate budget; subdivision preserves this.
    pub open spec fn wf(self) -> bool {
        &&& self.length.v() >= 0
        &&& -COORD_LIMIT <= self.center.x.v() - self.length.v()
        &&& self.center.x.v() + self.length.v() <= COORD_LIMIT
        &&& -COORD_LIMIT <= self.center.y.v() - self.length.v()
        &&& self.center.y.v() + self.length.v() <= COORD_LIMIT
    }

    /// Builds the square of side `length` centered at `center`.
    pub fn new(center: Vec2, length: Scalar) -> (r: Quad)
        ensures
            r.center == center,
            r.length == length,
    {
        Quad { center, length }
    }

    /// Inclusive bounds test on both axes.
    pub fn contains(&self, point: &Vec2) -> (r: bool)
        requires
            self.wf(),
        ensures
            r == spec_contains(*self, *point),
    {
        let half_length: i128 = self.length.raw / 2;

        point.x.raw <= self.center.x.raw + half_length && point.x.raw >= self.center.x.raw
            - half_length && point.y.raw <= self.center.y.raw + half_length && point.y.raw
            >= self.center.y.raw - half_length
    }

    /// The side length.
    pub fn length(&self) -> (r: Scalar)
        ensures
            r == self.length,
    {
        self.length
    }

    /// The upper-left quadrant: half the side, centered up and left.
    pub fn northwest(&self) -> (r: Quad)
        requires
            self.wf(),
        ensures
            r == spec_northwest(*self),
            r.wf(),
    {
        let quarter: i128 = self.length.raw / 4;
        Quad {
            center: Vec2 {
                x: Scalar { raw: self.center.x.raw - quarter },
                y: Scalar { raw: self.center.y.raw + quarter },
            },
            length: Scalar { raw: self.length.raw / 2 },
        }
    }

    /// The upper-right quadrant: half the side, centered up and right.
    pub fn northeast(&self) -> (r: Quad)
        requires
            self.wf(),
        ensures
            r == spec_northeast(*self),
            r.wf(),
    {
        let quarter: i128 = self.length.raw / 4;
        Quad {
            center: Vec2 {
                x: Scalar { raw: self.center.x.raw + quarter },
                y: Scalar { raw: self.center.y.raw + quarter },
            },
            length: Scalar { raw: self.length.raw / 2 },
        }
    }

    /// The lower-left quadrant: half the side, centered down and left.
    pub fn southwest(&self) -> (r: Quad)
        requires
            self.wf(),
        ensures
            r == spec_southwest(*self),
            r.wf(),
    {
        let quarter: i128 = self.length.raw / 4;
        Quad {
            center: Vec2 {
                x: Scalar { raw: self.center.x.raw - quarter },
                y: Scalar { raw: self.center.y.raw - quarter },
            },
            length: Scalar { raw: self.length.raw / 2 },
        }
    }

    /// The lower-right quadrant: half the side, centered down and right.
    pub fn southeast(&self) -> (r: Quad)
        requires
            self.wf(),
        ensures
            r == spec_southeast(*self),
            r.wf(),
    {
        let quarter: i128 = self.length.raw / 4;
        Quad {
            center: Vec2 {
                x: Scalar { raw: self.center.x.raw + quarter },
                y: Scalar { raw: self.center.y.raw - quarter },
            },
            length: Scalar { raw: self.length.raw / 2 },
        }
    }
}

/// When the side length splits evenly into quarters, the four
/// subdivisions exactly tile the parent: a point lies in the parent
/// exactly when it lies in at least one child.
pub proof fn lemma_subdivisions_tile(q: Quad, p: Vec2)
    requires
        q.wf(),
        q.length.v() % 4 == 0,
    ensures
        spec_contains(q, p) <==> (spec_contains(spec_northwest(q), p) || spec_contains(
            spec_northeast(q),
            p,
        ) || spec_contains(spec_southwest(q), p) || spec_contains(spec_southeast(q), p)),
{
}

/// The open interiors of distinct subdivisions do not overlap.
pub proof fn lemma_subdivision_interiors_disjoint(q: Quad, p: Vec2)
    requires
        q.wf(),
        q.length.v() % 4 == 0,
    ensures
        !(spec_inside(spec_northwest(q), p) && spec_inside(spec_northeast(q), p)),
        !(spec_inside(spec_northwest(q), p) && spec_inside(spec_southwest(q), p)),
        !(spec_inside(spec_northwest(q), p) && spec_inside(spec_southeast(q), p)),
        !(spec_inside(spec_northeast(q), p) && spec_inside(spec_southwest(q), p)),
        !(spec_inside(spec_northeast(q), p) && spec_inside(spec_southeast(q), p)),
        !(spec_inside(spec_southwest(q), p) && spec_inside(spec_southeast(q), p)),
{
}

/// The four child areas sum exactly to the parent area.
pub proof fn lemma_subdivision_areas(q: Quad)
    requires
        q.wf(),
        q.length.v() % 4 == 0,
    ensures
        4 * (half_v(q) * half_v(q)) == q.length.v() * q.length.v(),
{
    let l = q.length.v();
    let h = half_v(q);
    assert(l % 2 == 0 && h == l / 2 && 2 * h == l);
    assert(4 * ((l / 2) * (l / 2)) == l * l) by (nonlinear_arith)
        requires
            l >= 0 && l % 2 == 0,
    ;
}

} // verus!
