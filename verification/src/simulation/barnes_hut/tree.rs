//! The Barnes-Hut quadtree: recursive spatial subdivision with exact
//! mass aggregation at every node.
//!
//! Instead of folding a running centroid (whose rounding would depend on
//! insertion order), every node keeps the exact sum of the masses and of
//! the fixed-point mass-position products of its subtree. The aggregate
//! centroid is derived from those sums, so it is a function of the set of
//! inserted bodies alone.

use vstd::prelude::*;

use vstd::multiset::Multiset;
use vstd::seq_lib::*;

use crate::body::{
    add_force_defined, force_delta, spec_div, spec_mul, Body,
};
use crate::scalar::{fits, trunc_div, Scalar, UNIT};
use crate::simulation::barnes_hut::quad::{
    spec_contains, spec_northeast, spec_northwest, spec_southeast, spec_southwest, Quad,
    COORD_LIMIT,
};
use crate::vec2::Vec2;

verus! {

/// Greatest total mass a tree may aggregate; keeps the centroid division
/// inside machine range.
pub const MASS_TOTAL_LIMIT: i128 = 40_000_000_000_000_000_000;

/// How many levels an insertion may descend before it gives up. Each
/// level halves the side length, so this exhausts any representable
/// region down to single points; only bodies that no subdivision can
/// separate (closer than the scalar resolution) ever reach the cutoff.
pub const INSERT_DEPTH: u64 = 200;

/// A body a tree can hold: positive mass within the aggregation budget,
/// position within the coordinate budget.
pub open spec fn body_ok(b: Body) -> bool {
    &&& 0 < b.mass.v() <= MASS_TOTAL_LIMIT
    &&& -COORD_LIMIT <= b.pos.x.v() <= COORD_LIMIT
    &&& -COORD_LIMIT <= b.pos.y.v() <= COORD_LIMIT
}

pub open spec fn all_ok(s: Seq<Body>) -> bool {
    forall|i: int| 0 <= i < s.len() ==> body_ok(#[trigger] s[i])
}

/// Sum of the masses of a sequence of bodies, in raw units.
pub open spec fn mass_sum(s: Seq<Body>) -> int
    decreases s.len(),
{
    if s.len() == 0 {
        0
    } else {
        mass_sum(s.drop_last()) + s.last().mass.v()
    }
}

/// Sum of the fixed-point products mass times x-position.
pub open spec fn moment_x_sum(s: Seq<Body>) -> int
    decreases s.len(),
{
    if s.len() == 0 {
        0
    } else {
        moment_x_sum(s.drop_last()) + spec_mul(s.last().mass.v(), s.last().pos.x.v())
    }
}

/// Sum of the fixed-point products mass times y-position.
pub open spec fn moment_y_sum(s: Seq<Body>) -> int
    decreases s.len(),
{
    if s.len() == 0 {
        0
    } else {
        moment_y_sum(s.drop_last()) + spec_mul(s.last().mass.v(), s.last().pos.y.v())
    }
}

/// A quadtree node. `leaf_body` is `Some` exactly on an external node
/// holding one raw body; `mass_total` and `moment` are the exact subtree
/// sums the aggregate is derived from.
pub struct BarnesHutTree {
    pub quad: Quad,
    pub leaf_body: Option<Body>,
    pub mass_total: Scalar,
    pub moment: Vec2,
    pub northwest: Option<Box<BarnesHutTree>>,
    pub northeast: Option<Box<BarnesHutTree>>,
    pub southwest: Option<Box<BarnesHutTree>>,
    pub southeast: Option<Box<BarnesHutTree>>,
}

/// The bodies below an optional child, left to right.
pub open spec fn opt_bodies(c: Option<Box<BarnesHutTree>>) -> Seq<Body>
    decreases c,
{
    match c {
        Option::Some(t) => t.bodies(),
        Option::None => Seq::empty(),
    }
}

/// Well-formedness of an optional child over its expected region.
pub open spec fn child_wf(c: Option<Box<BarnesHutTree>>, q: Quad) -> bool
    decreases c,
{
    match c {
        Option::Some(t) => t.wf() && t.quad == q,
        Option::None => true,
    }
}

/// The concatenation of all four children's bodies.
pub open spec fn children_bodies(t: BarnesHutTree) -> Seq<Body> {
    opt_bodies(t.northwest) + opt_bodies(t.northeast) + opt_bodies(t.southwest) + opt_bodies(
        t.southeast,
    )
}

impl BarnesHutTree {
    /// A node with no child slots filled; it holds at most one raw body.
    pub open spec fn is_external_spec(self) -> bool {
        &&& self.northwest is None
        &&& self.northeast is None
        &&& self.southwest is None
        &&& self.southeast is None
    }

    /// Every raw body stored at an external node of this subtree.
    pub open spec fn bodies(self) -> Seq<Body>
        decreases self,
    {
        if self.is_external_spec() {
            match self.leaf_body {
                Option::Some(b) => seq![b],
                Option::None => Seq::empty(),
            }
        } else {
            opt_bodies(self.northwest) + opt_bodies(self.northeast) + opt_bodies(self.southwest)
                + opt_bodies(self.southeast)
        }
    }

    /// The structural invariant: the region is well formed, every stored
    /// body is within budget, the cached sums equal the true sums over
    /// the stored bodies, internal nodes hold no raw body but at least
    /// one stored one, and each child sits over its parent's quadrant.
    pub open spec fn wf(self) -> bool
        decreases self,
    {
        &&& self.quad.wf()
        &&& all_ok(self.bodies())
        &&& self.mass_total.v() == mass_sum(self.bodies())
        &&& self.moment.x.v() == moment_x_sum(self.bodies())
        &&& self.moment.y.v() == moment_y_sum(self.bodies())
        &&& mass_sum(self.bodies()) <= MASS_TOTAL_LIMIT
        &&& !self.is_external_spec() ==> (self.leaf_body is None && self.bodies().len() >= 1)
        &&& child_wf(self.northwest, spec_northwest(self.quad))
        &&& child_wf(self.northeast, spec_northeast(self.quad))
        &&& child_wf(self.southwest, spec_southwest(self.quad))
        &&& child_wf(self.southeast, spec_southeast(self.quad))
    }

    /// The synthetic composite the node answers queries with: an external
    /// node's raw body, or a body of the subtree's total mass at its
    /// mass-weighted centroid (velocity and force are not defined
    /// quantities for aggregates and are zero here).
    pub open spec fn spec_aggregate(self) -> Option<Body> {
        if self.is_external_spec() {
            self.leaf_body
        } else {
            Option::Some(
                Body {
                    pos: Vec2 {
                        x: Scalar {
                            raw: spec_div(self.moment.x.v(), self.mass_total.v()) as i128,
                        },
                        y: Scalar {
                            raw: spec_div(self.moment.y.v(), self.mass_total.v()) as i128,
                        },
                    },
                    velocity: Vec2 { x: Scalar { raw: 0 }, y: Scalar { raw: 0 } },
                    force: Vec2 { x: Scalar { raw: 0 }, y: Scalar { raw: 0 } },
                    mass: self.mass_total,
                },
            )
        }
    }
}

/// The empty tree over a region.
pub open spec fn spec_empty(q: Quad) -> BarnesHutTree {
    BarnesHutTree {
        quad: q,
        leaf_body: Option::None,
        mass_total: Scalar { raw: 0 },
        moment: Vec2 { x: Scalar { raw: 0 }, y: Scalar { raw: 0 } },
        northwest: Option::None,
        northeast: Option::None,
        southwest: Option::None,
        southeast: Option::None,
    }
}

/// An external node holding exactly `b`.
pub open spec fn spec_store(t: BarnesHutTree, b: Body) -> BarnesHutTree {
    BarnesHutTree {
        leaf_body: Option::Some(b),
        mass_total: b.mass,
        moment: Vec2 {
            x: Scalar { raw: spec_mul(b.mass.v(), b.pos.x.v()) as i128 },
            y: Scalar { raw: spec_mul(b.mass.v(), b.pos.y.v()) as i128 },
        },
        ..t
    }
}

/// `t` with `b`'s mass and moment added to the cached sums.
pub open spec fn spec_add_sums(t: BarnesHutTree, b: Body) -> BarnesHutTree {
    BarnesHutTree {
        mass_total: Scalar { raw: (t.mass_total.v() + b.mass.v()) as i128 },
        moment: Vec2 {
            x: Scalar { raw: (t.moment.x.v() + spec_mul(b.mass.v(), b.pos.x.v())) as i128 },
            y: Scalar { raw: (t.moment.y.v() + spec_mul(b.mass.v(), b.pos.y.v())) as i128 },
        },
        ..t
    }
}

/// The child in the slot, or a fresh empty tree over that quadrant.
pub open spec fn child_or_empty(c: Option<Box<BarnesHutTree>>, q: Quad) -> BarnesHutTree {
    match c {
        Option::Some(t) => *t,
        Option::None => spec_empty(q),
    }
}

/// Inserting into a node: an empty node stores the body; an occupied
/// external node pushes its body down into the proper quadrant, then
/// routes the new body the same way; an internal node routes the new
/// body and, on success, updates its sums. `depth` bounds the descent;
/// an exhausted insertion returns the tree it reached and `false`.
pub open spec fn spec_insert(t: BarnesHutTree, b: Body, depth: nat) -> (BarnesHutTree, bool)
    decreases depth, 0nat,
{
    if t.is_external_spec() {
        match t.leaf_body {
            Option::None => (spec_store(t, b), true),
            Option::Some(existing) => {
                if depth == 0 {
                    (t, false)
                } else {
                    let hollow = BarnesHutTree { leaf_body: Option::None, ..t };
                    let (pushed, ok1) = spec_insert_proper(hollow, existing, (depth - 1) as nat);
                    let (routed, ok2) = spec_insert_proper(pushed, b, (depth - 1) as nat);
                    if ok2 {
                        (spec_add_sums(routed, b), true)
                    } else {
                        (routed, false)
                    }
                }
            },
        }
    } else {
        if depth == 0 {
            (t, false)
        } else {
            let (routed, ok) = spec_insert_proper(t, b, (depth - 1) as nat);
            if ok {
                (spec_add_sums(routed, b), true)
            } else {
                (routed, false)
            }
        }
    }
}

/// Routes `b` into the first of NW, NE, SW whose region contains it,
/// falling back to SE, creating the child if absent. Touches only the
/// chosen child slot, never the node's own body or sums.
pub open spec fn spec_insert_proper(t: BarnesHutTree, b: Body, depth: nat) -> (
    BarnesHutTree,
    bool,
)
    decreases depth, 1nat,
{
    let qnw = spec_northwest(t.quad);
    let qne = spec_northeast(t.quad);
    let qsw = spec_southwest(t.quad);
    let qse = spec_southeast(t.quad);
    if spec_contains(qnw, b.pos) {
        let (c, ok) = spec_insert(child_or_empty(t.northwest, qnw), b, depth);
        (BarnesHutTree { northwest: Option::Some(Box::new(c)), ..t }, ok)
    } else if spec_contains(qne, b.pos) {
        let (c, ok) = spec_insert(child_or_empty(t.northeast, qne), b, depth);
        (BarnesHutTree { northeast: Option::Some(Box::new(c)), ..t }, ok)
    } else if spec_contains(qsw, b.pos) {
        let (c, ok) = spec_insert(child_or_empty(t.southwest, qsw), b, depth);
        (BarnesHutTree { southwest: Option::Some(Box::new(c)), ..t }, ok)
    } else {
        let (c, ok) = spec_insert(child_or_empty(t.southeast, qse), b, depth);
        (BarnesHutTree { southeast: Option::Some(Box::new(c)), ..t }, ok)
    }
}

/// Splitting a sequence splits its sums.
pub proof fn lemma_sums_concat(a: Seq<Body>, b: Seq<Body>)
    ensures
        mass_sum(a + b) == mass_sum(a) + mass_sum(b),
        moment_x_sum(a + b) == moment_x_sum(a) + moment_x_sum(b),
        moment_y_sum(a + b) == moment_y_sum(a) + moment_y_sum(b),
        all_ok(a + b) <==> (all_ok(a) && all_ok(b)),
    decreases b.len(),
{
    if b.len() == 0 {
        assert(a + b =~= a);
    } else {
        lemma_sums_concat(a, b.drop_last());
        assert((a + b).drop_last() =~= a + b.drop_last());
        assert((a + b).last() == b.last());
        assert(all_ok(a + b) ==> all_ok(a) && all_ok(b)) by {
            if all_ok(a + b) {
                assert(forall|i: int| 0 <= i < a.len() ==> a[i] == (a + b)[i]);
                assert(forall|i: int|
                    0 <= i < b.len() ==> b[i] == (a + b)[i + a.len()]);
            }
        }
        assert((all_ok(a) && all_ok(b)) ==> all_ok(a + b)) by {
            if all_ok(a) && all_ok(b) {
                assert(forall|i: int|
                    0 <= i < (a + b).len() ==> body_ok(#[trigger] (a + b)[i])) by {
                    assert(forall|i: int| 0 <= i < a.len() ==> (a + b)[i] == a[i]);
                    assert(forall|i: int|
                        a.len() <= i < (a + b).len() ==> (a + b)[i] == b[i - a.len()]);
                }
            }
        }
    }
}

/// Bounds every well-budgeted sequence's sums: the mass sum is
/// non-negative (positive once non-empty and at most the budget's worth)
/// and each moment is at most the coordinate limit times the mass sum.
pub proof fn lemma_sums_bounded(s: Seq<Body>)
    requires
        all_ok(s),
    ensures
        0 <= mass_sum(s),
        s.len() > 0 ==> 0 < mass_sum(s),
        -(COORD_LIMIT * mass_sum(s)) <= moment_x_sum(s) * UNIT <= COORD_LIMIT * mass_sum(s),
        -(COORD_LIMIT * mass_sum(s)) <= moment_y_sum(s) * UNIT <= COORD_LIMIT * mass_sum(s),
    decreases s.len(),
{
    if s.len() > 0 {
        let pre = s.drop_last();
        assert(forall|i: int| 0 <= i < pre.len() ==> pre[i] == s[i]);
        lemma_sums_bounded(pre);
        let b = s.last();
        assert(body_ok(b));
        let m = b.mass.v();
        let px = b.pos.x.v();
        let py = b.pos.y.v();
        assert(-(COORD_LIMIT * m) <= m * px <= COORD_LIMIT * m) by (nonlinear_arith)
            requires
                m > 0 && -COORD_LIMIT <= px <= COORD_LIMIT,
        ;
        assert(-(COORD_LIMIT * m) <= m * py <= COORD_LIMIT * m) by (nonlinear_arith)
            requires
                m > 0 && -COORD_LIMIT <= py <= COORD_LIMIT,
        ;
        crate::scalar::lemma_trunc_div_bound(m * px, UNIT as int);
        crate::scalar::lemma_trunc_div_bound(m * py, UNIT as int);
        assert(spec_mul(m, px) * UNIT == trunc_div(m * px, UNIT as int) * UNIT);
        assert(-(COORD_LIMIT * m) <= spec_mul(m, px) * UNIT <= COORD_LIMIT * m);
        assert(-(COORD_LIMIT * m) <= spec_mul(m, py) * UNIT <= COORD_LIMIT * m);
        assert(moment_x_sum(s) * UNIT == moment_x_sum(pre) * UNIT + spec_mul(m, px) * UNIT)
            by (nonlinear_arith)
            requires
                moment_x_sum(s) == moment_x_sum(pre) + spec_mul(m, px),
        ;
        assert(moment_y_sum(s) * UNIT == moment_y_sum(pre) * UNIT + spec_mul(m, py) * UNIT)
            by (nonlinear_arith)
            requires
                moment_y_sum(s) == moment_y_sum(pre) + spec_mul(m, py),
        ;
        assert(COORD_LIMIT * mass_sum(s) == COORD_LIMIT * mass_sum(pre) + COORD_LIMIT * m)
            by (nonlinear_arith)
            requires
                mass_sum(s) == mass_sum(pre) + m,
        ;
    }
}

/// Removing one element removes exactly its contribution from each sum.
pub proof fn lemma_sums_remove(s: Seq<Body>, i: int)
    requires
        0 <= i < s.len(),
    ensures
        mass_sum(s.remove(i)) == mass_sum(s) - s[i].mass.v(),
        moment_x_sum(s.remove(i)) == moment_x_sum(s) - spec_mul(s[i].mass.v(), s[i].pos.x.v()),
        moment_y_sum(s.remove(i)) == moment_y_sum(s) - spec_mul(s[i].mass.v(), s[i].pos.y.v()),
    decreases s.len(),
{
    if i == s.len() - 1 {
        assert(s.remove(i) =~= s.drop_last());
    } else {
        lemma_sums_remove(s.drop_last(), i);
        assert(s.remove(i).drop_last() =~= s.drop_last().remove(i));
        assert(s.remove(i).last() == s.last());
        assert(s.drop_last()[i] == s[i]);
    }
}

/// The moment sums of a well-budgeted sequence stay far inside machine
/// range.
pub proof fn lemma_moments_in_range(s: Seq<Body>)
    requires
        all_ok(s),
        mass_sum(s) <= MASS_TOTAL_LIMIT,
    ensures
        -16_000_000_000_000_000_000_000 <= moment_x_sum(s) <= 16_000_000_000_000_000_000_000,
        -16_000_000_000_000_000_000_000 <= moment_y_sum(s) <= 16_000_000_000_000_000_000_000,
        0 <= mass_sum(s),
{
    lemma_sums_bounded(s);
    let mx = moment_x_sum(s);
    let my = moment_y_sum(s);
    let ms = mass_sum(s);
    assert(-16_000_000_000_000_000_000_000 <= mx <= 16_000_000_000_000_000_000_000)
        by (nonlinear_arith)
        requires
            -(COORD_LIMIT * ms) <= mx * UNIT <= COORD_LIMIT * ms,
            0 <= ms <= MASS_TOTAL_LIMIT,
            COORD_LIMIT == 4_000_000_000_000_000_000,
            MASS_TOTAL_LIMIT == 40_000_000_000_000_000_000,
            UNIT == 10_000_000_000_000_000,
    ;
    assert(-16_000_000_000_000_000_000_000 <= my <= 16_000_000_000_000_000_000_000)
        by (nonlinear_arith)
        requires
            -(COORD_LIMIT * ms) <= my * UNIT <= COORD_LIMIT * ms,
            0 <= ms <= MASS_TOTAL_LIMIT,
            COORD_LIMIT == 4_000_000_000_000_000_000,
            MASS_TOTAL_LIMIT == 40_000_000_000_000_000_000,
            UNIT == 10_000_000_000_000_000,
    ;
}

/// One mass-position product stays far inside machine range.
pub proof fn lemma_term_in_range(b: Body)
    requires
        body_ok(b),
    ensures
        -16_000_000_000_000_000_000_000 <= spec_mul(b.mass.v(), b.pos.x.v())
            <= 16_000_000_000_000_000_000_000,
        -16_000_000_000_000_000_000_000 <= spec_mul(b.mass.v(), b.pos.y.v())
            <= 16_000_000_000_000_000_000_000,
        fits(b.mass.v() * b.pos.x.v()),
        fits(b.mass.v() * b.pos.y.v()),
{
    let m = b.mass.v();
    let px = b.pos.x.v();
    let py = b.pos.y.v();
    assert(-(COORD_LIMIT * MASS_TOTAL_LIMIT) <= m * px <= COORD_LIMIT * MASS_TOTAL_LIMIT)
        by (nonlinear_arith)
        requires
            0 < m <= MASS_TOTAL_LIMIT && -COORD_LIMIT <= px <= COORD_LIMIT,
    ;
    assert(-(COORD_LIMIT * MASS_TOTAL_LIMIT) <= m * py <= COORD_LIMIT * MASS_TOTAL_LIMIT)
        by (nonlinear_arith)
        requires
            0 < m <= MASS_TOTAL_LIMIT && -COORD_LIMIT <= py <= COORD_LIMIT,
    ;
    crate::scalar::lemma_trunc_div_bound(m * px, UNIT as int);
    crate::scalar::lemma_trunc_div_bound(m * py, UNIT as int);
    let tx = spec_mul(m, px);
    let ty = spec_mul(m, py);
    assert(-16_000_000_000_000_000_000_000 <= tx <= 16_000_000_000_000_000_000_000)
        by (nonlinear_arith)
        requires
            (m * px >= 0 ==> 0 <= tx * UNIT <= m * px) && (m * px <= 0 ==> m * px <= tx * UNIT
                <= 0) && -(COORD_LIMIT * MASS_TOTAL_LIMIT) <= m * px <= COORD_LIMIT
                * MASS_TOTAL_LIMIT && COORD_LIMIT == 4_000_000_000_000_000_000 && MASS_TOTAL_LIMIT
                == 40_000_000_000_000_000_000 && UNIT == 10_000_000_000_000_000,
    ;
    assert(-16_000_000_000_000_000_000_000 <= ty <= 16_000_000_000_000_000_000_000)
        by (nonlinear_arith)
        requires
            (m * py >= 0 ==> 0 <= ty * UNIT <= m * py) && (m * py <= 0 ==> m * py <= ty * UNIT
                <= 0) && -(COORD_LIMIT * MASS_TOTAL_LIMIT) <= m * py <= COORD_LIMIT
                * MASS_TOTAL_LIMIT && COORD_LIMIT == 4_000_000_000_000_000_000 && MASS_TOTAL_LIMIT
                == 40_000_000_000_000_000_000 && UNIT == 10_000_000_000_000_000,
    ;
}

/// A well-formed parent region yields well-formed quadrant regions.
pub proof fn lemma_child_quads_wf(q: Quad)
    requires
        q.wf(),
    ensures
        spec_northwest(q).wf(),
        spec_northeast(q).wf(),
        spec_southwest(q).wf(),
        spec_southeast(q).wf(),
{
}

/// The empty tree over a well-formed region is well formed and empty.
pub proof fn lemma_empty_wf(q: Quad)
    requires
        q.wf(),
    ensures
        spec_empty(q).wf(),
        spec_empty(q).bodies() =~= Seq::empty(),
        spec_empty(q).quad == q,
{
    assert(spec_empty(q).is_external_spec());
    assert(spec_empty(q).bodies() =~= Seq::empty());
}

/// Inserting preserves well-formedness, keeps the region, and grows the
/// stored multiset by exactly the inserted body on success (and not at
/// all when the descent budget runs out).
pub proof fn lemma_insert_preserves(t: BarnesHutTree, b: Body, depth: nat)
    requires
        t.wf(),
        body_ok(b),
        mass_sum(t.bodies()) + b.mass.v() <= MASS_TOTAL_LIMIT,
    ensures
        (spec_insert(t, b, depth).0).wf(),
        spec_insert(t, b, depth).0.quad == t.quad,
        all_ok(spec_insert(t, b, depth).0.bodies()),
        spec_insert(t, b, depth).1 ==> spec_insert(t, b, depth).0.bodies().to_multiset()
            =~= t.bodies().to_multiset().insert(b),
        !spec_insert(t, b, depth).1 ==> spec_insert(t, b, depth).0.bodies().to_multiset()
            =~= t.bodies().to_multiset(),
        mass_sum(spec_insert(t, b, depth).0.bodies()) == mass_sum(t.bodies()) + (
        if spec_insert(t, b, depth).1 {
            b.mass.v()
        } else {
            0
        }),
        moment_x_sum(spec_insert(t, b, depth).0.bodies()) == moment_x_sum(t.bodies()) + (
        if spec_insert(t, b, depth).1 {
            spec_mul(b.mass.v(), b.pos.x.v())
        } else {
            0
        }),
        moment_y_sum(spec_insert(t, b, depth).0.bodies()) == moment_y_sum(t.bodies()) + (
        if spec_insert(t, b, depth).1 {
            spec_mul(b.mass.v(), b.pos.y.v())
        } else {
            0
        }),
    decreases depth, 0nat,
{
    t.bodies().to_multiset_ensures();
    if t.is_external_spec() {
        match t.leaf_body {
            Option::None => {
                let t2 = spec_store(t, b);
                assert(t.bodies() =~= Seq::empty());
                assert(t2.is_external_spec());
                assert(t2.bodies() =~= seq![b]);
                assert(t2.bodies().drop_last() =~= Seq::empty());
                t2.bodies().to_multiset_ensures();
                assert(seq![b] =~= Seq::empty().push(b));
                Seq::<Body>::empty().to_multiset_ensures();
                assert(t2.bodies().to_multiset() =~= t.bodies().to_multiset().insert(b));
                lemma_term_in_range(b);
                assert(all_ok(t2.bodies())) by {
                    assert(t2.bodies()[0] == b);
                }
                assert(t2.mass_total.v() == mass_sum(t2.bodies()));
                assert(t2.moment.x.v() == moment_x_sum(t2.bodies()));
                assert(t2.moment.y.v() == moment_y_sum(t2.bodies()));
                assert(t2.wf());
            },
            Option::Some(existing) => {
                if depth == 0 {
                } else {
                    let hollow = BarnesHutTree { leaf_body: Option::None, ..t };
                    assert(t.bodies() =~= seq![existing]);
                    assert(t.bodies().drop_last() =~= Seq::empty());
                    assert(body_ok(existing)) by {
                        assert(t.bodies()[0] == existing);
                    }
                    assert(hollow.is_external_spec());
                    assert(children_bodies(hollow) =~= Seq::empty());
                    lemma_insert_proper_preserves(hollow, existing, (depth - 1) as nat);
                    let pushed = spec_insert_proper(hollow, existing, (depth - 1) as nat).0;
                    let ok1 = spec_insert_proper(hollow, existing, (depth - 1) as nat).1;
                    lemma_insert_proper_preserves(pushed, b, (depth - 1) as nat);
                    let routed = spec_insert_proper(pushed, b, (depth - 1) as nat).0;
                    let ok2 = spec_insert_proper(pushed, b, (depth - 1) as nat).1;
                    assert(!routed.is_external_spec());
                    assert(routed.bodies() =~= children_bodies(routed));
                    // The push-down of `existing` lands in a fresh empty
                    // child, so it cannot fail.
                    assert(ok1) by {
                        if !ok1 {
                            children_bodies(pushed).to_multiset_ensures();
                            children_bodies(hollow).to_multiset_ensures();
                            lemma_sums_permutation(
                                children_bodies(pushed),
                                children_bodies(hollow),
                            );
                            assert(mass_sum(children_bodies(pushed)) == 0);
                        }
                    }
                    children_bodies(hollow).to_multiset_ensures();
                    Seq::<Body>::empty().to_multiset_ensures();
                    assert(children_bodies(hollow).to_multiset() =~= Multiset::empty());
                    assert(children_bodies(pushed).to_multiset() =~= Multiset::empty().insert(
                        existing,
                    ));
                    t.bodies().to_multiset_ensures();
                    assert(t.bodies() =~= Seq::empty().push(existing));
                    assert(t.bodies().to_multiset() =~= Multiset::empty().insert(existing));
                    lemma_sums_bounded(t.bodies());
                    if ok2 {
                        let t2 = spec_add_sums(routed, b);
                        assert(t2.bodies() == routed.bodies());
                        assert(children_bodies(routed).to_multiset() =~= t.bodies().to_multiset()
                            .insert(b));
                        lemma_term_in_range(b);
                        lemma_moments_in_range(t2.bodies());
                        assert(t2.bodies().len() >= 1) by {
                            if t2.bodies().len() == 0 {
                                assert(mass_sum(t2.bodies()) == 0);
                            }
                        }
                        assert(t2.mass_total.v() == mass_sum(t2.bodies()));
                        assert(t2.moment.x.v() == moment_x_sum(t2.bodies()));
                        assert(t2.moment.y.v() == moment_y_sum(t2.bodies()));
                        assert(t2.wf());
                    } else {
                        assert(routed.bodies().to_multiset() =~= t.bodies().to_multiset());
                        assert(routed.bodies().len() >= 1) by {
                            if routed.bodies().len() == 0 {
                                assert(mass_sum(routed.bodies()) == 0);
                            }
                        }
                        assert(routed.mass_total.v() == mass_sum(routed.bodies()));
                        assert(routed.moment.x.v() == moment_x_sum(routed.bodies()));
                        assert(routed.moment.y.v() == moment_y_sum(routed.bodies()));
                        assert(routed.wf());
                    }
                }
            },
        }
    } else {
        if depth == 0 {
        } else {
            assert(t.bodies() =~= children_bodies(t));
            lemma_insert_proper_preserves(t, b, (depth - 1) as nat);
            let routed = spec_insert_proper(t, b, (depth - 1) as nat).0;
            let ok = spec_insert_proper(t, b, (depth - 1) as nat).1;
            assert(!routed.is_external_spec());
            assert(routed.bodies() =~= children_bodies(routed));
            lemma_sums_bounded(t.bodies());
            if ok {
                let t2 = spec_add_sums(routed, b);
                assert(t2.bodies() == routed.bodies());
                lemma_term_in_range(b);
                lemma_moments_in_range(t2.bodies());
                assert(t2.bodies().len() >= 1) by {
                    if t2.bodies().len() == 0 {
                        assert(mass_sum(t2.bodies()) == 0);
                    }
                }
                assert(t2.mass_total.v() == mass_sum(t2.bodies()));
                assert(t2.moment.x.v() == moment_x_sum(t2.bodies()));
                assert(t2.moment.y.v() == moment_y_sum(t2.bodies()));
                assert(t2.wf());
            } else {
                assert(routed.bodies().len() >= 1) by {
                    if routed.bodies().len() == 0 {
                        assert(mass_sum(routed.bodies()) == 0);
                    }
                }
                assert(routed.wf());
            }
        }
    }
}

/// Routing preserves each child's well-formedness, never touches the
/// node's own body or sums, leaves the node internal, and grows the
/// children's multiset by exactly the routed body on success.
pub proof fn lemma_insert_proper_preserves(t: BarnesHutTree, b: Body, depth: nat)
    requires
        t.quad.wf(),
        body_ok(b),
        child_wf(t.northwest, spec_northwest(t.quad)),
        child_wf(t.northeast, spec_northeast(t.quad)),
        child_wf(t.southwest, spec_southwest(t.quad)),
        child_wf(t.southeast, spec_southeast(t.quad)),
        all_ok(children_bodies(t)),
        mass_sum(children_bodies(t)) + b.mass.v() <= MASS_TOTAL_LIMIT,
    ensures
        ({
            let (t2, ok) = spec_insert_proper(t, b, depth);
            &&& t2.quad == t.quad
            &&& t2.leaf_body == t.leaf_body
            &&& t2.mass_total == t.mass_total
            &&& t2.moment == t.moment
            &&& !t2.is_external_spec()
            &&& child_wf(t2.northwest, spec_northwest(t2.quad))
            &&& child_wf(t2.northeast, spec_northeast(t2.quad))
            &&& child_wf(t2.southwest, spec_southwest(t2.quad))
            &&& child_wf(t2.southeast, spec_southeast(t2.quad))
            &&& all_ok(children_bodies(t2))
            &&& (ok ==> children_bodies(t2).to_multiset() =~= children_bodies(t).to_multiset()
                .insert(b))
            &&& (!ok ==> children_bodies(t2).to_multiset() =~= children_bodies(t).to_multiset())
            &&& mass_sum(children_bodies(t2)) == mass_sum(children_bodies(t)) + (
            if ok {
                b.mass.v()
            } else {
                0
            })
            &&& moment_x_sum(children_bodies(t2)) == moment_x_sum(children_bodies(t)) + (
            if ok {
                spec_mul(b.mass.v(), b.pos.x.v())
            } else {
                0
            })
            &&& moment_y_sum(children_bodies(t2)) == moment_y_sum(children_bodies(t)) + (
            if ok {
                spec_mul(b.mass.v(), b.pos.y.v())
            } else {
                0
            })
        }),
    decreases depth, 1nat,
{
    lemma_child_quads_wf(t.quad);
    let nw = opt_bodies(t.northwest);
    let ne = opt_bodies(t.northeast);
    let sw = opt_bodies(t.southwest);
    let se = opt_bodies(t.southeast);
    lemma_sums_concat(nw, ne);
    lemma_sums_concat(nw + ne, sw);
    lemma_sums_concat(nw + ne + sw, se);
    lemma_sums_bounded(nw);
    lemma_sums_bounded(ne);
    lemma_sums_bounded(sw);
    lemma_sums_bounded(se);
    lemma_multiset_commutative(nw, ne);
    lemma_multiset_commutative(nw + ne, sw);
    lemma_multiset_commutative(nw + ne + sw, se);
    let qnw = spec_northwest(t.quad);
    let qne = spec_northeast(t.quad);
    let qsw = spec_southwest(t.quad);
    let qse = spec_southeast(t.quad);
    if spec_contains(qnw, b.pos) {
        let c = child_or_empty(t.northwest, qnw);
        child_sums_agree(t.northwest, qnw);
        lemma_insert_preserves(c, b, depth);
        let c2 = spec_insert(c, b, depth).0;
        let ok = spec_insert(c, b, depth).1;
        let t2 = spec_insert_proper(t, b, depth).0;
        assert(opt_bodies(t2.northwest) == c2.bodies());
        lemma_sums_concat(c2.bodies(), ne);
        lemma_sums_concat(c2.bodies() + ne, sw);
        lemma_sums_concat(c2.bodies() + ne + sw, se);
        lemma_multiset_commutative(c2.bodies(), ne);
        lemma_multiset_commutative(c2.bodies() + ne, sw);
        lemma_multiset_commutative(c2.bodies() + ne + sw, se);
        c.bodies().to_multiset_ensures();
        c2.bodies().to_multiset_ensures();
    } else if spec_contains(qne, b.pos) {
        let c = child_or_empty(t.northeast, qne);
        child_sums_agree(t.northeast, qne);
        lemma_insert_preserves(c, b, depth);
        let c2 = spec_insert(c, b, depth).0;
        let t2 = spec_insert_proper(t, b, depth).0;
        assert(opt_bodies(t2.northeast) == c2.bodies());
        lemma_sums_concat(nw, c2.bodies());
        lemma_sums_concat(nw + c2.bodies(), sw);
        lemma_sums_concat(nw + c2.bodies() + sw, se);
        lemma_multiset_commutative(nw, c2.bodies());
        lemma_multiset_commutative(nw + c2.bodies(), sw);
        lemma_multiset_commutative(nw + c2.bodies() + sw, se);
    } else if spec_contains(qsw, b.pos) {
        let c = child_or_empty(t.southwest, qsw);
        child_sums_agree(t.southwest, qsw);
        lemma_insert_preserves(c, b, depth);
        let c2 = spec_insert(c, b, depth).0;
        let t2 = spec_insert_proper(t, b, depth).0;
        assert(opt_bodies(t2.southwest) == c2.bodies());
        lemma_sums_concat(nw, ne);
        lemma_sums_concat(nw + ne, c2.bodies());
        lemma_sums_concat(nw + ne + c2.bodies(), se);
        lemma_multiset_commutative(nw + ne, c2.bodies());
        lemma_multiset_commutative(nw + ne + c2.bodies(), se);
    } else {
        let c = child_or_empty(t.southeast, qse);
        child_sums_agree(t.southeast, qse);
        lemma_insert_preserves(c, b, depth);
        let c2 = spec_insert(c, b, depth).0;
        let t2 = spec_insert_proper(t, b, depth).0;
        assert(opt_bodies(t2.southeast) == c2.bodies());
        lemma_sums_concat(nw + ne + sw, c2.bodies());
        lemma_multiset_commutative(nw + ne + sw, c2.bodies());
    }
}

/// The bodies of a child slot are those of its tree, or none; a slot that
/// satisfies `child_wf` has a well-formed tree whose root region is the
/// expected quadrant.
proof fn child_sums_agree(c: Option<Box<BarnesHutTree>>, q: Quad)
    requires
        child_wf(c, q),
        q.wf(),
    ensures
        child_or_empty(c, q).wf(),
        child_or_empty(c, q).quad == q,
        child_or_empty(c, q).bodies() == opt_bodies(c),
{
    match c {
        Option::Some(t) => {
        },
        Option::None => {
            lemma_empty_wf(q);
            assert(child_or_empty(c, q).bodies() =~= opt_bodies(c));
        },
    }
}

impl BarnesHutTree {
    /// Builds an empty tree over the region `quad`.
    pub fn new(quad: Quad) -> (r: BarnesHutTree)
        ensures
            r == spec_empty(quad),
            quad.wf() ==> r.wf(),
    {
        proof {
            if quad.wf() {
                lemma_empty_wf(quad);
            }
        }
        BarnesHutTree {
            quad,
            leaf_body: Option::None,
            mass_total: Scalar { raw: 0 },
            moment: Vec2 { x: Scalar { raw: 0 }, y: Scalar { raw: 0 } },
            northwest: Option::None,
            northeast: Option::None,
            southwest: Option::None,
            southeast: Option::None,
        }
    }

    /// Whether the node has no children.
    pub fn is_external(&self) -> (r: bool)
        ensures
            r == self.is_external_spec(),
    {
        self.northwest.is_none() && self.northeast.is_none() && self.southwest.is_none()
            && self.southeast.is_none()
    }

    /// Inserts a body, descending at most `INSERT_DEPTH` subdivisions.
    /// Returns whether the body was stored; on failure (bodies closer
    /// than any subdivision can separate) the stored multiset is
    /// unchanged.
    pub fn insert(&mut self, body: &Body) -> (ok: bool)
        requires
            old(self).wf(),
            body_ok(*body),
            mass_sum(old(self).bodies()) + body.mass.v() <= MASS_TOTAL_LIMIT,
        ensures
            final(self).wf(),
            final(self).quad == old(self).quad,
            *final(self) == spec_insert(*old(self), *body, INSERT_DEPTH as nat).0,
            ok == spec_insert(*old(self), *body, INSERT_DEPTH as nat).1,
            ok ==> final(self).bodies().to_multiset() == old(self).bodies().to_multiset().insert(
                *body,
            ),
            !ok ==> final(self).bodies().to_multiset() == old(self).bodies().to_multiset(),
    {
        proof {
            lemma_insert_preserves(*self, *body, INSERT_DEPTH as nat);
        }
        self.insert_at(*body, INSERT_DEPTH)
    }

    /// The recursive worker for `insert`.
    fn insert_at(&mut self, body: Body, depth: u64) -> (ok: bool)
        requires
            old(self).wf(),
            body_ok(body),
            mass_sum(old(self).bodies()) + body.mass.v() <= MASS_TOTAL_LIMIT,
        ensures
            *final(self) == spec_insert(*old(self), body, depth as nat).0,
            ok == spec_insert(*old(self), body, depth as nat).1,
            final(self).wf(),
        decreases depth, 0int,
    {
        proof {
            lemma_insert_preserves(*self, body, depth as nat);
            lemma_sums_bounded(self.bodies());
        }
        if self.is_external() {
            if self.leaf_body.is_none() {
                proof {
                    lemma_term_in_range(body);
                }
                self.leaf_body = Option::Some(body);
                self.mass_total = body.mass;
                self.moment = Vec2 {
                    x: body.mass.mul(body.pos.x),
                    y: body.mass.mul(body.pos.y),
                };
                true
            } else {
                if depth == 0 {
                    return false;
                }
                let ghost hollow = BarnesHutTree { leaf_body: Option::None, ..*self };
                let existing = self.leaf_body.take().unwrap();
                proof {
                    assert(old(self).bodies() =~= seq![existing]);
                    assert(body_ok(existing)) by {
                        assert(old(self).bodies()[0] == existing);
                    }
                    assert(children_bodies(*self) =~= Seq::empty());
                }
                proof {
                    assert(*self == hollow);
                    assert(old(self).bodies().len() == 1);
                    assert(old(self).bodies().last() == existing);
                    assert(old(self).bodies().drop_last() =~= Seq::empty());
                    assert(mass_sum(old(self).bodies()) == mass_sum(Seq::empty())
                        + existing.mass.v());
                    assert(mass_sum(old(self).bodies()) == existing.mass.v());
                }
                let _moved = self.insert_proper_quad(existing, depth - 1);
                let ghost pushed = *self;
                proof {
                    lemma_insert_proper_preserves(hollow, existing, (depth - 1) as nat);
                }
                let ok = self.insert_proper_quad(body, depth - 1);
                proof {
                    lemma_insert_proper_preserves(pushed, body, (depth - 1) as nat);
                    lemma_term_in_range(body);
                    lemma_moments_in_range(old(self).bodies());
                }
                if ok {
                    self.mass_total = self.mass_total.add(body.mass);
                    self.moment = self.moment.add(
                        Vec2 { x: body.mass.mul(body.pos.x), y: body.mass.mul(body.pos.y) },
                    );
                }
                ok
            }
        } else {
            if depth == 0 {
                return false;
            }
            proof {
                assert(old(self).bodies() =~= children_bodies(*old(self)));
            }
            let ok = self.insert_proper_quad(body, depth - 1);
            proof {
                lemma_insert_proper_preserves(*old(self), body, (depth - 1) as nat);
                lemma_term_in_range(body);
                lemma_moments_in_range(old(self).bodies());
            }
            if ok {
                self.mass_total = self.mass_total.add(body.mass);
                self.moment = self.moment.add(
                    Vec2 { x: body.mass.mul(body.pos.x), y: body.mass.mul(body.pos.y) },
                );
            }
            ok
        }
    }

    /// Routes a body into the child over the first quadrant that
    /// contains it (NW, NE, SW in that order, SE as the fallback),
    /// creating the child if absent.
    fn insert_proper_quad(&mut self, body: Body, depth: u64) -> (ok: bool)
        requires
            old(self).quad.wf(),
            body_ok(body),
            child_wf(old(self).northwest, spec_northwest(old(self).quad)),
            child_wf(old(self).northeast, spec_northeast(old(self).quad)),
            child_wf(old(self).southwest, spec_southwest(old(self).quad)),
            child_wf(old(self).southeast, spec_southeast(old(self).quad)),
            all_ok(children_bodies(*old(self))),
            mass_sum(children_bodies(*old(self))) + body.mass.v() <= MASS_TOTAL_LIMIT,
        ensures
            *final(self) == spec_insert_proper(*old(self), body, depth as nat).0,
            ok == spec_insert_proper(*old(self), body, depth as nat).1,
        decreases depth, 1int,
    {
        proof {
            lemma_child_quads_wf(self.quad);
            let nw = opt_bodies(self.northwest);
            let ne = opt_bodies(self.northeast);
            let sw = opt_bodies(self.southwest);
            let se = opt_bodies(self.southeast);
            lemma_sums_concat(nw, ne);
            lemma_sums_concat(nw + ne, sw);
            lemma_sums_concat(nw + ne + sw, se);
            lemma_sums_bounded(nw);
            lemma_sums_bounded(ne);
            lemma_sums_bounded(sw);
            lemma_sums_bounded(se);
            child_sums_agree(self.northwest, spec_northwest(self.quad));
            child_sums_agree(self.northeast, spec_northeast(self.quad));
            child_sums_agree(self.southwest, spec_southwest(self.quad));
            child_sums_agree(self.southeast, spec_southeast(self.quad));
        }
        let qnw = self.quad.northwest();
        if qnw.contains(&body.pos) {
            let mut child: Box<BarnesHutTree> = match self.northwest.take() {
                Option::Some(c) => c,
                Option::None => Box::new(BarnesHutTree::new(qnw)),
            };
            let ok = (&mut *child).insert_at(body, depth);
            self.northwest = Option::Some(child);
            return ok;
        }
        let qne = self.quad.northeast();
        if qne.contains(&body.pos) {
            let mut child: Box<BarnesHutTree> = match self.northeast.take() {
                Option::Some(c) => c,
                Option::None => Box::new(BarnesHutTree::new(qne)),
            };
            let ok = (&mut *child).insert_at(body, depth);
            self.northeast = Option::Some(child);
            return ok;
        }
        let qsw = self.quad.southwest();
        if qsw.contains(&body.pos) {
            let mut child: Box<BarnesHutTree> = match self.southwest.take() {
                Option::Some(c) => c,
                Option::None => Box::new(BarnesHutTree::new(qsw)),
            };
            let ok = (&mut *child).insert_at(body, depth);
            self.southwest = Option::Some(child);
            return ok;
        }
        let qse = self.quad.southeast();
        let mut child: Box<BarnesHutTree> = match self.southeast.take() {
            Option::Some(c) => c,
            Option::None => Box::new(BarnesHutTree::new(qse)),
        };
        let ok = (&mut *child).insert_at(body, depth);
        self.southeast = Option::Some(child);
        ok
    }
}

/// The opening-angle threshold of the classic traversal: an aggregate
/// stands in for its subtree when region side over distance is below 2.
pub const THETA_RAW: i128 = 20_000_000_000_000_000;

/// A body a tree may be queried for: position within the coordinate
/// budget (its force and velocity are unconstrained).
pub open spec fn target_ok(b: Body) -> bool {
    &&& -COORD_LIMIT <= b.pos.x.v() <= COORD_LIMIT
    &&& -COORD_LIMIT <= b.pos.y.v() <= COORD_LIMIT
}

/// `b` after accumulating the gravitational contribution of `src`.
pub open spec fn spec_after_force(b: Body, src: Body) -> Body {
    Body {
        force: Vec2 {
            x: Scalar { raw: (b.force.x.v() + force_delta(b, src).x.v()) as i128 },
            y: Scalar { raw: (b.force.y.v() + force_delta(b, src).y.v()) as i128 },
        },
        ..b
    }
}

/// The approximate force query: an external node contributes its body
/// exactly (skipping one at the target's own position); an internal node
/// whose region is small relative to its distance contributes its
/// aggregate as a single body, and otherwise recurses into its children.
/// `None` marks a query whose arithmetic would leave machine range or
/// degenerate (a contribution from closer than the scalar resolution).
pub open spec fn spec_update_force(t: BarnesHutTree, b: Body, theta: Scalar) -> Option<Body>
    decreases t,
{
    if t.is_external_spec() {
        match t.leaf_body {
            Option::None => Option::Some(b),
            Option::Some(src) => {
                if src.pos == b.pos {
                    Option::Some(b)
                } else if add_force_defined(b, src) {
                    Option::Some(spec_after_force(b, src))
                } else {
                    Option::None
                }
            },
        }
    } else {
        let agg = Body {
            pos: Vec2 {
                x: Scalar { raw: spec_div(t.moment.x.v(), t.mass_total.v()) as i128 },
                y: Scalar { raw: spec_div(t.moment.y.v(), t.mass_total.v()) as i128 },
            },
            velocity: Vec2 { x: Scalar { raw: 0 }, y: Scalar { raw: 0 } },
            force: Vec2 { x: Scalar { raw: 0 }, y: Scalar { raw: 0 } },
            mass: t.mass_total,
        };
        let d = crate::vec2::sqrt_floor(crate::vec2::sq_dist(agg.pos, b.pos));
        if t.quad.length.v() * UNIT < theta.v() * d {
            if add_force_defined(b, agg) {
                Option::Some(spec_after_force(b, agg))
            } else {
                Option::None
            }
        } else {
            match spec_update_opt(t.northwest, b, theta) {
                Option::None => Option::None,
                Option::Some(b1) => match spec_update_opt(t.southwest, b1, theta) {
                    Option::None => Option::None,
                    Option::Some(b2) => match spec_update_opt(t.southeast, b2, theta) {
                        Option::None => Option::None,
                        Option::Some(b3) => spec_update_opt(t.northeast, b3, theta),
                    },
                },
            }
        }
    }
}

/// The query against an optional child: an absent child contributes
/// nothing.
pub open spec fn spec_update_opt(c: Option<Box<BarnesHutTree>>, b: Body, theta: Scalar) -> Option<
    Body,
>
    decreases c,
{
    match c {
        Option::None => Option::Some(b),
        Option::Some(t) => spec_update_force(*t, b, theta),
    }
}

/// A query never moves the target: only its force accumulator changes.
pub proof fn lemma_query_preserves_target(t: BarnesHutTree, b: Body, theta: Scalar)
    ensures
        spec_update_force(t, b, theta) is Some ==> {
            let b2 = spec_update_force(t, b, theta).unwrap();
            b2.pos == b.pos && b2.velocity == b.velocity && b2.mass == b.mass
        },
    decreases t,
{
    if t.is_external_spec() {
    } else {
        let agg = Body {
            pos: Vec2 {
                x: Scalar { raw: spec_div(t.moment.x.v(), t.mass_total.v()) as i128 },
                y: Scalar { raw: spec_div(t.moment.y.v(), t.mass_total.v()) as i128 },
            },
            velocity: Vec2 { x: Scalar { raw: 0 }, y: Scalar { raw: 0 } },
            force: Vec2 { x: Scalar { raw: 0 }, y: Scalar { raw: 0 } },
            mass: t.mass_total,
        };
        let d = crate::vec2::sqrt_floor(crate::vec2::sq_dist(agg.pos, b.pos));
        if t.quad.length.v() * UNIT < theta.v() * d {
        } else {
            lemma_query_opt_preserves_target(t.northwest, b, theta);
            if spec_update_opt(t.northwest, b, theta) is Some {
                let b1 = spec_update_opt(t.northwest, b, theta).unwrap();
                lemma_query_opt_preserves_target(t.southwest, b1, theta);
                if spec_update_opt(t.southwest, b1, theta) is Some {
                    let b2 = spec_update_opt(t.southwest, b1, theta).unwrap();
                    lemma_query_opt_preserves_target(t.southeast, b2, theta);
                    if spec_update_opt(t.southeast, b2, theta) is Some {
                        let b3 = spec_update_opt(t.southeast, b2, theta).unwrap();
                        lemma_query_opt_preserves_target(t.northeast, b3, theta);
                    }
                }
            }
        }
    }
}

/// The per-child form of the same fact.
pub proof fn lemma_query_opt_preserves_target(
    c: Option<Box<BarnesHutTree>>,
    b: Body,
    theta: Scalar,
)
    ensures
        spec_update_opt(c, b, theta) is Some ==> {
            let b2 = spec_update_opt(c, b, theta).unwrap();
            b2.pos == b.pos && b2.velocity == b.velocity && b2.mass == b.mass
        },
    decreases c,
{
    match c {
        Option::Some(t) => lemma_query_preserves_target(*t, b, theta),
        Option::None => {
        },
    }
}

/// The centroid of a well-formed internal node stays inside the
/// coordinate budget, and its inputs inside machine range.
pub proof fn lemma_centroid_in_range(t: BarnesHutTree)
    requires
        t.wf(),
        !t.is_external_spec(),
    ensures
        t.mass_total.v() > 0,
        fits(t.moment.x.v() * UNIT),
        fits(t.moment.y.v() * UNIT),
        -COORD_LIMIT <= spec_div(t.moment.x.v(), t.mass_total.v()) <= COORD_LIMIT,
        -COORD_LIMIT <= spec_div(t.moment.y.v(), t.mass_total.v()) <= COORD_LIMIT,
{
    lemma_sums_bounded(t.bodies());
    let m = t.mass_total.v();
    let mx = t.moment.x.v();
    let my = t.moment.y.v();
    assert(fits(mx * UNIT) && fits(my * UNIT)) by (nonlinear_arith)
        requires
            -(COORD_LIMIT * m) <= mx * UNIT <= COORD_LIMIT * m,
            -(COORD_LIMIT * m) <= my * UNIT <= COORD_LIMIT * m,
            0 < m <= MASS_TOTAL_LIMIT,
            COORD_LIMIT == 4_000_000_000_000_000_000,
            MASS_TOTAL_LIMIT == 40_000_000_000_000_000_000,
            i128::MAX == 0x7fff_ffff_ffff_ffff_ffff_ffff_ffff_ffff,
    ;
    crate::scalar::lemma_trunc_div_bound(mx * UNIT, m);
    crate::scalar::lemma_trunc_div_bound(my * UNIT, m);
    assert(-COORD_LIMIT <= trunc_div(mx * UNIT, m) <= COORD_LIMIT) by (nonlinear_arith)
        requires
            m > 0,
            -(COORD_LIMIT * m) <= mx * UNIT <= COORD_LIMIT * m,
            (mx * UNIT >= 0 ==> 0 <= trunc_div(mx * UNIT, m) * m <= mx * UNIT),
            (mx * UNIT <= 0 ==> mx * UNIT <= trunc_div(mx * UNIT, m) * m <= 0),
    ;
    assert(-COORD_LIMIT <= trunc_div(my * UNIT, m) <= COORD_LIMIT) by (nonlinear_arith)
        requires
            m > 0,
            -(COORD_LIMIT * m) <= my * UNIT <= COORD_LIMIT * m,
            (my * UNIT >= 0 ==> 0 <= trunc_div(my * UNIT, m) * m <= my * UNIT),
            (my * UNIT <= 0 ==> my * UNIT <= trunc_div(my * UNIT, m) * m <= 0),
    ;
}

impl BarnesHutTree {
    /// The node's aggregate: its raw body if external, otherwise the
    /// synthetic composite at the subtree's mass-weighted centroid.
    pub fn body(&self) -> (r: Option<Body>)
        requires
            self.wf(),
        ensures
            r == self.spec_aggregate(),
    {
        if self.is_external() {
            self.leaf_body
        } else {
            Option::Some(self.aggregate_body())
        }
    }

    /// Derives the composite body of an internal node from the sums.
    fn aggregate_body(&self) -> (r: Body)
        requires
            self.wf(),
            !self.is_external_spec(),
        ensures
            Option::Some(r) == self.spec_aggregate(),
            -COORD_LIMIT <= r.pos.x.v() <= COORD_LIMIT,
            -COORD_LIMIT <= r.pos.y.v() <= COORD_LIMIT,
            r.mass == self.mass_total,
    {
        proof {
            lemma_centroid_in_range(*self);
        }
        Body {
            pos: Vec2 {
                x: self.moment.x.div(self.mass_total),
                y: self.moment.y.div(self.mass_total),
            },
            velocity: Vec2::zero(),
            force: Vec2::zero(),
            mass: self.mass_total,
        }
    }

    /// Accumulates into `body.force` this subtree's approximate
    /// contribution, under the default opening-angle threshold.
    pub fn update_force(&self, body: &mut Body)
        requires
            self.wf(),
            target_ok(*old(body)),
            spec_update_force(*self, *old(body), Scalar { raw: THETA_RAW }) is Some,
        ensures
            Option::Some(*final(body)) == spec_update_force(
                *self,
                *old(body),
                Scalar { raw: THETA_RAW },
            ),
            final(body).pos == old(body).pos,
            final(body).velocity == old(body).velocity,
            final(body).mass == old(body).mass,
    {
        self.update_force_with(body, Scalar { raw: THETA_RAW })
    }

    /// The query under an explicit threshold: zero forces an exact
    /// traversal to the leaves, larger values accept aggregates earlier.
    pub fn update_force_with(&self, body: &mut Body, theta: Scalar)
        requires
            self.wf(),
            target_ok(*old(body)),
            0 <= theta.v() <= 4 * UNIT,
            spec_update_force(*self, *old(body), theta) is Some,
        ensures
            Option::Some(*final(body)) == spec_update_force(*self, *old(body), theta),
            final(body).pos == old(body).pos,
            final(body).velocity == old(body).velocity,
            final(body).mass == old(body).mass,
        decreases *self,
    {
        proof {
            lemma_query_preserves_target(*self, *body, theta);
        }
        if self.is_external() {
            match &self.leaf_body {
                Option::Some(src) => {
                    if !(src.pos == body.pos) {
                        proof {
                            assert(body_ok(*src)) by {
                                assert(self.bodies()[0] == *src);
                            }
                        }
                        body.add_force(src);
                    }
                },
                Option::None => {
                },
            }
        } else {
            let agg = self.aggregate_body();
            proof {
                lemma_sq_dist_in_range(agg.pos, body.pos);
            }
            let d = agg.pos.dist(&body.pos);
            proof {
                crate::vec2::lemma_sqrt_floor(crate::vec2::sq_dist(agg.pos, body.pos));
                assert(d.v() <= 20_000_000_000_000_000_000) by (nonlinear_arith)
                    requires
                        d.v() >= 0,
                        d.v() * d.v() <= 0x7fff_ffff_ffff_ffff_ffff_ffff_ffff_ffff,
                ;
                assert(self.quad.length.v() <= COORD_LIMIT);
                assert(fits(self.quad.length.v() * UNIT)) by (nonlinear_arith)
                    requires
                        0 <= self.quad.length.v() <= COORD_LIMIT,
                        COORD_LIMIT == 4_000_000_000_000_000_000,
                        UNIT == 10_000_000_000_000_000,
                        i128::MAX == 0x7fff_ffff_ffff_ffff_ffff_ffff_ffff_ffff,
                ;
                assert(fits(theta.v() * d.v())) by (nonlinear_arith)
                    requires
                        0 <= theta.v() <= 4 * UNIT,
                        0 <= d.v() <= 20_000_000_000_000_000_000,
                        UNIT == 10_000_000_000_000_000,
                        i128::MAX == 0x7fff_ffff_ffff_ffff_ffff_ffff_ffff_ffff,
                ;
            }
            if self.quad.length.raw * UNIT < theta.raw * d.raw {
                body.add_force(&agg);
            } else {
                let ghost b0 = *body;
                match &self.northwest {
                    Option::Some(c) => {
                        proof {
                            lemma_query_opt_preserves_target(self.northwest, b0, theta);
                        }
                        (&**c).update_force_with(body, theta);
                    },
                    Option::None => {
                    },
                }
                let ghost b1 = *body;
                proof {
                    assert(Option::Some(b1) == spec_update_opt(self.northwest, b0, theta));
                    lemma_query_opt_preserves_target(self.southwest, b1, theta);
                }
                match &self.southwest {
                    Option::Some(c) => {
                        (&**c).update_force_with(body, theta);
                    },
                    Option::None => {
                    },
                }
                let ghost b2 = *body;
                proof {
                    assert(Option::Some(b2) == spec_update_opt(self.southwest, b1, theta));
                    lemma_query_opt_preserves_target(self.southeast, b2, theta);
                }
                match &self.southeast {
                    Option::Some(c) => {
                        (&**c).update_force_with(body, theta);
                    },
                    Option::None => {
                    },
                }
                let ghost b3 = *body;
                proof {
                    assert(Option::Some(b3) == spec_update_opt(self.southeast, b2, theta));
                    lemma_query_opt_preserves_target(self.northeast, b3, theta);
                }
                match &self.northeast {
                    Option::Some(c) => {
                        (&**c).update_force_with(body, theta);
                    },
                    Option::None => {
                    },
                }
            }
        }
    }

    /// The northwest child, if present.
    pub fn northwest(&self) -> (r: Option<&BarnesHutTree>)
        ensures
            r is Some <==> self.northwest is Some,
            r is Some ==> *r.unwrap() == *self.northwest.unwrap(),
    {
        match &self.northwest {
            Option::Some(c) => Option::Some(&**c),
            Option::None => Option::None,
        }
    }

    /// The northeast child, if present.
    pub fn northeast(&self) -> (r: Option<&BarnesHutTree>)
        ensures
            r is Some <==> self.northeast is Some,
            r is Some ==> *r.unwrap() == *self.northeast.unwrap(),
    {
        match &self.northeast {
            Option::Some(c) => Option::Some(&**c),
            Option::None => Option::None,
        }
    }

    /// The southwest child, if present.
    pub fn southwest(&self) -> (r: Option<&BarnesHutTree>)
        ensures
            r is Some <==> self.southwest is Some,
            r is Some ==> *r.unwrap() == *self.southwest.unwrap(),
    {
        match &self.southwest {
            Option::Some(c) => Option::Some(&**c),
            Option::None => Option::None,
        }
    }

    /// The southeast child, if present.
    pub fn southeast(&self) -> (r: Option<&BarnesHutTree>)
        ensures
            r is Some <==> self.southeast is Some,
            r is Some ==> *r.unwrap() == *self.southeast.unwrap(),
    {
        match &self.southeast {
            Option::Some(c) => Option::Some(&**c),
            Option::None => Option::None,
        }
    }
}

/// Two bounded points keep their squared distance inside machine range.
pub proof fn lemma_sq_dist_in_range(a: Vec2, b: Vec2)
    requires
        -COORD_LIMIT <= a.x.v() <= COORD_LIMIT,
        -COORD_LIMIT <= a.y.v() <= COORD_LIMIT,
        -COORD_LIMIT <= b.x.v() <= COORD_LIMIT,
        -COORD_LIMIT <= b.y.v() <= COORD_LIMIT,
    ensures
        fits(a.x.v() - b.x.v()),
        fits(a.y.v() - b.y.v()),
        0 <= crate::vec2::sq_dist(a, b) <= i128::MAX as int,
{
    let dx = a.x.v() - b.x.v();
    let dy = a.y.v() - b.y.v();
    assert(0 <= dx * dx <= 64_000_000_000_000_000_000_000_000_000_000_000_000)
        by (nonlinear_arith)
        requires
            -2 * COORD_LIMIT <= dx <= 2 * COORD_LIMIT,
            COORD_LIMIT == 4_000_000_000_000_000_000,
    ;
    assert(0 <= dy * dy <= 64_000_000_000_000_000_000_000_000_000_000_000_000)
        by (nonlinear_arith)
        requires
            -2 * COORD_LIMIT <= dy <= 2 * COORD_LIMIT,
            COORD_LIMIT == 4_000_000_000_000_000_000,
    ;
}

/// The sums are functions of the multiset of bodies alone: any two
/// arrangements of the same bodies have equal sums.
pub proof fn lemma_sums_permutation(s1: Seq<Body>, s2: Seq<Body>)
    requires
        s1.to_multiset() == s2.to_multiset(),
    ensures
        mass_sum(s1) == mass_sum(s2),
        moment_x_sum(s1) == moment_x_sum(s2),
        moment_y_sum(s1) == moment_y_sum(s2),
    decreases s1.len(),
{
    s1.to_multiset_ensures();
    s2.to_multiset_ensures();
    if s1.len() == 0 {
        assert(s2.len() == 0);
        assert(s2 =~= Seq::empty());
    } else {
        let x = s1.last();
        let i1 = s1.len() - 1;
        assert(s1.contains(x));
        assert(s1.to_multiset().count(x) > 0);
        assert(s2.contains(x));
        let i2 = choose|j: int| 0 <= j < s2.len() && s2[j] == x;
        lemma_sums_remove(s1, i1);
        lemma_sums_remove(s2, i2);
        assert(s1.remove(i1) =~= s1.drop_last());
        assert(s1.remove(i1).to_multiset() =~= s2.remove(i2).to_multiset());
        lemma_sums_permutation(s1.remove(i1), s2.remove(i2));
    }
}

/// The exact net force the sources `s` exert on `b`, skipping sources at
/// `b`'s own position; x component in raw units. Position and mass of
/// the target alone determine it.
pub open spec fn delta_x_sum(s: Seq<Body>, b: Body) -> int
    decreases s.len(),
{
    if s.len() == 0 {
        0
    } else {
        delta_x_sum(s.drop_last(), b) + (if s.last().pos == b.pos {
            0
        } else {
            force_delta(b, s.last()).x.v()
        })
    }
}

/// The matching y component.
pub open spec fn delta_y_sum(s: Seq<Body>, b: Body) -> int
    decreases s.len(),
{
    if s.len() == 0 {
        0
    } else {
        delta_y_sum(s.drop_last(), b) + (if s.last().pos == b.pos {
            0
        } else {
            force_delta(b, s.last()).y.v()
        })
    }
}

/// Concatenation splits the exact force sums.
pub proof fn lemma_delta_concat(a: Seq<Body>, c: Seq<Body>, b: Body)
    ensures
        delta_x_sum(a + c, b) == delta_x_sum(a, b) + delta_x_sum(c, b),
        delta_y_sum(a + c, b) == delta_y_sum(a, b) + delta_y_sum(c, b),
    decreases c.len(),
{
    if c.len() == 0 {
        assert(a + c =~= a);
    } else {
        lemma_delta_concat(a, c.drop_last(), b);
        assert((a + c).drop_last() =~= a + c.drop_last());
        assert((a + c).last() == c.last());
    }
}

/// The exact force sums see only the target's position and mass.
pub proof fn lemma_delta_same_target(s: Seq<Body>, b1: Body, b2: Body)
    requires
        b1.pos == b2.pos,
        b1.mass == b2.mass,
    ensures
        delta_x_sum(s, b1) == delta_x_sum(s, b2),
        delta_y_sum(s, b1) == delta_y_sum(s, b2),
    decreases s.len(),
{
    if s.len() > 0 {
        lemma_delta_same_target(s.drop_last(), b1, b2);
        if !(s.last().pos == b1.pos) {
            assert(force_delta(b1, s.last()) == force_delta(b2, s.last()));
        }
    }
}

/// Removing one source removes exactly its contribution.
pub proof fn lemma_delta_remove(s: Seq<Body>, i: int, b: Body)
    requires
        0 <= i < s.len(),
    ensures
        delta_x_sum(s.remove(i), b) == delta_x_sum(s, b) - (if s[i].pos == b.pos {
            0
        } else {
            force_delta(b, s[i]).x.v()
        }),
        delta_y_sum(s.remove(i), b) == delta_y_sum(s, b) - (if s[i].pos == b.pos {
            0
        } else {
            force_delta(b, s[i]).y.v()
        }),
    decreases s.len(),
{
    if i == s.len() - 1 {
        assert(s.remove(i) =~= s.drop_last());
    } else {
        lemma_delta_remove(s.drop_last(), i, b);
        assert(s.remove(i).drop_last() =~= s.drop_last().remove(i));
        assert(s.remove(i).last() == s.last());
        assert(s.drop_last()[i] == s[i]);
    }
}

/// The exact force sums are functions of the multiset of sources alone.
pub proof fn lemma_delta_permutation(s1: Seq<Body>, s2: Seq<Body>, b: Body)
    requires
        s1.to_multiset() == s2.to_multiset(),
    ensures
        delta_x_sum(s1, b) == delta_x_sum(s2, b),
        delta_y_sum(s1, b) == delta_y_sum(s2, b),
    decreases s1.len(),
{
    s1.to_multiset_ensures();
    s2.to_multiset_ensures();
    if s1.len() == 0 {
        assert(s2.len() == 0);
        assert(s2 =~= Seq::empty());
    } else {
        let x = s1.last();
        let i1 = s1.len() - 1;
        assert(s1.contains(x));
        assert(s1.to_multiset().count(x) > 0);
        assert(s2.contains(x));
        let i2 = choose|j: int| 0 <= j < s2.len() && s2[j] == x;
        lemma_delta_remove(s1, i1, b);
        lemma_delta_remove(s2, i2, b);
        assert(s1.remove(i1) =~= s1.drop_last());
        assert(s1.remove(i1).to_multiset() =~= s2.remove(i2).to_multiset());
        lemma_delta_permutation(s1.remove(i1), s2.remove(i2), b);
    }
}

/// Under a zero threshold no aggregate is ever accepted, and a query
/// that stays in machine range accumulates exactly the net force of the
/// stored bodies, each contributing individually.
pub proof fn lemma_exact_traversal(t: BarnesHutTree, b: Body)
    requires
        t.wf(),
        spec_update_force(t, b, Scalar { raw: 0 }) is Some,
    ensures
        ({
            let b2 = spec_update_force(t, b, Scalar { raw: 0 }).unwrap();
            b2.force.x.v() == b.force.x.v() + delta_x_sum(t.bodies(), b) && b2.force.y.v()
                == b.force.y.v() + delta_y_sum(t.bodies(), b)
        }),
    decreases t,
{
    let zero = Scalar { raw: 0 };
    if t.is_external_spec() {
        match t.leaf_body {
            Option::None => {
                assert(t.bodies() =~= Seq::empty());
            },
            Option::Some(src) => {
                assert(t.bodies() =~= seq![src]);
                assert(t.bodies().drop_last() =~= Seq::empty());
                if !(src.pos == b.pos) {
                    crate::body::lemma_force_delta_in_range(b, src);
                }
            },
        }
    } else {
        assert(t.quad.length.v() >= 0);
        let agg = Body {
            pos: Vec2 {
                x: Scalar { raw: spec_div(t.moment.x.v(), t.mass_total.v()) as i128 },
                y: Scalar { raw: spec_div(t.moment.y.v(), t.mass_total.v()) as i128 },
            },
            velocity: Vec2 { x: Scalar { raw: 0 }, y: Scalar { raw: 0 } },
            force: Vec2 { x: Scalar { raw: 0 }, y: Scalar { raw: 0 } },
            mass: t.mass_total,
        };
        let dx = agg.pos.x.v() - b.pos.x.v();
        let dy = agg.pos.y.v() - b.pos.y.v();
        assert(dx * dx >= 0 && dy * dy >= 0) by (nonlinear_arith);
        assert(crate::vec2::sq_dist(agg.pos, b.pos) == dx * dx + dy * dy);
        let d = crate::vec2::sqrt_floor(crate::vec2::sq_dist(agg.pos, b.pos));
        crate::vec2::lemma_sqrt_floor(crate::vec2::sq_dist(agg.pos, b.pos));
        assert(zero.v() * d == 0) by (nonlinear_arith)
            requires
                zero.v() == 0,
        ;
        assert(t.quad.length.v() * UNIT >= 0) by (nonlinear_arith)
            requires
                t.quad.length.v() >= 0 && UNIT > 0,
        ;
        assert(!(t.quad.length.v() * UNIT < zero.v() * d));
        let b1o = spec_update_opt(t.northwest, b, zero);
        lemma_exact_opt(t.northwest, b, zero);
        lemma_query_opt_preserves_target(t.northwest, b, zero);
        let b1 = b1o.unwrap();
        let b2o = spec_update_opt(t.southwest, b1, zero);
        lemma_exact_opt(t.southwest, b1, zero);
        lemma_query_opt_preserves_target(t.southwest, b1, zero);
        let b2 = b2o.unwrap();
        let b3o = spec_update_opt(t.southeast, b2, zero);
        lemma_exact_opt(t.southeast, b2, zero);
        lemma_query_opt_preserves_target(t.southeast, b2, zero);
        let b3 = b3o.unwrap();
        let b4o = spec_update_opt(t.northeast, b3, zero);
        lemma_exact_opt(t.northeast, b3, zero);
        lemma_query_opt_preserves_target(t.northeast, b3, zero);
        let nw = opt_bodies(t.northwest);
        let ne = opt_bodies(t.northeast);
        let sw = opt_bodies(t.southwest);
        let se = opt_bodies(t.southeast);
        lemma_delta_same_target(sw, b1, b);
        lemma_delta_same_target(se, b2, b);
        lemma_delta_same_target(ne, b3, b);
        lemma_delta_concat(nw, ne, b);
        lemma_delta_concat(nw + ne, sw, b);
        lemma_delta_concat(nw + ne + sw, se, b);
        assert(t.bodies() =~= nw + ne + sw + se);
    }
}

/// The per-child form of the zero-threshold exactness.
proof fn lemma_exact_opt(c: Option<Box<BarnesHutTree>>, b: Body, zero: Scalar)
    requires
        zero.v() == 0,
        child_wf_any(c),
        spec_update_opt(c, b, zero) is Some,
    ensures
        ({
            let b2 = spec_update_opt(c, b, zero).unwrap();
            b2.force.x.v() == b.force.x.v() + delta_x_sum(opt_bodies(c), b) && b2.force.y.v()
                == b.force.y.v() + delta_y_sum(opt_bodies(c), b)
        }),
    decreases c,
{
    match c {
        Option::Some(t) => {
            lemma_exact_traversal(*t, b);
        },
        Option::None => {
            assert(opt_bodies(c) =~= Seq::empty());
        },
    }
}

/// Whether an optional child is well formed over whatever region it has.
pub open spec fn child_wf_any(c: Option<Box<BarnesHutTree>>) -> bool {
    match c {
        Option::Some(t) => t.wf(),
        Option::None => true,
    }
}

/// The root sums, and hence the aggregate, are order-independent: any
/// two well-formed trees storing the same multiset of bodies have equal
/// mass totals, moments, and (when both are internal) equal composites.
pub proof fn lemma_aggregate_order_independent(t1: BarnesHutTree, t2: BarnesHutTree)
    requires
        t1.wf(),
        t2.wf(),
        t1.bodies().to_multiset() == t2.bodies().to_multiset(),
    ensures
        t1.mass_total == t2.mass_total,
        t1.moment == t2.moment,
        (!t1.is_external_spec() && !t2.is_external_spec()) ==> t1.spec_aggregate()
            == t2.spec_aggregate(),
{
    lemma_sums_permutation(t1.bodies(), t2.bodies());
}

/// The aggregate of an internal node is the directly computed
/// mass-weighted composite of the bodies stored below it: total mass,
/// and the fixed-point quotient of the summed mass-position products by
/// that total.
pub proof fn lemma_aggregate_is_centroid(t: BarnesHutTree)
    requires
        t.wf(),
        !t.is_external_spec(),
    ensures
        t.spec_aggregate() == Option::Some(
            Body {
                pos: Vec2 {
                    x: Scalar {
                        raw: spec_div(moment_x_sum(t.bodies()), mass_sum(t.bodies())) as i128,
                    },
                    y: Scalar {
                        raw: spec_div(moment_y_sum(t.bodies()), mass_sum(t.bodies())) as i128,
                    },
                },
                velocity: Vec2 { x: Scalar { raw: 0 }, y: Scalar { raw: 0 } },
                force: Vec2 { x: Scalar { raw: 0 }, y: Scalar { raw: 0 } },
                mass: Scalar { raw: mass_sum(t.bodies()) as i128 },
            },
        ),
{
}

/// A tree built by folding insertions over a sequence of bodies.
pub open spec fn spec_build(q: Quad, s: Seq<Body>, depth: nat) -> BarnesHutTree
    decreases s.len(),
{
    if s.len() == 0 {
        spec_empty(q)
    } else {
        spec_insert(spec_build(q, s.drop_last(), depth), s.last(), depth).0
    }
}

/// Whether building over `s` stored every body (no insertion ran out of
/// subdivision depth).
pub open spec fn all_stored(q: Quad, s: Seq<Body>, depth: nat) -> bool
    decreases s.len(),
{
    if s.len() == 0 {
        true
    } else {
        all_stored(q, s.drop_last(), depth) && spec_insert(
            spec_build(q, s.drop_last(), depth),
            s.last(),
            depth,
        ).1
    }
}

/// A built tree is well formed and stores exactly the multiset of the
/// bodies given to it.
pub proof fn lemma_build_bodies(q: Quad, s: Seq<Body>, depth: nat)
    requires
        q.wf(),
        all_ok(s),
        mass_sum(s) <= MASS_TOTAL_LIMIT,
        all_stored(q, s, depth),
    ensures
        spec_build(q, s, depth).wf(),
        spec_build(q, s, depth).quad == q,
        spec_build(q, s, depth).bodies().to_multiset() == s.to_multiset(),
    decreases s.len(),
{
    s.to_multiset_ensures();
    if s.len() == 0 {
        lemma_empty_wf(q);
        Seq::<Body>::empty().to_multiset_ensures();
        assert(spec_build(q, s, depth).bodies() =~= Seq::empty());
        assert(s =~= Seq::empty());
        assert(spec_build(q, s, depth).bodies().to_multiset() =~= s.to_multiset());
    } else {
        let pre = s.drop_last();
        assert(forall|i: int| 0 <= i < pre.len() ==> pre[i] == s[i]);
        assert(mass_sum(pre) + s.last().mass.v() == mass_sum(s));
        assert(body_ok(s.last()));
        lemma_build_bodies(q, pre, depth);
        let t = spec_build(q, pre, depth);
        lemma_sums_permutation(t.bodies(), pre);
        lemma_insert_preserves(t, s.last(), depth);
        pre.to_multiset_ensures();
        assert(s =~= pre.push(s.last()));
        assert(s.to_multiset() =~= pre.to_multiset().insert(s.last()));
        assert(spec_build(q, s, depth).bodies().to_multiset() =~= s.to_multiset());
    }
}

/// The root aggregate of a built tree is the directly computed
/// mass-weighted composite of the bodies it was given, whatever their
/// order: total mass, and summed mass-position products over that total.
pub proof fn lemma_built_aggregate_matches_direct(q: Quad, s: Seq<Body>, depth: nat)
    requires
        q.wf(),
        all_ok(s),
        mass_sum(s) <= MASS_TOTAL_LIMIT,
        all_stored(q, s, depth),
    ensures
        spec_build(q, s, depth).mass_total.v() == mass_sum(s),
        spec_build(q, s, depth).moment.x.v() == moment_x_sum(s),
        spec_build(q, s, depth).moment.y.v() == moment_y_sum(s),
{
    lemma_build_bodies(q, s, depth);
    lemma_sums_permutation(spec_build(q, s, depth).bodies(), s);
}

/// Construction is deterministic: two fresh trees given the same bodies
/// in the same order are structurally and numerically identical.
pub proof fn lemma_rebuild_identical(
    q: Quad,
    s: Seq<Body>,
    depth: nat,
    t1: BarnesHutTree,
    t2: BarnesHutTree,
)
    requires
        t1 == spec_build(q, s, depth),
        t2 == spec_build(q, s, depth),
    ensures
        t1 == t2,
{
}

} // verus!
