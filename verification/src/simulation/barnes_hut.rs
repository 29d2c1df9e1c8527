//! The Barnes-Hut strategy: per step, a fresh quadtree over a fixed
//! bounding region, then an approximate force query and integration for
//! every body the region contains. Bodies outside the region are left
//! untouched for that step.

use vstd::prelude::*;

pub mod quad;
pub mod tree;

use crate::body::{update_defined, updated, Body};
use crate::scalar::Scalar;
use crate::simulation::barnes_hut::quad::{spec_contains, Quad};
use crate::simulation::barnes_hut::tree::{
    all_ok, all_stored, body_ok, lemma_build_bodies, lemma_delta_permutation,
    lemma_exact_traversal, lemma_insert_preserves, lemma_sums_bounded, lemma_sums_concat,
    mass_sum, spec_build, spec_empty, spec_insert, spec_update_force, BarnesHutTree, INSERT_DEPTH,
    MASS_TOTAL_LIMIT, THETA_RAW,
};
use crate::simulation::brute_force::{
    lemma_pair_forces_sum, reset_body, spec_brute_forces,
};
use crate::simulation::Simulation;

verus! {

/// The tree a step builds: every body the region contains, inserted in
/// index order.
pub open spec fn bh_tree(q: Quad, s: Seq<Body>, n: nat) -> BarnesHutTree
    decreases n,
{
    if n == 0 {
        spec_empty(q)
    } else {
        let t = bh_tree(q, s, (n - 1) as nat);
        if spec_contains(q, s[n - 1].pos) {
            spec_insert(t, s[n - 1], INSERT_DEPTH as nat).0
        } else {
            t
        }
    }
}

/// What one step leaves of one body: a body outside the region is
/// untouched; a contained one has its force reset, the tree's
/// approximate net force accumulated, and one integration step applied.
pub open spec fn bh_step_body(t: BarnesHutTree, q: Quad, b: Body, dt: Scalar) -> Option<Body> {
    if !spec_contains(q, b.pos) {
        Option::Some(b)
    } else {
        match spec_update_force(t, reset_body(b), Scalar { raw: THETA_RAW }) {
            Option::None => Option::None,
            Option::Some(b1) => {
                if update_defined(b1, dt) {
                    Option::Some(updated(b1, dt))
                } else {
                    Option::None
                }
            },
        }
    }
}

/// Hierarchical O(n log n) force approximation over a fixed bounding
/// region.
#[derive(Clone, Copy, PartialEq, Eq, Structural, Debug)]
pub struct BarnesHut {
    pub quad: Quad,
}

impl BarnesHut {
    /// Builds the strategy over the given bounding region.
    pub fn new(quad: Quad) -> (r: BarnesHut)
        ensures
            r.quad == quad,
    {
        BarnesHut { quad }
    }
}

impl Simulation for BarnesHut {
    /// The region is well formed, every body is within the tree's
    /// budgets, and every query and integration of this step stays
    /// within machine range.
    open spec fn step_req(&self, bodies: Seq<Body>, dt: Scalar) -> bool {
        &&& self.quad.wf()
        &&& forall|i: int| 0 <= i < bodies.len() ==> body_ok(#[trigger] bodies[i])
        &&& mass_sum(bodies) <= MASS_TOTAL_LIMIT
        &&& forall|i: int|
            0 <= i < bodies.len() ==> (#[trigger] bh_step_body(
                bh_tree(self.quad, bodies, bodies.len() as nat),
                self.quad,
                bodies[i],
                dt,
            )) is Some
    }

    /// Every body holds exactly what one step of the fresh tree gives it.
    open spec fn step_ens(&self, old_bodies: Seq<Body>, new_bodies: Seq<Body>, dt: Scalar) -> bool {
        &&& new_bodies.len() == old_bodies.len()
        &&& forall|i: int|
            0 <= i < old_bodies.len() ==> Option::Some(#[trigger] new_bodies[i]) == bh_step_body(
                bh_tree(self.quad, old_bodies, old_bodies.len() as nat),
                self.quad,
                old_bodies[i],
                dt,
            )
    }

    fn step(&mut self, bodies: &mut Vec<Body>, dt: Scalar) {
        let ghost s0 = bodies@;
        let n = bodies.len();
        let mut tree = BarnesHutTree::new(self.quad);
        let mut i: usize = 0;
        while i < n
            invariant
                n == bodies.len() == s0.len(),
                i <= n,
                self.step_req(s0, dt),
                bodies@ == s0,
                tree == bh_tree(self.quad, s0, i as nat),
                tree.wf(),
                mass_sum(tree.bodies()) <= mass_sum(s0.take(i as int)),
            decreases n - i,
        {
            let b = bodies[i];
            proof {
                lemma_take_mass(s0, i as int);
                assert(s0.take(i + 1).drop_last() =~= s0.take(i as int));
                assert(s0.take(i + 1).last() == s0[i as int]);
                assert(mass_sum(s0.take(i + 1)) == mass_sum(s0.take(i as int))
                    + s0[i as int].mass.v());
                lemma_take_mass(s0, i + 1);
            }
            if self.quad.contains(&b.pos) {
                proof {
                    lemma_insert_preserves(tree, b, INSERT_DEPTH as nat);
                }
                let _stored = tree.insert(&b);
            }
            i += 1;
        }
        let mut k: usize = 0;
        while k < n
            invariant
                n == bodies.len() == s0.len(),
                k <= n,
                self.step_req(s0, dt),
                tree == bh_tree(self.quad, s0, n as nat),
                tree.wf(),
                forall|m: int| k <= m < n ==> bodies@[m] == s0[m],
                forall|m: int|
                    0 <= m < k ==> Option::Some(#[trigger] bodies@[m]) == bh_step_body(
                        tree,
                        self.quad,
                        s0[m],
                        dt,
                    ),
            decreases n - k,
        {
            let mut b = bodies[k];
            if self.quad.contains(&b.pos) {
                b.reset_force();
                assert(b == reset_body(s0[k as int]));
                tree.update_force(&mut b);
                b.update(dt);
                bodies.set(k, b);
            }
            k += 1;
        }
    }
}

/// With the opening-angle threshold forced to zero the hierarchical
/// query is exact: against any well-formed tree that stores exactly the
/// bodies of a snapshot, it accumulates the same net force on each
/// snapshot body as the brute-force pairwise pass over that snapshot,
/// whenever both stay in machine range.
pub proof fn lemma_strategies_agree(t: BarnesHutTree, s: Seq<Body>, i: int)
    requires
        t.wf(),
        0 <= i < s.len(),
        t.bodies().to_multiset() == s.to_multiset(),
        spec_update_force(t, reset_body(s[i]), Scalar { raw: 0 }) is Some,
        spec_brute_forces(s, i) is Some,
    ensures
        spec_update_force(t, reset_body(s[i]), Scalar { raw: 0 }).unwrap().force
            == spec_brute_forces(s, i).unwrap().force,
{
    let b = reset_body(s[i]);
    lemma_exact_traversal(t, b);
    lemma_delta_permutation(t.bodies(), s, b);
    lemma_pair_forces_sum(s, b, i, s.len() as nat);
    assert(s.take(s.len() as int) =~= s);
    let bh = spec_update_force(t, b, Scalar { raw: 0 }).unwrap();
    let bf = spec_brute_forces(s, i).unwrap();
    assert(bh.force.x.v() == bf.force.x.v() && bh.force.y.v() == bf.force.y.v());
    assert(bh.force == bf.force);
}

/// The strategies agree end to end: build a fresh tree from a snapshot
/// (in any order — the stored multiset is the same) and query it with a
/// zero threshold, and each body receives exactly the brute-force net
/// force, whenever both computations stay in machine range.
pub proof fn lemma_built_tree_matches_brute_force(q: Quad, s: Seq<Body>, i: int)
    requires
        q.wf(),
        all_ok(s),
        mass_sum(s) <= MASS_TOTAL_LIMIT,
        all_stored(q, s, INSERT_DEPTH as nat),
        0 <= i < s.len(),
        spec_update_force(
            spec_build(q, s, INSERT_DEPTH as nat),
            reset_body(s[i]),
            Scalar { raw: 0 },
        ) is Some,
        spec_brute_forces(s, i) is Some,
    ensures
        spec_update_force(
            spec_build(q, s, INSERT_DEPTH as nat),
            reset_body(s[i]),
            Scalar { raw: 0 },
        ).unwrap().force == spec_brute_forces(s, i).unwrap().force,
{
    lemma_build_bodies(q, s, INSERT_DEPTH as nat);
    lemma_strategies_agree(spec_build(q, s, INSERT_DEPTH as nat), s, i);
}

/// Prefix mass sums never exceed the whole sequence's sum when every
/// mass is positive.
pub proof fn lemma_take_mass(s: Seq<Body>, k: int)
    requires
        0 <= k <= s.len(),
        forall|i: int| 0 <= i < s.len() ==> body_ok(#[trigger] s[i]),
    ensures
        0 <= mass_sum(s.take(k)) <= mass_sum(s),
{
    assert(s =~= s.take(k) + s.skip(k));
    assert(forall|i: int| 0 <= i < s.take(k).len() ==> s.take(k)[i] == s[i]);
    assert(forall|i: int| 0 <= i < s.skip(k).len() ==> s.skip(k)[i] == s[i + k]);
    lemma_sums_concat(s.take(k), s.skip(k));
    lemma_sums_bounded(s.take(k));
    lemma_sums_bounded(s.skip(k));
}

} // verus!
