//! The exact strategy: pairwise force summation over every ordered pair,
//! from a single pre-step position snapshot, then integration.

use vstd::prelude::*;

use crate::body::{add_force_defined, force_delta, update_defined, updated, Body};
use crate::scalar::Scalar;
use crate::simulation::barnes_hut::tree::{delta_x_sum, delta_y_sum, spec_after_force};
use crate::simulation::Simulation;
use crate::vec2::Vec2;

verus! {

/// A body with its force accumulator cleared.
pub open spec fn reset_body(b: Body) -> Body {
    Body { force: Vec2 { x: Scalar { raw: 0 }, y: Scalar { raw: 0 } }, ..b }
}

/// The target after accumulating, in index order, the contribution of
/// each of the first `n` snapshot bodies other than the one at `i`;
/// `None` once any contribution degenerates or leaves machine range.
pub open spec fn spec_pair_forces(s: Seq<Body>, b: Body, i: int, n: nat) -> Option<Body>
    decreases n,
{
    if n == 0 {
        Option::Some(b)
    } else {
        match spec_pair_forces(s, b, i, (n - 1) as nat) {
            Option::None => Option::None,
            Option::Some(acc) => {
                if i == n - 1 {
                    Option::Some(acc)
                } else if add_force_defined(acc, s[n - 1]) {
                    Option::Some(spec_after_force(acc, s[n - 1]))
                } else {
                    Option::None
                }
            },
        }
    }
}

/// Body `i` of the snapshot after force reset and the full exact pass.
pub open spec fn spec_brute_forces(s: Seq<Body>, i: int) -> Option<Body> {
    spec_pair_forces(s, reset_body(s[i]), i, s.len())
}

/// Exact O(n^2) pairwise force summation.
#[derive(Clone, Copy, PartialEq, Eq, Structural, Debug)]
pub struct BruteForce;

impl BruteForce {
    /// Builds the brute-force strategy; it keeps no state.
    pub fn new() -> (r: BruteForce)
        ensures
            r == BruteForce,
    {
        BruteForce
    }
}

impl Simulation for BruteForce {
    /// Every pairwise pass and every integration must stay within
    /// machine range (coincident positions in particular are excluded,
    /// as the force law degenerates there).
    open spec fn step_req(&self, bodies: Seq<Body>, dt: Scalar) -> bool {
        forall|i: int|
            0 <= i < bodies.len() ==> (#[trigger] spec_brute_forces(bodies, i)) is Some
                && update_defined(spec_brute_forces(bodies, i).unwrap(), dt)
    }

    /// Each body carries the exact net force from every other body at its
    /// pre-step position, then moves one semi-implicit Euler step.
    open spec fn step_ens(&self, old_bodies: Seq<Body>, new_bodies: Seq<Body>, dt: Scalar) -> bool {
        &&& new_bodies.len() == old_bodies.len()
        &&& forall|i: int|
            0 <= i < old_bodies.len() ==> new_bodies[i] == updated(
                (#[trigger] spec_brute_forces(old_bodies, i)).unwrap(),
                dt,
            )
    }

    fn step(&mut self, bodies: &mut Vec<Body>, dt: Scalar) {
        let ghost s0 = bodies@;
        let n = bodies.len();
        let mut i: usize = 0;
        while i < n
            invariant
                n == bodies.len() == s0.len(),
                i <= n,
                self.step_req(s0, dt),
                forall|k: int| i <= k < n ==> bodies@[k] == s0[k],
                forall|k: int|
                    0 <= k < i ==> Option::Some(#[trigger] bodies@[k]) == spec_brute_forces(s0, k),
            decreases n - i,
        {
            let mut b = bodies[i];
            b.reset_force();
            assert(b == reset_body(s0[i as int]));
            let mut j: usize = 0;
            while j < n
                invariant
                    n == bodies.len() == s0.len(),
                    0 <= i < n,
                    j <= n,
                    self.step_req(s0, dt),
                    forall|k: int| i <= k < n ==> bodies@[k] == s0[k],
                    forall|k: int|
                        0 <= k < i ==> Option::Some(#[trigger] bodies@[k]) == spec_brute_forces(
                            s0,
                            k,
                        ),
                    Option::Some(b) == spec_pair_forces(s0, reset_body(s0[i as int]), i as int, j as nat),
                decreases n - j,
            {
                if j != i {
                    let src = bodies[j];
                    proof {
                        assert(spec_brute_forces(s0, i as int) is Some);
                        lemma_pair_forces_prefix(s0, reset_body(s0[i as int]), i as int, (j + 1) as nat, s0.len() as nat);
                        if j < i {
                            lemma_pair_forces_preserves_target(
                                s0,
                                reset_body(s0[j as int]),
                                j as int,
                                s0.len() as nat,
                            );
                        }
                        assert(src.pos == s0[j as int].pos && src.mass == s0[j as int].mass);
                        assert(add_force_defined(b, s0[j as int]));
                        assert(add_force_defined(b, src) && crate::body::force_delta(b, src)
                            == crate::body::force_delta(b, s0[j as int]));
                    }
                    b.add_force(&src);
                    assert(Option::Some(b) == spec_pair_forces(
                        s0,
                        reset_body(s0[i as int]),
                        i as int,
                        (j + 1) as nat,
                    ));
                } else {
                    assert(Option::Some(b) == spec_pair_forces(
                        s0,
                        reset_body(s0[i as int]),
                        i as int,
                        (j + 1) as nat,
                    ));
                }
                j += 1;
            }
            bodies.set(i, b);
            i += 1;
        }
        let mut k: usize = 0;
        while k < n
            invariant
                n == bodies.len() == s0.len(),
                self.step_req(s0, dt),
                forall|m: int|
                    k <= m < n ==> Option::Some(#[trigger] bodies@[m]) == spec_brute_forces(s0, m),
                forall|m: int|
                    0 <= m < k ==> #[trigger] bodies@[m] == updated(
                        spec_brute_forces(s0, m).unwrap(),
                        dt,
                    ),
            decreases n - k,
        {
            let mut b = bodies[k];
            b.update(dt);
            bodies.set(k, b);
            k += 1;
        }
    }
}

/// A pairwise pass never moves the target: only its force changes.
pub proof fn lemma_pair_forces_preserves_target(s: Seq<Body>, b: Body, i: int, n: nat)
    ensures
        spec_pair_forces(s, b, i, n) is Some ==> {
            let acc = spec_pair_forces(s, b, i, n).unwrap();
            acc.pos == b.pos && acc.velocity == b.velocity && acc.mass == b.mass
        },
    decreases n,
{
    if n > 0 {
        lemma_pair_forces_preserves_target(s, b, i, (n - 1) as nat);
    }
}

/// A defined pairwise pass accumulates exactly the net force of the
/// snapshot's first `n` bodies on the target (whose position matches
/// entry `i`, so that entry contributes nothing either way).
pub proof fn lemma_pair_forces_sum(s: Seq<Body>, b: Body, i: int, n: nat)
    requires
        n <= s.len(),
        0 <= i < s.len(),
        b.pos == s[i].pos,
        spec_pair_forces(s, b, i, n) is Some,
    ensures
        ({
            let b2 = spec_pair_forces(s, b, i, n).unwrap();
            b2.force.x.v() == b.force.x.v() + delta_x_sum(s.take(n as int), b) && b2.force.y.v()
                == b.force.y.v() + delta_y_sum(s.take(n as int), b)
        }),
    decreases n,
{
    if n == 0 {
        assert(s.take(0) =~= Seq::empty());
    } else {
        lemma_pair_forces_sum(s, b, i, (n - 1) as nat);
        lemma_pair_forces_preserves_target(s, b, i, (n - 1) as nat);
        let acc = spec_pair_forces(s, b, i, (n - 1) as nat).unwrap();
        assert(s.take(n as int).drop_last() =~= s.take(n - 1));
        assert(s.take(n as int).last() == s[n - 1]);
        if i == n - 1 {
        } else {
            let src = s[n - 1];
            assert(add_force_defined(acc, src));
            assert(!(src.pos == b.pos)) by {
                if src.pos == b.pos {
                    let ddx = acc.pos.x.v() - src.pos.x.v();
                    let ddy = acc.pos.y.v() - src.pos.y.v();
                    assert(ddx == 0 && ddy == 0);
                    assert(ddx * ddx == 0 && ddy * ddy == 0) by (nonlinear_arith)
                        requires
                            ddx == 0 && ddy == 0,
                    ;
                    assert(crate::vec2::sq_dist(acc.pos, src.pos) == 0);
                    assert(crate::body::body_dist(acc, src) == 0);
                    assert(crate::body::spec_mul(0, 0) == 0) by {
                        assert(crate::scalar::trunc_div(0, crate::scalar::UNIT as int) == 0);
                    }
                }
            }
            crate::body::lemma_force_delta_in_range(acc, src);
            assert(force_delta(acc, src) == force_delta(b, src)) by {
                crate::simulation::barnes_hut::tree::lemma_delta_same_target(
                    seq![src],
                    acc,
                    b,
                );
                assert(crate::vec2::sq_dist(acc.pos, src.pos) == crate::vec2::sq_dist(
                    b.pos,
                    src.pos,
                ));
            }
        }
    }
}

/// If the full pass over a snapshot is defined, so is every prefix of it.
pub proof fn lemma_pair_forces_prefix(s: Seq<Body>, b: Body, i: int, n: nat, m: nat)
    requires
        n <= m,
        spec_pair_forces(s, b, i, m) is Some,
    ensures
        spec_pair_forces(s, b, i, n) is Some,
    decreases m,
{
    if n < m {
        lemma_pair_forces_prefix(s, b, i, n, (m - 1) as nat);
    }
}

} // verus!
