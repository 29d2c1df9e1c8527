//! Simulation strategies: a common stepping interface with an exact
//! brute-force implementation and a Barnes-Hut approximation.

use vstd::prelude::*;

use crate::body::Body;

pub mod barnes_hut;
pub mod brute_force;

verus! {

/// One strategy for advancing an n-body system by a discrete time step.
/// Each implementation fixes its own precondition and exact outcome
/// through the two spec functions.
pub trait Simulation: Sized {
    /// When `step` may be called on this collection.
    spec fn step_req(&self, bodies: Seq<Body>, dt: crate::scalar::Scalar) -> bool;

    /// What `step` leaves behind.
    spec fn step_ens(
        &self,
        old_bodies: Seq<Body>,
        new_bodies: Seq<Body>,
        dt: crate::scalar::Scalar,
    ) -> bool;

    /// Advances every body by one interval `dt`, mutating in place.
    fn step(&mut self, bodies: &mut Vec<Body>, dt: crate::scalar::Scalar)
        requires
            old(self).step_req(old(bodies)@, dt),
        ensures
            *final(self) == *old(self),
            old(self).step_ens(old(bodies)@, final(bodies)@, dt),
    ;
}

} // verus!
