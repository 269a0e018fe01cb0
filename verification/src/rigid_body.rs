//! The kinds of rigid bodies.

use vstd::prelude::*;

verus! {

/// How a rigid body takes part in the simulation.
#[derive(Clone, Copy, Debug, PartialEq, Eq, Hash, Structural)]
pub enum RigidBody {
    /// A body that is moved by forces and collisions.
    Dynamic,
    /// A body that is never moved by the simulation.
    Static,
    /// A body that moves with its own velocity, unaffected by forces.
    Kinematic,
}

} // verus!
