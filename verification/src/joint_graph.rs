//! The joints between bodies.

use crate::entity::Entity;
use vstd::prelude::*;

verus! {

/// A joint between two bodies.
#[derive(Clone, Copy, Debug, PartialEq, Eq, Structural)]
pub struct JointGraphEdge {
    /// The first body.
    pub body1: Entity,
    /// The second body.
    pub body2: Entity,
    /// Whether the joint disables contacts between the two bodies.
    pub collision_disabled: bool,
}

impl JointGraphEdge {
    /// Whether the joint is between the two bodies, in either order.
    pub open spec fn joins(self, body1: Entity, body2: Entity) -> bool {
        ||| self.body1 == body1 && self.body2 == body2
        ||| self.body1 == body2 && self.body2 == body1
    }
}

/// Whether a joint disables contacts between the two bodies.
pub open spec fn joints_disable(
    joints: Seq<JointGraphEdge>,
    body1: Entity,
    body2: Entity,
) -> bool {
    exists|i: int|
        0 <= i < joints.len() && (#[trigger] joints[i]).joins(body1, body2)
            && joints[i].collision_disabled
}

/// The joints between bodies.
pub struct JointGraph {
    edges: Vec<JointGraphEdge>,
}

impl View for JointGraph {
    type V = Seq<JointGraphEdge>;

    /// The joints, in the order in which they were added.
    closed spec fn view(&self) -> Seq<JointGraphEdge> {
        self.edges@
    }
}

impl JointGraph {
    /// Creates a graph without joints.
    pub fn new() -> (res: Self)
        ensures
            res@ == Seq::<JointGraphEdge>::empty(),
    {
        JointGraph { edges: Vec::new() }
    }

    /// Adds a joint.
    pub fn add_joint(&mut self, edge: JointGraphEdge)
        ensures
            final(self)@ == old(self)@.push(edge),
    {
        self.edges.push(edge);
    }

    /// Returns whether a joint disables contacts between the two bodies.
    pub fn disables_collision(&self, body1: Entity, body2: Entity) -> (res: bool)
        ensures
            res == joints_disable(self@, body1, body2),
    {
        let mut i: usize = 0;
        while i < self.edges.len()
            invariant
                i <= self.edges.len(),
                forall|j: int|
                    0 <= j < i ==> !((#[trigger] self.edges@[j]).joins(body1, body2)
                        && self.edges@[j].collision_disabled),
            decreases self.edges.len() - i,
        {
            let edge: JointGraphEdge = self.edges[i];
            let joins = (edge.body1 == body1 && edge.body2 == body2) || (edge.body1 == body2
                && edge.body2 == body1);
            if joins && edge.collision_disabled {
                assert(self@[i as int].joins(body1, body2));
                return true;
            }
            i = i + 1;
        }
        false
    }
}

/// A joint disables contacts between two bodies whichever of the two is named first.
pub proof fn joints_disable_symmetric(joints: Seq<JointGraphEdge>, body1: Entity, body2: Entity)
    ensures
        joints_disable(joints, body1, body2) == joints_disable(joints, body2, body1),
{
    if joints_disable(joints, body1, body2) {
        let i = choose|i: int|
            0 <= i < joints.len() && (#[trigger] joints[i]).joins(body1, body2)
                && joints[i].collision_disabled;
        assert(joints[i].joins(body2, body1));
    }
    if joints_disable(joints, body2, body1) {
        let i = choose|i: int|
            0 <= i < joints.len() && (#[trigger] joints[i]).joins(body2, body1)
                && joints[i].collision_disabled;
        assert(joints[i].joins(body1, body2));
    }
}

/// Contacts between two bodies are disabled exactly if some joint that disables contacts has one
/// of the two at its one end and the other at its other end.
pub proof fn joints_disable_between_their_ends(
    joints: Seq<JointGraphEdge>,
    body1: Entity,
    body2: Entity,
)
    ensures
        joints_disable(joints, body1, body2) <==> exists|i: int|
            0 <= i < joints.len() && (#[trigger] joints[i]).collision_disabled && (
            joints[i].body1 == body1 && joints[i].body2 == body2 || joints[i].body1 == body2
                && joints[i].body2 == body1),
{
    if joints_disable(joints, body1, body2) {
        let i = choose|i: int|
            0 <= i < joints.len() && (#[trigger] joints[i]).joins(body1, body2)
                && joints[i].collision_disabled;
        assert(joints[i].collision_disabled);
    }
    if exists|i: int|
        0 <= i < joints.len() && (#[trigger] joints[i]).collision_disabled && (joints[i].body1
            == body1 && joints[i].body2 == body2 || joints[i].body1 == body2 && joints[i].body2
            == body1) {
        let i = choose|i: int|
            0 <= i < joints.len() && (#[trigger] joints[i]).collision_disabled && (joints[i].body1
                == body1 && joints[i].body2 == body2 || joints[i].body1 == body2
                && joints[i].body2 == body1);
        assert(joints[i].joins(body1, body2));
    }
}

/// A joint that is added disables contacts between its own two bodies, if it disables contacts at
/// all, and between no others. What other joints disable stays disabled.
pub proof fn added_joint_disables(
    joints: Seq<JointGraphEdge>,
    edge: JointGraphEdge,
    body1: Entity,
    body2: Entity,
)
    ensures
        joints_disable(joints.push(edge), body1, body2) <==> joints_disable(joints, body1, body2)
            || edge.collision_disabled && (edge.body1 == body1 && edge.body2 == body2 || edge.body1
            == body2 && edge.body2 == body1),
{
    let after = joints.push(edge);
    joints_disable_between_their_ends(joints, body1, body2);
    joints_disable_between_their_ends(after, body1, body2);
    assert(forall|i: int| 0 <= i < joints.len() ==> #[trigger] after[i] == joints[i]);
    assert(after[joints.len() as int] == edge);
    if joints_disable(joints, body1, body2) {
        let i = choose|i: int|
            0 <= i < joints.len() && (#[trigger] joints[i]).joins(body1, body2)
                && joints[i].collision_disabled;
        assert(after[i].collision_disabled);
    }
    if joints_disable(after, body1, body2) {
        let i = choose|i: int|
            0 <= i < after.len() && (#[trigger] after[i]).joins(body1, body2)
                && after[i].collision_disabled;
        if i < joints.len() {
            assert(joints[i].joins(body1, body2));
        }
    }
}

} // verus!
