//! User-defined filtering of collision pairs.

use crate::entity::Entity;
use vstd::prelude::*;

verus! {

/// The hooks that are called for a collider.
#[derive(Clone, Copy, Debug, PartialEq, Eq, Hash, Structural)]
pub struct ActiveCollisionHooks {
    /// Whether [`CollisionHooks::filter_pairs`] is called for pairs of the collider.
    pub filter_pairs: bool,
    /// Whether contacts of the collider can be modified.
    pub modify_contacts: bool,
}

impl Default for ActiveCollisionHooks {
    /// No hook is called.
    fn default() -> (res: Self)
        ensures
            res == (ActiveCollisionHooks { filter_pairs: false, modify_contacts: false }),
    {
        ActiveCollisionHooks { filter_pairs: false, modify_contacts: false }
    }
}

/// User-defined hooks for filtering collision pairs.
pub trait CollisionHooks {
    /// What a hook can use to make changes to the world.
    type Commands;

    /// Whether the hook can give the answer for the two colliders when it is called with `before`,
    /// and leave `after`. Unless an implementation says otherwise, it can give any.
    open spec fn can_answer(
        &self,
        collider1: Entity,
        collider2: Entity,
        before: Self::Commands,
        after: Self::Commands,
        answer: bool,
    ) -> bool {
        true
    }

    /// Decides whether a contact is to be created for the two colliders.
    fn filter_pairs(
        &self,
        collider1: Entity,
        collider2: Entity,
        commands: &mut Self::Commands,
    ) -> (answer: bool)
        ensures
            self.can_answer(collider1, collider2, *old(commands), *final(commands), answer),
    ;
}

/// Whether the hooks can give the answer for the two colliders.
pub open spec fn hooks_may_answer<H: CollisionHooks>(
    hooks: H,
    collider1: Entity,
    collider2: Entity,
    answer: bool,
) -> bool {
    exists|before: H::Commands, after: H::Commands| #[trigger]
        hooks.can_answer(collider1, collider2, before, after, answer)
}

/// The hooks that let every pair through.
impl CollisionHooks for () {
    type Commands = ();

    open spec fn can_answer(
        &self,
        collider1: Entity,
        collider2: Entity,
        before: (),
        after: (),
        answer: bool,
    ) -> bool {
        answer
    }

    fn filter_pairs(
        &self,
        collider1: Entity,
        collider2: Entity,
        commands: &mut (),
    ) -> (answer: bool) {
        true
    }
}

/// Without hooks of the user, every pair is let through.
pub proof fn no_hooks_let_pass(collider1: Entity, collider2: Entity, answer: bool)
    requires
        hooks_may_answer((), collider1, collider2, answer),
    ensures
        answer,
{
}

} // verus!
