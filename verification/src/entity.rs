//! Identifiers of the things in a simulated world.

use vstd::prelude::*;

verus! {

/// The identifier of a collider or a body.
///
/// The index of an entity can be used again once the entity is gone,
/// with another generation.
#[derive(Clone, Copy, Debug, PartialEq, Eq, Hash, Structural)]
pub struct Entity {
    /// The index of the entity among those that exist.
    pub index: u32,
    /// The generation of the entity among those that have had its index.
    pub generation: u32,
}

impl Entity {
    /// Creates an entity identifier from its parts.
    pub fn new(index: u32, generation: u32) -> (res: Self)
        ensures
            res == (Entity { index, generation }),
    {
        Entity { index, generation }
    }

    /// Returns the index of the entity.
    pub fn index_u32(&self) -> (res: u32)
        ensures
            res == self.index,
    {
        self.index
    }
}

} // verus!
