//! Layers that decide which colliders can interact.

use vstd::prelude::*;

verus! {

/// A set of up to 32 layers, one for each bit.
#[derive(Clone, Copy, Debug, PartialEq, Eq, Hash, Structural)]
pub struct LayerMask(pub u32);

/// The layers of a collider, and the layers with which it can interact.
#[derive(Clone, Copy, Debug, PartialEq, Eq, Hash, Structural)]
pub struct CollisionLayers {
    /// The layers that the collider belongs to.
    pub memberships: LayerMask,
    /// The layers with which the collider can interact.
    pub filters: LayerMask,
}

/// Whether two layer masks have a layer in common.
pub open spec fn masks_overlap(a: LayerMask, b: LayerMask) -> bool {
    a.0 & b.0 != 0
}

/// Whether each collider is in a layer with which the other one can interact.
pub open spec fn layers_interact(a: CollisionLayers, b: CollisionLayers) -> bool {
    masks_overlap(a.memberships, b.filters) && masks_overlap(b.memberships, a.filters)
}

impl CollisionLayers {
    /// Creates layers from the layers of the collider and those with which it can interact.
    pub fn new(memberships: LayerMask, filters: LayerMask) -> (res: Self)
        ensures
            res == (CollisionLayers { memberships, filters }),
    {
        CollisionLayers { memberships, filters }
    }

    /// Returns whether each collider is in a layer with which the other one can interact.
    pub fn interacts_with(self, other: Self) -> (res: bool)
        ensures
            res == layers_interact(self, other),
    {
        (self.memberships.0 & other.filters.0) != 0 && (other.memberships.0 & self.filters.0) != 0
    }
}

impl Default for CollisionLayers {
    /// The first layer, which can interact with all layers.
    fn default() -> (res: Self)
        ensures
            res.memberships == LayerMask(1),
            res.filters == LayerMask(u32::MAX),
    {
        CollisionLayers { memberships: LayerMask(1), filters: LayerMask(u32::MAX) }
    }
}

/// Layers interact in both directions or in neither.
pub proof fn layers_interact_symmetric(a: CollisionLayers, b: CollisionLayers)
    ensures
        layers_interact(a, b) == layers_interact(b, a),
{
}

/// A mask that is not empty has one of its 32 bits set.
proof fn lemma_some_bit(mask: u32) -> (bit: u32)
    requires
        mask != 0,
    ensures
        bit < 32,
        (mask >> bit) & 1 == 1,
    decreases mask,
{
    if mask & 1 == 1 {
        assert((mask >> 0u32) & 1 == mask & 1) by (bit_vector);
        0
    } else {
        let half: u32 = mask >> 1;
        assert(half < mask && half != 0) by (bit_vector)
            requires
                half == mask >> 1,
                mask != 0,
                mask & 1 != 1,
        ;
        let bit = lemma_some_bit(half);
        let next: u32 = (bit + 1) as u32;
        assert(next < 32 && (mask >> next) & 1 == 1) by (bit_vector)
            requires
                half == mask >> 1,
                bit < 32,
                next == bit + 1,
                (half >> bit) & 1 == 1,
        ;
        next
    }
}

/// Two masks have a layer in common exactly if some bit is set in both.
pub proof fn masks_overlap_in_some_bit(a: LayerMask, b: LayerMask)
    ensures
        masks_overlap(a, b) <==> exists|i: u32|
            i < 32 && (#[trigger] (a.0 >> i)) & 1 == 1 && (b.0 >> i) & 1 == 1,
{
    let (x, y) = (a.0, b.0);
    let both = x & y;
    if both != 0 {
        let i = lemma_some_bit(both);
        assert((x >> i) & 1 == 1 && (y >> i) & 1 == 1) by (bit_vector)
            requires
                both == x & y,
                i < 32,
                (both >> i) & 1 == 1,
        ;
    }
    if exists|i: u32| i < 32 && (#[trigger] (x >> i)) & 1 == 1 && (y >> i) & 1 == 1 {
        let i = choose|i: u32| i < 32 && (#[trigger] (x >> i)) & 1 == 1 && (y >> i) & 1 == 1;
        assert(x & y != 0) by (bit_vector)
            requires
                i < 32,
                (x >> i) & 1 == 1,
                (y >> i) & 1 == 1,
        ;
    }
}

/// Layers interact exactly if some layer of each is one with which the other can interact.
pub proof fn layers_interact_in_both_directions(a: CollisionLayers, b: CollisionLayers)
    ensures
        layers_interact(a, b) <==> {
            &&& exists|i: u32|
                i < 32 && (#[trigger] (a.memberships.0 >> i)) & 1 == 1 && (b.filters.0 >> i) & 1
                    == 1
            &&& exists|i: u32|
                i < 32 && (#[trigger] (b.memberships.0 >> i)) & 1 == 1 && (a.filters.0 >> i) & 1
                    == 1
        },
{
    masks_overlap_in_some_bit(a.memberships, b.filters);
    masks_overlap_in_some_bit(b.memberships, a.filters);
}

} // verus!
