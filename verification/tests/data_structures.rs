use avian_bvh::collision::collision_layers::{CollisionLayers, LayerMask};
use avian_bvh::data_structures::bit_vec::BitVec;
use avian_bvh::data_structures::pair_key::PairKey;
use avian_bvh::data_structures::stable_vec::StableVec;
use avian_bvh::entity::Entity;
use avian_bvh::joint_graph::{JointGraph, JointGraphEdge};

#[test]
fn bit_vec_sets_and_clears_bits() {
    let mut bits = BitVec::new();
    assert_eq!(bits.block_count(), 0);
    assert!(!bits.get(0));
    bits.set_bit_count_and_clear(65);
    assert_eq!(bits.block_count(), 2);
    bits.set(0);
    bits.set(63);
    bits.set(64);
    assert!(bits.get(0) && bits.get(63) && bits.get(64));
    assert!(!bits.get(1) && !bits.get(127) && !bits.get(1000));
    assert_eq!(bits.block(0), (1 << 63) | 1);
    assert_eq!(bits.block(1), 1);
    bits.set_bit_count_and_clear(64);
    assert_eq!(bits.block_count(), 1);
    assert!(!bits.get(0) && !bits.get(63));
}

#[test]
fn bit_vec_or_is_union() {
    let mut a = BitVec::new();
    let mut b = BitVec::new();
    a.set_bit_count_and_clear(200);
    b.set_bit_count_and_clear(200);
    a.set(3);
    a.set(130);
    b.set(4);
    b.set(130);
    a.or(&b);
    for i in 0..256 {
        assert_eq!(a.get(i), i == 3 || i == 4 || i == 130);
    }
}

#[test]
fn stable_vec_keeps_indices_and_reuses_slots() {
    let mut items: StableVec<u32> = StableVec::new();
    assert_eq!(items.peek_index(), 0);
    assert_eq!(items.push(10), 0);
    assert_eq!(items.push(11), 1);
    assert_eq!(items.push(12), 2);
    assert_eq!(items.len(), 3);
    assert_eq!(items.try_remove(1), Some(11));
    assert_eq!(items.try_remove(1), None);
    assert_eq!(items.try_remove(7), None);
    assert_eq!(items.get(0), Some(&10));
    assert_eq!(items.get(1), None);
    assert_eq!(items.get(2), Some(&12));
    assert_eq!(items.len(), 2);
    assert_eq!(items.capacity(), 3);
    assert_eq!(items.peek_index(), 1);
    let copy = items.copied();
    assert_eq!(items.push(13), 1);
    assert_eq!(items.push(14), 3);
    if let Some(item) = items.get_mut(2) {
        *item = 20;
    }
    assert!(items.get_mut(9).is_none());
    assert_eq!(items.get(2), Some(&20));
    assert_eq!(copy.get(2), Some(&12));
    assert_eq!(copy.get(1), None);
    assert_eq!(copy.len(), 2);
}

#[test]
fn pair_key_ignores_order() {
    let key = PairKey::new(3, 9);
    assert_eq!(key, PairKey::new(9, 3));
    assert_eq!(key.bits(), (3 << 32) | 9);
    assert_ne!(key, PairKey::new(3, 10));
    assert_ne!(PairKey::new(0, 1), PairKey::new(1, 1));
    assert_eq!(PairKey::new(u32::MAX, 0).bits(), u32::MAX as u64);
}

#[test]
fn layers_interact_only_if_both_filters_allow() {
    let default = CollisionLayers::default();
    assert_eq!(default, CollisionLayers::new(LayerMask(1), LayerMask(u32::MAX)));
    assert!(default.interacts_with(default));
    let player = CollisionLayers::new(LayerMask(0b10), LayerMask(0b100));
    let enemy = CollisionLayers::new(LayerMask(0b100), LayerMask(0b10));
    let ghost = CollisionLayers::new(LayerMask(0b100), LayerMask(0));
    assert!(player.interacts_with(enemy));
    assert!(enemy.interacts_with(player));
    assert!(!player.interacts_with(ghost));
    assert!(!ghost.interacts_with(player));
    assert!(!player.interacts_with(default));
}

#[test]
fn joints_disable_collisions_in_both_directions() {
    let a = Entity::new(1, 0);
    let b = Entity::new(2, 0);
    let c = Entity::new(3, 0);
    let mut joints = JointGraph::new();
    assert!(!joints.disables_collision(a, b));
    joints.add_joint(JointGraphEdge { body1: a, body2: b, collision_disabled: false });
    assert!(!joints.disables_collision(a, b));
    joints.add_joint(JointGraphEdge { body1: b, body2: a, collision_disabled: true });
    assert!(joints.disables_collision(a, b));
    assert!(joints.disables_collision(b, a));
    assert!(!joints.disables_collision(a, c));
    assert!(!joints.disables_collision(a, Entity::new(2, 1)));
}
