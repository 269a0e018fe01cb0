use avian_bvh::collider_tree::update::{
    aabb_may_have_changed, enlarged_ids, EnlargedProxies, EnlargedProxiesBitVec,
    LastDynamicKinematicAabbUpdate,
};
use avian_bvh::collider_tree::{ColliderTreeProxyKey, ColliderTreeType, MovedProxies, ProxyId};
use avian_bvh::change_detection::MAX_CHANGE_AGE;
use avian_bvh::data_structures::bit_vec::BitVec;

fn key(id: u32, tree_type: ColliderTreeType) -> ColliderTreeProxyKey {
    ColliderTreeProxyKey::new(ProxyId::new(id), tree_type)
}

fn dynamic(id: u32) -> ColliderTreeProxyKey {
    key(id, ColliderTreeType::Dynamic)
}

#[test]
fn moved_proxies_are_listed_once_in_order() {
    let mut moved = MovedProxies::new();
    assert!(moved.proxies().is_empty());
    moved.insert(dynamic(4));
    moved.insert(dynamic(2));
    moved.insert(key(4, ColliderTreeType::Static));
    moved.insert(dynamic(4));
    assert_eq!(
        moved.proxies(),
        &[dynamic(4), dynamic(2), key(4, ColliderTreeType::Static)]
    );
    assert!(moved.contains(dynamic(2)));
    assert!(!moved.contains(dynamic(3)));
    assert!(!moved.contains(key(4, ColliderTreeType::Kinematic)));
}

#[test]
fn removing_a_moved_proxy_puts_the_last_in_its_place() {
    let mut moved = MovedProxies::new();
    for id in 0..4 {
        moved.insert(dynamic(id));
    }
    moved.remove(&dynamic(1));
    assert_eq!(moved.proxies(), &[dynamic(0), dynamic(3), dynamic(2)]);
    assert!(!moved.contains(dynamic(1)));
    moved.remove(&dynamic(1));
    moved.remove(&dynamic(17));
    assert_eq!(moved.proxies().len(), 3);
    moved.remove(&dynamic(2));
    assert_eq!(moved.proxies(), &[dynamic(0), dynamic(3)]);
    moved.insert(dynamic(9));
    moved.remove(&dynamic(9));
    assert_eq!(moved.proxies(), &[dynamic(0), dynamic(3)]);
    moved.clear();
    assert!(moved.proxies().is_empty());
    assert!(!moved.contains(dynamic(0)));
    moved.insert(dynamic(0));
    assert_eq!(moved.proxies(), &[dynamic(0)]);
}

#[test]
fn enlarged_proxies_are_combined_from_all_threads() {
    let mut enlarged = EnlargedProxies::new();
    enlarged.clear_and_set_capacity(100, 10);
    for ids in [vec![3u32, 99], vec![64, 3]] {
        let mut bit_vec = EnlargedProxiesBitVec::new();
        bit_vec.clear_and_set_capacity(100, 10);
        for id in ids {
            bit_vec.mark(dynamic(id));
        }
        bit_vec.mark(key(7, ColliderTreeType::Kinematic));
        enlarged.thread_local_bit_vec.push(bit_vec);
    }
    enlarged.combine_thread_local();
    let ids: Vec<u32> = enlarged_ids(&enlarged.bit_vec.dynamic).iter().map(|id| id.id()).collect();
    assert_eq!(ids, vec![3, 64, 99]);
    let ids: Vec<u32> =
        enlarged_ids(&enlarged.bit_vec.kinematic).iter().map(|id| id.id()).collect();
    assert_eq!(ids, vec![7]);
    enlarged.clear_and_set_capacity(200, 300);
    assert!(enlarged_ids(&enlarged.bit_vec.dynamic).is_empty());
    assert_eq!(enlarged.bit_vec.dynamic.block_count(), 4);
    assert_eq!(enlarged.thread_local_bit_vec.len(), 2);
    for bit_vec in &enlarged.thread_local_bit_vec {
        assert_eq!(bit_vec.dynamic.block_count(), 4);
        assert_eq!(bit_vec.kinematic.block_count(), 5);
        assert!(enlarged_ids(&bit_vec.kinematic).is_empty());
    }
}

#[test]
fn enlarged_ids_are_ascending() {
    let mut bits = BitVec::new();
    assert!(enlarged_ids(&bits).is_empty());
    bits.set_bit_count_and_clear(192);
    for i in [191, 0, 63, 64, 128, 62, 1] {
        bits.set(i);
    }
    let ids: Vec<u32> = enlarged_ids(&bits).iter().map(|id| id.id()).collect();
    assert_eq!(ids, vec![0, 1, 62, 63, 64, 128, 191]);
}

#[test]
fn boxes_may_change_after_a_change_of_position_rotation_or_collider() {
    let last = LastDynamicKinematicAabbUpdate(10);
    assert!(!aabb_may_have_changed(9, 10, 3, last, 20));
    assert!(aabb_may_have_changed(11, 10, 3, last, 20));
    assert!(aabb_may_have_changed(9, 15, 3, last, 20));
    assert!(aabb_may_have_changed(9, 10, 20, last, 20));
    // Ticks wrap around.
    let last = LastDynamicKinematicAabbUpdate(u32::MAX - 5);
    assert!(aabb_may_have_changed(2, 0, 0, last, 3));
    assert!(!aabb_may_have_changed(u32::MAX - 6, u32::MAX - 5, u32::MAX - 100, last, 3));
}

#[test]
fn changes_of_the_greatest_age_are_not_told_apart() {
    assert_eq!(MAX_CHANGE_AGE, bevy::ecs::change_detection::MAX_CHANGE_AGE);
    let now = 4_000_000_000u32;
    let last = LastDynamicKinematicAabbUpdate(now - MAX_CHANGE_AGE - 1);
    let oldest = now - MAX_CHANGE_AGE;
    assert!(!aabb_may_have_changed(oldest, oldest, oldest, last, now));
    assert!(aabb_may_have_changed(oldest + 1, oldest, oldest, last, now));
}
