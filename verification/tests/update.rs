use avian_bvh::collider_tree::observers::{add_to_tree, ColliderData};
use avian_bvh::collider_tree::update::{
    colliders_of, enlarged_ids, update_dynamic_kinematic_aabbs, update_standalone_aabbs,
    update_static_aabbs, ChangedBox, EnlargedProxies, LastDynamicKinematicAabbUpdate, MovedBoxes,
};
use avian_bvh::collider_tree::{
    ColliderTree, ColliderTreeProxyKey, ColliderTreeType, ColliderTrees, MovedProxies, ProxyId,
};
use avian_bvh::entity::Entity;
use avian_bvh::rigid_body::RigidBody;
use obvhs::aabb::Aabb;

fn cube(x: f32, margin: f32) -> Aabb {
    Aabb::new(
        [x - margin, -margin, -margin].into(),
        [x + 1.0 + margin, 1.0 + margin, 1.0 + margin].into(),
    )
}

fn ids_meeting(tree: &ColliderTree, aabb: Aabb) -> Vec<u32> {
    let mut ids = Vec::new();
    tree.bvh.aabb_traverse(aabb, |bvh, node| {
        let node = bvh.nodes[node as usize];
        ids.push(bvh.primitive_indices[node.first_index as usize]);
        true
    });
    ids.sort();
    ids
}

fn world(count: u32, body_type: Option<RigidBody>) -> (ColliderTrees, MovedProxies) {
    let mut trees = ColliderTrees::new();
    let mut moved = MovedProxies::new();
    for i in 0..count {
        let x = 3.0 * i as f32;
        let data = ColliderData {
            collider: Entity::new(i, 0),
            body: Some(Entity::new(100 + i, 0)),
            aabb: cube(x, 0.0),
            enlarged_aabb: cube(x, 0.5),
            layers: None,
            is_sensor: false,
            active_hooks: None,
        };
        let mut proxy_key = ColliderTreeProxyKey::placeholder();
        add_to_tree(&mut trees, &mut moved, &mut proxy_key, &data, body_type);
    }
    moved.clear();
    (trees, moved)
}

fn changed(id: u32, aabb: Aabb, left_enlarged: bool) -> ChangedBox {
    ChangedBox { id: ProxyId::new(id), aabb, left_enlarged }
}

#[test]
fn moved_proxies_are_enlarged_and_listed() {
    let (mut trees, mut moved) = world(10, Some(RigidBody::Dynamic));
    let mut enlarged = EnlargedProxies::new();
    enlarged.clear_and_set_capacity(
        trees.dynamic_tree.proxies.capacity(),
        trees.kinematic_tree.proxies.capacity(),
    );
    for id in [7, 2] {
        let key = ColliderTreeProxyKey::new(ProxyId::new(id), ColliderTreeType::Dynamic);
        enlarged.bit_vec.mark(key);
    }
    let ids = enlarged_ids(&enlarged.bit_vec.dynamic);
    let colliders = colliders_of(&trees.dynamic_tree, &ids);
    assert_eq!(colliders, vec![Entity::new(2, 0), Entity::new(7, 0)]);
    let boxes: Vec<MovedBoxes> = [-20.0, 60.0]
        .iter()
        .map(|x| MovedBoxes { aabb: cube(*x, 0.0), enlarged_aabb: cube(*x, 0.5) })
        .collect();
    assert!(boxes.iter().all(|moved| moved.has_numeric_box()));
    let mut last = LastDynamicKinematicAabbUpdate(3);
    let none = Vec::new();
    update_dynamic_kinematic_aabbs(
        &mut trees,
        &mut moved,
        &ids,
        &boxes,
        &none,
        &Vec::new(),
        &mut last,
        8,
    );
    assert_eq!(last, LastDynamicKinematicAabbUpdate(8));
    assert_eq!(trees.dynamic_tree.moved_proxies, ids);
    let keys: Vec<_> =
        ids.iter().map(|id| ColliderTreeProxyKey::new(*id, ColliderTreeType::Dynamic)).collect();
    assert_eq!(moved.proxies(), &keys[..]);
    assert_eq!(trees.get_proxy(keys[0]).unwrap().aabb, cube(-20.0, 0.0));
    assert_eq!(trees.get_proxy(keys[1]).unwrap().aabb, cube(60.0, 0.0));
    assert_eq!(ids_meeting(&trees.dynamic_tree, cube(-20.0, 0.0)), vec![2]);
    assert_eq!(ids_meeting(&trees.dynamic_tree, cube(60.0, 0.0)), vec![7]);
    assert_eq!(ids_meeting(&trees.dynamic_tree, cube(6.0, 0.0)), Vec::<u32>::new());
    assert_eq!(ids_meeting(&trees.dynamic_tree, cube(9.0, 0.0)), vec![3]);
}

#[test]
fn kinematic_proxies_are_listed_after_dynamic_ones() {
    let (mut trees, mut moved) = world(2, Some(RigidBody::Kinematic));
    let ids = vec![ProxyId::new(1)];
    let boxes = vec![MovedBoxes { aabb: cube(9.0, 0.0), enlarged_aabb: cube(9.0, 0.5) }];
    let mut last = LastDynamicKinematicAabbUpdate(0);
    let already = ColliderTreeProxyKey::new(ProxyId::new(1), ColliderTreeType::Kinematic);
    moved.insert(already);
    update_dynamic_kinematic_aabbs(
        &mut trees,
        &mut moved,
        &Vec::new(),
        &Vec::new(),
        &ids,
        &boxes,
        &mut last,
        1,
    );
    assert_eq!(moved.proxies(), &[already]);
    assert_eq!(trees.kinematic_tree.moved_proxies, ids);
    assert_eq!(ids_meeting(&trees.kinematic_tree, cube(9.0, 0.0)), vec![1]);
}

#[test]
fn changed_static_colliders_are_reinserted() {
    let (mut trees, mut moved) = world(5, Some(RigidBody::Static));
    let updates = vec![
        changed(4, cube(-9.0, 0.0), true),
        changed(0, cube(40.0, 0.0), true),
        changed(4, cube(-19.0, 0.0), true),
        changed(3, cube(9.1, 0.0), false),
    ];
    assert!(updates.iter().all(|update| update.has_numeric_box()));
    update_static_aabbs(&mut trees, &mut moved, &updates);
    assert_eq!(ids_meeting(&trees.static_tree, cube(-19.0, 0.0)), vec![4]);
    assert_eq!(ids_meeting(&trees.static_tree, cube(-9.0, 0.0)), Vec::<u32>::new());
    assert_eq!(ids_meeting(&trees.static_tree, cube(40.0, 0.0)), vec![0]);
    assert_eq!(ids_meeting(&trees.static_tree, cube(3.0, 0.0)), vec![1]);
    // Those that have left their enlarged boxes are listed as moved, once each and in order.
    let key = |id| ColliderTreeProxyKey::new(ProxyId::new(id), ColliderTreeType::Static);
    assert_eq!(moved.proxies(), &[key(4), key(0)]);
    assert_eq!(trees.get_proxy(key(4)).unwrap().aabb, cube(-19.0, 0.0));
    assert_eq!(trees.get_proxy(key(3)).unwrap().aabb, cube(9.1, 0.0));
    assert_eq!(trees.get_proxy(key(2)).unwrap().aabb, cube(6.0, 0.0));
    assert!(trees.static_tree.moved_proxies.is_empty());
}

#[test]
fn changed_standalone_colliders_are_reinserted() {
    let (mut trees, mut moved) = world(3, None);
    let already = ColliderTreeProxyKey::new(ProxyId::new(2), ColliderTreeType::Standalone);
    moved.insert(already);
    let updates = vec![changed(1, cube(30.0, 0.0), true), changed(2, cube(6.0, 0.0), true)];
    update_standalone_aabbs(&mut trees, &mut moved, &updates);
    let key = ColliderTreeProxyKey::new(ProxyId::new(1), ColliderTreeType::Standalone);
    assert_eq!(moved.proxies(), &[already, key]);
    assert_eq!(ids_meeting(&trees.standalone_tree, cube(30.0, 0.0)), vec![1]);
    assert_eq!(ids_meeting(&trees.standalone_tree, cube(3.0, 0.0)), Vec::<u32>::new());
    update_standalone_aabbs(&mut trees, &mut moved, &Vec::new());
    assert_eq!(moved.proxies().len(), 2);
    assert_eq!(ids_meeting(&trees.standalone_tree, Aabb::LARGEST), vec![0, 1, 2]);
}
