use avian_bvh::collider_tree::observers::{
    add_to_tree, clear_moved_proxies, detach_from_body, move_attached_colliders,
    remove_from_tree, set_active_hooks, set_layers, set_sensor, AttachedCollider, ColliderData,
};
use avian_bvh::collider_tree::{
    ColliderTreeProxyKey, ColliderTreeType, ColliderTrees, MovedProxies, ProxyId,
};
use avian_bvh::collision::collision_layers::{CollisionLayers, LayerMask};
use avian_bvh::collision::hooks::ActiveCollisionHooks;
use avian_bvh::entity::Entity;
use avian_bvh::rigid_body::RigidBody;
use obvhs::aabb::Aabb;

fn cube(x: f32, margin: f32) -> Aabb {
    Aabb::new(
        [x - margin, -margin, -margin].into(),
        [x + 1.0 + margin, 1.0 + margin, 1.0 + margin].into(),
    )
}

fn collider(index: u32, body: Option<Entity>) -> ColliderData {
    ColliderData {
        collider: Entity::new(index, 0),
        body,
        aabb: cube(index as f32, 0.0),
        enlarged_aabb: cube(index as f32, 0.25),
        layers: None,
        is_sensor: false,
        active_hooks: None,
    }
}

fn key(id: u32, tree_type: ColliderTreeType) -> ColliderTreeProxyKey {
    ColliderTreeProxyKey::new(ProxyId::new(id), tree_type)
}

const BODY: Entity = Entity { index: 500, generation: 1 };

#[test]
fn collider_is_added_to_the_tree_of_its_body() {
    let mut trees = ColliderTrees::new();
    let mut moved = MovedProxies::new();
    for (body_type, tree_type) in [
        (Some(RigidBody::Dynamic), ColliderTreeType::Dynamic),
        (Some(RigidBody::Kinematic), ColliderTreeType::Kinematic),
        (Some(RigidBody::Static), ColliderTreeType::Static),
        (None, ColliderTreeType::Standalone),
    ] {
        let mut proxy_key = ColliderTreeProxyKey::placeholder();
        add_to_tree(&mut trees, &mut moved, &mut proxy_key, &collider(1, Some(BODY)), body_type);
        assert_eq!(proxy_key, key(0, tree_type));
        let proxy = trees.get_proxy(proxy_key).unwrap();
        assert_eq!(proxy.collider, Entity::new(1, 0));
        assert_eq!(proxy.body, Some(BODY));
        assert_eq!(proxy.aabb, cube(1.0, 0.0));
        assert_eq!(proxy.layers, CollisionLayers::default());
        assert!(!proxy.is_sensor());
        let tree = trees.tree_for_type(tree_type);
        assert_eq!(*tree.bvh.nodes[0].aabb(), cube(1.0, 0.25));
        assert!(moved.contains(proxy_key));
    }
    assert_eq!(moved.proxies().len(), 4);
}

#[test]
fn collider_without_a_body_is_standalone() {
    let mut trees = ColliderTrees::new();
    let mut moved = MovedProxies::new();
    let mut proxy_key = ColliderTreeProxyKey::placeholder();
    let data = collider(3, None);
    add_to_tree(&mut trees, &mut moved, &mut proxy_key, &data, Some(RigidBody::Dynamic));
    assert_eq!(proxy_key, key(0, ColliderTreeType::Standalone));
    assert_eq!(trees.get_proxy(proxy_key).unwrap().body, None);
}

#[test]
fn collider_that_is_added_again_leaves_its_old_tree() {
    let mut trees = ColliderTrees::new();
    let mut moved = MovedProxies::new();
    let mut first = ColliderTreeProxyKey::placeholder();
    let mut second = ColliderTreeProxyKey::placeholder();
    let data1 = collider(1, Some(BODY));
    let data2 = collider(2, Some(BODY));
    add_to_tree(&mut trees, &mut moved, &mut first, &data1, Some(RigidBody::Dynamic));
    add_to_tree(&mut trees, &mut moved, &mut second, &data2, Some(RigidBody::Dynamic));
    add_to_tree(&mut trees, &mut moved, &mut first, &data1, Some(RigidBody::Static));
    assert_eq!(first, key(0, ColliderTreeType::Static));
    assert_eq!(trees.dynamic_tree.proxies.len(), 1);
    assert_eq!(trees.static_tree.proxies.len(), 1);
    assert_eq!(moved.proxies(), &[second, first]);
    // In the same tree, the ID is used again.
    add_to_tree(&mut trees, &mut moved, &mut second, &data2, Some(RigidBody::Dynamic));
    assert_eq!(second, key(1, ColliderTreeType::Dynamic));
    assert_eq!(moved.proxies(), &[first, second]);
}

#[test]
fn collider_is_removed_from_its_tree() {
    let mut trees = ColliderTrees::new();
    let mut moved = MovedProxies::new();
    let mut proxy_key = ColliderTreeProxyKey::placeholder();
    let data = collider(1, Some(BODY));
    remove_from_tree(&mut trees, &mut moved, &mut proxy_key);
    assert_eq!(proxy_key, ColliderTreeProxyKey::placeholder());
    add_to_tree(&mut trees, &mut moved, &mut proxy_key, &data, Some(RigidBody::Kinematic));
    let old_key = proxy_key;
    remove_from_tree(&mut trees, &mut moved, &mut proxy_key);
    assert_eq!(proxy_key, ColliderTreeProxyKey::placeholder());
    assert!(trees.get_proxy(old_key).is_none());
    assert!(moved.proxies().is_empty());
    assert!(trees.kinematic_tree.bvh.nodes.is_empty());
}

#[test]
fn detached_collider_becomes_standalone() {
    let mut trees = ColliderTrees::new();
    let mut moved = MovedProxies::new();
    let mut proxy_key = ColliderTreeProxyKey::placeholder();
    let mut data = collider(1, Some(BODY));
    data.is_sensor = true;
    add_to_tree(&mut trees, &mut moved, &mut proxy_key, &data, Some(RigidBody::Dynamic));
    let new_key = detach_from_body(&mut trees, &mut moved, proxy_key, &data);
    assert_eq!(new_key, Some(key(0, ColliderTreeType::Standalone)));
    let proxy = trees.get_proxy(key(0, ColliderTreeType::Standalone)).unwrap();
    assert_eq!(proxy.body, None);
    assert!(proxy.is_sensor());
    assert!(trees.get_proxy(proxy_key).is_none());
    assert_eq!(moved.proxies(), &[key(0, ColliderTreeType::Standalone)]);
    // A collider that is in no tree is left alone.
    assert_eq!(detach_from_body(&mut trees, &mut moved, proxy_key, &data), None);
    assert_eq!(trees.standalone_tree.proxies.len(), 1);
    assert_eq!(moved.proxies().len(), 1);
}

#[test]
fn attached_colliders_follow_the_type_of_their_body() {
    let mut trees = ColliderTrees::new();
    let mut moved = MovedProxies::new();
    let mut colliders = Vec::new();
    for (index, body_type) in [
        (1, RigidBody::Dynamic),
        (2, RigidBody::Kinematic),
        (3, RigidBody::Static),
        (4, RigidBody::Dynamic),
    ] {
        let mut proxy_key = ColliderTreeProxyKey::placeholder();
        let data = collider(index, Some(BODY));
        add_to_tree(&mut trees, &mut moved, &mut proxy_key, &data, Some(body_type));
        colliders.push(AttachedCollider { proxy_key, data });
    }
    moved.clear();
    let other = Entity::new(501, 0);
    move_attached_colliders(&mut trees, &mut moved, other, RigidBody::Static, &mut colliders);
    let keys: Vec<_> = colliders.iter().map(|c| c.proxy_key).collect();
    // The third collider is in the right tree already and is left alone, the others are moved.
    assert_eq!(
        keys,
        vec![
            key(1, ColliderTreeType::Static),
            key(2, ColliderTreeType::Static),
            key(0, ColliderTreeType::Static),
            key(3, ColliderTreeType::Static),
        ]
    );
    assert_eq!(moved.proxies(), &[keys[0], keys[1], keys[3]]);
    for (i, index) in [(0, 1), (1, 2), (3, 4)] {
        let proxy = trees.get_proxy(keys[i]).unwrap();
        assert_eq!(proxy.collider, Entity::new(index, 0));
        assert_eq!(proxy.body, Some(other));
    }
    assert_eq!(trees.get_proxy(keys[2]).unwrap().body, Some(BODY));
    assert_eq!(trees.dynamic_tree.proxies.len(), 0);
    assert_eq!(trees.kinematic_tree.proxies.len(), 0);
    assert_eq!(trees.static_tree.proxies.len(), 4);
    // Once all of them are there, nothing is left to do.
    move_attached_colliders(&mut trees, &mut moved, BODY, RigidBody::Static, &mut colliders);
    assert_eq!(colliders.iter().map(|c| c.proxy_key).collect::<Vec<_>>(), keys);
    assert_eq!(trees.get_proxy(keys[0]).unwrap().body, Some(other));
}

#[test]
fn changed_properties_reach_the_proxy() {
    let mut trees = ColliderTrees::new();
    let mut moved = MovedProxies::new();
    let mut proxy_key = ColliderTreeProxyKey::placeholder();
    let layers = CollisionLayers::new(LayerMask(2), LayerMask(4));
    let data = ColliderData { layers: Some(layers), ..collider(1, Some(BODY)) };
    add_to_tree(&mut trees, &mut moved, &mut proxy_key, &data, Some(RigidBody::Dynamic));
    assert_eq!(trees.get_proxy(proxy_key).unwrap().layers, layers);
    set_sensor(&mut trees, proxy_key, true);
    assert!(trees.get_proxy(proxy_key).unwrap().is_sensor());
    set_sensor(&mut trees, proxy_key, false);
    assert!(!trees.get_proxy(proxy_key).unwrap().is_sensor());
    set_layers(&mut trees, proxy_key, None);
    assert_eq!(trees.get_proxy(proxy_key).unwrap().layers, CollisionLayers::default());
    set_layers(&mut trees, proxy_key, Some(layers));
    assert_eq!(trees.get_proxy(proxy_key).unwrap().layers, layers);
    let hooks = ActiveCollisionHooks { filter_pairs: true, modify_contacts: true };
    set_active_hooks(&mut trees, proxy_key, Some(hooks));
    let flags = trees.get_proxy(proxy_key).unwrap().flags;
    assert!(flags.custom_filter && !flags.modify_contacts);
    set_active_hooks(&mut trees, proxy_key, None);
    assert!(!trees.get_proxy(proxy_key).unwrap().flags.custom_filter);
    // Keys without a proxy are ignored.
    let missing = key(9, ColliderTreeType::Static);
    set_sensor(&mut trees, missing, true);
    set_layers(&mut trees, missing, None);
    set_active_hooks(&mut trees, missing, None);
    assert!(trees.get_proxy(missing).is_none());
}

#[test]
fn moved_lists_are_cleared_together() {
    let mut trees = ColliderTrees::new();
    let mut moved = MovedProxies::new();
    let mut proxy_key = ColliderTreeProxyKey::placeholder();
    let data = collider(1, Some(BODY));
    add_to_tree(&mut trees, &mut moved, &mut proxy_key, &data, Some(RigidBody::Static));
    for body_type in [Some(RigidBody::Dynamic), Some(RigidBody::Kinematic), None] {
        let mut other_key = ColliderTreeProxyKey::placeholder();
        add_to_tree(&mut trees, &mut moved, &mut other_key, &data, body_type);
    }
    for tree in trees.iter_trees_mut() {
        tree.moved_proxies.push(ProxyId::new(0));
    }
    clear_moved_proxies(&mut moved, &mut trees);
    assert!(moved.proxies().is_empty());
    assert!(trees.iter_trees().into_iter().all(|tree| tree.moved_proxies.is_empty()));
    assert!(trees.get_proxy(proxy_key).is_some());
}

#[test]
fn boxes_that_are_not_numbers_are_told() {
    assert!(collider(1, None).has_numeric_box());
    for i in 0..6 {
        let mut bounds = [0.0, 0.0, 0.0, 1.0, 1.0, 1.0];
        bounds[i] = f32::NAN;
        let [a, b, c, d, e, f] = bounds;
        let aabb = Aabb::new([a, b, c].into(), [d, e, f].into());
        let data = ColliderData { enlarged_aabb: aabb, ..collider(1, None) };
        assert!(!data.has_numeric_box());
    }
    // Boxes without a point inside are made of numbers, too.
    let data = ColliderData { enlarged_aabb: Aabb::INVALID, ..collider(1, None) };
    assert!(data.has_numeric_box());
}

#[test]
fn colliders_without_a_box_yet_can_be_added() {
    let mut trees = ColliderTrees::new();
    let mut moved = MovedProxies::new();
    let mut keys = Vec::new();
    for i in 0..6 {
        let mut proxy_key = ColliderTreeProxyKey::placeholder();
        let mut data = collider(i, Some(BODY));
        if i % 2 == 0 {
            data.enlarged_aabb = Aabb::INVALID;
        }
        add_to_tree(&mut trees, &mut moved, &mut proxy_key, &data, Some(RigidBody::Dynamic));
        keys.push(proxy_key);
    }
    for proxy_key in &mut keys {
        assert!(trees.dynamic_tree.has_box(proxy_key.id()));
        remove_from_tree(&mut trees, &mut moved, proxy_key);
    }
    assert!(trees.dynamic_tree.bvh.nodes.is_empty());
}

#[test]
fn collider_has_one_proxy_wherever_it_is_added() {
    let mut trees = ColliderTrees::new();
    let mut moved = MovedProxies::new();
    let mut bystander = ColliderTreeProxyKey::placeholder();
    let other = collider(9, Some(BODY));
    add_to_tree(&mut trees, &mut moved, &mut bystander, &other, Some(RigidBody::Kinematic));
    let mut proxy_key = ColliderTreeProxyKey::placeholder();
    let data = collider(1, Some(BODY));
    for body_type in [
        Some(RigidBody::Dynamic),
        Some(RigidBody::Dynamic),
        Some(RigidBody::Static),
        None,
        Some(RigidBody::Kinematic),
    ] {
        let old_key = proxy_key;
        add_to_tree(&mut trees, &mut moved, &mut proxy_key, &data, body_type);
        let mut found = Vec::new();
        for tree in trees.iter_trees() {
            for i in 0..tree.proxies.capacity() {
                if let Some(proxy) = tree.proxies.get(i) {
                    found.push(proxy.collider.index);
                }
            }
        }
        found.sort();
        assert_eq!(found, vec![1, 9]);
        assert_eq!(trees.get_proxy(proxy_key).unwrap().collider, data.collider);
        assert!(moved.contains(proxy_key));
        assert!(old_key == proxy_key || !moved.contains(old_key));
        assert_eq!(trees.get_proxy(bystander).unwrap().collider, other.collider);
    }
}

#[test]
fn other_trees_stay_as_they_are() {
    let mut trees = ColliderTrees::new();
    let mut moved = MovedProxies::new();
    let mut keys = Vec::new();
    for i in 0..12 {
        let mut proxy_key = ColliderTreeProxyKey::placeholder();
        let body_type = if i % 2 == 0 { RigidBody::Dynamic } else { RigidBody::Static };
        let data = collider(i, Some(BODY));
        add_to_tree(&mut trees, &mut moved, &mut proxy_key, &data, Some(body_type));
        keys.push(proxy_key);
    }
    let links = |trees: &ColliderTrees| -> Vec<(u32, u32)> {
        let nodes = &trees.static_tree.bvh.nodes;
        nodes.iter().map(|node| (node.prim_count, node.first_index)).collect()
    };
    let before = links(&trees);
    remove_from_tree(&mut trees, &mut moved, &mut keys[0]);
    detach_from_body(&mut trees, &mut moved, keys[2], &collider(2, Some(BODY))).unwrap();
    let mut attached = vec![AttachedCollider { proxy_key: keys[4], data: collider(4, Some(BODY)) }];
    move_attached_colliders(&mut trees, &mut moved, BODY, RigidBody::Kinematic, &mut attached);
    assert_eq!(links(&trees), before);
    assert_eq!(trees.static_tree.proxies.len(), 6);
}

#[test]
fn collider_added_and_removed_leaves_no_trace() {
    let mut trees = ColliderTrees::new();
    let mut moved = MovedProxies::new();
    let mut first = ColliderTreeProxyKey::placeholder();
    let data1 = collider(1, Some(BODY));
    add_to_tree(&mut trees, &mut moved, &mut first, &data1, Some(RigidBody::Dynamic));
    let mut second = ColliderTreeProxyKey::placeholder();
    let data2 = collider(2, Some(BODY));
    add_to_tree(&mut trees, &mut moved, &mut second, &data2, Some(RigidBody::Dynamic));
    assert_ne!(first, second);
    assert_eq!(moved.proxies().to_vec(), vec![first, second]);
    let removed = second;
    remove_from_tree(&mut trees, &mut moved, &mut second);
    assert_eq!(second, ColliderTreeProxyKey::placeholder());
    assert_eq!(moved.proxies().to_vec(), vec![first]);
    assert!(trees.get_proxy(removed).is_none());
    assert_eq!(trees.get_proxy(first).unwrap().collider, Entity::new(1, 0));
    assert_eq!(trees.dynamic_tree.proxies.len(), 1);
    // The key is used again for the next collider.
    let mut third = ColliderTreeProxyKey::placeholder();
    let data3 = collider(3, Some(BODY));
    add_to_tree(&mut trees, &mut moved, &mut third, &data3, Some(RigidBody::Dynamic));
    assert_eq!(third, removed);
}

/// The indices of the colliders of all proxies.
fn indices_of_all(trees: &ColliderTrees) -> Vec<u32> {
    let mut found = Vec::new();
    for tree in trees.iter_trees() {
        for i in 0..tree.proxies.capacity() {
            if let Some(proxy) = tree.proxies.get(i) {
                found.push(proxy.collider.index);
            }
        }
    }
    found.sort();
    found
}

#[test]
fn no_operation_leaves_a_collider_with_two_proxies() {
    let mut trees = ColliderTrees::new();
    let mut moved = MovedProxies::new();
    let mut colliders = Vec::new();
    for index in 0..6 {
        let mut proxy_key = ColliderTreeProxyKey::placeholder();
        let data = collider(index, Some(BODY));
        add_to_tree(&mut trees, &mut moved, &mut proxy_key, &data, Some(RigidBody::Dynamic));
        colliders.push(AttachedCollider { proxy_key, data });
    }
    let all = vec![0, 1, 2, 3, 4, 5];
    assert_eq!(indices_of_all(&trees), all);
    for body_type in [RigidBody::Static, RigidBody::Kinematic, RigidBody::Kinematic] {
        move_attached_colliders(&mut trees, &mut moved, BODY, body_type, &mut colliders);
        assert_eq!(indices_of_all(&trees), all);
    }
    let first = &mut colliders[0];
    add_to_tree(
        &mut trees,
        &mut moved,
        &mut first.proxy_key,
        &first.data,
        Some(RigidBody::Static),
    );
    assert_eq!(indices_of_all(&trees), all);
    let new_key = detach_from_body(&mut trees, &mut moved, first.proxy_key, &first.data);
    first.proxy_key = new_key.unwrap();
    set_sensor(&mut trees, first.proxy_key, true);
    assert_eq!(indices_of_all(&trees), all);
    remove_from_tree(&mut trees, &mut moved, &mut colliders[3].proxy_key);
    assert_eq!(indices_of_all(&trees), vec![0, 1, 2, 4, 5]);
}
