use avian_bvh::collider_tree::tree::{ColliderTree, ColliderTreeProxy, ColliderTreeProxyFlags};
use avian_bvh::collider_tree::{ColliderTreeProxyKey, ColliderTreeType, ColliderTrees, ProxyId};
use avian_bvh::collision::collision_layers::CollisionLayers;
use avian_bvh::collision::hooks::ActiveCollisionHooks;
use avian_bvh::entity::Entity;
use obvhs::aabb::Aabb;

fn cube(x: f32) -> Aabb {
    Aabb::new([x, 0.0, 0.0].into(), [x + 1.0, 1.0, 1.0].into())
}

fn proxy(index: u32, aabb: Aabb) -> ColliderTreeProxy {
    ColliderTreeProxy {
        collider: Entity::new(index, 0),
        body: Some(Entity::new(1000 + index, 0)),
        layers: CollisionLayers::default(),
        aabb,
        flags: ColliderTreeProxyFlags::new(false, ActiveCollisionHooks::default()),
    }
}

fn leaf_box(tree: &ColliderTree, id: ProxyId) -> Aabb {
    let node = tree.bvh.primitives_to_nodes[id.index()];
    *tree.bvh.nodes[node as usize].aabb()
}

fn ids_meeting(tree: &ColliderTree, aabb: Aabb) -> Vec<u32> {
    let mut ids = Vec::new();
    tree.bvh.aabb_traverse(aabb, |bvh, node| {
        let node = bvh.nodes[node as usize];
        for slot in node.first_index..node.first_index + node.prim_count {
            ids.push(bvh.primitive_indices[slot as usize]);
        }
        true
    });
    ids.sort();
    ids
}

fn filled(count: u32) -> ColliderTree {
    let mut tree = ColliderTree::new();
    for i in 0..count {
        let aabb = cube(2.0 * i as f32);
        assert_eq!(tree.add_proxy(aabb, proxy(i, aabb)), ProxyId::new(i));
    }
    tree
}

#[test]
fn added_proxies_are_found() {
    let tree = filled(20);
    assert_eq!(tree.proxies.len(), 20);
    for i in 0..20 {
        assert_eq!(leaf_box(&tree, ProxyId::new(i)), cube(2.0 * i as f32));
        assert_eq!(tree.get_proxy(ProxyId::new(i)).unwrap().collider, Entity::new(i, 0));
        assert_eq!(ids_meeting(&tree, cube(2.0 * i as f32)), vec![i]);
    }
    assert!(tree.get_proxy(ProxyId::new(20)).is_none());
    assert!(tree.moved_proxies.is_empty());
    assert!(tree.has_room());
}

#[test]
fn removed_proxies_are_gone_and_ids_are_used_again() {
    let mut tree = filled(6);
    tree.moved_proxies.push(ProxyId::new(2));
    tree.moved_proxies.push(ProxyId::new(3));
    tree.moved_proxies.push(ProxyId::new(2));
    let removed = tree.remove_proxy(ProxyId::new(2)).unwrap();
    assert_eq!(removed.collider, Entity::new(2, 0));
    assert!(tree.remove_proxy(ProxyId::new(2)).is_none());
    assert!(tree.remove_proxy(ProxyId::new(99)).is_none());
    assert_eq!(tree.moved_proxies, vec![ProxyId::new(3)]);
    assert_eq!(ids_meeting(&tree, cube(4.0)), Vec::<u32>::new());
    assert_eq!(ids_meeting(&tree, Aabb::LARGEST), vec![0, 1, 3, 4, 5]);
    assert_eq!(tree.add_proxy(cube(50.0), proxy(60, cube(50.0))), ProxyId::new(2));
    assert_eq!(ids_meeting(&tree, cube(50.0)), vec![2]);
    for i in 0..6 {
        assert!(tree.remove_proxy(ProxyId::new(i)).is_some());
    }
    assert_eq!(tree.proxies.len(), 0);
    assert!(tree.bvh.nodes.is_empty());
    let id = tree.add_proxy(cube(0.0), proxy(7, cube(0.0)));
    assert_eq!(ids_meeting(&tree, cube(0.0)), vec![id.id()]);
}

#[test]
fn boxes_can_be_replaced() {
    let mut tree = filled(8);
    tree.init_primitives_to_nodes();
    tree.set_proxy_aabb(ProxyId::new(0), cube(100.0));
    tree.refit_all();
    assert_eq!(ids_meeting(&tree, cube(100.0)), vec![0]);
    assert_eq!(ids_meeting(&tree, cube(0.0)), Vec::<u32>::new());
    tree.reinsert_proxy(ProxyId::new(5), cube(-40.0));
    assert_eq!(leaf_box(&tree, ProxyId::new(5)), cube(-40.0));
    assert_eq!(ids_meeting(&tree, cube(-40.0)), vec![5]);
    assert_eq!(tree.get_proxy(ProxyId::new(5)).unwrap().aabb, cube(-40.0));
    assert_eq!(tree.get_proxy(ProxyId::new(0)).unwrap().aabb, cube(0.0));
    assert_eq!(ids_meeting(&tree, Aabb::LARGEST), vec![0, 1, 2, 3, 4, 5, 6, 7]);
}

#[test]
fn single_proxy_can_be_reinserted() {
    let mut tree = filled(1);
    tree.reinsert_proxy(ProxyId::new(0), cube(5.0));
    assert_eq!(ids_meeting(&tree, cube(5.0)), vec![0]);
    assert!(tree.is_walkable());
    assert!(ColliderTree::new().is_walkable());
}

#[test]
fn rebuilding_keeps_all_boxes() {
    let mut tree = filled(40);
    tree.remove_proxy(ProxyId::new(11));
    tree.rebuild_full();
    let moved: Vec<ProxyId> = vec![ProxyId::new(3), ProxyId::new(17)];
    let leaves = tree.leaves_of(&moved);
    assert_eq!(leaves.len(), 2);
    for (leaf, id) in leaves.iter().zip(&moved) {
        let node = tree.bvh.nodes[*leaf as usize];
        assert_eq!(node.prim_count, 1);
        assert_eq!(tree.bvh.primitive_indices[node.first_index as usize], id.id());
    }
    assert!(tree.is_walkable());
    tree.rebuild_partial(&leaves);
    let leaves = tree.leaves_of(&moved);
    tree.optimize_candidates(&leaves);
    for i in 0..40 {
        if i != 11 {
            assert_eq!(leaf_box(&tree, ProxyId::new(i)), cube(2.0 * i as f32));
            assert_eq!(ids_meeting(&tree, cube(2.0 * i as f32)), vec![i]);
        }
    }
    assert_eq!(ids_meeting(&tree, Aabb::LARGEST).len(), 39);
}

#[test]
fn trees_are_kept_apart_by_type() {
    let mut trees = ColliderTrees::new();
    let dynamic = trees.add_proxy(ColliderTreeType::Dynamic, cube(0.0), proxy(1, cube(0.0)));
    let fixed = trees.add_proxy(ColliderTreeType::Static, cube(0.0), proxy(2, cube(0.0)));
    trees.add_proxy(ColliderTreeType::Kinematic, cube(9.0), proxy(3, cube(9.0)));
    trees.add_proxy(ColliderTreeType::Standalone, cube(9.0), proxy(4, cube(9.0)));
    assert_eq!(dynamic, ColliderTreeProxyKey::new(ProxyId::new(0), ColliderTreeType::Dynamic));
    assert_eq!(fixed, ColliderTreeProxyKey::new(ProxyId::new(0), ColliderTreeType::Static));
    assert_eq!(trees.get_proxy(dynamic).unwrap().collider, Entity::new(1, 0));
    assert_eq!(trees.get_proxy(fixed).unwrap().collider, Entity::new(2, 0));
    let other = ColliderTreeProxyKey::new(ProxyId::new(1), ColliderTreeType::Kinematic);
    assert!(trees.get_proxy(other).is_none());
    assert!(trees.get_proxy_mut(other).is_none());
    trees.get_proxy_mut(fixed).unwrap().flags.sensor = true;
    assert!(trees.get_proxy(fixed).unwrap().is_sensor());
    assert!(!trees.get_proxy(dynamic).unwrap().is_sensor());
    let lens = trees.iter_trees().map(|tree| tree.proxies.len());
    assert_eq!(lens, [1, 1, 1, 1]);
    for tree in trees.iter_trees_mut() {
        tree.moved_proxies.push(ProxyId::new(0));
    }
    assert_eq!(trees.tree_for_type(ColliderTreeType::Standalone).moved_proxies.len(), 1);
    trees.tree_for_type_mut(ColliderTreeType::Dynamic).moved_proxies.clear();
    assert!(trees.dynamic_tree.moved_proxies.is_empty());
    assert!(trees.remove_proxy(other).is_none());
    assert!(trees.remove_proxy(dynamic).is_some());
    assert!(trees.get_proxy(dynamic).is_none());
    assert!(trees.get_proxy(fixed).is_some());
}

#[test]
fn proxy_flags_follow_sensor_and_hooks() {
    let hooks = ActiveCollisionHooks { filter_pairs: true, modify_contacts: false };
    let flags = ColliderTreeProxyFlags::new(true, hooks);
    assert!(flags.sensor && flags.custom_filter);
    assert!(!flags.modify_contacts && !flags.body_disabled && !flags.contact_events);
    let hooks = ActiveCollisionHooks { filter_pairs: false, modify_contacts: true };
    let other = ColliderTreeProxyFlags::new(false, hooks);
    let union = flags.union(other);
    assert!(union.sensor && union.custom_filter && union.modify_contacts);
    assert!(!union.body_disabled && !union.contact_events);
}

#[test]
fn room_on_the_stacks_depends_on_the_levels() {
    let empty = ColliderTree::new();
    assert!(empty.is_walkable());
    assert!(empty.is_roomy());
    assert!(empty.is_reinsertable(usize::MAX));
    let mut tree = filled(20);
    assert!(tree.is_walkable());
    assert!(tree.is_roomy());
    assert!(tree.is_reinsertable(1000));
    // With more levels than usual, the stacks of a reinsertion have twice as many entries.
    let depth = tree.bvh.depth(0);
    tree.bvh.max_depth = 100;
    assert!(tree.is_roomy() && tree.is_walkable());
    assert!(tree.is_reinsertable(200 - depth));
    assert!(!tree.is_reinsertable(201 - depth));
    assert!(!tree.is_reinsertable(usize::MAX));
    tree.rebuild_full();
    assert!(tree.is_roomy());
    assert!(tree.is_reinsertable(usize::MAX));
}

#[test]
fn deep_trees_are_told() {
    let mut tree = ColliderTree::new();
    for i in 0..300 {
        tree.add_proxy(cube(0.0), proxy(i, cube(0.0)));
    }
    // All boxes are the same, so that the tree is as deep as it gets.
    let depth = tree.bvh.depth(0);
    assert!(depth > 200);
    for (max_depth, walked) in [(96, 95), (97, 191), (192, 191), (193, 193)] {
        tree.bvh.max_depth = max_depth;
        assert_eq!(tree.is_walkable(), depth <= walked);
    }
    for max_depth in [depth - 1, depth, depth + 1] {
        tree.bvh.max_depth = max_depth;
        assert_eq!(tree.is_walkable(), depth <= max_depth);
        assert_eq!(tree.is_roomy(), depth <= max_depth);
        assert!(tree.is_reinsertable(2 * max_depth - depth));
        assert!(!tree.is_reinsertable(2 * max_depth - depth + 1));
    }
    tree.rebuild_full();
    assert!(tree.is_roomy());
    assert_eq!(ids_meeting(&tree, cube(0.0)).len(), 300);
}

#[test]
fn boxes_can_be_looked_up() {
    let mut tree = filled(5);
    assert!((0..5).all(|i| tree.has_box(ProxyId::new(i))));
    assert!(!tree.has_box(ProxyId::new(5)));
    tree.remove_proxy(ProxyId::new(2));
    assert!(!tree.has_box(ProxyId::new(2)));
    assert!(tree.has_box(ProxyId::new(4)));
    tree.moved_proxies.push(ProxyId::new(3));
    assert!(tree.are_moved_boxed());
    assert!(tree.is_rebuildable());
    assert!(!ColliderTree::new().has_box(ProxyId::new(0)));
}

#[test]
fn boxes_fit_again_after_a_refit() {
    // Once a box is replaced, the boxes above it have to be refitted before proxies are added.
    let mut tree = filled(3);
    tree.set_proxy_aabb(ProxyId::new(2), Aabb::new([4.0, 0.0, 0.0].into(), [9.0, 1.0, 1.0].into()));
    tree.refit_all();
    tree.add_proxy(cube(0.0), proxy(3, cube(0.0)));
    assert_eq!(ids_meeting(&tree, cube(8.5)), vec![2]);
    assert_eq!(ids_meeting(&tree, cube(0.0)), vec![0, 3]);
}

#[test]
fn candidates_are_counted_by_their_better_places() {
    let (tree, leaves) = scattered();
    let mut bvh = tree.bvh.clone();
    bvh.init_parents_if_uninit();
    let nodes = bvh.nodes.len();
    let mut better = 0;
    for leaf in leaves {
        let gain = obvhs::bvh2::reinsertion::find_reinsertion(&bvh, leaf as usize).area_diff;
        assert!(tree.can_take_candidates(&vec![leaf; nodes]));
        assert_eq!(tree.can_take_candidates(&vec![leaf; nodes + 1]), gain <= 0.0);
        better += (gain > 0.0) as usize;
    }
    assert!(better > 0);
}

#[test]
fn all_trees_have_to_have_room() {
    let mut trees = ColliderTrees::new();
    assert!(trees.are_roomy());
    for i in 0..300 {
        let aabb = cube(0.0);
        trees.add_proxy(ColliderTreeType::Standalone, aabb, proxy(i, aabb));
    }
    assert!(trees.are_roomy());
    // All boxes are the same, so that the tree is as deep as it gets.
    let depth = trees.standalone_tree.bvh.depth(0);
    trees.standalone_tree.bvh.max_depth = 192;
    assert!(trees.are_roomy());
    trees.standalone_tree.bvh.max_depth = 193;
    assert_eq!(trees.are_roomy(), depth <= 193);
}

fn links(tree: &ColliderTree) -> Vec<(u32, u32)> {
    tree.bvh.nodes.iter().map(|node| (node.prim_count, node.first_index)).collect()
}

/// A tree in which every third proxy has moved far away from its neighbours.
fn scattered() -> (ColliderTree, Vec<u32>) {
    let mut tree = filled(40);
    let mut moved = Vec::new();
    for i in (0..40).step_by(3) {
        tree.set_proxy_aabb(ProxyId::new(i), cube(500.0 - 7.0 * i as f32));
        moved.push(ProxyId::new(i));
    }
    tree.refit_all();
    let leaves = tree.leaves_of(&moved);
    (tree, leaves)
}

#[test]
fn replacing_boxes_and_refitting_leaves_nodes_where_they_are() {
    assert_eq!(links(&scattered().0), links(&filled(40)));
}

#[test]
fn leaves_can_be_looked_up_again() {
    let mut tree = filled(20);
    tree.rebuild_full();
    let map = tree.bvh.primitives_to_nodes.clone();
    tree.bvh.primitives_to_nodes.clear();
    tree.init_primitives_to_nodes();
    assert_eq!(tree.bvh.primitives_to_nodes, map);
    tree.set_proxy_aabb(ProxyId::new(7), cube(100.0));
    assert_eq!(leaf_box(&tree, ProxyId::new(7)), cube(100.0));
}

#[test]
fn reinsertion_moves_the_leaf_to_the_best_place() {
    let mut tree = filled(40);
    let before = links(&tree);
    let mut expected = filled(40);
    for (i, x) in [(5, 61.5), (38, -3.0), (5, 9.5)] {
        tree.reinsert_proxy(ProxyId::new(i), cube(x));
        let node = expected.bvh.primitives_to_nodes[i as usize] as usize;
        expected.bvh.resize_node(node, cube(x));
        expected.bvh.reinsert_node(node);
        assert_eq!(links(&tree), links(&expected));
        assert_eq!(leaf_box(&tree, ProxyId::new(i)), cube(x));
    }
    assert_ne!(links(&tree), before);
}

#[test]
fn levels_grow_by_one_at_a_time() {
    let mut tree = ColliderTree::new();
    let max_depth = tree.bvh.max_depth;
    let levels = |tree: &ColliderTree| match tree.bvh.nodes.len() {
        0 => 0,
        _ => tree.bvh.depth(0),
    };
    let mut before = 0;
    for i in 0..60 {
        let aabb = cube((37 * i % 60) as f32 * 0.4);
        tree.add_proxy(aabb, proxy(i, aabb));
        assert!(levels(&tree) <= before + 1);
        before = levels(&tree);
    }
    for i in 0..60 {
        tree.reinsert_proxy(ProxyId::new(i), cube((11 * i % 60) as f32));
        assert!(levels(&tree) <= before + 1);
        before = levels(&tree);
    }
    for i in 0..60 {
        assert!(tree.remove_proxy(ProxyId::new(i)).is_some());
        assert!(levels(&tree) <= before);
        before = levels(&tree);
    }
    assert_eq!(tree.bvh.max_depth, max_depth);
}

#[test]
fn partial_rebuild_depends_on_the_leaves() {
    let (mut some, leaves) = scattered();
    let before = links(&some);
    some.rebuild_partial(&leaves);
    assert_ne!(links(&some), before);
    let (mut none, _) = scattered();
    none.rebuild_partial(&Vec::new());
    assert_ne!(links(&some), links(&none));
    // The same leaves give the same shape, also with allocations that have been used.
    let expected = links(&some);
    let (mut again, leaves) = scattered();
    again.workspace = some.workspace;
    again.rebuild_partial(&leaves);
    assert_eq!(links(&again), expected);
}

#[test]
fn reinsertion_depends_on_the_candidates() {
    let (mut some, leaves) = scattered();
    let before = links(&some);
    some.optimize_candidates(&leaves);
    assert_ne!(links(&some), before);
    assert_eq!(ids_meeting(&some, cube(500.0)), vec![0]);
    let (mut none, _) = scattered();
    none.optimize_candidates(&Vec::new());
    assert_eq!(links(&none), before);
}
