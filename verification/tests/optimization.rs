use avian_bvh::collider_tree::observers::{add_to_tree, ColliderData};
use avian_bvh::collider_tree::optimization::{
    begin_optimization, finish_optimization, optimize_trees, OptimizationAction, Ratio,
};
use avian_bvh::collider_tree::{
    ColliderTree, ColliderTreeOptimization, ColliderTreeProxy, ColliderTreeProxyKey,
    ColliderTreeType, ColliderTrees, MovedProxies, ProxyId, TreeOptimizationMode,
};
use avian_bvh::entity::Entity;
use avian_bvh::rigid_body::RigidBody;
use obvhs::aabb::Aabb;

fn ratio(value: f32) -> Ratio {
    Ratio(value.to_bits())
}

fn cube(x: f32) -> Aabb {
    Aabb::new([x, 0.0, 0.0].into(), [x + 1.0, 1.0, 1.0].into())
}

fn all_ids(tree: &ColliderTree) -> Vec<u32> {
    let mut ids = Vec::new();
    tree.bvh.aabb_traverse(Aabb::LARGEST, |bvh, node| {
        let node = bvh.nodes[node as usize];
        ids.push(bvh.primitive_indices[node.first_index as usize]);
        true
    });
    ids.sort();
    ids
}

fn world(count: u32) -> ColliderTrees {
    let mut trees = ColliderTrees::new();
    let mut moved = MovedProxies::new();
    for i in 0..count {
        for body_type in [RigidBody::Dynamic, RigidBody::Kinematic] {
            let aabb = cube(2.0 * i as f32);
            let data = ColliderData {
                collider: Entity::new(i, 0),
                body: Some(Entity::new(100 + i, 0)),
                aabb,
                enlarged_aabb: aabb,
                layers: None,
                is_sensor: false,
                active_hooks: None,
            };
            let mut proxy_key = ColliderTreeProxyKey::placeholder();
            add_to_tree(&mut trees, &mut moved, &mut proxy_key, &data, Some(body_type));
        }
    }
    trees
}

fn settings(mode: TreeOptimizationMode, in_place: bool) -> ColliderTreeOptimization {
    ColliderTreeOptimization { optimize_in_place: in_place, optimization_mode: mode }
}

#[test]
fn ratios_compare_like_the_numbers_they_hold() {
    let values = [
        f32::NEG_INFINITY,
        -1.5,
        -1.0e-40,
        -0.0,
        0.0,
        1.0e-40,
        0.15,
        0.45,
        1.0,
        f32::MAX,
        f32::INFINITY,
        f32::NAN,
        -f32::NAN,
    ];
    for a in values {
        for b in values {
            assert_eq!(ratio(a).less_than(&ratio(b)), a < b, "{a} < {b}");
        }
    }
}

#[test]
fn settings_are_equal_if_their_numbers_are() {
    let values = [-1.5, -0.0, 0.0, 1.0e-40, 0.15, 0.45, f32::INFINITY, f32::NAN, -f32::NAN];
    let adaptive = |reinsert: f32, partial: f32| TreeOptimizationMode::Adaptive {
        reinsert_threshold: ratio(reinsert),
        partial_rebuild_threshold: ratio(partial),
    };
    for a in values {
        for b in values {
            assert_eq!(ratio(a) == ratio(b), a == b, "{a} == {b}");
            assert_eq!(adaptive(a, 0.5) == adaptive(b, 0.5), a == b);
            assert_eq!(adaptive(0.5, a) == adaptive(0.5, b), a == b);
        }
    }
    assert_eq!(TreeOptimizationMode::default(), adaptive(0.15, 0.45));
    let modes = [
        TreeOptimizationMode::Reinsert,
        TreeOptimizationMode::PartialRebuild,
        TreeOptimizationMode::FullRebuild,
        TreeOptimizationMode::default(),
    ];
    for (i, mode1) in modes.into_iter().enumerate() {
        for (j, mode2) in modes.into_iter().enumerate() {
            assert_eq!(mode1 == mode2, i == j);
            assert_eq!(settings(mode1, true) == settings(mode2, true), i == j);
            assert_ne!(settings(mode1, true), settings(mode2, false));
        }
    }
    assert_eq!(ColliderTreeOptimization::default(), settings(modes[3], false));
    // What is no number is not equal to itself, and neither are settings with it.
    let not_equal = settings(adaptive(f32::NAN, 0.45), false);
    assert_ne!(not_equal, not_equal);
}

#[test]
fn default_thresholds() {
    let mode = ColliderTreeOptimization::default().optimization_mode;
    assert!(!ColliderTreeOptimization::default().optimize_in_place);
    match mode {
        TreeOptimizationMode::Adaptive { reinsert_threshold, partial_rebuild_threshold } => {
            assert_eq!(reinsert_threshold.0, 0.15f32.to_bits());
            assert_eq!(partial_rebuild_threshold.0, 0.45f32.to_bits());
        }
        _ => panic!("the default mode is adaptive"),
    }
}

#[test]
fn adaptive_mode_depends_on_the_ratio() {
    let mode = TreeOptimizationMode::default();
    assert!(matches!(mode.resolve(ratio(0.0)), TreeOptimizationMode::Reinsert));
    assert!(matches!(mode.resolve(ratio(0.1499)), TreeOptimizationMode::Reinsert));
    assert!(matches!(mode.resolve(ratio(0.15)), TreeOptimizationMode::PartialRebuild));
    assert!(matches!(mode.resolve(ratio(0.4)), TreeOptimizationMode::PartialRebuild));
    assert!(matches!(mode.resolve(ratio(0.45)), TreeOptimizationMode::FullRebuild));
    assert!(matches!(mode.resolve(ratio(1.0)), TreeOptimizationMode::FullRebuild));
    // Without proxies, the ratio is not a number.
    assert!(matches!(mode.resolve(ratio(0.0 / 0.0)), TreeOptimizationMode::FullRebuild));
}

#[test]
fn other_modes_do_not_depend_on_the_ratio() {
    for value in [0.0, 0.3, 1.0] {
        let value = ratio(value);
        let mode = TreeOptimizationMode::Reinsert.resolve(value);
        assert!(matches!(mode, TreeOptimizationMode::Reinsert));
        let mode = TreeOptimizationMode::PartialRebuild.resolve(value);
        assert!(matches!(mode, TreeOptimizationMode::PartialRebuild));
        let mode = TreeOptimizationMode::FullRebuild.resolve(value);
        assert!(matches!(mode, TreeOptimizationMode::FullRebuild));
    }
}

#[test]
fn optimization_in_each_mode_keeps_all_boxes() {
    for mode in [
        TreeOptimizationMode::Reinsert,
        TreeOptimizationMode::PartialRebuild,
        TreeOptimizationMode::FullRebuild,
    ] {
        for in_place in [false, true] {
            let mut trees = world(12);
            let moved = vec![ProxyId::new(3), ProxyId::new(8)];
            trees.dynamic_tree.moved_proxies = moved.clone();
            let (mut dynamic, mut kinematic) =
                optimize_trees(&mut trees, &settings(mode, in_place), ratio(0.2), ratio(0.0));
            assert_eq!(dynamic.tree_type, ColliderTreeType::Dynamic);
            assert_eq!(kinematic.tree_type, ColliderTreeType::Kinematic);
            assert!(trees.dynamic_tree.moved_proxies.is_empty());
            assert_eq!(trees.dynamic_tree.proxies.len(), 12);
            assert_eq!(trees.dynamic_tree.bvh.nodes.is_empty(), in_place);
            match &dynamic.action {
                OptimizationAction::Reinsert(leaves) => {
                    assert!(matches!(mode, TreeOptimizationMode::Reinsert));
                    let nodes = &dynamic.tree.bvh.primitives_to_nodes;
                    assert_eq!(*leaves, vec![nodes[3], nodes[8]]);
                }
                OptimizationAction::PartialRebuild(leaves) => {
                    assert!(matches!(mode, TreeOptimizationMode::PartialRebuild));
                    assert_eq!(leaves.len(), 2);
                }
                OptimizationAction::FullRebuild => {
                    assert!(matches!(mode, TreeOptimizationMode::FullRebuild));
                }
            }
            assert!(dynamic.try_run());
            assert!(kinematic.try_run());
            assert!(dynamic.check_fits(&trees.dynamic_tree));
            finish_optimization(&mut trees, dynamic);
            finish_optimization(&mut trees, kinematic);
            assert_eq!(all_ids(&trees.dynamic_tree), (0..12).collect::<Vec<u32>>());
            assert_eq!(all_ids(&trees.kinematic_tree), (0..12).collect::<Vec<u32>>());
            for i in 0..12 {
                let node = trees.dynamic_tree.bvh.primitives_to_nodes[i];
                let aabb = *trees.dynamic_tree.bvh.nodes[node as usize].aabb();
                assert_eq!(aabb, cube(2.0 * i as f32));
            }
        }
    }
}

#[test]
fn too_many_candidates_are_not_run() {
    for (times, runs) in [(23, true), (24, false)] {
        let mut trees = world(12);
        let tree = &mut trees.dynamic_tree;
        tree.set_proxy_aabb(ProxyId::new(0), cube(500.0));
        tree.refit_all();
        tree.moved_proxies = vec![ProxyId::new(0); times];
        let mut task = begin_optimization(
            tree,
            ColliderTreeType::Dynamic,
            &settings(TreeOptimizationMode::Reinsert, false),
            ratio(2.0),
        );
        assert_eq!(task.try_run(), runs);
        assert_eq!(all_ids(&task.tree), (0..12).collect::<Vec<u32>>());
        match &task.action {
            OptimizationAction::Reinsert(leaves) => assert_eq!(leaves.len(), times),
            _ => panic!("leaves are reinserted"),
        }
    }
}

#[test]
fn small_trees_take_any_number_of_candidates() {
    for count in [1, 2] {
        let mut trees = world(count);
        trees.dynamic_tree.moved_proxies = vec![ProxyId::new(0); 7];
        let mut task = begin_optimization(
            &mut trees.dynamic_tree,
            ColliderTreeType::Dynamic,
            &settings(TreeOptimizationMode::Reinsert, false),
            ratio(7.0),
        );
        assert!(task.try_run());
        assert_eq!(all_ids(&task.tree), (0..count).collect::<Vec<u32>>());
    }
}

#[test]
fn proxies_removed_during_an_optimization_are_noticed() {
    let mut trees = world(3);
    let mut task = begin_optimization(
        &mut trees.dynamic_tree,
        ColliderTreeType::Dynamic,
        &settings(TreeOptimizationMode::FullRebuild, false),
        ratio(1.0),
    );
    task.run();
    assert!(task.check_fits(&trees.dynamic_tree));
    trees.dynamic_tree.remove_proxy(ProxyId::new(1));
    assert!(!task.check_fits(&trees.dynamic_tree));
}

#[test]
fn empty_trees_can_be_optimized() {
    let mut trees = ColliderTrees::new();
    for mode in [
        TreeOptimizationMode::Reinsert,
        TreeOptimizationMode::PartialRebuild,
        TreeOptimizationMode::FullRebuild,
        TreeOptimizationMode::default(),
    ] {
        let none = ratio(0.0 / 0.0);
        let (mut dynamic, mut kinematic) =
            optimize_trees(&mut trees, &settings(mode, true), none, none);
        assert!(dynamic.try_run());
        assert!(kinematic.try_run());
        finish_optimization(&mut trees, dynamic);
        finish_optimization(&mut trees, kinematic);
        assert!(trees.dynamic_tree.bvh.nodes.is_empty());
    }
}

#[test]
fn proxies_added_during_an_optimization_lose_their_boxes() {
    let mut trees = world(20);
    let (mut dynamic, _) = optimize_trees(
        &mut trees,
        &settings(TreeOptimizationMode::FullRebuild, true),
        ratio(1.0),
        ratio(1.0),
    );
    let proxy = *dynamic_proxy(&trees);
    let id = trees.dynamic_tree.add_proxy(cube(100.0), proxy);
    assert_eq!(id, ProxyId::new(20));
    assert!(trees.dynamic_tree.has_box(id));
    assert!(!trees.dynamic_tree.has_box(ProxyId::new(3)));
    assert!(dynamic.try_run());
    assert!(dynamic.check_fits(&trees.dynamic_tree));
    finish_optimization(&mut trees, dynamic);
    assert_eq!(all_ids(&trees.dynamic_tree), (0..20).collect::<Vec<u32>>());
    assert!(!trees.dynamic_tree.has_box(id));
    assert!(trees.dynamic_tree.is_rebuildable());
    // The next proxy has no slot of its own number, so that the tree cannot be rebuilt.
    let next = trees.dynamic_tree.add_proxy(cube(200.0), proxy);
    assert_eq!(next, ProxyId::new(21));
    assert!(!trees.dynamic_tree.is_rebuildable());
    for (mode, runs) in [
        (TreeOptimizationMode::FullRebuild, false),
        (TreeOptimizationMode::PartialRebuild, false),
        (TreeOptimizationMode::Reinsert, true),
    ] {
        trees.dynamic_tree.moved_proxies = vec![next];
        let mut task = begin_optimization(
            &mut trees.dynamic_tree,
            ColliderTreeType::Dynamic,
            &settings(mode, false),
            ratio(0.1),
        );
        assert_eq!(task.try_run(), runs);
        assert_eq!(all_ids(&task.tree).len(), 21);
    }
    trees.dynamic_tree.moved_proxies = vec![id];
    assert!(!trees.dynamic_tree.are_moved_boxed());
}

fn dynamic_proxy(trees: &ColliderTrees) -> &ColliderTreeProxy {
    trees.dynamic_tree.get_proxy(ProxyId::new(0)).unwrap()
}
