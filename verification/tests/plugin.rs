use avian_bvh::collider_tree::optimization::{OptimizationAction, Ratio};
use avian_bvh::collider_tree::plugin::{
    finish_rebuild, rebuild_trees, restore_workspace, BodyCollider, ColliderTreeProxyIndex,
    ColliderTreeRebuild, ColliderTrees, MovedProxies,
};
use avian_bvh::collider_tree::update::{enlarged_ids, MovedBoxes};
use avian_bvh::collider_tree::ColliderTree;
use avian_bvh::collision::collision_layers::CollisionLayers;
use avian_bvh::data_structures::bit_vec::BitVec;
use avian_bvh::entity::Entity;
use avian_bvh::rigid_body::RigidBody;
use obvhs::aabb::Aabb;

fn cube(x: f32) -> Aabb {
    Aabb::new([x, 0.0, 0.0].into(), [x + 1.0, 1.0, 1.0].into())
}

fn collider(index: u32) -> BodyCollider {
    BodyCollider {
        entity: Entity::new(index, 0),
        body: Entity::new(100 + index, 0),
        aabb: cube(3.0 * index as f32),
        enlarged_aabb: cube(3.0 * index as f32),
        layers: None,
    }
}

fn ids_meeting(tree: &ColliderTree, aabb: Aabb) -> Vec<u32> {
    let mut ids = Vec::new();
    tree.bvh.aabb_traverse(aabb, |bvh, node| {
        let node = bvh.nodes[node as usize];
        ids.push(bvh.primitive_indices[node.first_index as usize]);
        true
    });
    ids.sort();
    ids
}

fn world(count: u32) -> ColliderTrees {
    let mut trees = ColliderTrees::new();
    for i in 0..count {
        let mut index = ColliderTreeProxyIndex::default();
        trees.add_collider(RigidBody::Dynamic, &collider(i), &mut index);
        assert_eq!(index, ColliderTreeProxyIndex(i));
    }
    trees
}

#[test]
fn moving_colliders_share_a_tree() {
    let mut trees = ColliderTrees::new();
    let mut index = ColliderTreeProxyIndex(77);
    trees.add_collider(RigidBody::Dynamic, &collider(1), &mut index);
    assert_eq!(index.0, 0);
    trees.add_collider(RigidBody::Kinematic, &collider(2), &mut index);
    assert_eq!(index.0, 1);
    trees.add_collider(RigidBody::Static, &collider(3), &mut index);
    assert_eq!(index.0, 0);
    assert_eq!(trees.dynamic_tree.proxies.len(), 2);
    assert_eq!(trees.static_tree.proxies.len(), 1);
    let proxy = trees.dynamic_tree.proxies.get(1).unwrap();
    assert_eq!(proxy.collider, Entity::new(2, 0));
    assert_eq!(proxy.body, Some(Entity::new(102, 0)));
    assert_eq!(proxy.layers, CollisionLayers::default());
    assert!(!proxy.flags.sensor && !proxy.flags.custom_filter);
    trees.remove_collider(RigidBody::Kinematic, ColliderTreeProxyIndex(1));
    assert_eq!(trees.dynamic_tree.proxies.len(), 1);
    trees.remove_collider(RigidBody::Static, ColliderTreeProxyIndex(5));
    assert_eq!(trees.static_tree.proxies.len(), 1);
    trees.remove_collider(RigidBody::Static, ColliderTreeProxyIndex(0));
    assert_eq!(trees.static_tree.proxies.len(), 0);
}

#[test]
fn moved_proxies_are_combined_and_recorded() {
    let mut trees = world(70);
    let mut moved = MovedProxies::new();
    moved.thread_local_bit_vec.push(BitVec::new());
    moved.thread_local_bit_vec.push(BitVec::new());
    moved.clear_and_set_capacity(trees.dynamic_tree.proxies.capacity());
    assert!(moved.proxies.capacity() >= 70 && moved.set.capacity() >= 70);
    moved.thread_local_bit_vec[0].set(65);
    moved.thread_local_bit_vec[1].set(4);
    moved.thread_local_bit_vec[1].set(65);
    moved.combine_thread_local();
    let ids = enlarged_ids(&moved.bit_vec);
    let boxes: Vec<MovedBoxes> = [-30.0, 400.0]
        .iter()
        .map(|x| MovedBoxes { aabb: cube(*x), enlarged_aabb: cube(*x) })
        .collect();
    trees.update_dynamic_aabbs(&mut moved, &ids, &boxes);
    assert_eq!(moved.proxies(), &[4, 65]);
    assert!(moved.contains(4) && moved.contains(65));
    assert!(!moved.contains(5));
    assert_eq!(ids_meeting(&trees.dynamic_tree, cube(-30.0)), vec![4]);
    assert_eq!(ids_meeting(&trees.dynamic_tree, cube(400.0)), vec![65]);
    assert_eq!(trees.dynamic_tree.proxies.get(4).unwrap().aabb, cube(-30.0));
    moved.clear_and_set_capacity(10);
    assert!(moved.proxies().is_empty());
    assert!(!moved.contains(4));
    assert_eq!(moved.bit_vec.block_count(), 1);
    assert_eq!(moved.thread_local_bit_vec[1].block_count(), 1);
}

#[test]
fn changed_static_collider_is_reinserted() {
    let mut trees = ColliderTrees::new();
    for i in 0..4 {
        let mut index = ColliderTreeProxyIndex::default();
        trees.add_collider(RigidBody::Static, &collider(i), &mut index);
    }
    trees.update_static_aabb(ColliderTreeProxyIndex(2), cube(50.0));
    assert_eq!(ids_meeting(&trees.static_tree, cube(50.0)), vec![2]);
    assert_eq!(ids_meeting(&trees.static_tree, cube(6.0)), Vec::<u32>::new());
    assert_eq!(trees.static_tree.proxies.get(2).unwrap().aabb, cube(50.0));
}

#[test]
fn rebuild_is_partial_below_the_threshold() {
    for (ratio, partial) in [(0.1f32, true), (0.15, false), (0.9, false)] {
        let mut trees = world(10);
        let mut rebuild = ColliderTreeRebuild { tree: ColliderTree::new() };
        let mut moved = MovedProxies::new();
        moved.clear_and_set_capacity(10);
        moved.bit_vec.set(6);
        let ids = enlarged_ids(&moved.bit_vec);
        let boxes = vec![MovedBoxes { aabb: cube(90.0), enlarged_aabb: cube(90.0) }];
        trees.update_dynamic_aabbs(&mut moved, &ids, &boxes);
        let mut task = rebuild_trees(&mut trees, &mut rebuild, &moved, Ratio(ratio.to_bits()));
        assert_eq!(task.partial, partial);
        assert_eq!(rebuild.tree.proxies.len(), 0);
        assert!(rebuild.tree.bvh.nodes.is_empty());
        match &task.task.action {
            OptimizationAction::PartialRebuild(leaves) => {
                assert!(partial);
                assert_eq!(*leaves, vec![trees.dynamic_tree.bvh.primitives_to_nodes[6]]);
            }
            OptimizationAction::FullRebuild => assert!(!partial),
            OptimizationAction::Reinsert(_) => panic!("leaves are not reinserted"),
        }
        assert!(task.task.try_run());
        finish_rebuild(&mut trees, task);
        restore_workspace(&mut trees, &mut rebuild);
        assert_eq!(ids_meeting(&trees.dynamic_tree, Aabb::LARGEST), (0..10).collect::<Vec<u32>>());
        assert_eq!(ids_meeting(&trees.dynamic_tree, cube(90.0)), vec![6]);
        assert_eq!(trees.dynamic_tree.proxies.len(), 10);
    }
}
