use avian_bvh::collider_tree::observers::{add_to_tree, ColliderData};
use avian_bvh::collider_tree::tree::ColliderTreeProxy;
use avian_bvh::collider_tree::update::{update_static_aabbs, ChangedBox};
use avian_bvh::collider_tree::{
    ColliderTreeProxyKey, ColliderTreeType, ColliderTrees, MovedProxies, ProxyId,
};
use avian_bvh::collision::broad_phase::bvh_broad_phase::{
    add_contacts, collect_chunk, collect_collision_pairs, decide_pair, join_chunks, new_contact,
    query_tree, PairDecision,
};
use avian_bvh::collision::broad_phase::BroadPhaseDiagnostics;
use avian_bvh::collision::collision_layers::{CollisionLayers, LayerMask};
use avian_bvh::collision::contact_graph::ContactGraph;
use avian_bvh::collision::hooks::{ActiveCollisionHooks, CollisionHooks};
use avian_bvh::data_structures::pair_key::PairKey;
use avian_bvh::entity::Entity;
use avian_bvh::joint_graph::{JointGraph, JointGraphEdge};
use avian_bvh::rigid_body::RigidBody;
use obvhs::aabb::Aabb;
use std::time::Duration;

fn cube(x: f32, y: f32) -> Aabb {
    Aabb::new([x, y, 0.0].into(), [x + 1.0, y + 1.0, 1.0].into())
}

struct World {
    trees: ColliderTrees,
    moved: MovedProxies,
    contacts: ContactGraph,
    joints: JointGraph,
}

impl World {
    fn new() -> World {
        World {
            trees: ColliderTrees::new(),
            moved: MovedProxies::new(),
            contacts: ContactGraph::new(),
            joints: JointGraph::new(),
        }
    }

    fn add(&mut self, data: ColliderData, body_type: Option<RigidBody>) -> ColliderTreeProxyKey {
        let mut key = ColliderTreeProxyKey::placeholder();
        add_to_tree(&mut self.trees, &mut self.moved, &mut key, &data, body_type);
        key
    }

    fn proxy(&self, key: ColliderTreeProxyKey) -> ColliderTreeProxy {
        *self.trees.get_proxy(key).unwrap()
    }

    fn decide(&self, key1: ColliderTreeProxyKey, key2: ColliderTreeProxyKey) -> PairDecision {
        decide_pair(
            key1,
            &self.proxy(key1),
            key2,
            &self.proxy(key2),
            &self.moved,
            &self.contacts,
            &self.joints,
            false,
        )
    }

    fn collect(&mut self) -> Vec<(u32, u32)> {
        collect_collision_pairs(
            &self.trees,
            &self.moved,
            &(),
            &mut (),
            &mut self.contacts,
            &self.joints,
        );
        self.pairs()
    }

    fn pairs(&self) -> Vec<(u32, u32)> {
        let mut pairs: Vec<(u32, u32)> = self
            .contacts
            .contacts()
            .iter()
            .map(|c| (c.edge.collider1.index, c.edge.collider2.index))
            .map(|(a, b)| (a.min(b), a.max(b)))
            .collect();
        pairs.sort();
        pairs
    }
}

fn at(index: u32, x: f32, y: f32) -> ColliderData {
    ColliderData {
        collider: Entity::new(index, 0),
        body: Some(Entity::new(1000 + index, 0)),
        aabb: cube(x, y),
        enlarged_aabb: cube(x, y),
        layers: None,
        is_sensor: false,
        active_hooks: None,
    }
}

#[test]
fn overlapping_colliders_are_in_contact_once() {
    let mut world = World::new();
    world.add(at(1, 0.0, 0.0), Some(RigidBody::Dynamic));
    world.add(at(2, 0.5, 0.0), Some(RigidBody::Dynamic));
    world.add(at(3, 5.0, 0.0), Some(RigidBody::Dynamic));
    world.add(at(4, 0.0, 0.5), Some(RigidBody::Kinematic));
    world.add(at(5, 5.5, 0.0), Some(RigidBody::Static));
    world.add(at(6, 5.0, 0.75), None);
    assert_eq!(world.collect(), vec![(1, 2), (1, 4), (2, 4), (3, 5), (3, 6), (5, 6)]);
    // Contacts that exist are not created again.
    assert_eq!(world.collect().len(), 6);
}

#[test]
fn all_pairs_are_found_in_a_grid() {
    let mut world = World::new();
    let mut boxes = Vec::new();
    for i in 0..60u32 {
        let (x, y) = ((i % 8) as f32 * 0.7, (i / 8) as f32 * 0.8);
        let body_type = match i % 3 {
            0 => Some(RigidBody::Dynamic),
            1 => Some(RigidBody::Kinematic),
            _ => None,
        };
        world.add(at(i, x, y), body_type);
        boxes.push(cube(x, y));
    }
    let mut expected = Vec::new();
    for i in 0..60usize {
        for j in i + 1..60 {
            if boxes[i].intersect_aabb(&boxes[j]) {
                expected.push((i as u32, j as u32));
            }
        }
    }
    assert_eq!(world.collect(), expected);
}

#[test]
fn only_moved_proxies_are_queried() {
    let mut world = World::new();
    let first = world.add(at(1, 0.0, 0.0), Some(RigidBody::Dynamic));
    world.add(at(2, 0.5, 0.0), Some(RigidBody::Dynamic));
    world.moved.clear();
    assert_eq!(world.collect(), Vec::new());
    world.moved.insert(first);
    assert_eq!(world.collect(), vec![(1, 2)]);
}

#[test]
fn moved_pair_is_handled_by_one_of_its_queries() {
    let mut world = World::new();
    let a = world.add(at(1, 0.0, 0.0), Some(RigidBody::Dynamic));
    let b = world.add(at(2, 0.5, 0.0), Some(RigidBody::Dynamic));
    let c = world.add(at(3, 0.5, 0.5), Some(RigidBody::Static));
    assert_eq!(world.decide(a, b), PairDecision::Collide);
    assert_eq!(world.decide(b, a), PairDecision::Skip);
    assert_eq!(world.decide(b, c), PairDecision::Collide);
    assert_eq!(world.decide(c, b), PairDecision::Skip);
    assert_eq!(world.decide(a, a), PairDecision::Skip);
    // If the lesser one has not moved, the greater one handles the pair.
    world.moved.remove(&a);
    assert_eq!(world.decide(b, a), PairDecision::Collide);
}

#[test]
fn sensors_handle_their_pairs_themselves() {
    let mut world = World::new();
    let a = world.add(at(1, 0.0, 0.0), Some(RigidBody::Dynamic));
    let sensor = ColliderData { is_sensor: true, ..at(2, 0.5, 0.0) };
    let b = world.add(sensor, Some(RigidBody::Static));
    assert_eq!(world.decide(a, b), PairDecision::Collide);
    assert_eq!(world.decide(b, a), PairDecision::Collide);
    assert_eq!(world.collect(), vec![(1, 2)]);
    let contact = world.contacts.contacts()[0];
    assert!(!contact.pair.generate_constraints);
}

#[test]
fn static_colliders_meet_only_if_one_is_a_sensor() {
    let mut world = World::new();
    let a = world.add(at(1, 0.0, 0.0), Some(RigidBody::Static));
    let b = world.add(at(2, 0.5, 0.0), Some(RigidBody::Static));
    assert_eq!(world.decide(a, b), PairDecision::Skip);
    assert_eq!(world.decide(b, a), PairDecision::Skip);
    assert_eq!(world.collect(), Vec::new());
    let sensor = ColliderData { is_sensor: true, ..at(3, 0.25, 0.0) };
    let c = world.add(sensor, Some(RigidBody::Static));
    assert_eq!(world.decide(a, c), PairDecision::Collide);
    assert_eq!(world.decide(c, a), PairDecision::Collide);
    assert_eq!(world.collect(), vec![(1, 3), (2, 3)]);
}

#[test]
fn only_a_query_of_a_single_tree_finds_static_pairs() {
    let mut world = World::new();
    let a = world.add(at(1, 0.0, 0.0), Some(RigidBody::Static));
    let b = world.add(at(2, 0.5, 0.0), Some(RigidBody::Static));
    // Neither of them is a sensor, so that the broad phase leaves the pair out.
    let mut pairs = Vec::new();
    query_tree(
        &world.trees.static_tree,
        ColliderTreeType::Static,
        a,
        &world.proxy(a),
        &world.moved,
        &(),
        &mut (),
        &world.contacts,
        &world.joints,
        &mut pairs,
    );
    assert_eq!(pairs, vec![(a, b)]);
    let chunk = collect_chunk(
        &world.trees,
        world.moved.proxies(),
        &world.moved,
        &(),
        &mut (),
        &world.contacts,
        &world.joints,
    );
    assert_eq!(chunk, Vec::new());
    assert_eq!(world.collect(), Vec::new());
}

#[test]
fn moved_static_collider_meets_resting_static_sensor() {
    let mut world = World::new();
    let sensor = ColliderData { is_sensor: true, ..at(1, 0.0, 0.0) };
    world.add(sensor, Some(RigidBody::Static));
    world.add(at(2, 0.5, 0.0), Some(RigidBody::Static));
    world.moved.clear();
    let moved = world.add(at(3, 0.75, 0.0), Some(RigidBody::Static));
    assert_eq!(world.moved.proxies(), &[moved]);
    assert_eq!(world.collect(), vec![(1, 3)]);
}

#[test]
fn static_collider_that_is_put_elsewhere_meets_what_is_there() {
    let mut world = World::new();
    world.add(at(1, 0.0, 0.0), Some(RigidBody::Dynamic));
    let wall = world.add(at(2, 20.0, 0.0), Some(RigidBody::Static));
    world.moved.clear();
    let updates =
        vec![ChangedBox { id: wall.id(), aabb: cube(0.5, 0.0), left_enlarged: true }];
    update_static_aabbs(&mut world.trees, &mut world.moved, &updates);
    assert_eq!(world.moved.proxies(), &[wall]);
    assert_eq!(world.collect(), vec![(1, 2)]);
}

#[test]
fn moved_pair_is_found_by_the_query_for_the_smaller_key() {
    let mut world = World::new();
    let a = world.add(at(1, 0.0, 0.0), Some(RigidBody::Kinematic));
    let b = world.add(at(2, 0.5, 0.0), Some(RigidBody::Dynamic));
    let find = |key1: ColliderTreeProxyKey, key2: ColliderTreeProxyKey| {
        let mut pairs = Vec::new();
        query_tree(
            world.trees.tree_for_type(key2.tree_type()),
            key2.tree_type(),
            key1,
            &world.proxy(key1),
            &world.moved,
            &(),
            &mut (),
            &world.contacts,
            &world.joints,
            &mut pairs,
        );
        pairs
    };
    assert_eq!(find(a, b), Vec::new());
    assert_eq!(find(b, a), vec![(b, a)]);
}

#[test]
fn layers_bodies_and_joints_filter_pairs() {
    let mut world = World::new();
    let layers = CollisionLayers::new(LayerMask(2), LayerMask(2));
    world.add(at(1, 0.0, 0.0), Some(RigidBody::Dynamic));
    world.add(ColliderData { layers: Some(layers), ..at(2, 0.1, 0.0) }, Some(RigidBody::Dynamic));
    // The same body as the first one.
    let same_body = ColliderData { body: Some(Entity::new(1001, 0)), ..at(3, 0.2, 0.0) };
    world.add(same_body, Some(RigidBody::Dynamic));
    world.add(at(4, 0.3, 0.0), Some(RigidBody::Dynamic));
    world.joints.add_joint(JointGraphEdge {
        body1: Entity::new(1004, 0),
        body2: Entity::new(1001, 0),
        collision_disabled: true,
    });
    world.add(at(5, 0.4, 0.0), Some(RigidBody::Dynamic));
    assert_eq!(world.collect(), vec![(1, 5), (3, 5), (4, 5)]);
}

#[test]
fn colliders_without_bodies_do_not_meet() {
    let mut world = World::new();
    world.add(ColliderData { body: None, ..at(1, 0.0, 0.0) }, None);
    world.add(ColliderData { body: None, ..at(2, 0.5, 0.0) }, None);
    assert_eq!(world.collect(), Vec::new());
}

struct Listed {
    allowed: Vec<(u32, u32)>,
}

impl CollisionHooks for Listed {
    type Commands = Vec<(u32, u32)>;

    fn filter_pairs(&self, a: Entity, b: Entity, commands: &mut Vec<(u32, u32)>) -> bool {
        commands.push((a.index, b.index));
        self.allowed.contains(&(a.index, b.index))
    }
}

#[test]
fn hooks_are_asked_for_colliders_with_a_custom_filter() {
    let mut world = World::new();
    let hooks = ActiveCollisionHooks { filter_pairs: true, modify_contacts: true };
    let filtered = ColliderData { active_hooks: Some(hooks), ..at(1, 0.0, 0.0) };
    world.add(filtered, Some(RigidBody::Dynamic));
    world.add(at(2, 0.5, 0.0), Some(RigidBody::Dynamic));
    world.add(at(3, 0.0, 0.5), Some(RigidBody::Dynamic));
    let mut asked = Vec::new();
    collect_collision_pairs(
        &world.trees,
        &world.moved,
        &Listed { allowed: vec![(1, 3)] },
        &mut asked,
        &mut world.contacts,
        &world.joints,
    );
    asked.sort();
    assert_eq!(asked, vec![(1, 2), (1, 3)]);
    assert_eq!(world.pairs(), vec![(1, 3), (2, 3)]);
    let filtered: Vec<bool> =
        world.contacts.contacts().iter().map(|c| c.pair.modify_contacts).collect();
    assert_eq!(filtered, vec![true, false]);
}

#[test]
fn hooks_are_asked_last_and_once_for_each_pair() {
    let mut world = World::new();
    let hooks = ActiveCollisionHooks { filter_pairs: true, modify_contacts: false };
    let filtered = ColliderData { active_hooks: Some(hooks), ..at(1, 0.0, 0.0) };
    let a = world.add(filtered, Some(RigidBody::Dynamic));
    // On the same body, on other layers, joined, in contact already, and far away.
    let same_body = ColliderData { body: Some(Entity::new(1001, 0)), ..at(2, 0.1, 0.0) };
    world.add(same_body, Some(RigidBody::Dynamic));
    let layers = Some(CollisionLayers::new(LayerMask(2), LayerMask(2)));
    world.add(ColliderData { layers, ..at(3, 0.2, 0.0) }, Some(RigidBody::Dynamic));
    world.add(at(4, 0.3, 0.0), Some(RigidBody::Dynamic));
    world.joints.add_joint(JointGraphEdge {
        body1: Entity::new(1001, 0),
        body2: Entity::new(1004, 0),
        collision_disabled: true,
    });
    let known = world.add(at(5, 0.4, 0.0), Some(RigidBody::Dynamic));
    let contact = new_contact(&world.proxy(a), &world.proxy(known));
    assert!(world.contacts.add_contact(contact));
    world.add(at(6, 8.0, 0.0), Some(RigidBody::Dynamic));
    let ask = |world: &World, key: ColliderTreeProxyKey| {
        let mut asked = Vec::new();
        let mut pairs = Vec::new();
        query_tree(
            &world.trees.dynamic_tree,
            ColliderTreeType::Dynamic,
            key,
            &world.proxy(key),
            &world.moved,
            &Listed { allowed: vec![(1, 7), (1, 9)] },
            &mut asked,
            &world.contacts,
            &world.joints,
            &mut pairs,
        );
        (asked, pairs)
    };
    assert_eq!(ask(&world, a), (Vec::new(), Vec::new()));
    // With colliders that pass all other tests.
    let allowed = world.add(at(7, 0.5, 0.0), Some(RigidBody::Dynamic));
    world.add(at(8, 0.6, 0.0), Some(RigidBody::Dynamic));
    let other = world.add(at(9, 0.7, 0.0), Some(RigidBody::Dynamic));
    let (asked, pairs) = ask(&world, a);
    let mut sorted = asked.clone();
    sorted.sort();
    assert_eq!(sorted, vec![(1, 7), (1, 8), (1, 9)]);
    // The pairs that are let through come in the order in which the hooks were asked.
    let expected: Vec<(ColliderTreeProxyKey, ColliderTreeProxyKey)> = asked
        .iter()
        .filter(|pair| pair.1 != 8)
        .map(|pair| (a, if pair.1 == 7 { allowed } else { other }))
        .collect();
    assert_eq!(pairs, expected);
    // The other queries leave the pairs to this one.
    assert_eq!(ask(&world, allowed).0, Vec::new());
}

#[test]
fn query_finds_pairs_in_one_tree() {
    let mut world = World::new();
    let a = world.add(at(1, 0.0, 0.0), Some(RigidBody::Dynamic));
    let b = world.add(at(2, 0.5, 0.0), Some(RigidBody::Static));
    world.add(at(3, 0.5, 0.5), Some(RigidBody::Kinematic));
    let mut pairs = vec![(b, a)];
    query_tree(
        &world.trees.static_tree,
        ColliderTreeType::Static,
        a,
        &world.proxy(a),
        &world.moved,
        &(),
        &mut (),
        &world.contacts,
        &world.joints,
        &mut pairs,
    );
    assert_eq!(pairs, vec![(b, a), (a, b)]);
}

#[test]
fn chunks_give_the_same_pairs_as_the_whole() {
    let mut world = World::new();
    for i in 0..20 {
        world.add(at(i, 0.6 * i as f32, 0.0), Some(RigidBody::Dynamic));
    }
    let keys = world.moved.proxies();
    let chunk = |keys: &[ColliderTreeProxyKey]| {
        collect_chunk(
            &world.trees,
            keys,
            &world.moved,
            &(),
            &mut (),
            &world.contacts,
            &world.joints,
        )
    };
    let whole = chunk(keys);
    let chunks: Vec<_> = keys.chunks(7).map(chunk).collect();
    assert_eq!(chunks.len(), 3);
    let joined = join_chunks(chunks);
    assert_eq!(joined, whole);
    assert_eq!(joined.len(), 19);
    add_contacts(&world.trees, &joined, &mut world.contacts);
    assert_eq!(world.contacts.contacts().len(), 19);
    assert_eq!(join_chunks(Vec::new()), Vec::new());
}

#[test]
fn contacts_carry_the_properties_of_both_proxies() {
    let mut world = World::new();
    let a = world.add(at(1, 0.0, 0.0), Some(RigidBody::Dynamic));
    let b = world.add(at(2, 0.5, 0.0), Some(RigidBody::Dynamic));
    let (mut proxy1, mut proxy2) = (world.proxy(a), world.proxy(b));
    let contact = new_contact(&proxy1, &proxy2);
    assert_eq!(contact.edge.collider1, Entity::new(1, 0));
    assert_eq!(contact.edge.collider2, Entity::new(2, 0));
    assert_eq!(contact.edge.body1, Some(Entity::new(1001, 0)));
    assert_eq!(contact.pair.body2, Some(Entity::new(1002, 0)));
    assert!(!contact.edge.contact_events && !contact.pair.modify_contacts);
    assert!(contact.pair.generate_constraints);
    proxy1.flags.contact_events = true;
    proxy2.flags.modify_contacts = true;
    let contact = new_contact(&proxy1, &proxy2);
    assert!(contact.edge.contact_events && contact.pair.modify_contacts);
    proxy2.flags.body_disabled = true;
    assert!(!new_contact(&proxy1, &proxy2).pair.generate_constraints);
}

#[test]
fn contact_graph_holds_unordered_pairs_once() {
    let mut world = World::new();
    let a = world.add(at(1, 0.0, 0.0), Some(RigidBody::Dynamic));
    let b = world.add(at(2, 0.5, 0.0), Some(RigidBody::Dynamic));
    let (proxy1, proxy2) = (world.proxy(a), world.proxy(b));
    let mut contacts = ContactGraph::new();
    assert!(!contacts.contains_key(&PairKey::new(1, 2)));
    assert!(contacts.add_contact(new_contact(&proxy1, &proxy2)));
    assert!(!contacts.add_contact(new_contact(&proxy2, &proxy1)));
    assert_eq!(contacts.contacts().len(), 1);
    assert!(contacts.contains_key(&PairKey::new(2, 1)));
    assert!(!contacts.contains_key(&PairKey::new(2, 2)));
}

#[test]
fn a_collider_is_found_where_its_enlarged_box_is() {
    let mut world = World::new();
    let a = world.add(at(1, 0.0, 0.0), Some(RigidBody::Dynamic));
    let far = ColliderData { enlarged_aabb: cube(0.5, 0.0), ..at(2, 1.5, 0.0) };
    world.add(far, Some(RigidBody::Kinematic));
    assert_eq!(a, ColliderTreeProxyKey::new(ProxyId::new(0), ColliderTreeType::Dynamic));
    assert_eq!(world.collect(), vec![(1, 2)]);
}

#[test]
fn diagnostics_have_paths() {
    let diagnostics = BroadPhaseDiagnostics {
        find_pairs: Duration::from_millis(1),
        optimize: Duration::from_millis(2),
        update: Duration::from_millis(3),
    };
    assert_eq!(
        diagnostics.timer_paths(),
        vec![
            ("avian/broad_phase/find_pairs", Duration::from_millis(1)),
            ("avian/broad_phase/optimize", Duration::from_millis(2)),
            ("avian/broad_phase/update", Duration::from_millis(3)),
        ]
    );
    assert_eq!(BroadPhaseDiagnostics::default().find_pairs, Duration::ZERO);
}

#[test]
fn without_hooks_every_filtered_pair_is_let_through() {
    let mut world = World::new();
    let hooks = ActiveCollisionHooks { filter_pairs: true, modify_contacts: false };
    let filtered = ColliderData { active_hooks: Some(hooks), ..at(1, 0.0, 0.0) };
    let a = world.add(filtered, Some(RigidBody::Dynamic));
    let b = world.add(at(2, 0.5, 0.0), Some(RigidBody::Dynamic));
    assert_eq!(world.decide(a, b), PairDecision::AskHooks);
    assert_eq!(world.collect(), vec![(1, 2)]);
}

#[test]
fn hooks_that_refuse_every_pair_leave_only_unfiltered_ones() {
    let mut world = World::new();
    let hooks = ActiveCollisionHooks { filter_pairs: true, modify_contacts: false };
    let filtered = ColliderData { active_hooks: Some(hooks), ..at(1, 0.0, 0.0) };
    world.add(filtered, Some(RigidBody::Dynamic));
    world.add(at(2, 0.5, 0.0), Some(RigidBody::Dynamic));
    world.add(at(3, 0.0, 0.5), Some(RigidBody::Static));
    let mut asked = Vec::new();
    collect_collision_pairs(
        &world.trees,
        &world.moved,
        &Listed { allowed: Vec::new() },
        &mut asked,
        &mut world.contacts,
        &world.joints,
    );
    assert_eq!(asked.len(), 2);
    assert_eq!(world.pairs(), vec![(2, 3)]);
}
