use avian_bvh::collider_tree::{ColliderTreeProxyKey, ColliderTreeType, ProxyId};
use avian_bvh::rigid_body::RigidBody;

const TYPES: [ColliderTreeType; 4] = [
    ColliderTreeType::Dynamic,
    ColliderTreeType::Kinematic,
    ColliderTreeType::Static,
    ColliderTreeType::Standalone,
];

#[test]
fn key_holds_type_in_lower_two_bits() {
    let key = ColliderTreeProxyKey::new(ProxyId::new(5), ColliderTreeType::Static);
    assert_eq!(key.bits(), 22);
    assert_eq!(key.id().id(), 5);
    assert_eq!(key.tree_type(), ColliderTreeType::Static);
    assert_eq!(key.body(), Some(RigidBody::Static));
}

#[test]
fn key_gives_back_id_and_type() {
    for id in [0, 1, 2, 63, 64, 1_000_000, (1 << 30) - 2, (1 << 30) - 1] {
        for tree_type in TYPES {
            let key = ColliderTreeProxyKey::new(ProxyId::new(id), tree_type);
            assert_eq!(key.id(), ProxyId::new(id));
            assert_eq!(key.id().index(), id as usize);
            assert_eq!(key.tree_type(), tree_type);
            assert_eq!(key.is_dynamic(), tree_type == ColliderTreeType::Dynamic);
            assert_eq!(key.is_kinematic(), tree_type == ColliderTreeType::Kinematic);
            assert_eq!(key.is_static(), tree_type == ColliderTreeType::Static);
            assert_eq!(key.is_standalone(), tree_type == ColliderTreeType::Standalone);
            assert_eq!(key.is_dynamic(), tree_type.is_dynamic());
            assert_eq!(key.is_kinematic(), tree_type.is_kinematic());
            assert_eq!(key.is_static(), tree_type.is_static());
            assert_eq!(key.is_standalone(), tree_type.is_standalone());
        }
    }
}

#[test]
fn different_proxies_have_different_keys() {
    let a = ColliderTreeProxyKey::new(ProxyId::new(7), ColliderTreeType::Dynamic);
    let b = ColliderTreeProxyKey::new(ProxyId::new(7), ColliderTreeType::Kinematic);
    let c = ColliderTreeProxyKey::new(ProxyId::new(8), ColliderTreeType::Dynamic);
    assert_ne!(a, b);
    assert_ne!(a, c);
    assert_ne!(b, c);
    assert_eq!(a, ColliderTreeProxyKey::new(ProxyId::new(7), ColliderTreeType::Dynamic));
}

#[test]
fn placeholder_is_last_standalone_key() {
    let placeholder = ColliderTreeProxyKey::placeholder();
    assert_eq!(placeholder.bits(), u32::MAX);
    assert_eq!(placeholder.id(), ProxyId::placeholder());
    assert_eq!(placeholder.tree_type(), ColliderTreeType::Standalone);
    assert_eq!(placeholder.body(), None);
    assert_eq!(ProxyId::placeholder().id(), (1 << 30) - 1);
}

#[test]
fn tree_types_correspond_to_body_types() {
    let bodies = [
        Some(RigidBody::Dynamic),
        Some(RigidBody::Kinematic),
        Some(RigidBody::Static),
        None,
    ];
    for (body, tree_type) in bodies.into_iter().zip(TYPES) {
        assert_eq!(ColliderTreeType::from_body(body), tree_type);
        assert_eq!(ColliderTreeType::from(body), tree_type);
        assert_eq!(Option::<RigidBody>::from(tree_type), body);
        if let Some(body) = body {
            assert_eq!(ColliderTreeType::from(body), tree_type);
        }
    }
    assert_eq!(TYPES.map(|t| t.discriminant()), [0, 1, 2, 3]);
}

#[test]
fn proxy_ids_convert_and_order_by_number() {
    let id = ProxyId::from(12);
    assert_eq!(u32::from(id), 12);
    assert!(ProxyId::new(3) < ProxyId::new(4));
    assert!(ProxyId::new(4) > ProxyId::new(3));
    assert!(ProxyId::new(4) <= ProxyId::new(4));
    let mut ids = vec![ProxyId::new(9), ProxyId::new(1), ProxyId::new(4)];
    ids.sort();
    assert_eq!(ids, vec![ProxyId::new(1), ProxyId::new(4), ProxyId::new(9)]);
}
