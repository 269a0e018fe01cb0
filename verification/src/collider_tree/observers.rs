//! Keeping the collider trees up to date as colliders come, go and change.

use crate::bvh::{aabb_numeric, bvh_grown, is_numeric, lemma_grown_more, lemma_grown_twice};
use crate::collider_tree::proxy_key::{
    proxy_key_ext, proxy_key_parts, tree_type_of_body, ColliderTreeProxyKey, ColliderTreeType,
    PROXY_ID_LIMIT,
};
use crate::collider_tree::tree::{ColliderTreeProxy, ColliderTreeProxyFlags};
use crate::collider_tree::update::{
    keys_with, keys_with_members, keys_with_then_without, keys_without, keys_without_members,
    MovedProxies,
};
use crate::collider_tree::{ColliderTrees, ProxyId};
use crate::collision::collision_layers::{CollisionLayers, LayerMask};
use crate::collision::hooks::ActiveCollisionHooks;
use crate::entity::Entity;
use crate::rigid_body::RigidBody;
use obvhs::aabb::Aabb;
use vstd::prelude::*;

verus! {

/// The properties of a collider from which its proxy is made.
#[derive(Clone, Copy)]
pub struct ColliderData {
    /// The collider.
    pub collider: Entity,
    /// The body that the collider is attached to, if any.
    pub body: Option<Entity>,
    /// The bounding box of the collider.
    pub aabb: Aabb,
    /// The enlarged bounding box of the collider.
    pub enlarged_aabb: Aabb,
    /// The collision layers of the collider, if they are not the default ones.
    pub layers: Option<CollisionLayers>,
    /// Whether the collider is a sensor.
    pub is_sensor: bool,
    /// The active collision hooks of the collider, if they are not the default ones.
    pub active_hooks: Option<ActiveCollisionHooks>,
}

/// The given layers, or the default ones.
pub open spec fn layers_or_default(layers: Option<CollisionLayers>) -> CollisionLayers {
    match layers {
        Some(layers) => layers,
        None => CollisionLayers { memberships: LayerMask(1), filters: LayerMask(u32::MAX) },
    }
}

/// The given hooks, or the default ones.
pub open spec fn hooks_or_default(hooks: Option<ActiveCollisionHooks>) -> ActiveCollisionHooks {
    match hooks {
        Some(hooks) => hooks,
        None => ActiveCollisionHooks { filter_pairs: false, modify_contacts: false },
    }
}

impl ColliderData {
    /// The proxy of the collider.
    pub open spec fn spec_proxy(self) -> ColliderTreeProxy {
        ColliderTreeProxy {
            collider: self.collider,
            body: self.body,
            layers: layers_or_default(self.layers),
            aabb: self.aabb,
            flags: ColliderTreeProxyFlags::of(self.is_sensor, hooks_or_default(self.active_hooks)),
        }
    }

    /// Returns whether the coordinates of the enlarged bounding box are numbers, so that the boxes
    /// of a tree still fit what is below them when the collider is added.
    pub fn has_numeric_box(&self) -> (res: bool)
        ensures
            res == aabb_numeric(self.enlarged_aabb),
    {
        is_numeric(&self.enlarged_aabb)
    }

    /// Creates the proxy of the collider.
    pub fn proxy(&self) -> (res: ColliderTreeProxy)
        ensures
            res == self.spec_proxy(),
    {
        ColliderTreeProxy {
            collider: self.collider,
            body: self.body,
            layers: match self.layers {
                Some(layers) => layers,
                None => CollisionLayers::default(),
            },
            aabb: self.aabb,
            flags: ColliderTreeProxyFlags::new(
                self.is_sensor,
                match self.active_hooks {
                    Some(hooks) => hooks,
                    None => ActiveCollisionHooks::default(),
                },
            ),
        }
    }
}

/// Whether every proxy that is listed as moved exists.
pub open spec fn moved_exist(trees: ColliderTrees, moved: Seq<ColliderTreeProxyKey>) -> bool {
    forall|key: ColliderTreeProxyKey| #[trigger] moved.contains(key) ==> trees.has(key)
}

/// The type of the tree for a collider attached to `body`, if the type of the body is known.
pub open spec fn tree_type_for(
    body: Option<Entity>,
    body_type: Option<RigidBody>,
) -> ColliderTreeType {
    if body is Some {
        tree_type_of_body(body_type)
    } else {
        ColliderTreeType::Standalone
    }
}

/// The proxies after moving one from its old key, unless that is the placeholder, to a new key.
pub open spec fn moved_to<T>(
    map: Map<ColliderTreeProxyKey, T>,
    old_key: ColliderTreeProxyKey,
    new_key: ColliderTreeProxyKey,
    value: T,
) -> Map<ColliderTreeProxyKey, T> {
    if old_key.is_placeholder() {
        map.insert(new_key, value)
    } else {
        map.remove(old_key).insert(new_key, value)
    }
}

/// The number of the ID that the next proxy in the tree of the given type gets once the proxy
/// with the given key is removed, unless that key is the placeholder.
pub open spec fn id_after_removal(
    trees: ColliderTrees,
    key: ColliderTreeProxyKey,
    tree_type: ColliderTreeType,
) -> nat {
    if !key.is_placeholder() && key.spec_tree_type() == tree_type && trees.has(key) {
        key.spec_id() as nat
    } else {
        trees.tree(tree_type).proxies.next_index()
    }
}

/// Removing a proxy and its key keeps all listed keys those of existing proxies.
proof fn lemma_moved_exist_remove(
    before: ColliderTrees,
    after: ColliderTrees,
    moved: Seq<ColliderTreeProxyKey>,
    key: ColliderTreeProxyKey,
)
    requires
        moved.no_duplicates(),
        after.proxy_map() == before.proxy_map().remove(key),
        moved_exist(before, moved),
    ensures
        moved_exist(after, keys_without(moved, key)),
{
    keys_without_members(moved, key);
    assert forall|k: ColliderTreeProxyKey| #[trigger]
        keys_without(moved, key).contains(k) implies after.has(k) by {
        assert(before.has(k) && k != key);
        assert(before.proxy_map().contains_key(k));
        assert(after.proxy_map().contains_key(k));
    }
}

/// Adding a proxy and its key keeps all listed keys those of existing proxies.
proof fn lemma_moved_exist_add(
    before: ColliderTrees,
    after: ColliderTrees,
    moved: Seq<ColliderTreeProxyKey>,
    key: ColliderTreeProxyKey,
    proxy: ColliderTreeProxy,
)
    requires
        moved.no_duplicates(),
        after.proxy_map() == before.proxy_map().insert(key, proxy),
        moved_exist(before, moved),
    ensures
        moved_exist(after, keys_with(moved, key)),
{
    keys_with_members(moved, key);
    assert forall|k: ColliderTreeProxyKey| #[trigger]
        keys_with(moved, key).contains(k) implies after.has(k) by {
        if k != key {
            assert(before.has(k));
            assert(before.proxy_map().contains_key(k));
        }
        assert(after.proxy_map().contains_key(k));
    }
}

/// Whether the given collider has exactly one proxy, under the given key, or none if the key is
/// the placeholder.
pub open spec fn is_only_proxy(
    map: Map<ColliderTreeProxyKey, ColliderTreeProxy>,
    collider: Entity,
    key: ColliderTreeProxyKey,
) -> bool {
    &&& !key.is_placeholder() ==> map.contains_key(key) && map[key].collider == collider
    &&& forall|k: ColliderTreeProxyKey| #[trigger]
        map.contains_key(k) && map[k].collider == collider ==> k == key && !key.is_placeholder()
}

/// Whether no collider has two proxies.
pub open spec fn one_proxy_each(map: Map<ColliderTreeProxyKey, ColliderTreeProxy>) -> bool {
    forall|k1: ColliderTreeProxyKey, k2: ColliderTreeProxyKey| #[trigger]
        map.contains_key(k1) && #[trigger] map.contains_key(k2) && map[k1].collider
            == map[k2].collider ==> k1 == k2
}

/// Where no collider has two proxies, the proxy of a key is the only one of its collider.
pub proof fn own_proxy_is_only_proxy(
    map: Map<ColliderTreeProxyKey, ColliderTreeProxy>,
    key: ColliderTreeProxyKey,
)
    requires
        one_proxy_each(map),
        map.contains_key(key),
        !key.is_placeholder(),
    ensures
        is_only_proxy(map, map[key].collider, key),
{
}

/// Adding a collider whose only proxy, if it has one, is that of its old key leaves no collider
/// with two proxies.
pub proof fn adding_keeps_one_proxy_each(
    map: Map<ColliderTreeProxyKey, ColliderTreeProxy>,
    old_key: ColliderTreeProxyKey,
    new_key: ColliderTreeProxyKey,
    proxy: ColliderTreeProxy,
)
    requires
        one_proxy_each(map),
        is_only_proxy(map, proxy.collider, old_key),
    ensures
        one_proxy_each(moved_to(map, old_key, new_key, proxy)),
{
    let after = moved_to(map, old_key, new_key, proxy);
    assert forall|k1: ColliderTreeProxyKey, k2: ColliderTreeProxyKey| #[trigger]
        after.contains_key(k1) && #[trigger] after.contains_key(k2) && after[k1].collider
            == after[k2].collider implies k1 == k2 by {
        assert(k1 != new_key ==> map.contains_key(k1) && map[k1] == after[k1]);
        assert(k2 != new_key ==> map.contains_key(k2) && map[k2] == after[k2]);
    }
}

/// Removing a proxy leaves no collider with two proxies.
pub proof fn removing_keeps_one_proxy_each(
    map: Map<ColliderTreeProxyKey, ColliderTreeProxy>,
    key: ColliderTreeProxyKey,
)
    requires
        one_proxy_each(map),
    ensures
        one_proxy_each(map.remove(key)),
{
    let after = map.remove(key);
    assert forall|k1: ColliderTreeProxyKey, k2: ColliderTreeProxyKey| #[trigger]
        after.contains_key(k1) && #[trigger] after.contains_key(k2) && after[k1].collider
            == after[k2].collider implies k1 == k2 by {
        assert(map.contains_key(k1) && map.contains_key(k2));
    }
}

/// Replacing the proxy of a collider by another one of the same collider, under a new key, leaves
/// no collider with two proxies.
pub proof fn moving_keeps_one_proxy_each(
    map: Map<ColliderTreeProxyKey, ColliderTreeProxy>,
    old_key: ColliderTreeProxyKey,
    new_key: ColliderTreeProxyKey,
    proxy: ColliderTreeProxy,
)
    requires
        one_proxy_each(map),
        map.contains_key(old_key),
        map[old_key].collider == proxy.collider,
    ensures
        one_proxy_each(map.remove(old_key).insert(new_key, proxy)),
{
    let after = map.remove(old_key).insert(new_key, proxy);
    assert forall|k1: ColliderTreeProxyKey, k2: ColliderTreeProxyKey| #[trigger]
        after.contains_key(k1) && #[trigger] after.contains_key(k2) && after[k1].collider
            == after[k2].collider implies k1 == k2 by {
        assert(k1 != new_key ==> map.contains_key(k1) && map[k1] == after[k1] && k1 != old_key);
        assert(k2 != new_key ==> map.contains_key(k2) && map[k2] == after[k2] && k2 != old_key);
    }
}

/// Changing proxies but not whose they are leaves no collider with two proxies.
pub proof fn changing_keeps_one_proxy_each(
    before: Map<ColliderTreeProxyKey, ColliderTreeProxy>,
    after: Map<ColliderTreeProxyKey, ColliderTreeProxy>,
)
    requires
        one_proxy_each(before),
        forall|k: ColliderTreeProxyKey| #[trigger]
            after.contains_key(k) ==> before.contains_key(k) && before[k].collider
                == after[k].collider,
    ensures
        one_proxy_each(after),
{
    assert forall|k1: ColliderTreeProxyKey, k2: ColliderTreeProxyKey| #[trigger]
        after.contains_key(k1) && #[trigger] after.contains_key(k2) && after[k1].collider
            == after[k2].collider implies k1 == k2 by {
        assert(before.contains_key(k1) && before.contains_key(k2));
    }
}

/// Adding a collider whose only proxy, if it has one, is that of its old key leaves it with
/// exactly one proxy, under its new key, and leaves the proxies of all other colliders alone.
pub proof fn added_collider_has_one_proxy(
    map: Map<ColliderTreeProxyKey, ColliderTreeProxy>,
    old_key: ColliderTreeProxyKey,
    new_key: ColliderTreeProxyKey,
    proxy: ColliderTreeProxy,
)
    requires
        is_only_proxy(map, proxy.collider, old_key),
        map.contains_key(new_key) ==> new_key == old_key && !old_key.is_placeholder(),
        !new_key.is_placeholder(),
    ensures
        is_only_proxy(moved_to(map, old_key, new_key, proxy), proxy.collider, new_key),
        forall|k: ColliderTreeProxyKey|
            map.contains_key(k) && map[k].collider != proxy.collider
                ==> #[trigger] moved_to(map, old_key, new_key, proxy).contains_key(k) && moved_to(
                map,
                old_key,
                new_key,
                proxy,
            )[k] == map[k],
        forall|k: ColliderTreeProxyKey| #[trigger]
            moved_to(map, old_key, new_key, proxy).contains_key(k) && k != new_key
                ==> map.contains_key(k),
{
    let after = moved_to(map, old_key, new_key, proxy);
    assert forall|k: ColliderTreeProxyKey| #[trigger]
        after.contains_key(k) && after[k].collider == proxy.collider implies k == new_key by {
        if k != new_key {
            assert(map.contains_key(k) && map[k] == after[k]);
        }
    }
}

/// Adds a collider to the appropriate collider tree, after removing it from its old tree if it
/// is in one.
///
/// `body_type` is the type of the body that the collider is attached to, if that body exists.
/// The boxes of the trees involved have to fit tightly, and still do if the coordinates of the
/// enlarged bounding box are numbers.
pub fn add_to_tree(
    trees: &mut ColliderTrees,
    moved_proxies: &mut MovedProxies,
    proxy_key: &mut ColliderTreeProxyKey,
    collider: &ColliderData,
    body_type: Option<RigidBody>,
)
    requires
        old(trees).wf(),
        old(moved_proxies).wf(),
        old(trees).tree(tree_type_for(collider.body, body_type)).tight(),
        !old(proxy_key).is_placeholder() ==> old(trees).boxed(*old(proxy_key)),
        !old(proxy_key).is_placeholder() && old(trees).has(*old(proxy_key)) ==> old(trees).tree(
            old(proxy_key).spec_tree_type(),
        ).tight(),
        id_after_removal(
            *old(trees),
            *old(proxy_key),
            tree_type_for(collider.body, body_type),
        ) < PROXY_ID_LIMIT,
    ensures
        final(trees).wf(),
        final(moved_proxies).wf(),
        final(proxy_key).spec_tree_type() == tree_type_for(collider.body, body_type),
        final(proxy_key).spec_id() == id_after_removal(
            *old(trees),
            *old(proxy_key),
            tree_type_for(collider.body, body_type),
        ),
        old(trees).has(*final(proxy_key)) ==> *final(proxy_key) == *old(proxy_key)
            && !old(proxy_key).is_placeholder(),
        final(trees).proxy_map() == moved_to(
            old(trees).proxy_map(),
            *old(proxy_key),
            *final(proxy_key),
            collider.spec_proxy(),
        ),
        final(trees).box_map() == moved_to(
            old(trees).box_map(),
            *old(proxy_key),
            *final(proxy_key),
            collider.enlarged_aabb,
        ),
        forall|t: ColliderTreeType|
            (#[trigger] final(trees).tree(t)).moved_proxies@ == if !old(proxy_key).is_placeholder()
                && t == old(proxy_key).spec_tree_type() {
                old(trees).tree(t).moved_proxies@.filter(
                    |m: ProxyId| m@ != old(proxy_key).spec_id(),
                )
            } else {
                old(trees).tree(t).moved_proxies@
            },
        final(moved_proxies)@ == keys_with(
            if old(proxy_key).is_placeholder() {
                old(moved_proxies)@
            } else {
                keys_without(old(moved_proxies)@, *old(proxy_key))
            },
            *final(proxy_key),
        ),
        !old(proxy_key).is_placeholder() && *final(proxy_key) != *old(proxy_key)
            ==> !final(moved_proxies)@.contains(*old(proxy_key)),
        // The new proxy has the properties of the collider, and its enlarged box in the tree.
        final(trees).has(*final(proxy_key)),
        final(trees).box_map().contains_key(*final(proxy_key)),
        final(trees).box_map()[*final(proxy_key)] == collider.enlarged_aabb,
        ({
            let proxy = final(trees).proxy(*final(proxy_key));
            &&& proxy.collider == collider.collider
            &&& proxy.body == collider.body
            &&& proxy.aabb == collider.aabb
            &&& collider.layers is Some ==> proxy.layers == collider.layers->0
            &&& collider.layers is None ==> proxy.layers.memberships.0 == 1
                && proxy.layers.filters.0 == 0xffff_ffff
            &&& proxy.flags.sensor == collider.is_sensor
            &&& proxy.flags.custom_filter == (collider.active_hooks is Some
                && collider.active_hooks->0.filter_pairs)
            &&& proxy.flags.modify_contacts == (collider.active_hooks is Some
                && collider.active_hooks->0.modify_contacts)
            &&& !proxy.flags.body_disabled && !proxy.flags.contact_events
        }),
        final(moved_proxies)@.contains(*final(proxy_key)),
        // The other trees stay as they are.
        forall|t: ColliderTreeType|
            t != tree_type_for(collider.body, body_type) && (old(proxy_key).is_placeholder() || t
                != old(proxy_key).spec_tree_type())
                    ==> #[trigger] final(trees).tree(t) == old(trees).tree(t),
        // A collider with no proxy but that of its old key has exactly one afterwards.
        is_only_proxy(old(trees).proxy_map(), collider.collider, *old(proxy_key))
            && !final(proxy_key).is_placeholder() ==> is_only_proxy(
            final(trees).proxy_map(),
            collider.collider,
            *final(proxy_key),
        ),
        one_proxy_each(old(trees).proxy_map()) && is_only_proxy(
            old(trees).proxy_map(),
            collider.collider,
            *old(proxy_key),
        ) ==> one_proxy_each(final(trees).proxy_map()),
        forall|t: ColliderTreeType|
            bvh_grown((#[trigger] old(trees).tree(t)).bvh, final(trees).tree(t).bvh, 1),
        old(trees).synced() ==> final(trees).synced(),
        forall|t: ColliderTreeType|
            aabb_numeric(collider.enlarged_aabb) && (#[trigger] old(trees).tree(t)).tight()
                ==> final(trees).tree(t).tight(),
        old(trees).tight() && aabb_numeric(collider.enlarged_aabb) ==> final(trees).tight(),
        moved_exist(*old(trees), old(moved_proxies)@) ==> moved_exist(
            *final(trees),
            final(moved_proxies)@,
        ),
{
    broadcast use proxy_key_ext;

    let tree_type: ColliderTreeType = match (collider.body, body_type) {
        (Some(_), Some(body_type)) => ColliderTreeType::from_body(Some(body_type)),
        _ => ColliderTreeType::Standalone,
    };
    let proxy = collider.proxy();
    proof {
        moved_proxies.lemma_no_duplicates();
    }
    // Remove the old proxy if it exists.
    if *proxy_key != ColliderTreeProxyKey::placeholder() {
        trees.remove_proxy(*proxy_key);
        moved_proxies.remove(proxy_key);
        proof {
            if moved_exist(*old(trees), old(moved_proxies)@) {
                lemma_moved_exist_remove(
                    *old(trees),
                    *trees,
                    old(moved_proxies)@,
                    *old(proxy_key),
                );
            }
        }
    }
    let ghost trees1 = *trees;
    let ghost moved1 = moved_proxies@;
    proof {
        moved_proxies.lemma_no_duplicates();
        assert(trees.tree(tree_type).tight());
    }
    // Insert the proxy into the appropriate tree.
    let new_key = trees.add_proxy(tree_type, collider.enlarged_aabb, proxy);
    // Store the proxy key.
    *proxy_key = new_key;
    // Mark the proxy as moved.
    moved_proxies.insert(new_key);
    proof {
        assert(!trees1.proxy_map().contains_key(new_key));
        assert(old(trees).proxy_map().contains_key(new_key) == old(trees).has(new_key));
        if moved_exist(*old(trees), old(moved_proxies)@) {
            lemma_moved_exist_add(trees1, *trees, moved1, new_key, proxy);
        }
        keys_without_members(old(moved_proxies)@, *old(proxy_key));
        keys_with_members(moved1, new_key);
        assert forall|t: ColliderTreeType| bvh_grown(
            (#[trigger] old(trees).tree(t)).bvh,
            trees.tree(t).bvh,
            1,
        ) by {
            assert(bvh_grown(old(trees).tree(t).bvh, trees1.tree(t).bvh, 0));
            if t == tree_type {
                lemma_grown_twice(
                    old(trees).tree(t).bvh,
                    trees1.tree(t).bvh,
                    trees.tree(t).bvh,
                    0,
                    1,
                );
            } else {
                assert(trees.tree(t) == trees1.tree(t));
                lemma_grown_more(old(trees).tree(t).bvh, trees.tree(t).bvh, 0, 1);
            }
        }
        if one_proxy_each(old(trees).proxy_map()) && is_only_proxy(
            old(trees).proxy_map(),
            collider.collider,
            *old(proxy_key),
        ) {
            adding_keeps_one_proxy_each(
                old(trees).proxy_map(),
                *old(proxy_key),
                new_key,
                proxy,
            );
        }
        if is_only_proxy(old(trees).proxy_map(), collider.collider, *old(proxy_key))
            && !new_key.is_placeholder() {
            added_collider_has_one_proxy(
                old(trees).proxy_map(),
                *old(proxy_key),
                new_key,
                proxy,
            );
        }
        assert forall|t: ColliderTreeType|
            aabb_numeric(collider.enlarged_aabb) && (#[trigger] old(trees).tree(t)).tight()
                implies trees.tree(t).tight() by {
            assert(trees1.tree(t).tight());
            if t != tree_type {
                assert(trees.tree(t) == trees1.tree(t));
            }
        }
        assert forall|t: ColliderTreeType|
            t != tree_type && (old(proxy_key).is_placeholder() || t
                != old(proxy_key).spec_tree_type())
                    implies #[trigger] trees.tree(t) == old(trees).tree(t) by {
            assert(trees1.tree(t) == old(trees).tree(t));
        }
    }
}

/// Removes a collider from its collider tree.
///
/// The boxes of the tree have to fit tightly, and still do.
pub fn remove_from_tree(
    trees: &mut ColliderTrees,
    moved_proxies: &mut MovedProxies,
    proxy_key: &mut ColliderTreeProxyKey,
)
    requires
        old(trees).wf(),
        old(moved_proxies).wf(),
        !old(proxy_key).is_placeholder() ==> old(trees).boxed(*old(proxy_key)),
        !old(proxy_key).is_placeholder() && old(trees).has(*old(proxy_key)) ==> old(trees).tree(
            old(proxy_key).spec_tree_type(),
        ).tight(),
    ensures
        final(trees).wf(),
        final(moved_proxies).wf(),
        final(proxy_key).is_placeholder(),
        old(proxy_key).is_placeholder() ==> *final(trees) == *old(trees) && final(moved_proxies)@
            == old(moved_proxies)@,
        !old(proxy_key).is_placeholder() ==> {
            &&& final(trees).proxy_map() == old(trees).proxy_map().remove(*old(proxy_key))
            &&& final(trees).box_map() == old(trees).box_map().remove(*old(proxy_key))
            &&& final(moved_proxies)@ == keys_without(old(moved_proxies)@, *old(proxy_key))
        },
        forall|t: ColliderTreeType|
            (#[trigger] final(trees).tree(t)).moved_proxies@ == if !old(proxy_key).is_placeholder()
                && t == old(proxy_key).spec_tree_type() {
                old(trees).tree(t).moved_proxies@.filter(
                    |m: ProxyId| m@ != old(proxy_key).spec_id(),
                )
            } else {
                old(trees).tree(t).moved_proxies@
            },
        // The proxy is gone and no longer listed as moved, and all others stay.
        !old(proxy_key).is_placeholder() ==> !final(trees).has(*old(proxy_key))
            && !final(moved_proxies)@.contains(*old(proxy_key)),
        forall|key: ColliderTreeProxyKey|
            key != *old(proxy_key) ==> {
                &&& #[trigger] final(trees).has(key) <==> old(trees).has(key)
                &&& old(trees).has(key) ==> final(trees).proxy(key) == old(trees).proxy(key)
                &&& final(moved_proxies)@.contains(key) <==> old(moved_proxies)@.contains(key)
            },
        // The other trees stay as they are.
        forall|t: ColliderTreeType|
            t != old(proxy_key).spec_tree_type()
                ==> #[trigger] final(trees).tree(t) == old(trees).tree(t),
        one_proxy_each(old(trees).proxy_map()) ==> one_proxy_each(final(trees).proxy_map()),
        forall|t: ColliderTreeType|
            bvh_grown((#[trigger] old(trees).tree(t)).bvh, final(trees).tree(t).bvh, 0),
        old(trees).synced() ==> final(trees).synced(),
        forall|t: ColliderTreeType|
            (#[trigger] old(trees).tree(t)).tight() ==> final(trees).tree(t).tight(),
        old(trees).tight() ==> final(trees).tight(),
        moved_exist(*old(trees), old(moved_proxies)@) ==> moved_exist(
            *final(trees),
            final(moved_proxies)@,
        ),
{
    broadcast use proxy_key_ext;

    if *proxy_key == ColliderTreeProxyKey::placeholder() {
        return ;
    }
    proof {
        moved_proxies.lemma_no_duplicates();
    }
    // Remove the proxy from its current tree.
    trees.remove_proxy(*proxy_key);
    moved_proxies.remove(proxy_key);
    proof {
        keys_without_members(old(moved_proxies)@, *old(proxy_key));
        assert(!trees.proxy_map().contains_key(*old(proxy_key)));
        assert forall|key: ColliderTreeProxyKey| key != *old(proxy_key) implies {
            &&& #[trigger] trees.has(key) <==> old(trees).has(key)
            &&& old(trees).has(key) ==> trees.proxy(key) == old(trees).proxy(key)
        } by {
            assert(trees.proxy_map().contains_key(key) <==> old(trees).proxy_map().contains_key(
                key,
            ));
            if old(trees).has(key) {
                assert(trees.proxy_map()[key] == old(trees).proxy_map()[key]);
            }
        }
        if one_proxy_each(old(trees).proxy_map()) {
            removing_keeps_one_proxy_each(old(trees).proxy_map(), *old(proxy_key));
        }
        if moved_exist(*old(trees), old(moved_proxies)@) {
            lemma_moved_exist_remove(*old(trees), *trees, old(moved_proxies)@, *old(proxy_key));
        }
        assert forall|t: ColliderTreeType| (#[trigger] old(trees).tree(t)).tight()
            implies trees.tree(t).tight() by {
            if t != old(proxy_key).spec_tree_type() {
                assert(trees.tree(t) == old(trees).tree(t));
            }
        }
    }
    // Invalidate the proxy key.
    *proxy_key = ColliderTreeProxyKey::placeholder();
}

/// Moves a collider that is no longer attached to a body to the tree of standalone colliders,
/// and returns its new key.
///
/// A collider that is in no tree is left alone, and `None` is returned. The boxes of the trees
/// involved have to fit tightly, and still do if the coordinates of the enlarged bounding box are
/// numbers.
pub fn detach_from_body(
    trees: &mut ColliderTrees,
    moved_proxies: &mut MovedProxies,
    proxy_key: ColliderTreeProxyKey,
    collider: &ColliderData,
) -> (res: Option<ColliderTreeProxyKey>)
    requires
        old(trees).wf(),
        old(moved_proxies).wf(),
        old(trees).boxed(proxy_key),
        old(trees).has(proxy_key) ==> old(trees).standalone_tree.tight() && old(trees).tree(
            proxy_key.spec_tree_type(),
        ).tight(),
        old(trees).has(proxy_key) && proxy_key.spec_tree_type() != ColliderTreeType::Standalone
            ==> old(trees).standalone_tree.proxies.next_index() < PROXY_ID_LIMIT,
    ensures
        final(trees).wf(),
        final(moved_proxies).wf(),
        res is Some <==> old(trees).has(proxy_key),
        match res {
            Some(new_key) => {
                &&& new_key.spec_tree_type() == ColliderTreeType::Standalone
                &&& new_key.spec_id() == if proxy_key.spec_tree_type()
                    == ColliderTreeType::Standalone {
                    proxy_key.spec_id() as nat
                } else {
                    old(trees).standalone_tree.proxies.next_index()
                }
                &&& old(trees).has(new_key) ==> new_key == proxy_key
                &&& final(trees).proxy_map() == old(trees).proxy_map().remove(proxy_key).insert(
                    new_key,
                    ColliderTreeProxy { body: None, ..collider.spec_proxy() },
                )
                &&& final(trees).box_map() == old(trees).box_map().remove(proxy_key).insert(
                    new_key,
                    collider.enlarged_aabb,
                )
                &&& final(moved_proxies)@ == keys_with(
                    keys_without(old(moved_proxies)@, proxy_key),
                    new_key,
                )
            },
            None => {
                &&& final(trees).proxy_map() == old(trees).proxy_map()
                &&& final(trees).box_map() == old(trees).box_map()
                &&& final(moved_proxies)@ == old(moved_proxies)@
            },
        },
        forall|t: ColliderTreeType|
            (#[trigger] final(trees).tree(t)).moved_proxies@ == if t == proxy_key.spec_tree_type() {
                old(trees).tree(t).moved_proxies@.filter(|m: ProxyId| m@ != proxy_key.spec_id())
            } else {
                old(trees).tree(t).moved_proxies@
            },
        // The new proxy has the properties of the collider, but no body.
        res is Some ==> {
            let proxy = final(trees).proxy(res->0);
            &&& final(trees).has(res->0)
            &&& final(trees).box_map().contains_key(res->0)
            &&& final(trees).box_map()[res->0] == collider.enlarged_aabb
            &&& final(moved_proxies)@.contains(res->0)
            &&& proxy.collider == collider.collider
            &&& proxy.body == None::<Entity>
            &&& proxy.aabb == collider.aabb
            &&& collider.layers is Some ==> proxy.layers == collider.layers->0
            &&& collider.layers is None ==> proxy.layers.memberships.0 == 1
                && proxy.layers.filters.0 == 0xffff_ffff
            &&& proxy.flags.sensor == collider.is_sensor
            &&& proxy.flags.custom_filter == (collider.active_hooks is Some
                && collider.active_hooks->0.filter_pairs)
            &&& proxy.flags.modify_contacts == (collider.active_hooks is Some
                && collider.active_hooks->0.modify_contacts)
            &&& !proxy.flags.body_disabled && !proxy.flags.contact_events
        },
        // The other trees stay as they are.
        forall|t: ColliderTreeType|
            t != ColliderTreeType::Standalone && t != proxy_key.spec_tree_type()
                ==> #[trigger] final(trees).tree(t) == old(trees).tree(t),
        res is Some && res->0 != proxy_key ==> !final(moved_proxies)@.contains(proxy_key),
        one_proxy_each(old(trees).proxy_map()) && (old(trees).has(proxy_key)
            ==> old(trees).proxy(proxy_key).collider == collider.collider)
            ==> one_proxy_each(final(trees).proxy_map()),
        forall|t: ColliderTreeType|
            bvh_grown((#[trigger] old(trees).tree(t)).bvh, final(trees).tree(t).bvh, 1),
        old(trees).synced() ==> final(trees).synced(),
        forall|t: ColliderTreeType|
            aabb_numeric(collider.enlarged_aabb) && (#[trigger] old(trees).tree(t)).tight()
                ==> final(trees).tree(t).tight(),
        old(trees).tight() && aabb_numeric(collider.enlarged_aabb) ==> final(trees).tight(),
        moved_exist(*old(trees), old(moved_proxies)@) ==> moved_exist(
            *final(trees),
            final(moved_proxies)@,
        ),
{
    proof {
        moved_proxies.lemma_no_duplicates();
    }
    // Remove the proxy from its current tree.
    if trees.remove_proxy(proxy_key).is_none() {
        proof {
            assert(!old(trees).proxy_map().contains_key(proxy_key));
            assert(trees.proxy_map() =~= old(trees).proxy_map());
            assert(!old(trees).box_map().contains_key(proxy_key)) by {
                assert(old(trees).tree(proxy_key.spec_tree_type()).wf());
            }
            assert(trees.box_map() =~= old(trees).box_map());
            assert forall|key: ColliderTreeProxyKey| old(trees).has(key) implies trees.has(key) by {
                assert(old(trees).proxy_map().contains_key(key));
            }
            assert forall|t: ColliderTreeType| (#[trigger] old(trees).tree(t)).tight()
                implies trees.tree(t).tight() by {
                if t != proxy_key.spec_tree_type() {
                    assert(trees.tree(t) == old(trees).tree(t));
                }
            }
        }
        proof {
            assert forall|t: ColliderTreeType| bvh_grown(
                (#[trigger] old(trees).tree(t)).bvh,
                trees.tree(t).bvh,
                1,
            ) by {
                lemma_grown_more(old(trees).tree(t).bvh, trees.tree(t).bvh, 0, 1);
            }
        }
        return None;
    }
    moved_proxies.remove(&proxy_key);
    proof {
        if moved_exist(*old(trees), old(moved_proxies)@) {
            lemma_moved_exist_remove(*old(trees), *trees, old(moved_proxies)@, proxy_key);
        }
    }
    let ghost trees1 = *trees;
    let ghost moved1 = moved_proxies@;
    proof {
        moved_proxies.lemma_no_duplicates();
        proxy_key_parts(proxy_key);
        assert(trees.tree(ColliderTreeType::Standalone) == trees.standalone_tree);
        assert(old(trees).tree(ColliderTreeType::Standalone) == old(trees).standalone_tree);
        assert(trees.tree(ColliderTreeType::Standalone).tight());
    }
    // Move it to the standalone tree.
    let mut proxy = collider.proxy();
    proxy.body = None;
    let new_key = trees.add_proxy(ColliderTreeType::Standalone, collider.enlarged_aabb, proxy);
    // Mark the proxy as moved.
    moved_proxies.insert(new_key);
    proof {
        assert(!trees1.proxy_map().contains_key(new_key));
        assert(old(trees).proxy_map().contains_key(new_key) == old(trees).has(new_key));
        if moved_exist(*old(trees), old(moved_proxies)@) {
            lemma_moved_exist_add(trees1, *trees, moved1, new_key, proxy);
        }
        assert forall|t: ColliderTreeType| bvh_grown(
            (#[trigger] old(trees).tree(t)).bvh,
            trees.tree(t).bvh,
            1,
        ) by {
            assert(bvh_grown(old(trees).tree(t).bvh, trees1.tree(t).bvh, 0));
            if t == ColliderTreeType::Standalone {
                lemma_grown_twice(
                    old(trees).tree(t).bvh,
                    trees1.tree(t).bvh,
                    trees.tree(t).bvh,
                    0,
                    1,
                );
            } else {
                assert(trees.tree(t) == trees1.tree(t));
                lemma_grown_more(old(trees).tree(t).bvh, trees.tree(t).bvh, 0, 1);
            }
        }
        if one_proxy_each(old(trees).proxy_map()) && old(trees).proxy(proxy_key).collider
            == collider.collider {
            assert(old(trees).proxy_map().contains_key(proxy_key));
            moving_keeps_one_proxy_each(old(trees).proxy_map(), proxy_key, new_key, proxy);
        }
        keys_without_members(old(moved_proxies)@, proxy_key);
        keys_with_members(moved1, new_key);
        assert forall|t: ColliderTreeType|
            aabb_numeric(collider.enlarged_aabb) && (#[trigger] old(trees).tree(t)).tight()
                implies trees.tree(t).tight() by {
            if t != proxy_key.spec_tree_type() {
                assert(trees1.tree(t) == old(trees).tree(t));
            }
            if t != ColliderTreeType::Standalone {
                assert(trees.tree(t) == trees1.tree(t));
            }
        }
        assert forall|t: ColliderTreeType|
            t != ColliderTreeType::Standalone && t
                != proxy_key.spec_tree_type() implies #[trigger] trees.tree(t) == old(trees).tree(
            t,
        ) by {
            assert(trees1.tree(t) == old(trees).tree(t));
        }
    }
    Some(new_key)
}

/// Adding a new collider to a tree and removing it again leaves no trace among the proxies or
/// boxes, nor among the moved keys.
pub proof fn added_collider_removed_again<T>(
    map: Map<ColliderTreeProxyKey, T>,
    moved: Seq<ColliderTreeProxyKey>,
    old_key: ColliderTreeProxyKey,
    new_key: ColliderTreeProxyKey,
    value: T,
)
    requires
        old_key.is_placeholder(),
        !map.contains_key(new_key),
        moved.no_duplicates(),
        !moved.contains(new_key),
    ensures
        moved_to(map, old_key, new_key, value).remove(new_key) == map,
        keys_without(keys_with(moved, new_key), new_key) == moved,
{
    assert(moved_to(map, old_key, new_key, value).remove(new_key) =~= map);
    keys_with_then_without(moved, new_key);
}

/// A collider attached to a body, with its key.
#[derive(Clone, Copy)]
pub struct AttachedCollider {
    /// The key of the proxy of the collider.
    pub proxy_key: ColliderTreeProxyKey,
    /// The properties of the collider.
    pub data: ColliderData,
}

impl AttachedCollider {
    /// Whether the key of the collider is that of a proxy in the tree of the given type.
    pub open spec fn in_tree(self, tree_type: ColliderTreeType) -> bool {
        self.proxy_key.spec_tree_type() == tree_type
    }
}

/// The type of the tree for colliders attached to a body of the given type.
#[verifier::inline]
pub open spec fn type_on(body_type: RigidBody) -> ColliderTreeType {
    tree_type_of_body(Some(body_type))
}

/// The number of colliders that are not in a tree of the given type.
pub open spec fn count_to_move(
    colliders: Seq<AttachedCollider>,
    tree_type: ColliderTreeType,
) -> nat
    decreases colliders.len(),
{
    if colliders.len() == 0 {
        0
    } else {
        let before = count_to_move(colliders.drop_last(), tree_type);
        if !colliders.last().in_tree(tree_type) {
            before + 1
        } else {
            before
        }
    }
}

/// Whether the tree of type `t` is changed by moving colliders to the tree of type `tree_type`.
pub open spec fn tree_touched(
    colliders: Seq<AttachedCollider>,
    tree_type: ColliderTreeType,
    t: ColliderTreeType,
) -> bool {
    exists|i: int|
        0 <= i < colliders.len() && !(#[trigger] colliders[i]).in_tree(tree_type) && (t == tree_type
            || colliders[i].in_tree(t))
}

/// Whether each collider that is to be moved has the proxy of its key, and no two of them have the
/// same key.
pub open spec fn keys_belong(
    trees: ColliderTrees,
    colliders: Seq<AttachedCollider>,
    tree_type: ColliderTreeType,
) -> bool {
    &&& forall|i: int|
        0 <= i < colliders.len() && !(#[trigger] colliders[i]).in_tree(tree_type) ==> trees.has(
            colliders[i].proxy_key,
        ) && trees.proxy(colliders[i].proxy_key).collider == colliders[i].data.collider
    &&& forall|i: int, j: int|
        0 <= i < j < colliders.len() && !(#[trigger] colliders[i]).in_tree(tree_type)
            && !(#[trigger] colliders[j]).in_tree(tree_type) ==> colliders[i].proxy_key
            != colliders[j].proxy_key
}

/// The map after moving those of the first `n` entries that are not in the tree of the given
/// type from their old keys to their new ones.
pub open spec fn map_moved<T>(
    map: Map<ColliderTreeProxyKey, T>,
    tree_type: ColliderTreeType,
    before: Seq<AttachedCollider>,
    after: Seq<AttachedCollider>,
    value: spec_fn(ColliderData) -> T,
    n: nat,
) -> Map<ColliderTreeProxyKey, T>
    decreases n,
{
    if n == 0 {
        map
    } else {
        let moved = map_moved(map, tree_type, before, after, value, (n - 1) as nat);
        if before[n - 1].in_tree(tree_type) {
            moved
        } else {
            moved.remove(before[n - 1].proxy_key).insert(
                after[n - 1].proxy_key,
                value(before[n - 1].data),
            )
        }
    }
}

/// The moved keys after moving those of the first `n` colliders that are not in the tree of the
/// given type from their old keys to their new ones.
pub open spec fn keys_moved(
    keys: Seq<ColliderTreeProxyKey>,
    tree_type: ColliderTreeType,
    before: Seq<AttachedCollider>,
    after: Seq<AttachedCollider>,
    n: nat,
) -> Seq<ColliderTreeProxyKey>
    decreases n,
{
    if n == 0 {
        keys
    } else {
        let moved = keys_moved(keys, tree_type, before, after, (n - 1) as nat);
        if before[n - 1].in_tree(tree_type) {
            moved
        } else {
            keys_with(keys_without(moved, before[n - 1].proxy_key), after[n - 1].proxy_key)
        }
    }
}

/// The moved proxies of the tree of type `t` after moving those of the first `n` colliders that
/// are not in the tree of type `tree_type` to that tree.
pub open spec fn ids_left(
    ids: Seq<ProxyId>,
    tree_type: ColliderTreeType,
    t: ColliderTreeType,
    before: Seq<AttachedCollider>,
    n: nat,
) -> Seq<ProxyId>
    decreases n,
{
    if n == 0 {
        ids
    } else {
        let key = before[n - 1].proxy_key;
        let left = ids_left(ids, tree_type, t, before, (n - 1) as nat);
        if key.spec_tree_type() != tree_type && key.spec_tree_type() == t {
            left.filter(|m: ProxyId| m@ != key.spec_id())
        } else {
            left
        }
    }
}

/// The proxy of a collider that is attached to the given body.
pub open spec fn proxy_on_body(body: Entity) -> spec_fn(ColliderData) -> ColliderTreeProxy {
    |data: ColliderData| ColliderTreeProxy { body: Some(body), ..data.spec_proxy() }
}

/// The enlarged bounding box of a collider.
pub open spec fn enlarged_box() -> spec_fn(ColliderData) -> Aabb {
    |data: ColliderData| data.enlarged_aabb
}

proof fn lemma_map_moved_agrees<T>(
    map: Map<ColliderTreeProxyKey, T>,
    tree_type: ColliderTreeType,
    before: Seq<AttachedCollider>,
    after1: Seq<AttachedCollider>,
    after2: Seq<AttachedCollider>,
    value: spec_fn(ColliderData) -> T,
    n: nat,
)
    requires
        n <= after1.len(),
        n <= after2.len(),
        forall|i: int| 0 <= i < n ==> #[trigger] after1[i] == after2[i],
    ensures
        map_moved(map, tree_type, before, after1, value, n) == map_moved(
            map,
            tree_type,
            before,
            after2,
            value,
            n,
        ),
    decreases n,
{
    if n > 0 {
        lemma_map_moved_agrees(map, tree_type, before, after1, after2, value, (n - 1) as nat);
        assert(after1[n - 1] == after2[n - 1]);
    }
}

proof fn lemma_keys_moved_agrees(
    keys: Seq<ColliderTreeProxyKey>,
    tree_type: ColliderTreeType,
    before: Seq<AttachedCollider>,
    after1: Seq<AttachedCollider>,
    after2: Seq<AttachedCollider>,
    n: nat,
)
    requires
        n <= after1.len(),
        n <= after2.len(),
        forall|i: int| 0 <= i < n ==> #[trigger] after1[i] == after2[i],
    ensures
        keys_moved(keys, tree_type, before, after1, n) == keys_moved(
            keys,
            tree_type,
            before,
            after2,
            n,
        ),
    decreases n,
{
    if n > 0 {
        lemma_keys_moved_agrees(keys, tree_type, before, after1, after2, (n - 1) as nat);
        assert(after1[n - 1] == after2[n - 1]);
    }
}

/// There are at most as many colliders to move among the first `n` as among all.
proof fn lemma_count_to_move(
    colliders: Seq<AttachedCollider>,
    tree_type: ColliderTreeType,
    n: int,
)
    requires
        0 <= n <= colliders.len(),
    ensures
        count_to_move(colliders.take(n), tree_type) <= count_to_move(colliders, tree_type),
    decreases colliders.len(),
{
    if n < colliders.len() {
        assert(colliders.drop_last().take(n) =~= colliders.take(n));
        lemma_count_to_move(colliders.drop_last(), tree_type, n);
    } else {
        assert(colliders.take(n) =~= colliders);
    }
}

/// Moves the colliders attached to a body to the tree for the new type of the body, and stores
/// their new keys.
///
/// Colliders that are in that tree already are left alone. The boxes of the trees involved have
/// to fit tightly, and still do. For that, the coordinates of the enlarged bounding boxes of the
/// colliders that are moved have to be numbers.
pub fn move_attached_colliders(
    trees: &mut ColliderTrees,
    moved_proxies: &mut MovedProxies,
    body: Entity,
    new_body_type: RigidBody,
    colliders: &mut Vec<AttachedCollider>,
)
    requires
        old(trees).wf(),
        old(moved_proxies).wf(),
        forall|i: int|
            0 <= i < old(colliders).len() && !(#[trigger] old(colliders)[i]).in_tree(
                type_on(new_body_type),
            ) ==> {
                &&& old(trees).boxed(old(colliders)[i].proxy_key)
                &&& aabb_numeric(old(colliders)[i].data.enlarged_aabb)
            },
        forall|t: ColliderTreeType|
            tree_touched(old(colliders)@, type_on(new_body_type), t) ==> (
            #[trigger] old(trees).tree(t)).tight(),
        old(trees).tree(type_on(new_body_type)).proxies@.dom().len() + count_to_move(
            old(colliders)@,
            type_on(new_body_type),
        ) <= PROXY_ID_LIMIT,
    ensures
        final(trees).wf(),
        final(moved_proxies).wf(),
        old(trees).synced() ==> final(trees).synced(),
        final(colliders).len() == old(colliders).len(),
        forall|i: int|
            0 <= i < old(colliders).len() ==> (#[trigger] final(colliders)[i]).data
                == old(colliders)[i].data,
        // All colliders are in the new tree, and those that were there keep their proxies.
        forall|i: int|
            0 <= i < old(colliders).len() ==> (#[trigger] final(colliders)[i]).in_tree(
                type_on(new_body_type),
            ),
        forall|i: int|
            0 <= i < old(colliders).len() && old(colliders)[i].in_tree(type_on(new_body_type))
                ==> #[trigger] final(colliders)[i] == old(colliders)[i],
        forall|key: ColliderTreeProxyKey|
            key.spec_tree_type() == type_on(new_body_type) && old(trees).has(key)
                ==> #[trigger] final(trees).has(key) && final(trees).proxy(key)
                    == old(trees).proxy(key),
        // The others have new proxies there, which are listed as moved.
        forall|i: int|
            0 <= i < old(colliders).len() && !old(colliders)[i].in_tree(type_on(new_body_type))
                ==> {
                let key = (#[trigger] final(colliders)[i]).proxy_key;
                &&& !old(trees).has(key)
                &&& final(trees).has(key)
                &&& final(trees).proxy(key) == proxy_on_body(body)(old(colliders)[i].data)
                &&& final(moved_proxies)@.contains(key)
            },
        forall|i: int, j: int|
            0 <= i < j < old(colliders).len() && !old(colliders)[i].in_tree(
                type_on(new_body_type),
            ) && !old(colliders)[j].in_tree(type_on(new_body_type)) ==> (
            #[trigger] final(colliders)[i]).proxy_key != (#[trigger] final(colliders)[j]).proxy_key,
        // These have the properties of the colliders and are on the body.
        forall|i: int|
            0 <= i < old(colliders).len() && !old(colliders)[i].in_tree(type_on(new_body_type))
                ==> {
                let key = (#[trigger] final(colliders)[i]).proxy_key;
                let proxy = final(trees).proxy(key);
                let data = old(colliders)[i].data;
                &&& final(trees).box_map().contains_key(key)
                &&& final(trees).box_map()[key] == data.enlarged_aabb
                &&& proxy.collider == data.collider
                &&& proxy.body == Some(body)
                &&& proxy.aabb == data.aabb
                &&& data.layers is Some ==> proxy.layers == data.layers->0
                &&& data.layers is None ==> proxy.layers.memberships.0 == 1
                    && proxy.layers.filters.0 == 0xffff_ffff
                &&& proxy.flags.sensor == data.is_sensor
                &&& proxy.flags.custom_filter == (data.active_hooks is Some
                    && data.active_hooks->0.filter_pairs)
                &&& proxy.flags.modify_contacts == (data.active_hooks is Some
                    && data.active_hooks->0.modify_contacts)
                &&& !proxy.flags.body_disabled && !proxy.flags.contact_events
            },
        // All other proxies and boxes stay as they are.
        forall|key: ColliderTreeProxyKey|
            (forall|i: int|
                0 <= i < old(colliders).len() && !old(colliders)[i].in_tree(
                    type_on(new_body_type),
                ) ==> key != old(colliders)[i].proxy_key && key != (
                #[trigger] final(colliders)[i]).proxy_key) ==> {
                &&& #[trigger] final(trees).has(key) <==> old(trees).has(key)
                &&& old(trees).has(key) ==> final(trees).proxy(key) == old(trees).proxy(key)
                &&& final(trees).box_map().contains_key(key)
                    <==> old(trees).box_map().contains_key(key)
                &&& old(trees).box_map().contains_key(key) ==> final(trees).box_map()[key]
                    == old(trees).box_map()[key]
            },
        // Their old proxies are gone.
        forall|i: int|
            0 <= i < old(colliders).len() && !(#[trigger] old(colliders)[i]).in_tree(
                type_on(new_body_type),
            ) ==> {
                &&& !final(trees).has(old(colliders)[i].proxy_key)
                &&& !final(moved_proxies)@.contains(old(colliders)[i].proxy_key)
            },
        final(trees).proxy_map() == map_moved(
            old(trees).proxy_map(),
            type_on(new_body_type),
            old(colliders)@,
            final(colliders)@,
            proxy_on_body(body),
            old(colliders).len() as nat,
        ),
        final(trees).box_map() == map_moved(
            old(trees).box_map(),
            type_on(new_body_type),
            old(colliders)@,
            final(colliders)@,
            enlarged_box(),
            old(colliders).len() as nat,
        ),
        final(moved_proxies)@ == keys_moved(
            old(moved_proxies)@,
            type_on(new_body_type),
            old(colliders)@,
            final(colliders)@,
            old(colliders).len() as nat,
        ),
        forall|t: ColliderTreeType|
            (#[trigger] final(trees).tree(t)).moved_proxies@ == ids_left(
                old(trees).tree(t).moved_proxies@,
                type_on(new_body_type),
                t,
                old(colliders)@,
                old(colliders).len() as nat,
            ),
        one_proxy_each(old(trees).proxy_map()) && keys_belong(
            *old(trees),
            old(colliders)@,
            type_on(new_body_type),
        ) ==> one_proxy_each(final(trees).proxy_map()),
        forall|t: ColliderTreeType|
            bvh_grown(
                (#[trigger] old(trees).tree(t)).bvh,
                final(trees).tree(t).bvh,
                count_to_move(old(colliders)@, type_on(new_body_type)),
            ),
        // The other trees stay as they are.
        forall|t: ColliderTreeType|
            !tree_touched(old(colliders)@, type_on(new_body_type), t)
                ==> #[trigger] final(trees).tree(t) == old(trees).tree(t),
        forall|t: ColliderTreeType|
            (#[trigger] old(trees).tree(t)).tight() ==> final(trees).tree(t).tight(),
        moved_exist(*old(trees), old(moved_proxies)@) ==> moved_exist(
            *final(trees),
            final(moved_proxies)@,
        ),
{
    let new_tree_type: ColliderTreeType = ColliderTreeType::from_body(Some(new_body_type));
    let mut i: usize = 0;
    proof {
        assert(old(colliders)@.take(0) =~= Seq::<AttachedCollider>::empty());
    }
    while i < colliders.len()
        invariant
            i <= colliders.len(),
            colliders.len() == old(colliders).len(),
            new_tree_type == type_on(new_body_type),
            trees.wf(),
            old(trees).synced() ==> trees.synced(),
            moved_proxies.wf(),
            forall|j: int|
                0 <= j < old(colliders).len() && !(#[trigger] old(colliders)[j]).in_tree(
                    new_tree_type,
                ) ==> {
                    &&& trees.boxed(old(colliders)[j].proxy_key)
                    &&& aabb_numeric(old(colliders)[j].data.enlarged_aabb)
                },
            forall|t: ColliderTreeType|
                tree_touched(old(colliders)@, new_tree_type, t)
                    ==> (#[trigger] old(trees).tree(t)).tight(),
            trees.tree(new_tree_type).proxies@.dom().len() + count_to_move(
                old(colliders)@,
                new_tree_type,
            ) <= PROXY_ID_LIMIT + count_to_move(
                old(colliders)@.take(i as int),
                new_tree_type,
            ),
            forall|j: int|
                0 <= j < colliders.len() ==> (#[trigger] colliders[j]).data
                    == old(colliders)[j].data,
            forall|j: int|
                0 <= j < i ==> (#[trigger] colliders[j]).in_tree(new_tree_type),
            forall|j: int|
                0 <= j < colliders.len() && (i <= j || old(colliders)[j].in_tree(new_tree_type))
                    ==> #[trigger] colliders[j]
                    == old(colliders)[j],
            forall|key: ColliderTreeProxyKey|
                key.spec_tree_type() == new_tree_type && old(trees).has(key)
                    ==> #[trigger] trees.has(key) && trees.proxy(key) == old(trees).proxy(key),
            forall|j: int|
                0 <= j < i && !old(colliders)[j].in_tree(new_tree_type) ==> {
                    let key = (#[trigger] colliders[j]).proxy_key;
                    &&& !old(trees).has(key)
                    &&& trees.has(key)
                    &&& trees.proxy(key) == proxy_on_body(body)(old(colliders)[j].data)
                    &&& moved_proxies@.contains(key)
                },
            forall|j: int|
                0 <= j < i && !(#[trigger] old(colliders)[j]).in_tree(new_tree_type) ==> {
                    &&& !trees.has(old(colliders)[j].proxy_key)
                    &&& !moved_proxies@.contains(old(colliders)[j].proxy_key)
                },
            forall|j: int, k: int|
                0 <= j < k < i && !old(colliders)[j].in_tree(new_tree_type)
                    && !old(colliders)[k].in_tree(new_tree_type) ==> (
                #[trigger] colliders[j]).proxy_key != (#[trigger] colliders[k]).proxy_key,
            trees.proxy_map() == map_moved(
                old(trees).proxy_map(),
                new_tree_type,
                old(colliders)@,
                colliders@,
                proxy_on_body(body),
                i as nat,
            ),
            trees.box_map() == map_moved(
                old(trees).box_map(),
                new_tree_type,
                old(colliders)@,
                colliders@,
                enlarged_box(),
                i as nat,
            ),
            moved_proxies@ == keys_moved(
                old(moved_proxies)@,
                new_tree_type,
                old(colliders)@,
                colliders@,
                i as nat,
            ),
            forall|t: ColliderTreeType|
                (#[trigger] trees.tree(t)).moved_proxies@ == ids_left(
                    old(trees).tree(t).moved_proxies@,
                    new_tree_type,
                    t,
                    old(colliders)@,
                    i as nat,
                ),
            forall|t: ColliderTreeType|
                !tree_touched(old(colliders)@, new_tree_type, t) ==> #[trigger] trees.tree(t)
                    == old(trees).tree(t),
            forall|t: ColliderTreeType|
                (#[trigger] old(trees).tree(t)).tight() ==> trees.tree(t).tight(),
            forall|t: ColliderTreeType|
                bvh_grown(
                    (#[trigger] old(trees).tree(t)).bvh,
                    trees.tree(t).bvh,
                    count_to_move(old(colliders)@.take(i as int), new_tree_type),
                ),
            keys_belong(*old(trees), old(colliders)@, new_tree_type) ==> forall|j: int|
                i <= j < old(colliders).len() && !(#[trigger] old(colliders)[j]).in_tree(
                    new_tree_type,
                ) ==> trees.has(old(colliders)[j].proxy_key) && trees.proxy(
                    old(colliders)[j].proxy_key,
                ).collider == old(colliders)[j].data.collider,
            one_proxy_each(old(trees).proxy_map()) && keys_belong(
                *old(trees),
                old(colliders)@,
                new_tree_type,
            ) ==> one_proxy_each(trees.proxy_map()),
            moved_exist(*old(trees), old(moved_proxies)@) ==> moved_exist(
                *trees,
                moved_proxies@,
            ),
        decreases colliders.len() - i,
    {
        let collider: AttachedCollider = colliders[i];
        proof {
            assert(collider == old(colliders)[i as int]);
            let prefix = old(colliders)@.take(i + 1);
            assert(prefix.drop_last() =~= old(colliders)@.take(i as int));
            assert(prefix.last() == collider);
        }
        if collider.proxy_key.tree_type() == new_tree_type {
            // The collider is in the new tree already.
            i = i + 1;
            continue ;
        }
        let ghost trees0 = *trees;
        let ghost moved0 = moved_proxies@;
        let ghost old_type = collider.proxy_key.spec_tree_type();
        proof {
            moved_proxies.lemma_no_duplicates();
            assert(tree_touched(old(colliders)@, new_tree_type, old_type));
            assert(tree_touched(old(colliders)@, new_tree_type, new_tree_type));
            assert(old(trees).tree(old_type).tight());
            assert(old(trees).tree(new_tree_type).tight());
        }
        // Remove the old proxy from its current tree.
        trees.remove_proxy(collider.proxy_key);
        moved_proxies.remove(&collider.proxy_key);
        let ghost trees1 = *trees;
        let ghost moved1 = moved_proxies@;
        proof {
            if moved_exist(trees0, moved0) {
                lemma_moved_exist_remove(trees0, trees1, moved0, collider.proxy_key);
            }
            moved_proxies.lemma_no_duplicates();
            lemma_count_to_move(old(colliders)@, new_tree_type, i + 1);
            trees.tree(new_tree_type).proxies.lemma_next_index();
            trees.tree(new_tree_type).proxies.lemma_len();
        }
        // Insert the proxy into the new tree.
        let mut proxy = collider.data.proxy();
        proxy.body = Some(body);
        let new_key = trees.add_proxy(new_tree_type, collider.data.enlarged_aabb, proxy);
        let ghost colliders0 = colliders@;
        // Store the new proxy key.
        colliders.set(i, AttachedCollider { proxy_key: new_key, data: collider.data });
        // Mark the proxy as moved.
        moved_proxies.insert(new_key);
        proof {
            if moved_exist(trees0, moved0) {
                lemma_moved_exist_add(trees1, *trees, moved1, new_key, proxy);
            }
            keys_without_members(moved0, collider.proxy_key);
            keys_with_members(moved1, new_key);
            assert forall|key: ColliderTreeProxyKey|
                #![trigger trees.has(key)]
                #![trigger trees0.has(key)]
                trees.has(key) == (key == new_key || trees0.has(key) && key
                    != collider.proxy_key) && (trees.has(key) && key != new_key ==> trees.proxy(key)
                    == trees0.proxy(key)) by {
                assert(trees.has(key) == trees.proxy_map().contains_key(key));
                assert(trees1.has(key) == trees1.proxy_map().contains_key(key));
                assert(trees0.has(key) == trees0.proxy_map().contains_key(key));
                if trees.has(key) && key != new_key {
                    assert(trees.proxy_map()[key] == trees0.proxy_map()[key]);
                }
            }
            assert(!trees1.has(new_key));
            assert(!trees0.has(new_key)) by {
                assert(trees1.has(new_key) == trees1.proxy_map().contains_key(new_key));
                assert(trees0.has(new_key) == trees0.proxy_map().contains_key(new_key));
            }
            assert(trees.proxy(new_key) == trees.proxy_map()[new_key]);
            assert forall|key: ColliderTreeProxyKey|
                key.spec_tree_type() == new_tree_type && old(trees).has(key)
                    implies #[trigger] trees.has(key) && trees.proxy(key) == old(trees).proxy(key)
            by {
                assert(trees0.has(key));
            }
            assert(proxy == proxy_on_body(body)(collider.data));
            assert forall|j: int|
                0 <= j < old(colliders).len() && !(#[trigger] old(colliders)[j]).in_tree(
                    new_tree_type,
                )
                    implies trees.boxed(
                old(colliders)[j].proxy_key,
            ) by {
                let key = old(colliders)[j].proxy_key;
                assert(trees0.boxed(key));
            }
            assert forall|j: int|
                0 <= j < i + 1 && !(#[trigger] old(colliders)[j]).in_tree(new_tree_type)
                    implies !trees.has(old(colliders)[j].proxy_key)
                && !moved_proxies@.contains(old(colliders)[j].proxy_key) by {
                let key = old(colliders)[j].proxy_key;
                assert(key != new_key);
            }
            assert forall|j: int|
                0 <= j < i && !old(colliders)[j].in_tree(new_tree_type) implies {
                let key = (#[trigger] colliders[j]).proxy_key;
                &&& !old(trees).has(key)
                &&& trees.has(key)
                &&& trees.proxy(key) == proxy_on_body(body)(old(colliders)[j].data)
                &&& moved_proxies@.contains(key)
            } by {
                assert(colliders0[j] == colliders[j]);
                assert(trees0.has(colliders0[j].proxy_key));
            }
            lemma_map_moved_agrees(
                old(trees).proxy_map(),
                new_tree_type,
                old(colliders)@,
                colliders0,
                colliders@,
                proxy_on_body(body),
                i as nat,
            );
            lemma_map_moved_agrees(
                old(trees).box_map(),
                new_tree_type,
                old(colliders)@,
                colliders0,
                colliders@,
                enlarged_box(),
                i as nat,
            );
            lemma_keys_moved_agrees(
                old(moved_proxies)@,
                new_tree_type,
                old(colliders)@,
                colliders0,
                colliders@,
                i as nat,
            );
            let before = count_to_move(old(colliders)@.take(i as int), new_tree_type);
            assert(count_to_move(old(colliders)@.take(i + 1), new_tree_type) == before + 1);
            assert forall|t: ColliderTreeType| bvh_grown(
                (#[trigger] old(trees).tree(t)).bvh,
                trees.tree(t).bvh,
                before + 1,
            ) by {
                let first = old(trees).tree(t).bvh;
                let last = trees.tree(t).bvh;
                assert(bvh_grown(first, trees0.tree(t).bvh, before));
                assert(bvh_grown(trees0.tree(t).bvh, trees1.tree(t).bvh, 0));
                lemma_grown_twice(first, trees0.tree(t).bvh, trees1.tree(t).bvh, before, 0);
                if t == new_tree_type {
                    lemma_grown_twice(first, trees1.tree(t).bvh, last, before, 1);
                } else {
                    assert(trees.tree(t) == trees1.tree(t));
                    lemma_grown_more(first, last, before, before + 1);
                }
            }
            if keys_belong(*old(trees), old(colliders)@, new_tree_type) {
                assert(trees0.has(old(colliders)[i as int].proxy_key));
                assert(trees0.proxy_map().contains_key(collider.proxy_key));
                if one_proxy_each(trees0.proxy_map()) {
                    moving_keeps_one_proxy_each(
                        trees0.proxy_map(),
                        collider.proxy_key,
                        new_key,
                        proxy,
                    );
                }
                assert forall|j: int|
                    i + 1 <= j < old(colliders).len() && !(#[trigger] old(colliders)[j]).in_tree(
                        new_tree_type,
                    ) implies trees.has(old(colliders)[j].proxy_key) && trees.proxy(
                    old(colliders)[j].proxy_key,
                ).collider == old(colliders)[j].data.collider by {
                    let key = old(colliders)[j].proxy_key;
                    assert(key != old(colliders)[i as int].proxy_key);
                    assert(key != new_key);
                    assert(trees0.has(key));
                }
            }
            assert forall|t: ColliderTreeType|
                !tree_touched(old(colliders)@, new_tree_type, t) implies #[trigger] trees.tree(t)
                == old(trees).tree(t) by {
                assert(t != new_tree_type && t != old_type);
                assert(trees1.tree(t) == trees0.tree(t));
            }
            assert forall|t: ColliderTreeType| (#[trigger] old(trees).tree(t)).tight()
                implies trees.tree(t).tight() by {
                assert(trees0.tree(t).tight());
                if t != old_type {
                    assert(trees1.tree(t) == trees0.tree(t));
                }
                if t != new_tree_type {
                    assert(trees.tree(t) == trees1.tree(t));
                }
            }
        }
        i = i + 1;
    }
    proof {
        assert(old(colliders)@.take(i as int) =~= old(colliders)@);
        moved_entries_by_key(
            old(trees).proxy_map(),
            new_tree_type,
            old(colliders)@,
            colliders@,
            proxy_on_body(body),
            old(colliders).len() as nat,
        );
        moved_entries_by_key(
            old(trees).box_map(),
            new_tree_type,
            old(colliders)@,
            colliders@,
            enlarged_box(),
            old(colliders).len() as nat,
        );
        assert forall|key: ColliderTreeProxyKey|
            (forall|i: int|
                0 <= i < old(colliders).len() && !old(colliders)[i].in_tree(
                    new_tree_type,
                ) ==> key != old(colliders)[i].proxy_key && key != (
                #[trigger] colliders[i]).proxy_key) implies {
            &&& #[trigger] trees.has(key) <==> old(trees).has(key)
            &&& old(trees).has(key) ==> trees.proxy(key) == old(trees).proxy(key)
            &&& trees.box_map().contains_key(key) <==> old(trees).box_map().contains_key(key)
            &&& old(trees).box_map().contains_key(key) ==> trees.box_map()[key]
                == old(trees).box_map()[key]
        } by {
            assert(forall|i: int|
                0 <= i < old(colliders).len() && old(colliders)@[i].proxy_key.spec_tree_type()
                    != new_tree_type ==> key != old(colliders)@[i].proxy_key && key != (
                #[trigger] colliders@[i]).proxy_key);
            assert(trees.proxy_map().contains_key(key)
                <==> old(trees).proxy_map().contains_key(key));
            assert(trees.has(key) <==> trees.proxy_map().contains_key(key));
            assert(trees.box_map().contains_key(key) <==> old(trees).box_map().contains_key(key));
        }
    }
}

/// Sets or unsets the sensor flag of a proxy, if it exists.
pub fn set_sensor(trees: &mut ColliderTrees, proxy_key: ColliderTreeProxyKey, is_sensor: bool)
    requires
        old(trees).wf(),
    ensures
        final(trees).wf(),
        final(trees).proxy_map() == if old(trees).has(proxy_key) {
            let proxy = old(trees).proxy(proxy_key);
            old(trees).proxy_map().insert(
                proxy_key,
                ColliderTreeProxy {
                    flags: ColliderTreeProxyFlags { sensor: is_sensor, ..proxy.flags },
                    ..proxy
                },
            )
        } else {
            old(trees).proxy_map()
        },
        // Nothing else changes, neither in this proxy nor in any other.
        forall|key: ColliderTreeProxyKey| #[trigger]
            final(trees).has(key) <==> old(trees).has(key),
        forall|key: ColliderTreeProxyKey| #[trigger]
            final(trees).has(key) ==> {
                let proxy = final(trees).proxy(key);
                let before = old(trees).proxy(key);
                &&& proxy.collider == before.collider
                &&& proxy.body == before.body
                &&& proxy.aabb == before.aabb
                &&& proxy.flags.sensor == if key == proxy_key {
                    is_sensor
                } else {
                    before.flags.sensor
                }
                &&& proxy.layers == before.layers
                &&& proxy.flags.custom_filter == before.flags.custom_filter
                &&& proxy.flags.body_disabled == before.flags.body_disabled
                &&& proxy.flags.modify_contacts == before.flags.modify_contacts
                &&& proxy.flags.contact_events == before.flags.contact_events
            },
        final(trees).same_hierarchies(*old(trees)),
        one_proxy_each(old(trees).proxy_map()) ==> one_proxy_each(final(trees).proxy_map()),
        old(trees).synced() ==> final(trees).synced(),
{
    if let Some(proxy) = trees.get_proxy_mut(proxy_key) {
        proxy.flags.sensor = is_sensor;
    }
    proof {
        assert forall|key: ColliderTreeProxyKey| #[trigger] trees.has(key) <==> old(trees).has(
            key,
        ) by {
            assert(trees.proxy_map().contains_key(key) <==> trees.has(key));
            assert(old(trees).proxy_map().contains_key(key) <==> old(trees).has(key));
        }
        assert forall|key: ColliderTreeProxyKey| key != proxy_key && #[trigger] trees.has(
            key,
        ) implies trees.proxy(key) == old(trees).proxy(key) by {
            assert(trees.proxy_map().contains_key(key));
            assert(trees.proxy_map()[key] == old(trees).proxy_map()[key]);
        }
        if trees.has(proxy_key) {
            assert(trees.proxy_map().contains_key(proxy_key));
            assert(trees.proxy(proxy_key) == trees.proxy_map()[proxy_key]);
        }
        if one_proxy_each(old(trees).proxy_map()) {
            assert(old(trees).has(proxy_key) ==> old(trees).proxy_map().contains_key(proxy_key));
            changing_keeps_one_proxy_each(old(trees).proxy_map(), trees.proxy_map());
        }
    }
}

/// Replaces the collision layers of a proxy, if it exists, by the given or the default ones.
pub fn set_layers(
    trees: &mut ColliderTrees,
    proxy_key: ColliderTreeProxyKey,
    layers: Option<CollisionLayers>,
)
    requires
        old(trees).wf(),
    ensures
        final(trees).wf(),
        final(trees).proxy_map() == if old(trees).has(proxy_key) {
            old(trees).proxy_map().insert(
                proxy_key,
                ColliderTreeProxy {
                    layers: layers_or_default(layers),
                    ..old(trees).proxy(proxy_key)
                },
            )
        } else {
            old(trees).proxy_map()
        },
        // Nothing else changes, neither in this proxy nor in any other.
        forall|key: ColliderTreeProxyKey| #[trigger]
            final(trees).has(key) <==> old(trees).has(key),
        forall|key: ColliderTreeProxyKey| #[trigger]
            final(trees).has(key) ==> {
                let proxy = final(trees).proxy(key);
                let before = old(trees).proxy(key);
                &&& proxy.collider == before.collider
                &&& proxy.body == before.body
                &&& proxy.aabb == before.aabb
                &&& proxy.layers == if key != proxy_key {
                    before.layers
                } else if layers is Some {
                    layers->0
                } else {
                    CollisionLayers { memberships: LayerMask(1), filters: LayerMask(u32::MAX) }
                }
                &&& proxy.flags == before.flags
            },
        final(trees).same_hierarchies(*old(trees)),
        one_proxy_each(old(trees).proxy_map()) ==> one_proxy_each(final(trees).proxy_map()),
        old(trees).synced() ==> final(trees).synced(),
{
    if let Some(proxy) = trees.get_proxy_mut(proxy_key) {
        proxy.layers = match layers {
            Some(layers) => layers,
            None => CollisionLayers::default(),
        };
    }
    proof {
        assert forall|key: ColliderTreeProxyKey| #[trigger] trees.has(key) <==> old(trees).has(
            key,
        ) by {
            assert(trees.proxy_map().contains_key(key) <==> trees.has(key));
            assert(old(trees).proxy_map().contains_key(key) <==> old(trees).has(key));
        }
        assert forall|key: ColliderTreeProxyKey| key != proxy_key && #[trigger] trees.has(
            key,
        ) implies trees.proxy(key) == old(trees).proxy(key) by {
            assert(trees.proxy_map().contains_key(key));
            assert(trees.proxy_map()[key] == old(trees).proxy_map()[key]);
        }
        if trees.has(proxy_key) {
            assert(trees.proxy_map().contains_key(proxy_key));
            assert(trees.proxy(proxy_key) == trees.proxy_map()[proxy_key]);
        }
        if one_proxy_each(old(trees).proxy_map()) {
            assert(old(trees).has(proxy_key) ==> old(trees).proxy_map().contains_key(proxy_key));
            changing_keeps_one_proxy_each(old(trees).proxy_map(), trees.proxy_map());
        }
    }
}

/// Sets or unsets the custom filter flag of a proxy, if it exists, by whether the given hooks
/// filter pairs.
pub fn set_active_hooks(
    trees: &mut ColliderTrees,
    proxy_key: ColliderTreeProxyKey,
    active_hooks: Option<ActiveCollisionHooks>,
)
    requires
        old(trees).wf(),
    ensures
        final(trees).wf(),
        final(trees).proxy_map() == if old(trees).has(proxy_key) {
            let proxy = old(trees).proxy(proxy_key);
            old(trees).proxy_map().insert(
                proxy_key,
                ColliderTreeProxy {
                    flags: ColliderTreeProxyFlags {
                        custom_filter: active_hooks is Some && active_hooks->0.filter_pairs,
                        ..proxy.flags
                    },
                    ..proxy
                },
            )
        } else {
            old(trees).proxy_map()
        },
        // Nothing else changes, neither in this proxy nor in any other.
        forall|key: ColliderTreeProxyKey| #[trigger]
            final(trees).has(key) <==> old(trees).has(key),
        forall|key: ColliderTreeProxyKey| #[trigger]
            final(trees).has(key) ==> {
                let proxy = final(trees).proxy(key);
                let before = old(trees).proxy(key);
                &&& proxy.collider == before.collider
                &&& proxy.body == before.body
                &&& proxy.aabb == before.aabb
                &&& proxy.flags.custom_filter == if key != proxy_key {
                    before.flags.custom_filter
                } else {
                    match active_hooks {
                        Some(hooks) => hooks.filter_pairs,
                        None => false,
                    }
                }
                &&& proxy.flags.sensor == before.flags.sensor
                &&& proxy.layers == before.layers
                &&& proxy.flags.body_disabled == before.flags.body_disabled
                &&& proxy.flags.modify_contacts == before.flags.modify_contacts
                &&& proxy.flags.contact_events == before.flags.contact_events
            },
        final(trees).same_hierarchies(*old(trees)),
        one_proxy_each(old(trees).proxy_map()) ==> one_proxy_each(final(trees).proxy_map()),
        old(trees).synced() ==> final(trees).synced(),
{
    if let Some(proxy) = trees.get_proxy_mut(proxy_key) {
        proxy.flags.custom_filter = match active_hooks {
            Some(hooks) => hooks.filter_pairs,
            None => false,
        };
    }
    proof {
        assert forall|key: ColliderTreeProxyKey| #[trigger] trees.has(key) <==> old(trees).has(
            key,
        ) by {
            assert(trees.proxy_map().contains_key(key) <==> trees.has(key));
            assert(old(trees).proxy_map().contains_key(key) <==> old(trees).has(key));
        }
        assert forall|key: ColliderTreeProxyKey| key != proxy_key && #[trigger] trees.has(
            key,
        ) implies trees.proxy(key) == old(trees).proxy(key) by {
            assert(trees.proxy_map().contains_key(key));
            assert(trees.proxy_map()[key] == old(trees).proxy_map()[key]);
        }
        if trees.has(proxy_key) {
            assert(trees.proxy_map().contains_key(proxy_key));
            assert(trees.proxy(proxy_key) == trees.proxy_map()[proxy_key]);
        }
        if one_proxy_each(old(trees).proxy_map()) {
            assert(old(trees).has(proxy_key) ==> old(trees).proxy_map().contains_key(proxy_key));
            changing_keeps_one_proxy_each(old(trees).proxy_map(), trees.proxy_map());
        }
    }
}

/// Clears the lists of moved proxies.
pub fn clear_moved_proxies(moved_proxies: &mut MovedProxies, trees: &mut ColliderTrees)
    requires
        old(trees).wf(),
    ensures
        final(moved_proxies).wf(),
        final(moved_proxies)@ == Seq::<ColliderTreeProxyKey>::empty(),
        final(trees).wf(),
        final(trees).proxy_map() == old(trees).proxy_map(),
        forall|t: ColliderTreeType|
            (#[trigger] final(trees).tree(t)).bvh == old(trees).tree(t).bvh && final(trees).tree(
                t,
            ).moved_proxies@ == Seq::<ProxyId>::empty(),
        old(trees).synced() ==> final(trees).synced(),
{
    moved_proxies.clear();
    trees.dynamic_tree.moved_proxies.clear();
    trees.kinematic_tree.moved_proxies.clear();
    trees.static_tree.moved_proxies.clear();
    trees.standalone_tree.moved_proxies.clear();
    assert(trees.proxy_map() =~= old(trees).proxy_map());
}

/// The proxy of a collider has the collider, the body and the bounding box of its data, its layers
/// or else the first layer that interacts with all, and the flags that its data call for.
pub proof fn proxy_has_the_properties_of_its_collider(data: ColliderData)
    ensures
        data.spec_proxy().collider == data.collider,
        data.spec_proxy().body == data.body,
        data.spec_proxy().aabb == data.aabb,
        data.layers is Some ==> data.spec_proxy().layers == data.layers->0,
        data.layers is None ==> data.spec_proxy().layers.memberships.0 == 1
            && data.spec_proxy().layers.filters.0 == 0xffff_ffff,
        data.spec_proxy().flags.sensor <==> data.is_sensor,
        data.spec_proxy().flags.custom_filter <==> data.active_hooks is Some
            && data.active_hooks->0.filter_pairs,
        data.spec_proxy().flags.modify_contacts <==> data.active_hooks is Some
            && data.active_hooks->0.modify_contacts,
        !data.spec_proxy().flags.body_disabled,
        !data.spec_proxy().flags.contact_events,
{
}

/// The proxy of a collider that is moved to the tree for another type of its body is on that body,
/// and otherwise has the properties of the data of the collider. It is the one that adding the same
/// data with that body gives.
pub proof fn proxy_on_body_has_the_properties_of_its_collider(body: Entity, data: ColliderData)
    ensures
        proxy_on_body(body)(data).collider == data.collider,
        proxy_on_body(body)(data).body == Some(body),
        proxy_on_body(body)(data).aabb == data.aabb,
        data.layers is Some ==> proxy_on_body(body)(data).layers == data.layers->0,
        data.layers is None ==> proxy_on_body(body)(data).layers.memberships.0 == 1
            && proxy_on_body(body)(data).layers.filters.0 == 0xffff_ffff,
        proxy_on_body(body)(data).flags.sensor <==> data.is_sensor,
        proxy_on_body(body)(data).flags.custom_filter <==> data.active_hooks is Some
            && data.active_hooks->0.filter_pairs,
        proxy_on_body(body)(data).flags.modify_contacts <==> data.active_hooks is Some
            && data.active_hooks->0.modify_contacts,
        !proxy_on_body(body)(data).flags.body_disabled,
        !proxy_on_body(body)(data).flags.contact_events,
        proxy_on_body(body)(data) == (ColliderData { body: Some(body), ..data }).spec_proxy(),
        enlarged_box()(data) == data.enlarged_aabb,
{
}

/// A collider goes to the tree for the type of its body if it has a body whose type is known, and
/// to the standalone tree otherwise.
pub proof fn tree_for_a_collider(body: Option<Entity>, body_type: Option<RigidBody>)
    ensures
        tree_type_for(body, body_type) == ColliderTreeType::Dynamic <==> body is Some && body_type
            == Some(RigidBody::Dynamic),
        tree_type_for(body, body_type) == ColliderTreeType::Kinematic <==> body is Some && body_type
            == Some(RigidBody::Kinematic),
        tree_type_for(body, body_type) == ColliderTreeType::Static <==> body is Some && body_type
            == Some(RigidBody::Static),
        tree_type_for(body, body_type) == ColliderTreeType::Standalone <==> body is None
            || body_type is None,
{
}

/// Moving an entry from its old key to a new one leaves it under the new key and no longer under
/// the old one, and leaves the entries of all other keys as they are. A placeholder key has no
/// entry to be moved.
pub proof fn moved_entry_by_key<T>(
    map: Map<ColliderTreeProxyKey, T>,
    old_key: ColliderTreeProxyKey,
    new_key: ColliderTreeProxyKey,
    value: T,
    key: ColliderTreeProxyKey,
)
    ensures
        moved_to(map, old_key, new_key, value).contains_key(new_key),
        moved_to(map, old_key, new_key, value)[new_key] == value,
        !old_key.is_placeholder() && old_key != new_key ==> !moved_to(
            map,
            old_key,
            new_key,
            value,
        ).contains_key(old_key),
        key != new_key && (key != old_key || old_key.is_placeholder()) ==> (moved_to(
            map,
            old_key,
            new_key,
            value,
        ).contains_key(key) <==> map.contains_key(key)),
        key != new_key && (key != old_key || old_key.is_placeholder()) && map.contains_key(key)
            ==> moved_to(map, old_key, new_key, value)[key] == map[key],
{
}

/// A collider that is added to the tree that it is in already keeps its ID. In another tree it gets
/// one that is not in use there.
pub proof fn id_of_an_added_collider(
    trees: ColliderTrees,
    key: ColliderTreeProxyKey,
    tree_type: ColliderTreeType,
)
    requires
        trees.wf(),
    ensures
        !key.is_placeholder() && key.spec_tree_type() == tree_type && trees.has(key)
            ==> id_after_removal(trees, key, tree_type) == key.spec_id(),
        key.is_placeholder() || key.spec_tree_type() != tree_type || !trees.has(key)
            ==> !trees.tree(tree_type).proxies@.contains_key(
            id_after_removal(trees, key, tree_type) as int,
        ),
{
    assert(trees.tree(tree_type).wf());
    trees.tree(tree_type).proxies.lemma_next_index();
}

/// Moving colliders to the tree of the given type leaves the entry of each that was elsewhere under
/// its new key, takes out the one under its old key, and leaves the entries of all other keys as
/// they are.
pub proof fn moved_entries_by_key<T>(
    map: Map<ColliderTreeProxyKey, T>,
    tree_type: ColliderTreeType,
    before: Seq<AttachedCollider>,
    after: Seq<AttachedCollider>,
    value: spec_fn(ColliderData) -> T,
    n: nat,
)
    requires
        n <= before.len(),
        n <= after.len(),
        forall|i: int|
            0 <= i < n ==> (#[trigger] after[i]).proxy_key.spec_tree_type() == tree_type,
        forall|i: int, j: int|
            0 <= i < j < n && before[i].proxy_key.spec_tree_type() != tree_type
                && before[j].proxy_key.spec_tree_type() != tree_type ==> (
            #[trigger] after[i]).proxy_key != (#[trigger] after[j]).proxy_key,
    ensures
        forall|i: int|
            0 <= i < n && before[i].proxy_key.spec_tree_type() != tree_type ==> {
                let key = (#[trigger] after[i]).proxy_key;
                let result = map_moved(map, tree_type, before, after, value, n);
                &&& result.contains_key(key)
                &&& result[key] == value(before[i].data)
            },
        forall|i: int|
            0 <= i < n && (#[trigger] before[i]).proxy_key.spec_tree_type() != tree_type
                ==> !map_moved(map, tree_type, before, after, value, n).contains_key(
                before[i].proxy_key,
            ),
        forall|key: ColliderTreeProxyKey|
            (forall|i: int|
                0 <= i < n && before[i].proxy_key.spec_tree_type() != tree_type ==> key
                    != before[i].proxy_key && key != (#[trigger] after[i]).proxy_key) ==> {
                &&& #[trigger] map_moved(map, tree_type, before, after, value, n).contains_key(key)
                    <==> map.contains_key(key)
                &&& map.contains_key(key) ==> map_moved(
                    map,
                    tree_type,
                    before,
                    after,
                    value,
                    n,
                )[key] == map[key]
            },
    decreases n,
{
    if n > 0 {
        let m = (n - 1) as nat;
        moved_entries_by_key(map, tree_type, before, after, value, m);
        let rest = map_moved(map, tree_type, before, after, value, m);
        let result = map_moved(map, tree_type, before, after, value, n);
        assert forall|i: int|
            0 <= i < n && before[i].proxy_key.spec_tree_type() != tree_type implies {
            let key = (#[trigger] after[i]).proxy_key;
            &&& result.contains_key(key)
            &&& result[key] == value(before[i].data)
        } by {
            if i < m {
                assert(rest.contains_key(after[i].proxy_key));
                if before[n - 1].proxy_key.spec_tree_type() != tree_type {
                    assert(after[i].proxy_key != after[n - 1].proxy_key);
                }
            }
        }
        assert forall|i: int|
            0 <= i < n && (#[trigger] before[i]).proxy_key.spec_tree_type()
                != tree_type implies !result.contains_key(before[i].proxy_key) by {
            assert(after[n - 1].proxy_key.spec_tree_type() == tree_type);
            if i < m {
                assert(!rest.contains_key(before[i].proxy_key));
            }
        }
        assert forall|key: ColliderTreeProxyKey|
            (forall|i: int|
                0 <= i < n && before[i].proxy_key.spec_tree_type() != tree_type ==> key
                    != before[i].proxy_key && key != (#[trigger] after[i]).proxy_key) implies {
            &&& #[trigger] result.contains_key(key) <==> map.contains_key(key)
            &&& map.contains_key(key) ==> result[key] == map[key]
        } by {
            assert(rest.contains_key(key) <==> map.contains_key(key));
            if before[n - 1].proxy_key.spec_tree_type() != tree_type {
                assert(key != after[n - 1].proxy_key && key != before[n - 1].proxy_key);
            }
        }
    }
}

/// Moving colliders to the tree of the given type lists the new keys of those that were elsewhere
/// as moved, takes out their old keys, and leaves the other keys that are listed as they are.
pub proof fn moved_keys_by_key(
    keys: Seq<ColliderTreeProxyKey>,
    tree_type: ColliderTreeType,
    before: Seq<AttachedCollider>,
    after: Seq<AttachedCollider>,
    n: nat,
)
    requires
        keys.no_duplicates(),
        n <= before.len(),
        n <= after.len(),
        forall|i: int|
            0 <= i < n ==> (#[trigger] after[i]).proxy_key.spec_tree_type() == tree_type,
    ensures
        keys_moved(keys, tree_type, before, after, n).no_duplicates(),
        forall|i: int|
            0 <= i < n && before[i].proxy_key.spec_tree_type() != tree_type ==> keys_moved(
                keys,
                tree_type,
                before,
                after,
                n,
            ).contains((#[trigger] after[i]).proxy_key),
        forall|i: int|
            0 <= i < n && (#[trigger] before[i]).proxy_key.spec_tree_type() != tree_type
                ==> !keys_moved(keys, tree_type, before, after, n).contains(before[i].proxy_key),
        forall|key: ColliderTreeProxyKey|
            (forall|i: int|
                0 <= i < n && before[i].proxy_key.spec_tree_type() != tree_type ==> key
                    != before[i].proxy_key && key != (#[trigger] after[i]).proxy_key) ==> (
            #[trigger] keys_moved(keys, tree_type, before, after, n).contains(key)
                <==> keys.contains(key)),
    decreases n,
{
    if n > 0 {
        let m = (n - 1) as nat;
        moved_keys_by_key(keys, tree_type, before, after, m);
        let rest = keys_moved(keys, tree_type, before, after, m);
        let result = keys_moved(keys, tree_type, before, after, n);
        if before[n - 1].proxy_key.spec_tree_type() != tree_type {
            let (old_key, new_key) = (before[n - 1].proxy_key, after[n - 1].proxy_key);
            keys_without_members(rest, old_key);
            keys_with_members(keys_without(rest, old_key), new_key);
            assert(new_key.spec_tree_type() == tree_type);
            assert forall|i: int|
                0 <= i < n && before[i].proxy_key.spec_tree_type()
                    != tree_type implies result.contains((#[trigger] after[i]).proxy_key) by {
                if i < m {
                    assert(rest.contains(after[i].proxy_key));
                }
            }
            assert forall|i: int|
                0 <= i < n && (#[trigger] before[i]).proxy_key.spec_tree_type()
                    != tree_type implies !result.contains(before[i].proxy_key) by {
                if i < m {
                    assert(!rest.contains(before[i].proxy_key));
                }
            }
            assert forall|key: ColliderTreeProxyKey|
                (forall|i: int|
                    0 <= i < n && before[i].proxy_key.spec_tree_type() != tree_type ==> key
                        != before[i].proxy_key && key != (
                    #[trigger] after[i]).proxy_key) implies (#[trigger] result.contains(key)
                <==> keys.contains(key)) by {
                assert(rest.contains(key) <==> keys.contains(key));
                assert(key != after[n - 1].proxy_key && key != before[n - 1].proxy_key);
            }
        } else {
            assert forall|key: ColliderTreeProxyKey|
                (forall|i: int|
                    0 <= i < n && before[i].proxy_key.spec_tree_type() != tree_type ==> key
                        != before[i].proxy_key && key != (
                    #[trigger] after[i]).proxy_key) implies (#[trigger] result.contains(key)
                <==> keys.contains(key)) by {
                assert(rest.contains(key) <==> keys.contains(key));
            }
        }
    }
}

/// Moving colliders to the tree of the given type takes those that were in another tree out of the
/// moved proxies of that tree, and no others.
pub proof fn moved_ids_that_are_left(
    ids: Seq<ProxyId>,
    tree_type: ColliderTreeType,
    t: ColliderTreeType,
    before: Seq<AttachedCollider>,
    n: nat,
    id: ProxyId,
)
    requires
        n <= before.len(),
    ensures
        ids_left(ids, tree_type, t, before, n).contains(id) <==> ids.contains(id) && forall|i: int|
            0 <= i < n && (#[trigger] before[i]).proxy_key.spec_tree_type() == t && t != tree_type
                ==> before[i].proxy_key.spec_id() != id@,
    decreases n,
{
    if n > 0 {
        let m = (n - 1) as nat;
        moved_ids_that_are_left(ids, tree_type, t, before, m, id);
        let key = before[n - 1].proxy_key;
        let rest = ids_left(ids, tree_type, t, before, m);
        let keep = |i: ProxyId| i@ != key.spec_id();
        lemma_filter_contains(rest, keep, id);
    }
}

/// A filtered sequence contains what the sequence contains and the filter keeps.
proof fn lemma_filter_contains(ids: Seq<ProxyId>, keep: spec_fn(ProxyId) -> bool, id: ProxyId)
    ensures
        ids.filter(keep).contains(id) <==> ids.contains(id) && keep(id),
    decreases ids.len(),
{
    reveal(Seq::filter);
    if ids.len() > 0 {
        let rest = ids.drop_last();
        let before = rest.filter(keep);
        let after = ids.filter(keep);
        lemma_filter_contains(rest, keep, id);
        assert(ids[ids.len() - 1] == ids.last());
        if rest.contains(id) {
            let i = choose|i: int| 0 <= i < rest.len() && rest[i] == id;
            assert(ids[i] == id);
        }
        if ids.contains(id) && id != ids.last() {
            let i = choose|i: int| 0 <= i < ids.len() && ids[i] == id;
            assert(rest[i] == id);
        }
        if before.contains(id) {
            let i = choose|i: int| 0 <= i < before.len() && before[i] == id;
            assert(after[i] == id);
        }
        if after.contains(id) && !(keep(ids.last()) && id == ids.last()) {
            let i = choose|i: int| 0 <= i < after.len() && after[i] == id;
            assert(before[i] == id);
        }
        if keep(ids.last()) && id == ids.last() {
            assert(after[before.len() as int] == id);
        }
    }
}

} // verus!
