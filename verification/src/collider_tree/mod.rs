//! Tree acceleration structures for queries on colliders.
//!
//! Colliders of dynamic, kinematic and static bodies, and colliders without a body, are each
//! stored in a [`ColliderTree`] of their own, so that subsets of colliders can be queried
//! efficiently and tree updates can depend on the body type.

pub mod observers;
pub mod optimization;
pub mod plugin;
pub mod proxy_key;
pub mod tree;
pub mod update;

pub use optimization::{ColliderTreeOptimization, TreeOptimizationMode};
pub use proxy_key::{ColliderTreeProxyKey, ColliderTreeType, ProxyId};
pub use update::MovedProxies;
pub use tree::{ColliderTree, ColliderTreeProxy, ColliderTreeProxyFlags, ColliderTreeWorkspace};

use crate::bvh::{aabb_numeric, bvh_grown};
use obvhs::aabb::Aabb;
use proxy_key::{proxy_id_ext, proxy_key_parts, PROXY_ID_LIMIT};
use vstd::prelude::*;

verus! {

/// Trees for accelerating queries on a set of colliders.
pub struct ColliderTrees {
    /// A tree for the colliders of dynamic bodies.
    pub dynamic_tree: ColliderTree,
    /// A tree for the colliders of kinematic bodies.
    pub kinematic_tree: ColliderTree,
    /// A tree for the colliders of static bodies.
    pub static_tree: ColliderTree,
    /// A tree for standalone colliders with no associated rigid body.
    pub standalone_tree: ColliderTree,
}

impl ColliderTrees {
    /// The tree for the given tree type.
    pub open spec fn tree(self, tree_type: ColliderTreeType) -> ColliderTree {
        match tree_type {
            ColliderTreeType::Dynamic => self.dynamic_tree,
            ColliderTreeType::Kinematic => self.kinematic_tree,
            ColliderTreeType::Static => self.static_tree,
            ColliderTreeType::Standalone => self.standalone_tree,
        }
    }

    /// The trees with the one for the given tree type replaced.
    pub open spec fn with_tree(self, tree_type: ColliderTreeType, tree: ColliderTree) -> Self {
        match tree_type {
            ColliderTreeType::Dynamic => ColliderTrees { dynamic_tree: tree, ..self },
            ColliderTreeType::Kinematic => ColliderTrees { kinematic_tree: tree, ..self },
            ColliderTreeType::Static => ColliderTrees { static_tree: tree, ..self },
            ColliderTreeType::Standalone => ColliderTrees { standalone_tree: tree, ..self },
        }
    }

    /// Whether all trees are well-formed.
    pub open spec fn wf(self) -> bool {
        &&& self.dynamic_tree.wf()
        &&& self.kinematic_tree.wf()
        &&& self.static_tree.wf()
        &&& self.standalone_tree.wf()
    }

    /// Whether every proxy has a box in the hierarchy of its tree.
    pub open spec fn synced(self) -> bool {
        &&& self.dynamic_tree.synced()
        &&& self.kinematic_tree.synced()
        &&& self.static_tree.synced()
        &&& self.standalone_tree.synced()
    }

    /// Whether the coordinates of all boxes are numbers, and every box above those of the proxies
    /// is exactly the union of the two boxes below it.
    pub open spec fn tight(self) -> bool {
        &&& self.dynamic_tree.tight()
        &&& self.kinematic_tree.tight()
        &&& self.static_tree.tight()
        &&& self.standalone_tree.tight()
    }

    /// Whether walks of the hierarchies do not run out of room on their stacks.
    pub open spec fn roomy(self) -> bool {
        &&& self.dynamic_tree.roomy()
        &&& self.kinematic_tree.roomy()
        &&& self.static_tree.roomy()
        &&& self.standalone_tree.roomy()
    }

    /// Whether the hierarchies and the lists of moved proxies are those of `before`.
    pub open spec fn same_hierarchies(self, before: ColliderTrees) -> bool {
        forall|t: ColliderTreeType|
            (#[trigger] self.tree(t)).bvh == before.tree(t).bvh && self.tree(t).moved_proxies
                == before.tree(t).moved_proxies
    }

    /// Whether there is a proxy with the given key.
    pub open spec fn has(self, key: ColliderTreeProxyKey) -> bool {
        self.tree(key.spec_tree_type()).proxies@.contains_key(key.spec_id() as int)
    }

    /// The proxy with the given key.
    pub open spec fn proxy(self, key: ColliderTreeProxyKey) -> ColliderTreeProxy {
        self.tree(key.spec_tree_type()).proxies@[key.spec_id() as int]
    }

    /// The proxies of all trees, by their keys.
    pub open spec fn proxy_map(self) -> Map<ColliderTreeProxyKey, ColliderTreeProxy> {
        Map::new(
            |key: ColliderTreeProxyKey| self.has(key),
            |key: ColliderTreeProxyKey| self.proxy(key),
        )
    }

    /// The boxes of proxies in all trees, by the keys of the proxies.
    pub open spec fn box_map(self) -> Map<ColliderTreeProxyKey, Aabb> {
        Map::new(
            |key: ColliderTreeProxyKey|
                self.tree(key.spec_tree_type()).boxes().contains_key(key.spec_id()),
            |key: ColliderTreeProxyKey| self.tree(key.spec_tree_type()).boxes()[key.spec_id()],
        )
    }

    /// Whether the proxy with the given key, if there is one, has a box in its tree.
    pub open spec fn boxed(self, key: ColliderTreeProxyKey) -> bool {
        self.has(key) ==> self.box_map().contains_key(key)
    }

    /// If every proxy has a box in its tree, then so has the one with the given key.
    pub proof fn lemma_boxed(&self, key: ColliderTreeProxyKey)
        requires
            self.synced(),
        ensures
            self.boxed(key),
    {
        proxy_key_parts(key);
    }

    /// Creates trees without proxies.
    pub fn new() -> (res: Self)
        ensures
            res.wf(),
            res.synced(),
            res.tight(),
            res.roomy(),
            res.proxy_map() == Map::<ColliderTreeProxyKey, ColliderTreeProxy>::empty(),
            res.box_map() == Map::<ColliderTreeProxyKey, Aabb>::empty(),
            forall|t: ColliderTreeType|
                (#[trigger] res.tree(t)).moved_proxies@ == Seq::<ProxyId>::empty(),
    {
        let res = ColliderTrees {
            dynamic_tree: ColliderTree::new(),
            kinematic_tree: ColliderTree::new(),
            static_tree: ColliderTree::new(),
            standalone_tree: ColliderTree::new(),
        };
        assert(res.proxy_map() =~= Map::<ColliderTreeProxyKey, ColliderTreeProxy>::empty());
        assert(res.box_map() =~= Map::<ColliderTreeProxyKey, Aabb>::empty());
        res
    }

    /// Returns the tree for the given [`ColliderTreeType`].
    pub fn tree_for_type(&self, tree_type: ColliderTreeType) -> (res: &ColliderTree)
        ensures
            *res == self.tree(tree_type),
    {
        match tree_type {
            ColliderTreeType::Dynamic => &self.dynamic_tree,
            ColliderTreeType::Kinematic => &self.kinematic_tree,
            ColliderTreeType::Static => &self.static_tree,
            ColliderTreeType::Standalone => &self.standalone_tree,
        }
    }

    /// Returns a mutable reference to the tree for the given [`ColliderTreeType`].
    pub fn tree_for_type_mut(&mut self, tree_type: ColliderTreeType) -> (res: &mut ColliderTree)
        ensures
            *res == old(self).tree(tree_type),
            *final(self) == old(self).with_tree(tree_type, *final(res)),
    {
        match tree_type {
            ColliderTreeType::Dynamic => &mut self.dynamic_tree,
            ColliderTreeType::Kinematic => &mut self.kinematic_tree,
            ColliderTreeType::Static => &mut self.static_tree,
            ColliderTreeType::Standalone => &mut self.standalone_tree,
        }
    }

    /// Returns all collider trees.
    pub fn iter_trees(&self) -> (res: [&ColliderTree; 4])
        ensures
            *res@[0] == self.dynamic_tree,
            *res@[1] == self.kinematic_tree,
            *res@[2] == self.static_tree,
            *res@[3] == self.standalone_tree,
    {
        [&self.dynamic_tree, &self.kinematic_tree, &self.static_tree, &self.standalone_tree]
    }

    /// Returns mutable references to all collider trees.
    pub fn iter_trees_mut(&mut self) -> (res: [&mut ColliderTree; 4])
        ensures
            *res@[0] == old(self).dynamic_tree,
            *res@[1] == old(self).kinematic_tree,
            *res@[2] == old(self).static_tree,
            *res@[3] == old(self).standalone_tree,
            final(self).dynamic_tree == *final(res@[0]),
            final(self).kinematic_tree == *final(res@[1]),
            final(self).static_tree == *final(res@[2]),
            final(self).standalone_tree == *final(res@[3]),
    {
        [
            &mut self.dynamic_tree,
            &mut self.kinematic_tree,
            &mut self.static_tree,
            &mut self.standalone_tree,
        ]
    }

    /// Returns whether walks of all trees do not run out of room on their stacks.
    pub fn are_roomy(&self) -> (res: bool)
        requires
            self.wf(),
        ensures
            res == self.roomy(),
    {
        self.dynamic_tree.is_roomy() && self.kinematic_tree.is_roomy()
            && self.static_tree.is_roomy() && self.standalone_tree.is_roomy()
    }

    /// Returns the proxy with the given [`ColliderTreeProxyKey`], if it exists.
    pub fn get_proxy(&self, key: ColliderTreeProxyKey) -> (res: Option<&ColliderTreeProxy>)
        ensures
            match res {
                Some(proxy) => self.has(key) && *proxy == self.proxy(key),
                None => !self.has(key),
            },
    {
        self.tree_for_type(key.tree_type()).proxies.get(key.id().index())
    }

    /// Returns a mutable reference to the proxy with the given [`ColliderTreeProxyKey`],
    /// if it exists.
    pub fn get_proxy_mut(&mut self, key: ColliderTreeProxyKey) -> (res: Option<
        &mut ColliderTreeProxy,
    >)
        ensures
            match res {
                Some(proxy) => {
                    &&& old(self).has(key)
                    &&& *proxy == old(self).proxy(key)
                    &&& final(self).proxy_map() =~= old(self).proxy_map().insert(
                        key,
                        *final(proxy),
                    )
                },
                None => !old(self).has(key) && final(self).proxy_map() =~= old(self).proxy_map(),
            },
            final(self).same_hierarchies(*old(self)),
            old(self).wf() ==> final(self).wf(),
            old(self).synced() ==> final(self).synced(),
    {
        proof {
            assert forall|k: ColliderTreeProxyKey| #[trigger]
                k.spec_id() == key.spec_id() && k.spec_tree_type()
                    == key.spec_tree_type() implies k == key by {
                proxy_key_parts(k);
                proxy_key_parts(key);
            }
        }
        self.tree_for_type_mut(key.tree_type()).get_proxy_mut(key.id())
    }

    /// Removes the proxy with the given [`ColliderTreeProxyKey`], and returns it if it existed.
    ///
    /// The boxes of its tree have to fit tightly, and still do.
    pub fn remove_proxy(&mut self, key: ColliderTreeProxyKey) -> (res: Option<ColliderTreeProxy>)
        requires
            old(self).wf(),
            old(self).boxed(key),
            old(self).has(key) ==> old(self).tree(key.spec_tree_type()).tight(),
        ensures
            final(self).wf(),
            res == if old(self).has(key) {
                Some(old(self).proxy(key))
            } else {
                None
            },
            final(self).proxy_map() == old(self).proxy_map().remove(key),
            final(self).box_map() == old(self).box_map().remove(key),
            forall|t: ColliderTreeType|
                (#[trigger] final(self).tree(t)).moved_proxies@ == if t == key.spec_tree_type() {
                    old(self).tree(t).moved_proxies@.filter(|m: ProxyId| m@ != key.spec_id())
                } else {
                    old(self).tree(t).moved_proxies@
                },
            forall|t: ColliderTreeType|
                (#[trigger] final(self).tree(t)).proxies@ == if t == key.spec_tree_type() {
                    old(self).tree(t).proxies@.remove(key.spec_id() as int)
                } else {
                    old(self).tree(t).proxies@
                },
            forall|t: ColliderTreeType|
                (#[trigger] final(self).tree(t)).proxies.next_index() == if t
                    == key.spec_tree_type() && old(self).has(key) {
                    key.spec_id() as nat
                } else {
                    old(self).tree(t).proxies.next_index()
                },
            forall|t: ColliderTreeType|
                t != key.spec_tree_type() ==> #[trigger] final(self).tree(t) == old(self).tree(t),
            old(self).tree(key.spec_tree_type()).tight() ==> final(self).tree(
                key.spec_tree_type(),
            ).tight(),
            !old(self).has(key) ==> final(self).tree(key.spec_tree_type()).bvh == old(self).tree(
                key.spec_tree_type(),
            ).bvh,
            forall|t: ColliderTreeType|
                bvh_grown((#[trigger] old(self).tree(t)).bvh, final(self).tree(t).bvh, 0),
            old(self).synced() ==> final(self).synced(),
            old(self).tight() ==> final(self).tight(),
    {
        let id: ProxyId = key.id();
        let res = self.tree_for_type_mut(key.tree_type()).remove_proxy(id);
        proof {
            broadcast use proxy_id_ext;

            let t = key.spec_tree_type();
            assert(forall|other: ColliderTreeType|
                other != t ==> #[trigger] self.tree(other) == old(self).tree(other));
            assert forall|k: ColliderTreeProxyKey| #[trigger]
                k.spec_id() == key.spec_id() && k.spec_tree_type() == t implies k == key by {
                proxy_key_parts(k);
                proxy_key_parts(key);
            }
            assert(self.proxy_map() =~= old(self).proxy_map().remove(key));
            assert(self.box_map() =~= old(self).box_map().remove(key));
            let by_id = |m: ProxyId| m != id;
            let by_number = |m: ProxyId| m@ != key.spec_id();
            assert(by_id =~= by_number);
        }
        res
    }

    /// Adds a proxy with the given box to the tree of the given type, and returns its key.
    ///
    /// The boxes of the tree have to fit tightly, and still do if the coordinates of the given box
    /// are numbers.
    pub fn add_proxy(
        &mut self,
        tree_type: ColliderTreeType,
        aabb: Aabb,
        proxy: ColliderTreeProxy,
    ) -> (key: ColliderTreeProxyKey)
        requires
            old(self).wf(),
            old(self).tree(tree_type).tight(),
            old(self).tree(tree_type).proxies.next_index() < PROXY_ID_LIMIT,
        ensures
            final(self).wf(),
            key.spec_tree_type() == tree_type,
            key.spec_id() == old(self).tree(tree_type).proxies.next_index(),
            !old(self).has(key),
            final(self).proxy_map() == old(self).proxy_map().insert(key, proxy),
            final(self).box_map() == old(self).box_map().insert(key, aabb),
            forall|t: ColliderTreeType|
                (#[trigger] final(self).tree(t)).moved_proxies@ == old(self).tree(t).moved_proxies@,
            forall|t: ColliderTreeType|
                (#[trigger] final(self).tree(t)).proxies@ == if t == tree_type {
                    old(self).tree(t).proxies@.insert(key.spec_id() as int, proxy)
                } else {
                    old(self).tree(t).proxies@
                },
            forall|t: ColliderTreeType|
                t != tree_type ==> #[trigger] final(self).tree(t) == old(self).tree(t),
            aabb_numeric(aabb) ==> final(self).tree(tree_type).tight(),
            bvh_grown(old(self).tree(tree_type).bvh, final(self).tree(tree_type).bvh, 1),
            old(self).synced() ==> final(self).synced(),
            old(self).tight() && aabb_numeric(aabb) ==> final(self).tight(),
    {
        proof {
            self.tree(tree_type).proxies.lemma_next_index();
        }
        let id: ProxyId = self.tree_for_type_mut(tree_type).add_proxy(aabb, proxy);
        let key = ColliderTreeProxyKey::new(id, tree_type);
        proof {
            assert(forall|other: ColliderTreeType|
                other != tree_type ==> #[trigger] self.tree(other) == old(self).tree(other));
            assert forall|k: ColliderTreeProxyKey| #[trigger]
                k.spec_id() == key.spec_id() && k.spec_tree_type() == tree_type implies k
                == key by {
                proxy_key_parts(k);
                proxy_key_parts(key);
            }
            assert(self.proxy_map() =~= old(self).proxy_map().insert(key, proxy));
            assert(self.box_map() =~= old(self).box_map().insert(key, aabb));
        }
        key
    }
}

/// The proxy of a key is that of its ID in the tree of its type, and so is its box.
pub proof fn proxies_and_boxes_by_key(trees: ColliderTrees, key: ColliderTreeProxyKey)
    ensures
        ({
            let tree = if key@ % 4 == 0 {
                trees.dynamic_tree
            } else if key@ % 4 == 1 {
                trees.kinematic_tree
            } else if key@ % 4 == 2 {
                trees.static_tree
            } else {
                trees.standalone_tree
            };
            let id = key@ / 4;
            &&& trees.has(key) <==> tree.proxies@.contains_key(id as int)
            &&& trees.proxy(key) == tree.proxies@[id as int]
            &&& trees.proxy_map().contains_key(key) <==> tree.proxies@.contains_key(id as int)
            &&& trees.has(key) ==> trees.proxy_map()[key] == tree.proxies@[id as int]
            &&& trees.box_map().contains_key(key) <==> tree.boxes().contains_key(id)
            &&& tree.boxes().contains_key(id) ==> trees.box_map()[key] == tree.boxes()[id]
        }),
{
}

/// Replacing the tree of one type leaves the trees of all other types as they are.
pub proof fn replaced_tree(
    trees: ColliderTrees,
    tree_type: ColliderTreeType,
    tree: ColliderTree,
    other: ColliderTreeType,
)
    ensures
        trees.with_tree(tree_type, tree).tree(tree_type) == tree,
        other != tree_type ==> trees.with_tree(tree_type, tree).tree(other) == trees.tree(other),
        trees.with_tree(tree_type, trees.tree(tree_type)) == trees,
{
}

} // verus!
