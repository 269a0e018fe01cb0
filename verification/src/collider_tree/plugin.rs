//! Collider trees for worlds in which moving colliders share one tree and resting ones another.
//!
//! Proxies are named by their indices alone, as the type of the body tells which tree a
//! collider is in.

use crate::bvh::{
    aabb_numeric, bvh_grown, bvh_intact, bvh_moved, bvh_moved_via, bvh_view, clone_bvh,
    is_numeric, stack_capacity, BvhView,
};
use crate::collider_tree::optimization::{
    leaves_of_moved, OptimizationAction, OptimizationTask, Ratio,
};
use crate::collider_tree::proxy_key::{
    proxy_id_of_view, ColliderTreeType, ProxyId, PROXY_ID_LIMIT,
};
use crate::collider_tree::tree::{ColliderTree, ColliderTreeProxy, ColliderTreeProxyFlags};
use crate::collider_tree::update::{
    boxes_enlarged, enlarged_boxes_by_id, enlarged_proxies_by_id, proxies_enlarged, MovedBoxes,
};
use crate::collision::collision_layers::{CollisionLayers, LayerMask};
use crate::data_structures::bit_vec::BitVec;
use crate::data_structures::key_set::{
    new_set, set_clear, set_contains, set_insert, set_of, set_reserve,
};
use crate::entity::Entity;
use crate::rigid_body::RigidBody;
use bevy::platform::collections::HashSet;
use obvhs::aabb::Aabb;
use obvhs::bvh2::Bvh2;
use vstd::prelude::*;

verus! {

/// Trees for accelerating queries on a set of colliders.
pub struct ColliderTrees {
    /// A tree for the colliders of dynamic and kinematic bodies.
    pub dynamic_tree: ColliderTree,
    /// A tree for the colliders of static and sleeping bodies.
    pub static_tree: ColliderTree,
}

/// The index of a [`ColliderTreeProxy`] in a [`ColliderTree`].
#[derive(Clone, Copy, Debug, PartialEq, Eq, Structural)]
pub struct ColliderTreeProxyIndex(pub u32);

impl Default for ColliderTreeProxyIndex {
    fn default() -> (res: Self)
        ensures
            res.0 == 0,
    {
        ColliderTreeProxyIndex(0)
    }
}

/// Whether one of the first `n` bit vectors has the bit with the given index set.
pub open spec fn bit_in_one_of(bit_vecs: Seq<BitVec>, n: int, index: int) -> bool {
    exists|k: int| 0 <= k < n && (#[trigger] bit_vecs[k])@.contains(index)
}

/// The proxies whose bounding box has moved outside of the previous enlarged bounding box.
pub struct MovedProxies {
    /// A bit vector tracking moved proxies.
    ///
    /// Set bits indicate moved proxy indices.
    pub bit_vec: BitVec,
    /// Bit vectors for tracking moved proxies in parallel, one for each thread.
    /// These are combined into [`bit_vec`](Self::bit_vec) after parallel processing.
    pub thread_local_bit_vec: Vec<BitVec>,
    /// The moved proxy indices.
    pub proxies: Vec<u32>,
    /// The same indices, for quick lookup.
    pub set: HashSet<u64>,
}

impl View for MovedProxies {
    type V = Seq<u32>;

    /// The moved proxy indices.
    open spec fn view(&self) -> Seq<u32> {
        self.proxies@
    }
}

impl MovedProxies {
    /// Whether the lookup set holds the moved proxy indices.
    pub open spec fn wf(self) -> bool {
        forall|v: u64| #[trigger]
            set_of(self.set).contains(v) <==> v <= u32::MAX && self.proxies@.contains(v as u32)
    }

    /// Creates an empty list of moved proxies.
    pub fn new() -> (res: Self)
        ensures
            res.wf(),
            res@ == Seq::<u32>::empty(),
            res.bit_vec@ == Set::<int>::empty(),
            res.bit_vec.spec_block_count() == 0,
            res.thread_local_bit_vec@ == Seq::<BitVec>::empty(),
    {
        MovedProxies {
            bit_vec: BitVec::new(),
            thread_local_bit_vec: Vec::new(),
            proxies: Vec::new(),
            set: new_set(),
        }
    }

    /// Returns the moved proxy indices.
    pub fn proxies(&self) -> (res: &[u32])
        ensures
            res@ == self@,
    {
        self.proxies.as_slice()
    }

    /// Returns `true` if the proxy with the given index has moved.
    pub fn contains(&self, proxy_index: u32) -> (res: bool)
        requires
            self.wf(),
        ensures
            res == self@.contains(proxy_index),
    {
        set_contains(&self.set, proxy_index as u64)
    }

    /// Clears the moved proxies and sets the capacity of the internal structures.
    pub fn clear_and_set_capacity(&mut self, capacity: usize)
        requires
            capacity <= isize::MAX / 64,
        ensures
            final(self).wf(),
            final(self)@ == Seq::<u32>::empty(),
            final(self).bit_vec@ == Set::<int>::empty(),
            final(self).bit_vec.spec_block_count() == (capacity as int + 63) / 64,
            final(self).thread_local_bit_vec.len() == old(self).thread_local_bit_vec.len(),
            forall|k: int|
                0 <= k < final(self).thread_local_bit_vec.len() ==> {
                    let bit_vec = #[trigger] final(self).thread_local_bit_vec[k];
                    &&& bit_vec@ == Set::<int>::empty()
                    &&& bit_vec.spec_block_count() == (capacity as int + 63) / 64
                },
    {
        self.bit_vec.set_bit_count_and_clear(capacity);
        let mut i: usize = 0;
        while i < self.thread_local_bit_vec.len()
            invariant
                i <= self.thread_local_bit_vec.len(),
                capacity <= isize::MAX / 64,
                self.thread_local_bit_vec.len() == old(self).thread_local_bit_vec.len(),
                self.bit_vec@ == Set::<int>::empty(),
                self.bit_vec.spec_block_count() == (capacity as int + 63) / 64,
                forall|k: int|
                    0 <= k < i ==> {
                        let bit_vec = #[trigger] self.thread_local_bit_vec[k];
                        &&& bit_vec@ == Set::<int>::empty()
                        &&& bit_vec.spec_block_count() == (capacity as int + 63) / 64
                    },
            decreases self.thread_local_bit_vec.len() - i,
        {
            self.thread_local_bit_vec[i].set_bit_count_and_clear(capacity);
            i = i + 1;
        }
        self.proxies.clear();
        set_clear(&mut self.set);
        self.proxies.reserve(capacity);
        set_reserve(&mut self.set, capacity);
    }

    /// Combines the thread-local moved proxy bit vectors into the main one.
    pub fn combine_thread_local(&mut self)
        requires
            forall|k: int|
                0 <= k < old(self).thread_local_bit_vec.len() ==> (
                #[trigger] old(self).thread_local_bit_vec[k]).spec_block_count()
                    == old(self).bit_vec.spec_block_count(),
        ensures
            final(self)@ == old(self)@,
            old(self).wf() ==> final(self).wf(),
            final(self).thread_local_bit_vec == old(self).thread_local_bit_vec,
            final(self).bit_vec.spec_block_count() == old(self).bit_vec.spec_block_count(),
            forall|i: int| #[trigger]
                final(self).bit_vec@.contains(i) <==> old(self).bit_vec@.contains(i)
                    || bit_in_one_of(
                    old(self).thread_local_bit_vec@,
                    old(self).thread_local_bit_vec.len() as int,
                    i,
                ),
    {
        let mut n: usize = 0;
        while n < self.thread_local_bit_vec.len()
            invariant
                n <= self.thread_local_bit_vec.len(),
                self.thread_local_bit_vec == old(self).thread_local_bit_vec,
                self.proxies == old(self).proxies,
                self.set == old(self).set,
                self.bit_vec.spec_block_count() == old(self).bit_vec.spec_block_count(),
                forall|k: int|
                    0 <= k < old(self).thread_local_bit_vec.len() ==> (
                    #[trigger] old(self).thread_local_bit_vec[k]).spec_block_count()
                        == old(self).bit_vec.spec_block_count(),
                forall|i: int| #[trigger]
                    self.bit_vec@.contains(i) <==> old(self).bit_vec@.contains(i)
                        || bit_in_one_of(old(self).thread_local_bit_vec@, n as int, i),
            decreases self.thread_local_bit_vec.len() - n,
        {
            let ghost before = self.bit_vec;
            let ghost added = self.thread_local_bit_vec[n as int];
            assert(added == old(self).thread_local_bit_vec[n as int]);
            self.bit_vec.or(&self.thread_local_bit_vec[n]);
            n = n + 1;
            proof {
                let all = old(self).thread_local_bit_vec@;
                assert forall|i: int| #[trigger]
                    self.bit_vec@.contains(i) <==> old(self).bit_vec@.contains(i)
                        || bit_in_one_of(all, n as int, i) by {
                    assert(self.bit_vec@.contains(i) <==> before@.contains(i) || added@.contains(
                        i,
                    ));
                    if added@.contains(i) {
                        assert(all[n - 1]@.contains(i));
                    }
                }
            }
        }
    }

    /// Records a moved proxy.
    fn record(&mut self, proxy_index: u32)
        requires
            old(self).wf(),
        ensures
            final(self).wf(),
            final(self)@ == old(self)@.push(proxy_index),
            final(self).bit_vec == old(self).bit_vec,
            final(self).thread_local_bit_vec == old(self).thread_local_bit_vec,
    {
        self.proxies.push(proxy_index);
        set_insert(&mut self.set, proxy_index as u64);
        proof {
            let before = old(self).proxies@;
            assert(self.proxies@[before.len() as int] == proxy_index);
            assert forall|v: u64| #[trigger]
                set_of(self.set).contains(v) <==> v <= u32::MAX && self.proxies@.contains(
                    v as u32,
                ) by {
                if v <= u32::MAX && before.contains(v as u32) {
                    let k = choose|k: int| 0 <= k < before.len() && before[k] == v as u32;
                    assert(self.proxies@[k] == v as u32);
                }
                if v <= u32::MAX && self.proxies@.contains(v as u32) && v != proxy_index {
                    let k = choose|k: int|
                        0 <= k < self.proxies@.len() && self.proxies@[k] == v as u32;
                    assert(before[k] == v as u32);
                }
            }
        }
    }
}

/// The properties of a collider on a body from which its proxy is made.
#[derive(Clone, Copy)]
pub struct BodyCollider {
    /// The collider.
    pub entity: Entity,
    /// The body that the collider is attached to.
    pub body: Entity,
    /// The bounding box of the collider.
    pub aabb: Aabb,
    /// The enlarged bounding box of the collider.
    pub enlarged_aabb: Aabb,
    /// The collision layers of the collider, if they are not the default ones.
    pub layers: Option<CollisionLayers>,
}

impl BodyCollider {
    /// Returns whether the coordinates of the enlarged bounding box are numbers.
    pub fn has_numeric_box(&self) -> (res: bool)
        ensures
            res == aabb_numeric(self.enlarged_aabb),
    {
        is_numeric(&self.enlarged_aabb)
    }

    /// The proxy of the collider, which has no flags.
    pub open spec fn spec_proxy(self) -> ColliderTreeProxy {
        ColliderTreeProxy {
            collider: self.entity,
            body: Some(self.body),
            layers: match self.layers {
                Some(layers) => layers,
                None => CollisionLayers { memberships: LayerMask(1), filters: LayerMask(u32::MAX) },
            },
            aabb: self.aabb,
            flags: ColliderTreeProxyFlags {
                sensor: false,
                body_disabled: false,
                custom_filter: false,
                modify_contacts: false,
                contact_events: false,
            },
        }
    }

    /// Creates the proxy of the collider.
    pub fn proxy(&self) -> (res: ColliderTreeProxy)
        ensures
            res == self.spec_proxy(),
    {
        ColliderTreeProxy {
            collider: self.entity,
            body: Some(self.body),
            layers: match self.layers {
                Some(layers) => layers,
                None => CollisionLayers::default(),
            },
            aabb: self.aabb,
            flags: ColliderTreeProxyFlags {
                sensor: false,
                body_disabled: false,
                custom_filter: false,
                modify_contacts: false,
                contact_events: false,
            },
        }
    }
}

impl ColliderTrees {
    /// Whether both trees are well-formed.
    pub open spec fn wf(self) -> bool {
        self.dynamic_tree.wf() && self.static_tree.wf()
    }

    /// Whether every proxy has a box in the hierarchy of its tree.
    pub open spec fn synced(self) -> bool {
        self.dynamic_tree.synced() && self.static_tree.synced()
    }

    /// The tree for the colliders of bodies of the given type.
    pub open spec fn tree(self, body: RigidBody) -> ColliderTree {
        match body {
            RigidBody::Dynamic | RigidBody::Kinematic => self.dynamic_tree,
            RigidBody::Static => self.static_tree,
        }
    }

    /// The trees with the one for bodies of the given type replaced.
    pub open spec fn with_tree(self, body: RigidBody, tree: ColliderTree) -> Self {
        match body {
            RigidBody::Dynamic | RigidBody::Kinematic => ColliderTrees {
                dynamic_tree: tree,
                ..self
            },
            RigidBody::Static => ColliderTrees { static_tree: tree, ..self },
        }
    }

    /// Creates trees without proxies.
    pub fn new() -> (res: Self)
        ensures
            res.wf(),
            res.synced(),
            res.dynamic_tree.tight(),
            res.static_tree.tight(),
            res.dynamic_tree.proxies@ == Map::<int, ColliderTreeProxy>::empty(),
            res.static_tree.proxies@ == Map::<int, ColliderTreeProxy>::empty(),
    {
        ColliderTrees { dynamic_tree: ColliderTree::new(), static_tree: ColliderTree::new() }
    }

    /// Returns a mutable reference to the tree for the colliders of bodies of the given type.
    fn tree_for_body_mut(&mut self, body: RigidBody) -> (res: &mut ColliderTree)
        ensures
            *res == old(self).tree(body),
            *final(self) == old(self).with_tree(body, *final(res)),
    {
        match body {
            RigidBody::Dynamic | RigidBody::Kinematic => &mut self.dynamic_tree,
            RigidBody::Static => &mut self.static_tree,
        }
    }

    /// Adds a collider that has been attached to a body of the given type, and stores the index
    /// of its proxy.
    ///
    /// The boxes of the tree have to fit tightly, and still do if the coordinates of the enlarged
    /// bounding box are numbers.
    pub fn add_collider(
        &mut self,
        body_type: RigidBody,
        collider: &BodyCollider,
        proxy_index: &mut ColliderTreeProxyIndex,
    )
        requires
            old(self).wf(),
            old(self).tree(body_type).tight(),
            old(self).tree(body_type).proxies.next_index() < PROXY_ID_LIMIT,
        ensures
            final(self).wf(),
            final(proxy_index).0 == old(self).tree(body_type).proxies.next_index(),
            final(self).tree(body_type).proxies@ == old(self).tree(body_type).proxies@.insert(
                final(proxy_index).0 as int,
                collider.spec_proxy(),
            ),
            final(self).tree(body_type).boxes() == old(self).tree(body_type).boxes().insert(
                final(proxy_index).0,
                collider.enlarged_aabb,
            ),
            *final(self) == old(self).with_tree(body_type, final(self).tree(body_type)),
            // The new proxy has the properties of the collider, and its enlarged box in the tree.
            ({
                let tree = final(self).tree(body_type);
                let proxy = tree.proxies@[final(proxy_index).0 as int];
                &&& proxy.collider == collider.entity
                &&& proxy.body == Some(collider.body)
                &&& proxy.aabb == collider.aabb
                &&& collider.layers is Some ==> proxy.layers == collider.layers->0
                &&& collider.layers is None ==> proxy.layers.memberships.0 == 1
                    && proxy.layers.filters.0 == 0xffff_ffff
                &&& tree.boxes()[final(proxy_index).0] == collider.enlarged_aabb
            }),
            old(self).synced() ==> final(self).synced(),
            aabb_numeric(collider.enlarged_aabb) ==> final(self).tree(body_type).tight(),
            bvh_grown(old(self).tree(body_type).bvh, final(self).tree(body_type).bvh, 1),
    {
        let proxy = collider.proxy();
        let id: ProxyId = self.tree_for_body_mut(body_type).add_proxy(
            collider.enlarged_aabb,
            proxy,
        );
        proxy_index.0 = id.id();
    }

    /// Removes a collider that is no longer attached to a body of the given type.
    ///
    /// The boxes of the tree have to fit tightly, and still do.
    pub fn remove_collider(&mut self, body_type: RigidBody, proxy_index: ColliderTreeProxyIndex)
        requires
            old(self).wf(),
            old(self).tree(body_type).proxies@.contains_key(proxy_index.0 as int)
                ==> old(self).tree(body_type).tight() && old(self).tree(
                body_type,
            ).boxes().contains_key(proxy_index.0),
        ensures
            final(self).wf(),
            final(self).tree(body_type).proxies@ == old(self).tree(body_type).proxies@.remove(
                proxy_index.0 as int,
            ),
            final(self).tree(body_type).boxes() == old(self).tree(body_type).boxes().remove(
                proxy_index.0,
            ),
            *final(self) == old(self).with_tree(body_type, final(self).tree(body_type)),
            old(self).synced() ==> final(self).synced(),
            old(self).tree(body_type).tight() ==> final(self).tree(body_type).tight(),
            bvh_grown(old(self).tree(body_type).bvh, final(self).tree(body_type).bvh, 0),
    {
        broadcast use proxy_id_of_view;

        self.tree_for_body_mut(body_type).remove_proxy(ProxyId::from(proxy_index.0));
    }

    /// Enlarges the moved proxies of the dynamic tree, and lists them as moved.
    ///
    /// The list of moved proxies has to be empty.
    pub fn update_dynamic_aabbs(
        &mut self,
        moved_proxies: &mut MovedProxies,
        ids: &Vec<ProxyId>,
        boxes: &Vec<MovedBoxes>,
    )
        requires
            old(self).wf(),
            old(self).dynamic_tree.roomy(),
            old(moved_proxies).wf(),
            old(moved_proxies)@.len() == 0,
            ids.len() == boxes.len(),
            forall|i: int|
                0 <= i < ids.len() ==> old(self).dynamic_tree.boxes().contains_key(
                    (#[trigger] ids[i])@,
                ),
        ensures
            final(self).wf(),
            final(moved_proxies).wf(),
            final(moved_proxies).bit_vec == old(moved_proxies).bit_vec,
            final(moved_proxies)@ == ids@.map_values(|id: ProxyId| id@),
            final(self).static_tree == old(self).static_tree,
            final(self).dynamic_tree.proxies@ == proxies_enlarged(
                old(self).dynamic_tree.proxies@,
                ids@,
                boxes@,
            ),
            final(self).dynamic_tree.boxes() == boxes_enlarged(
                old(self).dynamic_tree.boxes(),
                ids@,
                boxes@,
            ),
            final(self).dynamic_tree.moved_proxies == old(self).dynamic_tree.moved_proxies,
            bvh_view(final(self).dynamic_tree.bvh).shape() == bvh_view(
                old(self).dynamic_tree.bvh,
            ).shape(),
            // Each proxy that is listed once gets its own box, and its enlarged box in the tree.
            (forall|i: int, j: int|
                0 <= i < j < ids.len() ==> (#[trigger] ids[i])@ != (#[trigger] ids[j])@)
                ==> forall|i: int|
                0 <= i < ids.len() ==> {
                    let id = (#[trigger] ids[i])@;
                    &&& final(self).dynamic_tree.proxies@[id as int].aabb == boxes[i].aabb
                    &&& final(self).dynamic_tree.boxes().contains_key(id)
                    &&& final(self).dynamic_tree.boxes()[id] == boxes[i].enlarged_aabb
                },
            old(self).synced() ==> final(self).synced(),
            old(self).dynamic_tree.walkable() && final(self).dynamic_tree.boxes_numeric()
                ==> final(self).dynamic_tree.tight(),
    {
        self.dynamic_tree.init_primitives_to_nodes();
        let ghost number = |id: ProxyId| id@;
        let mut i: usize = 0;
        proof {
            assert(ids@.take(0) =~= Seq::<ProxyId>::empty());
            assert(boxes@.take(0) =~= Seq::<MovedBoxes>::empty());
            assert(ids@.take(0).map_values(number) =~= moved_proxies@);
        }
        while i < ids.len()
            invariant
                i <= ids.len(),
                ids.len() == boxes.len(),
                number == (|id: ProxyId| id@),
                forall|j: int|
                    0 <= j < ids.len() ==> old(self).dynamic_tree.boxes().contains_key(
                        (#[trigger] ids[j])@,
                    ),
                self.wf(),
                moved_proxies.wf(),
                moved_proxies.bit_vec == old(moved_proxies).bit_vec,
                self.static_tree == old(self).static_tree,
                self.dynamic_tree.proxies@ == proxies_enlarged(
                    old(self).dynamic_tree.proxies@,
                    ids@.take(i as int),
                    boxes@.take(i as int),
                ),
                self.dynamic_tree.boxes() == boxes_enlarged(
                    old(self).dynamic_tree.boxes(),
                    ids@.take(i as int),
                    boxes@.take(i as int),
                ),
                self.dynamic_tree.boxes().dom() == old(self).dynamic_tree.boxes().dom(),
                self.dynamic_tree.moved_proxies == old(self).dynamic_tree.moved_proxies,
                bvh_view(self.dynamic_tree.bvh).shape() == bvh_view(
                    old(self).dynamic_tree.bvh,
                ).shape(),
                self.dynamic_tree.walkable() == old(self).dynamic_tree.walkable(),
                self.dynamic_tree.roomy(),
                old(self).synced() ==> self.synced(),
                moved_proxies@ == ids@.take(i as int).map_values(number),
            decreases ids.len() - i,
        {
            let proxy_id: ProxyId = ids[i];
            let moved: MovedBoxes = boxes[i];
            let ghost tree0 = self.dynamic_tree;
            proof {
                assert(old(self).dynamic_tree.boxes().dom().contains(ids[i as int]@));
                assert(self.dynamic_tree.boxes().contains_key(proxy_id@));
                assert(ids@.take(i + 1).drop_last() =~= ids@.take(i as int));
                assert(boxes@.take(i + 1).drop_last() =~= boxes@.take(i as int));
            }
            // Update the proxy's bounding boxes.
            if let Some(proxy) = self.dynamic_tree.get_proxy_mut(proxy_id) {
                proxy.aabb = moved.aabb;
            }
            self.dynamic_tree.set_proxy_aabb(proxy_id, moved.enlarged_aabb);
            // Record the moved proxy.
            moved_proxies.record(proxy_id.id());
            proof {
                assert(self.dynamic_tree.boxes().dom() =~= tree0.boxes().dom());
                let before = ids@.take(i as int).map_values(number);
                assert(ids@.take(i + 1).map_values(number) =~= before.push(proxy_id@));
            }
            i = i + 1;
        }
        proof {
            assert(ids@.take(i as int) =~= ids@);
            assert(boxes@.take(i as int) =~= boxes@);
            if forall|i: int, j: int|
                0 <= i < j < ids.len() ==> (#[trigger] ids[i])@ != (#[trigger] ids[j])@ {
                assert forall|i: int|
                    0 <= i < ids.len() implies old(self).dynamic_tree.proxies@.contains_key(
                    (#[trigger] ids@[i])@ as int,
                ) by {
                    assert(old(self).dynamic_tree.boxes().contains_key(ids[i]@));
                }
                assert(forall|i: int, j: int|
                    0 <= i < j < ids@.len() ==> (#[trigger] ids@[i])@ != (#[trigger] ids@[j])@);
                enlarged_proxies_by_id(old(self).dynamic_tree.proxies@, ids@, boxes@);
                enlarged_boxes_by_id(old(self).dynamic_tree.boxes(), ids@, boxes@);
            }
        }
        // Refit the tree after enlarging proxies.
        self.dynamic_tree.refit_all();
    }

    /// Reinserts a changed collider of a static body with its new bounding box.
    pub fn update_static_aabb(&mut self, proxy_index: ColliderTreeProxyIndex, aabb: Aabb)
        requires
            old(self).wf(),
            old(self).static_tree.tight(),
            old(self).static_tree.reinsertable(0),
            old(self).static_tree.boxes().contains_key(proxy_index.0),
            aabb_numeric(aabb),
        ensures
            final(self).wf(),
            final(self).dynamic_tree == old(self).dynamic_tree,
            final(self).static_tree.proxies@ == old(self).static_tree.proxies@.insert(
                proxy_index.0 as int,
                ColliderTreeProxy {
                    aabb,
                    ..old(self).static_tree.proxies@[proxy_index.0 as int]
                },
            ),
            final(self).static_tree.boxes() == old(self).static_tree.boxes().insert(
                proxy_index.0,
                aabb,
            ),
            old(self).synced() ==> final(self).synced(),
            final(self).static_tree.tight(),
            bvh_moved(old(self).static_tree.bvh, proxy_index.0, aabb, final(self).static_tree.bvh),
            bvh_grown(old(self).static_tree.bvh, final(self).static_tree.bvh, 1),
    {
        broadcast use proxy_id_of_view;

        self.static_tree.init_primitives_to_nodes();
        let ghost first = self.static_tree.bvh;
        self.static_tree.reinsert_proxy(ProxyId::from(proxy_index.0), aabb);
        proof {
            let (leaf, resized) = choose|leaf: u32, resized: Bvh2| #[trigger]
                bvh_moved_via(first, proxy_index.0, aabb, leaf, resized, self.static_tree.bvh);
            assert(bvh_moved_via(
                old(self).static_tree.bvh,
                proxy_index.0,
                aabb,
                leaf,
                resized,
                self.static_tree.bvh,
            ));
        }
    }
}

/// A tree whose allocations are used again for every rebuild.
pub struct ColliderTreeRebuild {
    /// The tree.
    pub tree: ColliderTree,
}

/// The threshold ratio of moved proxies to total proxies below which a partial rebuild is
/// performed.
///
/// For higher ratios, a full rebuild typically performs better.
pub open spec fn partial_rebuild_threshold() -> Ratio {
    Ratio(0x3e19_999a)
}

/// An ongoing rebuild of the dynamic tree.
pub struct RebuildTask {
    /// The tree that is rebuilt, and how.
    pub task: OptimizationTask,
    /// Whether only part of the tree is rebuilt.
    pub partial: bool,
}

/// Begins a rebuild of the dynamic tree to optimize its structure.
///
/// A partial rebuild works on a copy of the hierarchy, a full one on a copy of the tree.
/// `moved_ratio` is the ratio of moved proxies to total proxies in the tree.
pub fn rebuild_trees(
    trees: &mut ColliderTrees,
    tree_rebuild: &mut ColliderTreeRebuild,
    moved_proxies: &MovedProxies,
    moved_ratio: Ratio,
) -> (res: RebuildTask)
    requires
        old(trees).wf(),
        forall|i: int|
            0 <= i < moved_proxies@.len() ==> old(trees).dynamic_tree.boxes().contains_key(
                #[trigger] moved_proxies@[i],
            ),
    ensures
        final(trees).wf(),
        final(trees).static_tree == old(trees).static_tree,
        final(trees).dynamic_tree.bvh == old(trees).dynamic_tree.bvh,
        final(trees).dynamic_tree.proxies == old(trees).dynamic_tree.proxies,
        final(trees).dynamic_tree.moved_proxies == old(trees).dynamic_tree.moved_proxies,
        // The workspaces are exchanged, and the one of the tree is used for the rebuild.
        final(trees).dynamic_tree.workspace == old(tree_rebuild).tree.workspace,
        res.task.tree.workspace == old(trees).dynamic_tree.workspace,
        // An empty tree is left for the next rebuild.
        final(tree_rebuild).tree.wf(),
        final(tree_rebuild).tree.proxies@ == Map::<int, ColliderTreeProxy>::empty(),
        bvh_view(final(tree_rebuild).tree.bvh) == BvhView::empty(),
        final(tree_rebuild).tree.moved_proxies@ == Seq::<ProxyId>::empty(),
        stack_capacity(final(tree_rebuild).tree.workspace.insertion_stack) == 1,
        res.partial == moved_ratio.spec_less_than(partial_rebuild_threshold()),
        res.task.wf(),
        res.task.tree.bvh == old(trees).dynamic_tree.bvh,
        res.partial ==> {
            &&& res.task.action is PartialRebuild
            &&& leaves_of_moved(
                old(trees).dynamic_tree.bvh,
                moved_proxies@.map_values(|index: u32| ProxyId::of(index)),
                res.task.action->PartialRebuild_0@,
            )
        },
        !res.partial ==> {
            &&& res.task.action is FullRebuild
            &&& res.task.tree.proxies@ == old(trees).dynamic_tree.proxies@
            &&& res.task.tree.wf()
        },
        old(trees).dynamic_tree.synced() && !res.partial ==> res.task.tree.synced(),
        res.task.fits(final(trees).dynamic_tree),
        old(trees).dynamic_tree.synced() ==> res.task.covers(final(trees).dynamic_tree),
{
    // Use the dynamic tree's workspace for the rebuild.
    core::mem::swap(&mut trees.dynamic_tree.workspace, &mut tree_rebuild.tree.workspace);
    let mut tree = ColliderTree::new();
    core::mem::swap(&mut tree, &mut tree_rebuild.tree);
    tree.bvh = clone_bvh(&trees.dynamic_tree.bvh);
    tree.moved_proxies = Vec::new();
    if moved_ratio.less_than(&Ratio(0x3e19_999a)) {
        // Partial rebuild
        let mut moved: Vec<ProxyId> = Vec::new();
        let indices: &[u32] = moved_proxies.proxies();
        let mut i: usize = 0;
        let ghost to_id = |index: u32| ProxyId::of(index);
        while i < indices.len()
            invariant
                i <= indices@.len(),
                indices@ == moved_proxies@,
                to_id == (|index: u32| ProxyId::of(index)),
                moved@ == moved_proxies@.take(i as int).map_values(to_id),
            decreases indices@.len() - i,
        {
            moved.push(ProxyId::from(indices[i]));
            i = i + 1;
            proof {
                assert(moved@ =~= moved_proxies@.take(i as int).map_values(to_id));
            }
        }
        proof {
            broadcast use proxy_id_of_view;

            assert(moved_proxies@.take(i as int) =~= moved_proxies@);
            assert forall|j: int| 0 <= j < moved.len() implies tree.boxes().contains_key(
                (#[trigger] moved[j])@,
            ) by {
                assert(moved[j]@ == moved_proxies@[j]);
            }
        }
        let leaves: Vec<u32> = tree.leaves_of(&moved);
        let task = OptimizationTask {
            tree_type: ColliderTreeType::Dynamic,
            tree,
            action: OptimizationAction::PartialRebuild(leaves),
        };
        RebuildTask { task, partial: true }
    } else {
        // Full rebuild
        tree.proxies = trees.dynamic_tree.proxies.copied();
        let task = OptimizationTask {
            tree_type: ColliderTreeType::Dynamic,
            tree,
            action: OptimizationAction::FullRebuild,
        };
        RebuildTask { task, partial: false }
    }
}

/// Completes a rebuild of the dynamic tree: after a partial rebuild the hierarchy is replaced,
/// after a full one the whole tree.
pub fn finish_rebuild(trees: &mut ColliderTrees, rebuild: RebuildTask)
    requires
        old(trees).wf(),
        rebuild.partial ==> bvh_intact(rebuild.task.tree.bvh) && rebuild.task.fits(
            old(trees).dynamic_tree,
        ),
        !rebuild.partial ==> rebuild.task.tree.wf(),
    ensures
        final(trees).wf(),
        final(trees).static_tree == old(trees).static_tree,
        rebuild.partial ==> {
            &&& final(trees).dynamic_tree.bvh == rebuild.task.tree.bvh
            &&& final(trees).dynamic_tree.proxies == old(trees).dynamic_tree.proxies
            &&& final(trees).dynamic_tree.moved_proxies == old(trees).dynamic_tree.moved_proxies
            &&& final(trees).dynamic_tree.workspace == old(trees).dynamic_tree.workspace
        },
        rebuild.partial && rebuild.task.covers(old(trees).dynamic_tree)
            ==> final(trees).dynamic_tree.synced(),
        !rebuild.partial ==> final(trees).dynamic_tree == rebuild.task.tree,
{
    if rebuild.partial {
        trees.dynamic_tree.bvh = rebuild.task.tree.bvh;
    } else {
        trees.dynamic_tree = rebuild.task.tree;
    }
}

/// Restores the dynamic tree's workspace after a rebuild.
pub fn restore_workspace(trees: &mut ColliderTrees, tree_rebuild: &mut ColliderTreeRebuild)
    requires
        old(trees).wf(),
    ensures
        final(trees).wf(),
        final(trees).static_tree == old(trees).static_tree,
        final(trees).dynamic_tree.bvh == old(trees).dynamic_tree.bvh,
        final(trees).dynamic_tree.proxies == old(trees).dynamic_tree.proxies,
        final(trees).dynamic_tree.moved_proxies == old(trees).dynamic_tree.moved_proxies,
        final(trees).dynamic_tree.workspace == old(tree_rebuild).tree.workspace,
        final(tree_rebuild).tree.workspace == old(trees).dynamic_tree.workspace,
        final(tree_rebuild).tree.bvh == old(tree_rebuild).tree.bvh,
        final(tree_rebuild).tree.proxies == old(tree_rebuild).tree.proxies,
{
    core::mem::swap(&mut trees.dynamic_tree.workspace, &mut tree_rebuild.tree.workspace);
}

/// The proxy of a collider on a body has the collider, the body and the bounding box of the
/// collider, its layers or else the first layer that interacts with all, and no flags.
pub proof fn proxy_of_a_body_collider(data: BodyCollider)
    ensures
        data.spec_proxy().collider == data.entity,
        data.spec_proxy().body == Some(data.body),
        data.spec_proxy().aabb == data.aabb,
        data.layers is Some ==> data.spec_proxy().layers == data.layers->0,
        data.layers is None ==> data.spec_proxy().layers.memberships.0 == 1
            && data.spec_proxy().layers.filters.0 == 0xffff_ffff,
        !data.spec_proxy().flags.sensor,
        !data.spec_proxy().flags.body_disabled,
        !data.spec_proxy().flags.custom_filter,
        !data.spec_proxy().flags.modify_contacts,
        !data.spec_proxy().flags.contact_events,
{
}

/// Colliders of dynamic and kinematic bodies share a tree, those of static ones have their own.
/// Replacing the tree for the one leaves the other as it is.
pub proof fn moving_colliders_are_apart_from_static_ones(
    trees: ColliderTrees,
    body: RigidBody,
    tree: ColliderTree,
)
    ensures
        body == RigidBody::Static ==> trees.tree(body) == trees.static_tree,
        body != RigidBody::Static ==> trees.tree(body) == trees.dynamic_tree,
        trees.with_tree(body, tree).tree(body) == tree,
        body == RigidBody::Static ==> trees.with_tree(body, tree).dynamic_tree
            == trees.dynamic_tree,
        body != RigidBody::Static ==> trees.with_tree(body, tree).static_tree == trees.static_tree,
{
}

/// The threshold below which only a part of the tree is rebuilt is the single-precision number
/// nearest to 0.15: its exponent is -3, and its 24 bits of mantissa are nearest to 0.15 divided by
/// the value of the last of them.
pub proof fn partial_rebuild_threshold_is_nearest()
    ensures
        partial_rebuild_threshold().0 / 0x80_0000 == 124,
        -50 <= 100 * (0x80_0000 + partial_rebuild_threshold().0 % 0x80_0000) - 15 * 0x400_0000
            <= 50,
{
}

/// A bit is set in one of the bit vectors exactly if one of them has it.
pub proof fn bit_in_one_of_the_threads(bit_vecs: Seq<BitVec>, index: int)
    ensures
        bit_in_one_of(bit_vecs, bit_vecs.len() as int, index) <==> exists|k: int|
            0 <= k < bit_vecs.len() && (#[trigger] bit_vecs[k])@.contains(index),
{
}

} // verus!
