//! A tree of collider proxies.

use crate::bvh::{
    aabb_numeric, bvh_boxes, bvh_formed, bvh_grown, bvh_has_leaf_map, bvh_has_parents,
    bvh_intact, bvh_moved, bvh_moved_via, bvh_numeric, bvh_partly_rebuilt, bvh_rebuilt,
    bvh_reinsertable, bvh_reinserted, bvh_roomy, bvh_slots, bvh_slotted, bvh_tight, bvh_view,
    bvh_walkable, clone_bvh, full_rebuild, init_parents, init_primitives_to_nodes,
    insert_primitive, is_within, lemma_better_places, lemma_more_levels, lemma_same_levels,
    lemma_same_walks, mapped_leaf, max_depth, new_builder, new_bvh, new_optimizer, new_stack,
    node_count, node_links, partial_rebuild, primitive_in_slot, rebuild_path_flags, refit_bvh,
    reinsert_leaf, reinsert_leaves, reinsertion_gain, remove_primitive, reserve_stack,
    resize_leaf, set_leaf_box, slot_count, stack_capacity, walked_levels, BvhView,
    LARGE_STACK_LEVELS, STACK_LEVELS,
};
use crate::collider_tree::proxy_key::{ProxyId, PROXY_ID_LIMIT};
use crate::collision::collision_layers::CollisionLayers;
use crate::collision::hooks::ActiveCollisionHooks;
use crate::data_structures::stable_vec::StableVec;
use crate::entity::Entity;
use obvhs::aabb::Aabb;
use obvhs::bvh2::insertion_removal::SiblingInsertionCandidate;
use obvhs::bvh2::reinsertion::ReinsertionOptimizer;
use obvhs::bvh2::Bvh2;
use obvhs::faststack::HeapStack;
use obvhs::ploc::PlocBuilder;
use vstd::prelude::*;

verus! {

/// Properties of a collider that matter for the pairs it is in.
#[derive(Clone, Copy, Debug, PartialEq, Eq, Hash, Structural)]
pub struct ColliderTreeProxyFlags {
    /// The collider is a sensor.
    pub sensor: bool,
    /// The body of the collider is disabled.
    pub body_disabled: bool,
    /// Pairs of the collider are filtered by the user.
    pub custom_filter: bool,
    /// Contacts of the collider can be modified by the user.
    pub modify_contacts: bool,
    /// Contacts of the collider cause events.
    pub contact_events: bool,
}

impl ColliderTreeProxyFlags {
    /// The flags of a collider that is a sensor or not, with the given hooks.
    pub open spec fn of(is_sensor: bool, active_hooks: ActiveCollisionHooks) -> Self {
        ColliderTreeProxyFlags {
            sensor: is_sensor,
            body_disabled: false,
            custom_filter: active_hooks.filter_pairs,
            modify_contacts: active_hooks.modify_contacts,
            contact_events: false,
        }
    }

    /// The flags that are in one of the two.
    pub open spec fn spec_union(self, other: Self) -> Self {
        ColliderTreeProxyFlags {
            sensor: self.sensor || other.sensor,
            body_disabled: self.body_disabled || other.body_disabled,
            custom_filter: self.custom_filter || other.custom_filter,
            modify_contacts: self.modify_contacts || other.modify_contacts,
            contact_events: self.contact_events || other.contact_events,
        }
    }

    /// Creates the flags of a collider.
    pub fn new(is_sensor: bool, active_hooks: ActiveCollisionHooks) -> (res: Self)
        ensures
            res == ColliderTreeProxyFlags::of(is_sensor, active_hooks),
    {
        ColliderTreeProxyFlags {
            sensor: is_sensor,
            body_disabled: false,
            custom_filter: active_hooks.filter_pairs,
            modify_contacts: active_hooks.modify_contacts,
            contact_events: false,
        }
    }

    /// Returns the flags that are in one of the two.
    pub fn union(self, other: Self) -> (res: Self)
        ensures
            res == self.spec_union(other),
    {
        ColliderTreeProxyFlags {
            sensor: self.sensor || other.sensor,
            body_disabled: self.body_disabled || other.body_disabled,
            custom_filter: self.custom_filter || other.custom_filter,
            modify_contacts: self.modify_contacts || other.modify_contacts,
            contact_events: self.contact_events || other.contact_events,
        }
    }
}

/// What a collider tree knows of a collider.
#[derive(Clone, Copy)]
pub struct ColliderTreeProxy {
    /// The collider.
    pub collider: Entity,
    /// The body that the collider is attached to, if any.
    pub body: Option<Entity>,
    /// The collision layers of the collider.
    pub layers: CollisionLayers,
    /// The bounding box of the collider, which the box in the tree may enlarge.
    pub aabb: Aabb,
    /// The flags of the collider.
    pub flags: ColliderTreeProxyFlags,
}

impl ColliderTreeProxy {
    /// Returns whether the collider is a sensor.
    pub fn is_sensor(&self) -> (res: bool)
        ensures
            res == self.flags.sensor,
    {
        self.flags.sensor
    }
}

/// Allocations that operations on a tree use again.
pub struct ColliderTreeWorkspace {
    /// The allocations of a rebuild.
    pub ploc_builder: PlocBuilder,
    /// The allocations of a reinsertion of many leaves.
    pub reinsertion_optimizer: ReinsertionOptimizer,
    /// The stack with which a place for a new leaf is searched.
    pub insertion_stack: HeapStack<SiblingInsertionCandidate>,
}

impl ColliderTreeWorkspace {
    /// Creates a workspace with the smallest stack.
    pub fn new() -> (res: Self)
        ensures
            stack_capacity(res.insertion_stack) == 1,
    {
        ColliderTreeWorkspace {
            ploc_builder: new_builder(),
            reinsertion_optimizer: new_optimizer(),
            insertion_stack: new_stack(),
        }
    }
}

/// A tree of collider proxies, in a hierarchy of bounding boxes.
///
/// The primitive that stands for a proxy in the hierarchy has the number of its [`ProxyId`].
pub struct ColliderTree {
    /// The hierarchy of bounding boxes.
    pub bvh: Bvh2,
    /// The proxies, at the indices that their IDs give.
    pub proxies: StableVec<ColliderTreeProxy>,
    /// The proxies whose boxes in the tree have been enlarged since the last optimization.
    pub moved_proxies: Vec<ProxyId>,
    /// Allocations for operations on the tree.
    pub workspace: ColliderTreeWorkspace,
}

impl ColliderTree {
    /// Whether the tree has a proxy with the given ID.
    pub open spec fn has(self, id: ProxyId) -> bool {
        self.proxies@.contains_key(id@ as int)
    }

    /// The bounding boxes in the hierarchy, by the numbers of the proxy IDs.
    #[verifier::inline]
    pub open spec fn boxes(self) -> Map<u32, Aabb> {
        bvh_boxes(self.bvh)
    }

    /// Whether the tree is formed, and the leaf of each proxy can be looked up.
    pub open spec fn wf(self) -> bool {
        self.formed() && bvh_has_leaf_map(self.bvh)
    }

    /// Whether the proxies can all be named by IDs, the hierarchy is well-formed and has no box
    /// without a proxy, and only proxies of the tree are listed as moved.
    pub open spec fn formed(self) -> bool {
        &&& self.proxies.wf()
        &&& self.proxies.slot_count() <= PROXY_ID_LIMIT
        &&& bvh_formed(self.bvh)
        &&& forall|p: u32| #[trigger]
            self.boxes().contains_key(p) ==> self.proxies@.contains_key(p as int)
        &&& forall|i: int|
            0 <= i < self.moved_proxies.len() ==> self.has(#[trigger] self.moved_proxies[i])
    }

    /// Whether every proxy has a box in the hierarchy, which is so unless the hierarchy has
    /// been taken out for an optimization.
    pub open spec fn synced(self) -> bool {
        &&& forall|i: int| #[trigger]
            self.proxies@.contains_key(i) ==> self.boxes().contains_key(i as u32)
        &&& self.proxies.slot_count() <= bvh_slots(self.bvh)
    }

    /// Whether the coordinates of all boxes are numbers, and every box above those of the proxies
    /// is exactly the union of the two boxes below it.
    pub open spec fn tight(self) -> bool {
        bvh_tight(self.bvh)
    }

    /// The proxies of the tree have IDs below the limit.
    pub proof fn lemma_ids(&self)
        requires
            self.wf(),
        ensures
            forall|i: int| #[trigger] self.proxies@.contains_key(i) ==> 0 <= i < PROXY_ID_LIMIT,
    {
        self.proxies.lemma_indices();
    }

    /// There are at most as many boxes as proxies.
    proof fn lemma_box_count(&self)
        requires
            self.wf(),
        ensures
            self.boxes().dom().finite(),
            self.boxes().dom().len() <= self.proxies@.dom().len(),
    {
        let to_u32 = |i: int| i as u32;
        self.lemma_ids();
        self.proxies.lemma_len();
        let image = self.proxies@.dom().map(to_u32);
        vstd::set_lib::lemma_map_size_bound(self.proxies@.dom(), image, to_u32);
        assert(self.boxes().dom().subset_of(image)) by {
            assert forall|p: u32| self.boxes().dom().contains(p) implies image.contains(p) by {
                assert(self.boxes().contains_key(p));
                assert(self.proxies@.dom().contains(p as int));
                assert(to_u32(p as int) == p);
            }
        }
        vstd::set_lib::lemma_set_subset_finite(image, self.boxes().dom());
        vstd::set_lib::lemma_len_subset(self.boxes().dom(), image);
    }

    /// If all of the first `n` proxies have boxes, then there are at least `n` boxes.
    proof fn lemma_enough_boxes(&self, n: int)
        requires
            self.wf(),
            0 <= n <= PROXY_ID_LIMIT,
            forall|i: int| 0 <= i < n ==> #[trigger] self.boxes().contains_key(i as u32),
        ensures
            self.boxes().dom().len() >= n,
    {
        let to_u32 = |i: int| i as u32;
        let range = vstd::set_lib::set_int_range(0, n);
        vstd::set_lib::lemma_int_range(0, n);
        let image = range.map(to_u32);
        assert(vstd::relations::injective_on(to_u32, range));
        vstd::set_lib::lemma_map_size(range, image, to_u32);
        self.lemma_box_count();
        assert(image.subset_of(self.boxes().dom())) by {
            assert forall|p: u32| image.contains(p) implies self.boxes().dom().contains(p) by {
                let i = choose|i: int| range.contains(i) && p == to_u32(i);
                assert(self.boxes().contains_key(i as u32));
            }
        }
        vstd::set_lib::lemma_len_subset(image, self.boxes().dom());
    }

    /// Creates a tree without proxies.
    pub fn new() -> (res: Self)
        ensures
            res.wf(),
            res.synced(),
            res.tight(),
            res.walkable(),
            res.roomy(),
            res.reinsertable(0),
            bvh_view(res.bvh) == BvhView::empty(),
            res.proxies@ == Map::<int, ColliderTreeProxy>::empty(),
            res.boxes() == Map::<u32, Aabb>::empty(),
            res.moved_proxies@ == Seq::<ProxyId>::empty(),
            stack_capacity(res.workspace.insertion_stack) == 1,
    {
        let res = ColliderTree {
            bvh: new_bvh(),
            proxies: StableVec::new(),
            moved_proxies: Vec::new(),
            workspace: ColliderTreeWorkspace::new(),
        };
        assert(res.boxes() =~= Map::<u32, Aabb>::empty());
        res
    }

    /// Returns whether there is an ID left for another proxy.
    pub fn has_room(&self) -> (res: bool)
        requires
            self.wf(),
        ensures
            res == (self.proxies.next_index() < PROXY_ID_LIMIT),
    {
        self.proxies.peek_index() < PROXY_ID_LIMIT as usize
    }

    /// Adds a proxy with the given box in the tree, and returns its ID.
    ///
    /// The boxes of the tree have to fit tightly, and still do if the coordinates of the given box
    /// are numbers.
    pub fn add_proxy(&mut self, aabb: Aabb, proxy: ColliderTreeProxy) -> (id: ProxyId)
        requires
            old(self).wf(),
            old(self).tight(),
            old(self).proxies.next_index() < PROXY_ID_LIMIT,
        ensures
            final(self).wf(),
            id@ == old(self).proxies.next_index(),
            !old(self).has(id),
            final(self).proxies@ == old(self).proxies@.insert(id@ as int, proxy),
            final(self).boxes() == old(self).boxes().insert(id@, aabb),
            final(self).moved_proxies@ == old(self).moved_proxies@,
            final(self).proxies.slot_count() <= old(self).proxies.slot_count() + 1,
            old(self).synced() ==> final(self).synced(),
            aabb_numeric(aabb) ==> final(self).tight(),
            bvh_grown(old(self).bvh, final(self).bvh, 1),
    {
        proof {
            self.proxies.lemma_next_index();
            self.lemma_box_count();
            self.lemma_ids();
        }
        let count: usize = self.proxies.len();
        proof {
            self.proxies.lemma_len();
        }
        let index: usize = self.proxies.push(proxy);
        let id: u32 = index as u32;
        reserve_stack(&mut self.workspace.insertion_stack, count + 1);
        insert_primitive(&mut self.bvh, aabb, id, &mut self.workspace.insertion_stack);
        proof {
            assert(forall|p: u32| #[trigger]
                self.boxes().contains_key(p) ==> p == id || old(self).boxes().contains_key(p));
            if old(self).synced() {
                assert forall|i: int| #[trigger]
                    self.proxies@.contains_key(i) implies self.boxes().contains_key(i as u32) by {
                    if i != index {
                        assert(old(self).proxies@.contains_key(i));
                    }
                }
                if old(self).proxies.free_slots().len() == 0 {
                    assert forall|i: int|
                        0 <= i < self.proxies.slot_count() implies #[trigger] self.boxes()
                            .contains_key(i as u32) by {
                        if i != index {
                            assert(old(self).proxies@.contains_key(i));
                        }
                        assert(self.proxies@.contains_key(i));
                    }
                    self.lemma_enough_boxes(self.proxies.slot_count() as int);
                }
            }
        }
        ProxyId::new(id)
    }

    /// Removes the proxy with the given ID, and returns it if there was one.
    ///
    /// The boxes of the tree have to fit tightly, and still do.
    pub fn remove_proxy(&mut self, id: ProxyId) -> (res: Option<ColliderTreeProxy>)
        requires
            old(self).wf(),
            old(self).has(id) ==> old(self).tight() && old(self).boxes().contains_key(id@),
        ensures
            final(self).wf(),
            res == if old(self).has(id) {
                Some(old(self).proxies@[id@ as int])
            } else {
                None
            },
            final(self).proxies@ == old(self).proxies@.remove(id@ as int),
            final(self).boxes() == old(self).boxes().remove(id@),
            final(self).moved_proxies@ == old(self).moved_proxies@.filter(|m: ProxyId| m != id),
            final(self).proxies.slot_count() == old(self).proxies.slot_count(),
            final(self).proxies.next_index() == if old(self).has(id) {
                id@ as nat
            } else {
                old(self).proxies.next_index()
            },
            old(self).synced() ==> final(self).synced(),
            old(self).tight() ==> final(self).tight(),
            !old(self).has(id) ==> final(self).bvh == old(self).bvh,
            bvh_grown(old(self).bvh, final(self).bvh, 0),
    {
        proof {
            self.lemma_ids();
        }
        let proxy = self.proxies.try_remove(id.index());
        if proxy.is_some() {
            remove_primitive(&mut self.bvh, id.id());
        } else {
            assert(self.boxes() =~= old(self).boxes().remove(id@));
        }
        let mut kept: Vec<ProxyId> = Vec::new();
        let mut i: usize = 0;
        let ghost others = |m: ProxyId| m != id;
        while i < self.moved_proxies.len()
            invariant
                i <= self.moved_proxies.len(),
                self.moved_proxies == old(self).moved_proxies,
                others == (|m: ProxyId| m != id),
                kept@ == self.moved_proxies@.take(i as int).filter(others),
                forall|j: int|
                    0 <= j < kept.len() ==> self.moved_proxies@.contains(#[trigger] kept[j])
                        && kept[j] != id,
            decreases self.moved_proxies.len() - i,
        {
            proof {
                let m = self.moved_proxies@;
                assert(m.take(i + 1) =~= m.take(i as int).push(m[i as int]));
                m.take(i as int).lemma_filter_push(m[i as int], others);
            }
            let moved: ProxyId = self.moved_proxies[i];
            if moved != id {
                kept.push(moved);
            }
            i = i + 1;
        }
        proof {
            assert(self.moved_proxies@.take(i as int) =~= self.moved_proxies@);
        }
        self.moved_proxies = kept;
        proof {
            broadcast use crate::collider_tree::proxy_key::proxy_id_ext;

            assert forall|j: int| 0 <= j < self.moved_proxies.len() implies self.has(
                #[trigger] self.moved_proxies[j],
            ) by {
                let m = self.moved_proxies[j];
                let k = choose|k: int|
                    0 <= k < old(self).moved_proxies.len() && old(self).moved_proxies[k] == m;
                assert(old(self).has(old(self).moved_proxies[k]));
                assert(m@ != id@);
            }
        }
        proxy
    }

    /// Returns the proxy with the given ID, if there is one.
    pub fn get_proxy(&self, id: ProxyId) -> (res: Option<&ColliderTreeProxy>)
        ensures
            match res {
                Some(proxy) => self.has(id) && *proxy == self.proxies@[id@ as int],
                None => !self.has(id),
            },
    {
        self.proxies.get(id.index())
    }

    /// Returns a mutable reference to the proxy with the given ID, if there is one.
    pub fn get_proxy_mut(&mut self, id: ProxyId) -> (res: Option<&mut ColliderTreeProxy>)
        ensures
            match res {
                Some(proxy) => {
                    &&& old(self).has(id)
                    &&& *proxy == old(self).proxies@[id@ as int]
                    &&& final(self).proxies@ =~= old(self).proxies@.insert(
                        id@ as int,
                        *final(proxy),
                    )
                },
                None => !old(self).has(id) && final(self).proxies@ =~= old(self).proxies@,
            },
            final(self).proxies.slot_count() == old(self).proxies.slot_count(),
            final(self).proxies.free_slots() == old(self).proxies.free_slots(),
            final(self).bvh == old(self).bvh,
            final(self).moved_proxies == old(self).moved_proxies,
            old(self).wf() ==> final(self).wf(),
            old(self).synced() ==> final(self).synced(),
    {
        self.proxies.get_mut(id.index())
    }

    /// Replaces the box of a proxy in the tree, without refitting the boxes above it.
    ///
    /// After a number of such calls, [`Self::refit_all`] has to be called once.
    pub fn set_proxy_aabb(&mut self, id: ProxyId, aabb: Aabb)
        requires
            old(self).wf(),
            old(self).boxes().contains_key(id@),
        ensures
            final(self).wf(),
            final(self).proxies == old(self).proxies,
            final(self).boxes() == old(self).boxes().insert(id@, aabb),
            final(self).moved_proxies == old(self).moved_proxies,
            old(self).synced() ==> final(self).synced(),
            bvh_view(final(self).bvh).shape() == bvh_view(old(self).bvh).shape(),
            final(self).walkable() == old(self).walkable(),
            final(self).roomy() == old(self).roomy(),
            forall|spare: nat| #[trigger]
                final(self).reinsertable(spare) == old(self).reinsertable(spare),
    {
        let node: u32 = self.leaf_of(id);
        set_leaf_box(&mut self.bvh, node, aabb);
        proof {
            lemma_same_walks(self.bvh, old(self).bvh);
        }
    }

    /// Replaces the bounding box of a proxy, also in the tree, and moves the proxy to the best
    /// place for it there.
    ///
    /// The boxes of the tree have to fit tightly, and still do. For that, the coordinates of the
    /// given box have to be numbers.
    pub fn reinsert_proxy(&mut self, id: ProxyId, aabb: Aabb)
        requires
            old(self).wf(),
            old(self).tight(),
            old(self).reinsertable(0),
            old(self).boxes().contains_key(id@),
            aabb_numeric(aabb),
        ensures
            final(self).wf(),
            final(self).proxies@ == old(self).proxies@.insert(
                id@ as int,
                ColliderTreeProxy { aabb, ..old(self).proxies@[id@ as int] },
            ),
            final(self).proxies.slot_count() == old(self).proxies.slot_count(),
            final(self).proxies.free_slots() == old(self).proxies.free_slots(),
            final(self).boxes() == old(self).boxes().insert(id@, aabb),
            final(self).moved_proxies == old(self).moved_proxies,
            old(self).synced() ==> final(self).synced(),
            final(self).tight(),
            bvh_moved(old(self).bvh, id@, aabb, final(self).bvh),
            bvh_grown(old(self).bvh, final(self).bvh, 1),
            forall|spare: nat|
                #![trigger final(self).reinsertable(spare)]
                old(self).reinsertable(spare + 1) ==> final(self).reinsertable(spare),
    {
        if let Some(proxy) = self.get_proxy_mut(id) {
            proxy.aabb = aabb;
        }
        let node: u32 = self.leaf_of(id);
        resize_leaf(&mut self.bvh, node, aabb);
        let ghost bvh = self.bvh;
        proof {
            lemma_same_walks(bvh, old(self).bvh);
        }
        reinsert_leaf(&mut self.bvh, node);
        proof {
            assert(bvh_moved_via(old(self).bvh, id@, aabb, node, bvh, self.bvh));
            assert(bvh_grown(old(self).bvh, self.bvh, 1)) by {
                assert forall|n: nat| #[trigger]
                    bvh_view(old(self).bvh).is_within(n) implies bvh_view(self.bvh).is_within(
                    n + 1,
                ) by {
                    lemma_same_levels(bvh_view(bvh), bvh_view(old(self).bvh), 0, n);
                    assert(bvh_view(bvh).is_within(n));
                }
            }
            assert forall|spare: nat| old(self).reinsertable(
                spare + 1,
            ) implies self.reinsertable(spare) by {
                assert(bvh_reinsertable(bvh, spare + 1));
                let levels = (2 * bvh_view(bvh).max_depth - (spare + 1)) as nat;
                if bvh_view(bvh).is_within(levels) {
                    assert(bvh_view(self.bvh).is_within(levels + 1));
                }
            }
        }
    }

    /// Computes where the leaf of each proxy is, if that is not known yet.
    pub fn init_primitives_to_nodes(&mut self)
        requires
            old(self).formed(),
            bvh_has_leaf_map(old(self).bvh) || bvh_slotted(old(self).bvh),
        ensures
            final(self).wf(),
            final(self).proxies == old(self).proxies,
            final(self).boxes() == old(self).boxes(),
            final(self).moved_proxies == old(self).moved_proxies,
            final(self).synced() == old(self).synced(),
            final(self).tight() == old(self).tight(),
            bvh_view(final(self).bvh) == bvh_view(old(self).bvh),
            final(self).walkable() == old(self).walkable(),
            final(self).roomy() == old(self).roomy(),
            forall|spare: nat| #[trigger]
                final(self).reinsertable(spare) == old(self).reinsertable(spare),
    {
        init_primitives_to_nodes(&mut self.bvh);
        assert(self.boxes() == old(self).boxes());
        proof {
            lemma_same_walks(self.bvh, old(self).bvh);
        }
    }

    /// Refits every box of the tree to what is below it.
    pub fn refit_all(&mut self)
        requires
            old(self).wf(),
            old(self).roomy(),
        ensures
            final(self).wf(),
            final(self).proxies == old(self).proxies,
            final(self).boxes() == old(self).boxes(),
            final(self).moved_proxies == old(self).moved_proxies,
            final(self).synced() == old(self).synced(),
            bvh_view(final(self).bvh).shape() == bvh_view(old(self).bvh).shape(),
            final(self).walkable() == old(self).walkable(),
            final(self).roomy() == old(self).roomy(),
            forall|spare: nat| #[trigger]
                final(self).reinsertable(spare) == old(self).reinsertable(spare),
            old(self).walkable() && old(self).boxes_numeric() ==> final(self).tight(),
            old(self).tight() ==> final(self).tight(),
    {
        refit_bvh(&mut self.bvh);
        proof {
            lemma_same_walks(self.bvh, old(self).bvh);
        }
    }

    /// Returns whether the tree has so few levels that no walk leaves anything out.
    pub fn is_walkable(&self) -> (res: bool)
        ensures
            res == self.walkable(),
    {
        let levels: usize = max_depth(&self.bvh);
        if levels <= STACK_LEVELS {
            is_within(&self.bvh, (STACK_LEVELS - 1) as u128)
        } else if levels <= LARGE_STACK_LEVELS {
            is_within(&self.bvh, (LARGE_STACK_LEVELS - 1) as u128)
        } else {
            is_within(&self.bvh, levels as u128)
        }
    }

    /// Returns whether walks of the tree do not run out of room on their stacks.
    ///
    /// That is so after a full rebuild, and as long as no rebuild has given the tree an unusual
    /// number of levels.
    pub fn is_roomy(&self) -> (res: bool)
        ensures
            res == self.roomy(),
    {
        let levels: usize = max_depth(&self.bvh);
        levels <= LARGE_STACK_LEVELS || is_within(&self.bvh, levels as u128)
    }

    /// Returns whether proxies can be reinserted without running out of room on a stack, also
    /// after the number of levels has grown by `spare`.
    pub fn is_reinsertable(&self, spare: usize) -> (res: bool)
        ensures
            res == self.reinsertable(spare as nat),
    {
        let levels: usize = max_depth(&self.bvh);
        if levels <= STACK_LEVELS || node_count(&self.bvh) == 0 {
            return true;
        }
        let room: u128 = 2 * (levels as u128);
        spare as u128 <= room && is_within(&self.bvh, room - spare as u128)
    }

    /// Returns whether the proxy with the given ID has a box in the tree.
    pub fn has_box(&self, id: ProxyId) -> (res: bool)
        requires
            bvh_intact(self.bvh),
        ensures
            res == self.boxes().contains_key(id@),
    {
        let ghost view = bvh_view(self.bvh);
        match mapped_leaf(&self.bvh, id.id()) {
            None => false,
            Some(node) => {
                if node as usize >= node_count(&self.bvh) {
                    return false;
                }
                let (first, count) = node_links(&self.bvh, node as usize);
                let end: u64 = first as u64 + count as u64;
                if end > slot_count(&self.bvh) as u64 {
                    return false;
                }
                let mut slot: u64 = first as u64;
                while slot < end
                    invariant
                        first <= slot <= end,
                        end == first + count,
                        end <= view.primitive_indices.len() <= usize::MAX,
                        view == bvh_view(self.bvh),
                        node < view.nodes.len(),
                        first == view.nodes[node as int].first_index,
                        count == view.nodes[node as int].prim_count,
                        forall|k: int|
                            first <= k < slot ==> #[trigger] view.primitive_indices[k] != id@,
                    decreases end - slot,
                {
                    if primitive_in_slot(&self.bvh, slot as usize) == id.id() {
                        proof {
                            assert(view.leaf_primitives(node)[slot - first] == id@);
                            assert(view.holds(node, id@));
                        }
                        return true;
                    }
                    slot = slot + 1;
                }
                proof {
                    if view.holds(node, id@) {
                        let k = choose|k: int|
                            0 <= k < view.leaf_primitives(node).len()
                                && view.leaf_primitives(node)[k] == id@;
                        assert(view.primitive_indices[first + k] == id@);
                    }
                }
                false
            },
        }
    }

    /// Returns whether the hierarchy can be rebuilt, which is so as long as every proxy has a box
    /// in it.
    pub fn is_rebuildable(&self) -> (res: bool)
        requires
            bvh_intact(self.bvh),
        ensures
            res == self.rebuildable(),
    {
        let ghost view = bvh_view(self.bvh);
        let nodes: usize = node_count(&self.bvh);
        let slots: usize = slot_count(&self.bvh);
        let mut node: u64 = 0;
        while node < nodes as u64 && node <= u32::MAX as u64
            invariant
                node <= u32::MAX + 1,
                nodes == view.nodes.len(),
                slots == view.primitive_indices.len(),
                view == bvh_view(self.bvh),
                forall|n: u32, p: u32| n < node && #[trigger] view.holds(n, p) ==> p < slots,
            decreases nodes as u64 - node,
        {
            let leaf: u32 = node as u32;
            let (first, count) = node_links(&self.bvh, leaf as usize);
            let start: u64 = first as u64;
            let end: u64 = start + count as u64;
            if end <= slots as u64 {
                let mut slot: u64 = start;
                while slot < end
                    invariant
                        start <= slot <= end,
                        end <= slots,
                        start == first,
                        end == start + count,
                        leaf < nodes,
                        nodes == view.nodes.len(),
                        slots == view.primitive_indices.len(),
                        view == bvh_view(self.bvh),
                        first == view.nodes[leaf as int].first_index,
                        count == view.nodes[leaf as int].prim_count,
                        forall|k: int|
                            start <= k < slot ==> #[trigger] view.primitive_indices[k] < slots,
                    decreases end - slot,
                {
                    let primitive: u32 = primitive_in_slot(&self.bvh, slot as usize);
                    if primitive as usize >= slots {
                        proof {
                            assert(view.leaf_primitives(leaf)[slot - start] == primitive);
                            assert(view.holds(leaf, primitive));
                            assert(self.boxes().contains_key(primitive));
                        }
                        return false;
                    }
                    slot = slot + 1;
                }
                proof {
                    assert forall|p: u32| #[trigger] view.holds(leaf, p) implies p < slots by {
                        let k = choose|k: int|
                            0 <= k < view.leaf_primitives(leaf).len()
                                && view.leaf_primitives(leaf)[k] == p;
                        assert(view.primitive_indices[start + k] == p);
                    }
                }
            }
            node = node + 1;
        }
        proof {
            assert forall|p: u32| #[trigger] self.boxes().contains_key(p) implies p < slots by {
                let n = choose|n: u32| view.holds(n, p);
                assert(view.holds(n, p));
            }
        }
        true
    }

    /// Returns whether the proxies that are listed as moved have boxes in the hierarchy.
    pub fn are_moved_boxed(&self) -> (res: bool)
        requires
            bvh_intact(self.bvh),
        ensures
            res == self.moved_boxed(),
    {
        let mut i: usize = 0;
        while i < self.moved_proxies.len()
            invariant
                i <= self.moved_proxies.len(),
                bvh_intact(self.bvh),
                forall|j: int|
                    0 <= j < i ==> self.boxes().contains_key((#[trigger] self.moved_proxies[j])@),
            decreases self.moved_proxies.len() - i,
        {
            if !self.has_box(self.moved_proxies[i]) {
                return false;
            }
            i = i + 1;
        }
        true
    }

    /// Returns the leaf that holds the given proxy.
    fn leaf_of(&self, id: ProxyId) -> (node: u32)
        requires
            bvh_intact(self.bvh),
            self.boxes().contains_key(id@),
        ensures
            bvh_view(self.bvh).holds(node, id@),
            bvh_view(self.bvh).is_leaf(node),
    {
        mapped_leaf(&self.bvh, id.id()).unwrap()
    }

    /// Returns the leaves that hold the given proxies, in the same order.
    pub fn leaves_of(&self, ids: &Vec<ProxyId>) -> (leaves: Vec<u32>)
        requires
            bvh_intact(self.bvh),
            forall|i: int| 0 <= i < ids.len() ==> self.boxes().contains_key(#[trigger] ids[i]@),
        ensures
            leaves.len() == ids.len(),
            forall|i: int|
                0 <= i < ids.len() ==> bvh_view(self.bvh).holds(#[trigger] leaves[i], ids[i]@),
    {
        let mut leaves: Vec<u32> = Vec::new();
        let mut i: usize = 0;
        while i < ids.len()
            invariant
                i <= ids.len(),
                leaves.len() == i,
                bvh_intact(self.bvh),
                forall|j: int|
                    0 <= j < ids.len() ==> self.boxes().contains_key(#[trigger] ids[j]@),
                forall|j: int|
                    0 <= j < i ==> bvh_view(self.bvh).holds(#[trigger] leaves[j], ids[j]@),
            decreases ids.len() - i,
        {
            let id: ProxyId = ids[i];
            assert(self.boxes().contains_key(ids[i as int]@));
            let leaf: u32 = self.leaf_of(id);
            leaves.push(leaf);
            i = i + 1;
        }
        leaves
    }

    /// Rebuilds the hierarchy from its leaves.
    pub fn rebuild_full(&mut self)
        requires
            old(self).rebuildable(),
        ensures
            final(self).optimized_from(*old(self)),
            final(self).rebuildable(),
            final(self).roomy(),
            final(self).reinsertable(0),
            old(self).tight() || old(self).boxes_numeric() ==> final(self).tight() && bvh_view(
                final(self).bvh,
            ).shape() == bvh_rebuilt(bvh_view(old(self).bvh)),
    {
        full_rebuild(&mut self.workspace.ploc_builder, &mut self.bvh);
        proof {
            let view = bvh_view(self.bvh);
            if view.nodes.len() > 0 {
                lemma_more_levels(view, 0, view.max_depth, 2 * view.max_depth);
            }
        }
    }

    /// Rebuilds the part of the hierarchy above the given leaves.
    pub fn rebuild_partial(&mut self, leaves: &Vec<u32>)
        requires
            old(self).rebuildable(),
            old(self).walkable(),
            old(self).all_leaves(leaves@),
        ensures
            final(self).optimized_from(*old(self)),
            final(self).rebuildable(),
            old(self).tight() || bvh_view(old(self).bvh).is_numeric() ==> bvh_view(
                final(self).bvh,
            ).shape() == bvh_partly_rebuilt(
                bvh_view(old(self).bvh),
                bvh_view(old(self).bvh).path_flags(leaves@),
            ),
    {
        init_parents(&mut self.bvh);
        assert(self.boxes() == old(self).boxes());
        let flags: Vec<bool> = rebuild_path_flags(&self.bvh, leaves);
        partial_rebuild(&mut self.workspace.ploc_builder, &mut self.bvh, &flags);
    }

    /// Returns whether there are not too many candidates for a reinsertion.
    ///
    /// That is so unless leaves are named twice, and there are better places for nearly all.
    pub fn can_take_candidates(&self, candidates: &Vec<u32>) -> (res: bool)
        requires
            bvh_intact(self.bvh),
            self.tight(),
            self.reinsertable(0),
            self.all_leaves(candidates@),
        ensures
            res == self.takes_candidates(candidates@),
    {
        let ghost view = bvh_view(self.bvh);
        let nodes: usize = node_count(&self.bvh);
        if nodes <= 3 || candidates.len() <= nodes {
            proof {
                lemma_better_places(view, candidates@);
            }
            return true;
        }
        let mut bvh = clone_bvh(&self.bvh);
        init_parents(&mut bvh);
        let mut places: usize = 0;
        let mut i: usize = 0;
        proof {
            assert(candidates@.take(0) =~= Seq::<u32>::empty());
        }
        while i < candidates.len()
            invariant
                i <= candidates.len(),
                places <= i,
                view == bvh_view(bvh),
                nodes > 3,
                nodes == view.nodes.len(),
                bvh_intact(bvh),
                bvh_has_parents(bvh),
                bvh_tight(bvh),
                bvh_reinsertable(bvh, 0),
                forall|j: int|
                    0 <= j < candidates.len() ==> view.is_leaf(#[trigger] candidates[j]),
                places == view.better_places(candidates@.take(i as int)),
            decreases candidates.len() - i,
        {
            proof {
                assert(candidates@.take(i + 1).drop_last() =~= candidates@.take(i as int));
            }
            let bits: u32 = reinsertion_gain(&bvh, candidates[i]);
            if 0 < bits && bits <= 0x7f80_0000 {
                places = places + 1;
            }
            i = i + 1;
        }
        proof {
            assert(candidates@.take(i as int) =~= candidates@);
        }
        places <= nodes
    }

    /// Moves the given leaves to better places.
    ///
    /// The boxes of the tree have to fit tightly, and still do.
    pub fn optimize_candidates(&mut self, candidates: &Vec<u32>)
        requires
            bvh_intact(old(self).bvh),
            old(self).tight(),
            old(self).reinsertable(0),
            old(self).takes_candidates(candidates@),
            old(self).all_leaves(candidates@),
        ensures
            final(self).optimized_from(*old(self)),
            bvh_intact(final(self).bvh),
            bvh_view(final(self).bvh).shape() == bvh_reinserted(
                bvh_view(old(self).bvh),
                candidates@,
                1,
            ),
    {
        reinsert_leaves(
            &mut self.workspace.reinsertion_optimizer,
            &mut self.bvh,
            candidates,
            1,
        );
    }
}

impl ColliderTree {
    /// Whether the hierarchy has so few levels that no walk leaves anything out.
    pub open spec fn walkable(self) -> bool {
        bvh_walkable(self.bvh)
    }

    /// Whether walks of the hierarchy do not run out of room on their stacks.
    pub open spec fn roomy(self) -> bool {
        bvh_roomy(self.bvh)
    }

    /// Whether proxies can be reinserted without running out of room on a stack, also after the
    /// number of levels has grown by `spare`.
    #[verifier::inline]
    pub open spec fn reinsertable(self, spare: nat) -> bool {
        bvh_reinsertable(self.bvh, spare)
    }

    /// Whether there are better places for at most as many of the candidates for a reinsertion as
    /// there are nodes, or so few nodes that there is none.
    pub open spec fn takes_candidates(self, candidates: Seq<u32>) -> bool {
        let view = bvh_view(self.bvh);
        view.nodes.len() <= 3 || view.better_places(candidates) <= view.nodes.len()
    }

    /// Whether the coordinates of every box of a proxy are numbers.
    pub open spec fn boxes_numeric(self) -> bool {
        bvh_numeric(self.bvh)
    }

    /// Whether the hierarchy is intact, with a slot for every number up to that of its
    /// last primitive.
    pub open spec fn rebuildable(self) -> bool {
        bvh_intact(self.bvh) && bvh_slotted(self.bvh)
    }

    /// Whether the proxies that are listed as moved have boxes in the hierarchy.
    pub open spec fn moved_boxed(self) -> bool {
        forall|i: int|
            0 <= i < self.moved_proxies.len() ==> self.boxes().contains_key(
                (#[trigger] self.moved_proxies[i])@,
            )
    }

    /// Whether the given nodes of the hierarchy are leaves.
    pub open spec fn all_leaves(self, nodes: Seq<u32>) -> bool {
        forall|i: int| 0 <= i < nodes.len() ==> bvh_view(self.bvh).is_leaf(#[trigger] nodes[i])
    }

    /// Whether the tree differs from `before` only in the shape of its hierarchy.
    pub open spec fn optimized_from(self, before: ColliderTree) -> bool {
        &&& self.proxies == before.proxies
        &&& self.moved_proxies == before.moved_proxies
        &&& self.boxes() == before.boxes()
        &&& bvh_view(self.bvh).primitive_indices == bvh_view(before.bvh).primitive_indices
        &&& before.tight() ==> self.tight()
        &&& before.wf() ==> self.wf()
        &&& before.synced() ==> self.synced()
    }

    /// If proxies can be reinserted after some growth, then also without it.
    pub proof fn lemma_reinsertable(&self, spare: nat)
        requires
            self.reinsertable(spare),
        ensures
            self.reinsertable(0),
    {
        let view = bvh_view(self.bvh);
        let room = 2 * view.max_depth;
        if view.nodes.len() > 0 && spare <= room && view.is_within((room - spare) as nat) {
            lemma_more_levels(view, 0, (room - spare) as nat, room);
        }
    }

    /// A tree with few levels is walked completely and without running out of room, and its
    /// proxies can be reinserted, whatever the number of levels for which stacks are made.
    pub proof fn small_tree_is_walkable(&self, levels: nat)
        requires
            bvh_view(self.bvh).is_within(levels),
            levels < STACK_LEVELS,
        ensures
            self.walkable(),
            self.roomy(),
            self.reinsertable(0),
    {
        let view = bvh_view(self.bvh);
        if view.nodes.len() > 0 {
            lemma_more_levels(view, 0, levels, walked_levels(view.max_depth));
            if view.max_depth > STACK_LEVELS {
                lemma_more_levels(view, 0, levels, view.max_depth);
                lemma_more_levels(view, 0, levels, 2 * view.max_depth);
            }
        }
    }

    /// There are too many candidates for a reinsertion only if there are more of them than nodes,
    /// and more than three nodes, and then better places for more of them than there are nodes.
    pub proof fn few_candidates_are_taken(&self, candidates: Seq<u32>)
        ensures
            candidates.len() <= bvh_view(self.bvh).nodes.len() ==> self.takes_candidates(
                candidates,
            ),
            bvh_view(self.bvh).nodes.len() <= 3 ==> self.takes_candidates(candidates),
            bvh_view(self.bvh).nodes.len() > 3 && self.takes_candidates(candidates) ==> bvh_view(
                self.bvh,
            ).better_places(candidates) <= bvh_view(self.bvh).nodes.len(),
    {
        lemma_better_places(bvh_view(self.bvh), candidates);
    }

    /// The hierarchy of a tree with a box for every proxy can be rebuilt.
    pub proof fn lemma_rebuildable(&self)
        requires
            self.wf(),
            self.synced(),
        ensures
            self.rebuildable(),
    {
        self.proxies.lemma_indices();
    }
}

/// A collider has the sensor flag exactly if it is a sensor, the flag for a custom filter exactly
/// if its hooks filter pairs, and the flag for modified contacts exactly if its hooks modify
/// contacts. It has no other flags.
pub proof fn flags_of_a_collider(is_sensor: bool, active_hooks: ActiveCollisionHooks)
    ensures
        ColliderTreeProxyFlags::of(is_sensor, active_hooks).sensor <==> is_sensor,
        ColliderTreeProxyFlags::of(is_sensor, active_hooks).custom_filter
            <==> active_hooks.filter_pairs,
        ColliderTreeProxyFlags::of(is_sensor, active_hooks).modify_contacts
            <==> active_hooks.modify_contacts,
        !ColliderTreeProxyFlags::of(is_sensor, active_hooks).body_disabled,
        !ColliderTreeProxyFlags::of(is_sensor, active_hooks).contact_events,
{
}

/// Flags are joined flag by flag: what one of the two has, the union has, and what neither has, it
/// does not have. The order does not matter, and joining flags with themselves changes nothing.
pub proof fn union_has_the_flags_of_both(a: ColliderTreeProxyFlags, b: ColliderTreeProxyFlags)
    ensures
        a.spec_union(b) == b.spec_union(a),
        a.spec_union(a) == a,
        a.spec_union(b).spec_union(b) == a.spec_union(b),
        a.sensor ==> a.spec_union(b).sensor,
        a.body_disabled ==> a.spec_union(b).body_disabled,
        a.custom_filter ==> a.spec_union(b).custom_filter,
        a.modify_contacts ==> a.spec_union(b).modify_contacts,
        a.contact_events ==> a.spec_union(b).contact_events,
        !a.sensor && !b.sensor ==> !a.spec_union(b).sensor,
        !a.body_disabled && !b.body_disabled ==> !a.spec_union(b).body_disabled,
        !a.custom_filter && !b.custom_filter ==> !a.spec_union(b).custom_filter,
        !a.modify_contacts && !b.modify_contacts ==> !a.spec_union(b).modify_contacts,
        !a.contact_events && !b.contact_events ==> !a.spec_union(b).contact_events,
{
}

} // verus!
