//! Keeping the collider trees up to date as colliders move.

use crate::bvh::{
    aabb_intersects, aabb_numeric, bvh_grown, bvh_moved, bvh_view, is_numeric, lemma_grown_twice,
};
use crate::change_detection::{is_newer_than, newer_than};
use crate::collider_tree::observers::{
    changing_keeps_one_proxy_each, moved_exist, one_proxy_each,
};
use crate::collider_tree::proxy_key::{
    proxy_id_ext, proxy_key_ext, proxy_key_round_trip, ColliderTreeProxyKey, ColliderTreeType,
    ProxyId, PROXY_ID_LIMIT,
};
use crate::collider_tree::tree::{ColliderTree, ColliderTreeProxy};
use crate::collider_tree::ColliderTrees;
use crate::data_structures::bit_vec::{block_bit, BitVec};
use crate::data_structures::key_set::{
    new_set, set_clear, set_contains, set_insert, set_of, set_remove,
};
use crate::entity::Entity;
use bevy::platform::collections::HashSet;
use obvhs::aabb::Aabb;
use obvhs::bvh2::Bvh2;
use vstd::prelude::*;

verus! {

/// The keys after inserting `key`: it is added at the end unless it is there already.
pub open spec fn keys_with(
    keys: Seq<ColliderTreeProxyKey>,
    key: ColliderTreeProxyKey,
) -> Seq<ColliderTreeProxyKey> {
    if keys.contains(key) {
        keys
    } else {
        keys.push(key)
    }
}

/// The keys after removing `key`: the last key takes its place.
pub open spec fn keys_without(
    keys: Seq<ColliderTreeProxyKey>,
    key: ColliderTreeProxyKey,
) -> Seq<ColliderTreeProxyKey> {
    if keys.contains(key) {
        keys.update(keys.index_of(key), keys.last()).drop_last()
    } else {
        keys
    }
}

/// The proxies that have moved.
///
/// Moved proxies are those whose bounding box has moved outside of their previous enlarged
/// bounding box, or whose collider has been added to a tree.
pub struct MovedProxies {
    /// The keys of the moved proxies.
    proxies: Vec<ColliderTreeProxyKey>,
    /// The same keys, as numbers, for quick lookup.
    set: HashSet<u64>,
}

impl View for MovedProxies {
    type V = Seq<ColliderTreeProxyKey>;

    /// The keys of the moved proxies.
    closed spec fn view(&self) -> Seq<ColliderTreeProxyKey> {
        self.proxies@
    }
}

impl MovedProxies {
    /// Whether no key occurs twice, and the lookup set holds the same keys.
    pub closed spec fn wf(self) -> bool {
        &&& self.proxies@.no_duplicates()
        &&& forall|v: u64| #[trigger]
            set_of(self.set).contains(v) <==> exists|i: int|
                0 <= i < self.proxies.len() && #[trigger] self.proxies[i]@ as u64 == v
    }

    /// No key occurs twice.
    pub proof fn lemma_no_duplicates(&self)
        requires
            self.wf(),
        ensures
            self@.no_duplicates(),
    {
    }

    proof fn lemma_lookup(&self, key: ColliderTreeProxyKey)
        requires
            self.wf(),
        ensures
            set_of(self.set).contains(key@ as u64) == self@.contains(key),
    {
        broadcast use proxy_key_ext;

        if set_of(self.set).contains(key@ as u64) {
            let i = choose|i: int|
                0 <= i < self.proxies.len() && #[trigger] self.proxies[i]@ as u64 == key@ as u64;
            assert(self.proxies[i] == key);
        }
        if self@.contains(key) {
            let i = choose|i: int| 0 <= i < self.proxies.len() && self.proxies[i] == key;
            assert(self.proxies[i]@ as u64 == key@ as u64);
        }
    }

    /// Creates an empty list of moved proxies.
    pub fn new() -> (res: Self)
        ensures
            res.wf(),
            res@ == Seq::<ColliderTreeProxyKey>::empty(),
    {
        MovedProxies { proxies: Vec::new(), set: new_set() }
    }

    /// Returns the keys of the moved proxies.
    ///
    /// The order of the keys is the order in which they were inserted, as long as none is
    /// removed.
    pub fn proxies(&self) -> (res: &[ColliderTreeProxyKey])
        ensures
            res@ == self@,
    {
        self.proxies.as_slice()
    }

    /// Returns `true` if the proxy with the given key has moved.
    pub fn contains(&self, proxy_key: ColliderTreeProxyKey) -> (res: bool)
        requires
            self.wf(),
        ensures
            res == self@.contains(proxy_key),
    {
        proof {
            self.lemma_lookup(proxy_key);
        }
        set_contains(&self.set, proxy_key.bits() as u64)
    }

    /// Inserts a moved proxy key.
    ///
    /// If the proxy key is already present, it is not added again.
    pub fn insert(&mut self, proxy_key: ColliderTreeProxyKey)
        requires
            old(self).wf(),
        ensures
            final(self).wf(),
            final(self)@ == keys_with(old(self)@, proxy_key),
            final(self)@.contains(proxy_key),
            forall|key: ColliderTreeProxyKey| #[trigger]
                final(self)@.contains(key) <==> old(self)@.contains(key) || key == proxy_key,
    {
        proof {
            self.lemma_lookup(proxy_key);
            keys_with_members(self@, proxy_key);
        }
        if set_insert(&mut self.set, proxy_key.bits() as u64) {
            self.proxies.push(proxy_key);
            proof {
                assert forall|v: u64| #[trigger]
                    set_of(self.set).contains(v) <==> exists|i: int|
                        0 <= i < self.proxies.len() && #[trigger] self.proxies[i]@ as u64 == v by {
                    if set_of(self.set).contains(v) {
                        if v == proxy_key@ as u64 {
                            assert(self.proxies[self.proxies.len() - 1]@ as u64 == v);
                        } else {
                            let i = choose|i: int|
                                0 <= i < old(self).proxies.len()
                                    && #[trigger] old(self).proxies[i]@ as u64 == v;
                            assert(self.proxies[i]@ as u64 == v);
                        }
                    }
                    if exists|i: int|
                        0 <= i < self.proxies.len() && #[trigger] self.proxies[i]@ as u64 == v {
                        let i = choose|i: int|
                            0 <= i < self.proxies.len() && #[trigger] self.proxies[i]@ as u64 == v;
                        if i < old(self).proxies.len() {
                            assert(old(self).proxies[i]@ as u64 == v);
                        }
                    }
                }
                assert forall|i: int| 0 <= i < old(self).proxies.len() implies old(self).proxies[i]
                    != proxy_key by {
                    assert(old(self)@.contains(old(self).proxies[i]));
                }
            }
        } else {
            assert(set_of(self.set) =~= set_of(old(self).set));
        }
    }

    /// Removes a moved proxy key. This uses a linear search,
    /// and may change the order of the remaining keys.
    ///
    /// If the proxy key is not present, nothing happens.
    pub fn remove(&mut self, proxy_key: &ColliderTreeProxyKey)
        requires
            old(self).wf(),
        ensures
            final(self).wf(),
            final(self)@ == keys_without(old(self)@, *proxy_key),
            !final(self)@.contains(*proxy_key),
            forall|key: ColliderTreeProxyKey| #[trigger]
                final(self)@.contains(key) <==> old(self)@.contains(key) && key != *proxy_key,
    {
        proof {
            self.lemma_lookup(*proxy_key);
            keys_without_members(self@, *proxy_key);
        }
        if set_remove(&mut self.set, proxy_key.bits() as u64) {
            let mut pos: usize = 0;
            while self.proxies[pos] != *proxy_key
                invariant
                    pos < self.proxies.len(),
                    self.proxies == old(self).proxies,
                    self.proxies@.contains(*proxy_key),
                    forall|j: int| 0 <= j < pos ==> self.proxies[j] != *proxy_key,
                decreases self.proxies.len() - pos,
            {
                let ghost k = choose|k: int|
                    0 <= k < self.proxies.len() && self.proxies[k] == *proxy_key;
                pos = pos + 1;
            }
            self.proxies.swap_remove(pos);
            proof {
                let before = old(self).proxies@;
                assert(before.index_of(*proxy_key) == pos);
                assert(self.proxies@ =~= keys_without(before, *proxy_key));
                keys_without_members(before, *proxy_key);
                self.lemma_set_without(*old(self), *proxy_key);
            }
        } else {
            assert(set_of(self.set) =~= set_of(old(self).set));
        }
    }

    proof fn lemma_set_without(&self, before: MovedProxies, key: ColliderTreeProxyKey)
        requires
            before.wf(),
            set_of(self.set) == set_of(before.set).remove(key@ as u64),
            forall|k: ColliderTreeProxyKey| #[trigger]
                self@.contains(k) <==> before@.contains(k) && k != key,
            self@.no_duplicates(),
        ensures
            self.wf(),
    {
        broadcast use proxy_key_ext;

        assert forall|v: u64| #[trigger]
            set_of(self.set).contains(v) <==> exists|i: int|
                0 <= i < self.proxies.len() && #[trigger] self.proxies[i]@ as u64 == v by {
            if set_of(self.set).contains(v) {
                let i = choose|i: int|
                    0 <= i < before.proxies.len() && #[trigger] before.proxies[i]@ as u64 == v;
                let k = before.proxies[i];
                assert(before@.contains(k));
                assert(k != key);
                assert(self@.contains(k));
                let j = choose|j: int| 0 <= j < self.proxies.len() && self.proxies[j] == k;
                assert(self.proxies[j]@ as u64 == v);
            }
            if exists|i: int|
                0 <= i < self.proxies.len() && #[trigger] self.proxies[i]@ as u64 == v {
                let i = choose|i: int|
                    0 <= i < self.proxies.len() && #[trigger] self.proxies[i]@ as u64 == v;
                let k = self.proxies[i];
                assert(self@.contains(k));
                assert(before@.contains(k));
                let j = choose|j: int| 0 <= j < before.proxies.len() && before.proxies[j] == k;
                assert(before.proxies[j]@ as u64 == v);
                assert(k@ != key@);
            }
        }
    }

    /// Clears the moved proxies.
    pub fn clear(&mut self)
        ensures
            final(self).wf(),
            final(self)@ == Seq::<ColliderTreeProxyKey>::empty(),
    {
        self.proxies.clear();
        set_clear(&mut self.set);
    }
}

/// Removing a key takes out that key and no other, and keeps the keys distinct.
pub proof fn keys_without_members(keys: Seq<ColliderTreeProxyKey>, key: ColliderTreeProxyKey)
    requires
        keys.no_duplicates(),
    ensures
        keys_without(keys, key).no_duplicates(),
        forall|k: ColliderTreeProxyKey| #[trigger]
            keys_without(keys, key).contains(k) <==> keys.contains(k) && k != key,
{
    if keys.contains(key) {
        let i = keys.index_of(key);
        let after = keys_without(keys, key);
        assert forall|k: ColliderTreeProxyKey| #[trigger]
            after.contains(k) <==> keys.contains(k) && k != key by {
            if after.contains(k) {
                let j = choose|j: int| 0 <= j < after.len() && after[j] == k;
                if j == i {
                    assert(keys[keys.len() - 1] == k);
                } else {
                    assert(keys[j] == k);
                }
            }
            if keys.contains(k) && k != key {
                let j = choose|j: int| 0 <= j < keys.len() && keys[j] == k;
                if j == keys.len() - 1 {
                    assert(after[i] == k);
                } else {
                    assert(after[j] == k);
                }
            }
        }
    }
}

/// Inserting a key adds that key and no other, keeps the keys distinct and in order, and
/// makes no difference the second time.
pub proof fn keys_with_members(keys: Seq<ColliderTreeProxyKey>, key: ColliderTreeProxyKey)
    requires
        keys.no_duplicates(),
    ensures
        keys_with(keys, key).no_duplicates(),
        keys.is_prefix_of(keys_with(keys, key)),
        keys_with(keys_with(keys, key), key) == keys_with(keys, key),
        forall|k: ColliderTreeProxyKey| #[trigger]
            keys_with(keys, key).contains(k) <==> keys.contains(k) || k == key,
{
    let after = keys_with(keys, key);
    if !keys.contains(key) {
        assert forall|k: ColliderTreeProxyKey| #[trigger]
            after.contains(k) <==> keys.contains(k) || k == key by {
            if keys.contains(k) {
                let j = choose|j: int| 0 <= j < keys.len() && keys[j] == k;
                assert(after[j] == k);
            }
            if k == key {
                assert(after[keys.len() as int] == k);
            }
        }
    }
}

/// Removing a key that was just inserted gives back the keys as they were.
pub proof fn keys_with_then_without(keys: Seq<ColliderTreeProxyKey>, key: ColliderTreeProxyKey)
    requires
        keys.no_duplicates(),
        !keys.contains(key),
    ensures
        keys_without(keys_with(keys, key), key) == keys,
{
    let with = keys_with(keys, key);
    assert(with[keys.len() as int] == key);
    assert(with.index_of(key) == keys.len());
    assert(keys_without(with, key) =~= keys);
}

/// Bit vectors for tracking moved dynamic and kinematic proxies.
///
/// Set bits indicate the numbers of the [`ProxyId`]s of moved proxies.
pub struct EnlargedProxiesBitVec {
    /// The moved proxies of dynamic bodies.
    pub dynamic: BitVec,
    /// The moved proxies of kinematic bodies.
    pub kinematic: BitVec,
}

impl EnlargedProxiesBitVec {
    /// Creates bit vectors without any bits.
    pub fn new() -> (res: Self)
        ensures
            res.dynamic@ == Set::<int>::empty(),
            res.kinematic@ == Set::<int>::empty(),
            res.has_capacity(0, 0),
    {
        EnlargedProxiesBitVec { dynamic: BitVec::new(), kinematic: BitVec::new() }
    }

    /// Whether there is room for the given numbers of proxies, and not for a block more.
    pub open spec fn has_capacity(self, dynamic_capacity: nat, kinematic_capacity: nat) -> bool {
        &&& self.dynamic.spec_block_count() == (dynamic_capacity + 63) / 64
        &&& self.kinematic.spec_block_count() == (kinematic_capacity + 63) / 64
    }

    /// Whether there is as much room as in the other bit vectors.
    pub open spec fn same_capacity(self, other: Self) -> bool {
        &&& self.dynamic.spec_block_count() == other.dynamic.spec_block_count()
        &&& self.kinematic.spec_block_count() == other.kinematic.spec_block_count()
    }

    /// Clears the bit vectors and makes room for the given numbers of proxies.
    pub fn clear_and_set_capacity(&mut self, dynamic_capacity: usize, kinematic_capacity: usize)
        ensures
            final(self).dynamic@ == Set::<int>::empty(),
            final(self).kinematic@ == Set::<int>::empty(),
            final(self).has_capacity(dynamic_capacity as nat, kinematic_capacity as nat),
    {
        self.dynamic.set_bit_count_and_clear(dynamic_capacity);
        self.kinematic.set_bit_count_and_clear(kinematic_capacity);
    }

    /// Marks a proxy of a dynamic or kinematic body as moved.
    pub fn mark(&mut self, proxy_key: ColliderTreeProxyKey)
        requires
            match proxy_key.spec_tree_type() {
                ColliderTreeType::Dynamic => proxy_key.spec_id() < 64
                    * old(self).dynamic.spec_block_count(),
                ColliderTreeType::Kinematic => proxy_key.spec_id() < 64
                    * old(self).kinematic.spec_block_count(),
                _ => false,
            },
        ensures
            final(self).same_capacity(*old(self)),
            final(self).dynamic@ == if proxy_key.spec_tree_type() == ColliderTreeType::Dynamic {
                old(self).dynamic@.insert(proxy_key.spec_id() as int)
            } else {
                old(self).dynamic@
            },
            final(self).kinematic@ == if proxy_key.spec_tree_type() == ColliderTreeType::Kinematic {
                old(self).kinematic@.insert(proxy_key.spec_id() as int)
            } else {
                old(self).kinematic@
            },
    {
        if proxy_key.is_dynamic() {
            self.dynamic.set(proxy_key.id().index());
        } else {
            self.kinematic.set(proxy_key.id().index());
        }
    }
}

/// Whether one of the first `n` bit vectors marks the dynamic proxy with the given number.
pub open spec fn dynamic_in_one_of(
    bit_vecs: Seq<EnlargedProxiesBitVec>,
    n: int,
    number: int,
) -> bool {
    exists|k: int| 0 <= k < n && (#[trigger] bit_vecs[k]).dynamic@.contains(number)
}

/// Whether one of the first `n` bit vectors marks the kinematic proxy with the given number.
pub open spec fn kinematic_in_one_of(
    bit_vecs: Seq<EnlargedProxiesBitVec>,
    n: int,
    number: int,
) -> bool {
    exists|k: int| 0 <= k < n && (#[trigger] bit_vecs[k]).kinematic@.contains(number)
}

/// The dynamic and kinematic proxies whose bounding box has moved outside of the previous
/// enlarged bounding box.
pub struct EnlargedProxies {
    /// The moved proxies that all threads have found.
    pub bit_vec: EnlargedProxiesBitVec,
    /// The moved proxies that each of the threads has found.
    pub thread_local_bit_vec: Vec<EnlargedProxiesBitVec>,
}

impl EnlargedProxies {
    /// Creates bit vectors without any bits, and none for threads.
    pub fn new() -> (res: Self)
        ensures
            res.bit_vec.dynamic@ == Set::<int>::empty(),
            res.bit_vec.kinematic@ == Set::<int>::empty(),
            res.bit_vec.has_capacity(0, 0),
            res.thread_local_bit_vec@ == Seq::<EnlargedProxiesBitVec>::empty(),
    {
        EnlargedProxies { bit_vec: EnlargedProxiesBitVec::new(), thread_local_bit_vec: Vec::new() }
    }

    /// Clears the enlarged proxies and sets the capacity of the internal structures.
    pub fn clear_and_set_capacity(&mut self, dynamic_capacity: usize, kinematic_capacity: usize)
        ensures
            final(self).bit_vec.dynamic@ == Set::<int>::empty(),
            final(self).bit_vec.kinematic@ == Set::<int>::empty(),
            final(self).bit_vec.has_capacity(dynamic_capacity as nat, kinematic_capacity as nat),
            final(self).thread_local_bit_vec.len() == old(self).thread_local_bit_vec.len(),
            forall|k: int|
                0 <= k < final(self).thread_local_bit_vec.len() ==> {
                    let bit_vec = #[trigger] final(self).thread_local_bit_vec[k];
                    &&& bit_vec.dynamic@ == Set::<int>::empty()
                    &&& bit_vec.kinematic@ == Set::<int>::empty()
                    &&& bit_vec.has_capacity(dynamic_capacity as nat, kinematic_capacity as nat)
                },
    {
        self.bit_vec.clear_and_set_capacity(dynamic_capacity, kinematic_capacity);
        let mut i: usize = 0;
        while i < self.thread_local_bit_vec.len()
            invariant
                i <= self.thread_local_bit_vec.len(),
                self.thread_local_bit_vec.len() == old(self).thread_local_bit_vec.len(),
                self.bit_vec.dynamic@ == Set::<int>::empty(),
                self.bit_vec.kinematic@ == Set::<int>::empty(),
                self.bit_vec.has_capacity(dynamic_capacity as nat, kinematic_capacity as nat),
                forall|k: int|
                    0 <= k < i ==> {
                        let bit_vec = #[trigger] self.thread_local_bit_vec[k];
                        &&& bit_vec.dynamic@ == Set::<int>::empty()
                        &&& bit_vec.kinematic@ == Set::<int>::empty()
                        &&& bit_vec.has_capacity(
                            dynamic_capacity as nat,
                            kinematic_capacity as nat,
                        )
                    },
            decreases self.thread_local_bit_vec.len() - i,
        {
            self.thread_local_bit_vec[i].clear_and_set_capacity(
                dynamic_capacity,
                kinematic_capacity,
            );
            i = i + 1;
        }
    }

    /// Combines the thread-local enlarged proxy bit vectors into the main one.
    pub fn combine_thread_local(&mut self)
        requires
            forall|k: int|
                0 <= k < old(self).thread_local_bit_vec.len() ==> (
                #[trigger] old(self).thread_local_bit_vec[k]).same_capacity(old(self).bit_vec),
        ensures
            final(self).thread_local_bit_vec == old(self).thread_local_bit_vec,
            final(self).bit_vec.same_capacity(old(self).bit_vec),
            forall|i: int| #[trigger]
                final(self).bit_vec.dynamic@.contains(i) <==> old(self).bit_vec.dynamic@.contains(i)
                    || dynamic_in_one_of(
                    old(self).thread_local_bit_vec@,
                    old(self).thread_local_bit_vec.len() as int,
                    i,
                ),
            forall|i: int| #[trigger]
                final(self).bit_vec.kinematic@.contains(i)
                    <==> old(self).bit_vec.kinematic@.contains(i) || kinematic_in_one_of(
                    old(self).thread_local_bit_vec@,
                    old(self).thread_local_bit_vec.len() as int,
                    i,
                ),
    {
        let mut n: usize = 0;
        while n < self.thread_local_bit_vec.len()
            invariant
                n <= self.thread_local_bit_vec.len(),
                self.thread_local_bit_vec == old(self).thread_local_bit_vec,
                self.bit_vec.same_capacity(old(self).bit_vec),
                forall|k: int|
                    0 <= k < old(self).thread_local_bit_vec.len() ==> (
                    #[trigger] old(self).thread_local_bit_vec[k]).same_capacity(old(self).bit_vec),
                forall|i: int| #[trigger]
                    self.bit_vec.dynamic@.contains(i) <==> old(self).bit_vec.dynamic@.contains(i)
                        || dynamic_in_one_of(old(self).thread_local_bit_vec@, n as int, i),
                forall|i: int| #[trigger]
                    self.bit_vec.kinematic@.contains(i)
                        <==> old(self).bit_vec.kinematic@.contains(i) || kinematic_in_one_of(
                        old(self).thread_local_bit_vec@,
                        n as int,
                        i,
                    ),
            decreases self.thread_local_bit_vec.len() - n,
        {
            let ghost before = self.bit_vec;
            let ghost added = self.thread_local_bit_vec[n as int];
            assert(added == old(self).thread_local_bit_vec[n as int]);
            self.bit_vec.dynamic.or(&self.thread_local_bit_vec[n].dynamic);
            self.bit_vec.kinematic.or(&self.thread_local_bit_vec[n].kinematic);
            n = n + 1;
            proof {
                let all = old(self).thread_local_bit_vec@;
                assert forall|i: int| #[trigger]
                    self.bit_vec.dynamic@.contains(i) <==> old(self).bit_vec.dynamic@.contains(i)
                        || dynamic_in_one_of(all, n as int, i) by {
                    assert(self.bit_vec.dynamic@.contains(i) <==> before.dynamic@.contains(i)
                        || added.dynamic@.contains(i));
                    if added.dynamic@.contains(i) {
                        assert(all[n - 1].dynamic@.contains(i));
                    }
                }
                assert forall|i: int| #[trigger]
                    self.bit_vec.kinematic@.contains(i)
                        <==> old(self).bit_vec.kinematic@.contains(i)
                        || kinematic_in_one_of(all, n as int, i) by {
                    assert(self.bit_vec.kinematic@.contains(i) <==> before.kinematic@.contains(i)
                        || added.kinematic@.contains(i));
                    if added.kinematic@.contains(i) {
                        assert(all[n - 1].kinematic@.contains(i));
                    }
                }
            }
        }
    }
}

/// Whether the IDs are listed in ascending order, and their numbers are those in the set.
pub open spec fn lists_ascending(ids: Seq<ProxyId>, numbers: Set<int>) -> bool {
    &&& forall|i: int, j: int|
        0 <= i < j < ids.len() ==> (#[trigger] ids[i])@ < (#[trigger] ids[j])@
    &&& forall|i: int| 0 <= i < ids.len() ==> numbers.contains((#[trigger] ids[i])@ as int)
    &&& forall|n: int| #[trigger]
        numbers.contains(n) ==> exists|i: int| 0 <= i < ids.len() && (#[trigger] ids[i])@ == n
}

/// The lowest set bit of a block is one, and clearing it leaves the bits above it.
proof fn lemma_clear_lowest_bit(bits: u64)
    requires
        bits != 0,
    ensures
        bits.trailing_zeros() < 64,
        block_bit(bits, bits.trailing_zeros() as int),
        forall|b: int| #[trigger] block_bit(bits, b) ==> b >= bits.trailing_zeros(),
        forall|b: int| #[trigger]
            block_bit(bits & (bits - 1) as u64, b) <==> block_bit(bits, b) && b
                != bits.trailing_zeros(),
        (bits & (bits - 1) as u64) < bits,
{
    broadcast use vstd::std_specs::bits::group_bits_axioms;

    let z: u64 = bits.trailing_zeros() as u64;
    let cleared: u64 = bits & (bits - 1) as u64;
    assert(cleared < bits) by (bit_vector)
        requires
            bits != 0,
            cleared == bits & (bits - 1) as u64,
    ;
    assert forall|b: int| #[trigger] block_bit(bits, b) implies b >= z by {
        let j: u64 = b as u64;
        if j < z {
            assert((bits >> j) & 1u64 == 0u64);
        }
    }
    let above: u64 = (64 - z) as u64;
    assert(bits << above == 0);
    assert forall|b: int| #[trigger]
        block_bit(cleared, b) <==> block_bit(bits, b) && b != z by {
        if 0 <= b < 64 {
            let j: u64 = b as u64;
            assert((cleared >> j) & 1 == 1 <==> (bits >> j) & 1 == 1 && j != z) by (bit_vector)
                requires
                    z < 64,
                    j < 64,
                    above == 64 - z,
                    bits << above == 0,
                    (bits >> z) & 1 == 1,
                    cleared == bits & (bits - 1) as u64,
            ;
        }
    }
}

/// Returns the IDs whose bits are set, in ascending order.
pub fn enlarged_ids(bit_vec: &BitVec) -> (ids: Vec<ProxyId>)
    requires
        64 * bit_vec.spec_block_count() <= PROXY_ID_LIMIT,
    ensures
        lists_ascending(ids@, bit_vec@),
{
    let mut ids: Vec<ProxyId> = Vec::new();
    let mut i: usize = 0;
    proof {
        bit_vec.lemma_view();
    }
    while i < bit_vec.block_count()
        invariant
            i <= bit_vec.spec_block_count(),
            64 * bit_vec.spec_block_count() <= PROXY_ID_LIMIT,
            lists_ascending(ids@, bit_vec@.filter(|n: int| n < 64 * i)),
        decreases bit_vec.spec_block_count() - i,
    {
        let block: u64 = bit_vec.block(i);
        let mut bits: u64 = block;
        let ghost base: int = 64 * i;
        proof {
            bit_vec.lemma_view();
            assert(bit_vec@.filter(|n: int| n < base || n < base + 64 && !block_bit(bits, n - base))
                =~= bit_vec@.filter(|n: int| n < 64 * i)) by {
                assert forall|n: int|
                    bit_vec@.contains(n) && base <= n < base + 64 implies block_bit(
                    block,
                    n - base,
                ) by {
                    assert(n / 64 == i && n % 64 == n - base);
                }
            }
        }
        while bits != 0
            invariant
                i < bit_vec.spec_block_count(),
                64 * bit_vec.spec_block_count() <= PROXY_ID_LIMIT,
                base == 64 * i,
                block == bit_vec.spec_blocks()[i as int],
                forall|b: int| #[trigger] block_bit(bits, b) ==> block_bit(block, b),
                forall|b: int, c: int|
                    block_bit(block, b) && !(#[trigger] block_bit(bits, b)) && #[trigger] block_bit(
                        bits,
                        c,
                    ) ==> b < c,
                lists_ascending(
                    ids@,
                    bit_vec@.filter(
                        |n: int| n < base || n < base + 64 && !block_bit(bits, n - base),
                    ),
                ),
            decreases bits,
        {
            let trailing_zeros: u32 = bits.trailing_zeros();
            let ghost bits0 = bits;
            proof {
                lemma_clear_lowest_bit(bits);
            }
            let proxy_id = ProxyId::new(i as u32 * 64 + trailing_zeros);
            let ghost ids0 = ids@;
            ids.push(proxy_id);
            // Clear the least significant set bit.
            bits = bits & (bits - 1);
            proof {
                let z = trailing_zeros as int;
                let listed0 = bit_vec@.filter(
                    |n: int| n < base || n < base + 64 && !block_bit(bits0, n - base),
                );
                let listed = bit_vec@.filter(
                    |n: int| n < base || n < base + 64 && !block_bit(bits, n - base),
                );
                bit_vec.lemma_view();
                assert(bit_vec@.contains(base + z)) by {
                    assert((base + z) / 64 == i && (base + z) % 64 == z);
                    assert(block_bit(block, z));
                }
                assert(listed =~= listed0.insert(base + z));
                assert forall|j: int| 0 <= j < ids0.len() implies (#[trigger] ids0[j])@ < base
                    + z by {
                    let n = ids0[j]@ as int;
                    assert(listed0.contains(n));
                    if n >= base {
                        assert(n / 64 == i && n % 64 == n - base);
                        assert(block_bit(block, n - base));
                        assert(!block_bit(bits0, n - base));
                        assert(block_bit(bits0, z));
                    }
                }
                assert forall|n: int| #[trigger] listed.contains(n) implies exists|j: int|
                    0 <= j < ids.len() && (#[trigger] ids[j])@ == n by {
                    if n == base + z {
                        assert(ids[ids.len() - 1]@ == n);
                    } else {
                        assert(listed0.contains(n));
                        let j = choose|j: int| 0 <= j < ids0.len() && (#[trigger] ids0[j])@ == n;
                        assert(ids[j]@ == n);
                    }
                }
                assert forall|j: int| 0 <= j < ids.len() implies listed.contains(
                    (#[trigger] ids[j])@ as int,
                ) by {
                    if j < ids0.len() {
                        assert(listed0.contains(ids0[j]@ as int));
                    }
                }
            }
        }
        proof {
            assert forall|b: int| !block_bit(0, b) by {
                if 0 <= b < 64 {
                    let j: u64 = b as u64;
                    assert((0u64 >> j) & 1 == 0) by (bit_vector);
                }
            }
            assert(bit_vec@.filter(|n: int| n < base || n < base + 64 && !block_bit(bits, n - base))
                =~= bit_vec@.filter(|n: int| n < 64 * (i + 1)));
        }
        i = i + 1;
    }
    proof {
        bit_vec.lemma_view();
        assert(bit_vec@.filter(|n: int| n < 64 * i) =~= bit_vec@);
    }
    ids
}

/// There is only one list of the numbers in a set in ascending order.
pub proof fn lists_ascending_unique(ids1: Seq<ProxyId>, ids2: Seq<ProxyId>, numbers: Set<int>)
    requires
        lists_ascending(ids1, numbers),
        lists_ascending(ids2, numbers),
    ensures
        ids1 == ids2,
{
    lemma_lists_ascending_agree(ids1, ids2, numbers, ids1.len());
    lemma_lists_ascending_agree(ids2, ids1, numbers, ids2.len());
    assert(ids1 =~= ids2);
}

proof fn lemma_lists_ascending_agree(
    ids1: Seq<ProxyId>,
    ids2: Seq<ProxyId>,
    numbers: Set<int>,
    n: nat,
)
    requires
        lists_ascending(ids1, numbers),
        lists_ascending(ids2, numbers),
        n <= ids1.len(),
    ensures
        n <= ids2.len(),
        forall|i: int| 0 <= i < n ==> #[trigger] ids1[i] == ids2[i],
    decreases n,
{
    broadcast use proxy_id_ext;

    if n > 0 {
        let k = n - 1;
        lemma_lists_ascending_agree(ids1, ids2, numbers, k as nat);
        assert(numbers.contains(ids1[k]@ as int));
        let j = choose|j: int| 0 <= j < ids2.len() && (#[trigger] ids2[j])@ == ids1[k]@;
        if j < k {
            assert(ids1[j] == ids2[j]);
        }
        assert(numbers.contains(ids2[k]@ as int));
        let m = choose|m: int| 0 <= m < ids1.len() && (#[trigger] ids1[m])@ == ids2[k]@;
        if m < k {
            assert(ids1[m] == ids2[m]);
        }
        if j > k {
            assert(ids2[k]@ < ids2[j]@);
        }
        if m > k {
            assert(ids1[k]@ < ids1[m]@);
        }
    }
}

/// The bounding box of a moved collider, and its enlarged bounding box.
#[derive(Clone, Copy)]
pub struct MovedBoxes {
    /// The bounding box.
    pub aabb: Aabb,
    /// The enlarged bounding box.
    pub enlarged_aabb: Aabb,
}

impl MovedBoxes {
    /// Returns whether the coordinates of the enlarged bounding box are numbers.
    pub fn has_numeric_box(&self) -> (res: bool)
        ensures
            res == aabb_numeric(self.enlarged_aabb),
    {
        is_numeric(&self.enlarged_aabb)
    }
}

/// The proxies after the bounding boxes of those with the given IDs have been replaced.
pub open spec fn proxies_enlarged(
    proxies: Map<int, ColliderTreeProxy>,
    ids: Seq<ProxyId>,
    boxes: Seq<MovedBoxes>,
) -> Map<int, ColliderTreeProxy>
    decreases ids.len(),
{
    if ids.len() == 0 {
        proxies
    } else {
        let before = proxies_enlarged(proxies, ids.drop_last(), boxes.drop_last());
        let id = ids.last()@ as int;
        before.insert(id, ColliderTreeProxy { aabb: boxes.last().aabb, ..before[id] })
    }
}

/// Replacing bounding boxes leaves each proxy with its collider.
proof fn lemma_enlarged_colliders(
    proxies: Map<int, ColliderTreeProxy>,
    ids: Seq<ProxyId>,
    boxes: Seq<MovedBoxes>,
)
    requires
        forall|i: int| 0 <= i < ids.len() ==> proxies.contains_key((#[trigger] ids[i])@ as int),
    ensures
        forall|i: int| #[trigger]
            proxies_enlarged(proxies, ids, boxes).contains_key(i) ==> proxies.contains_key(i)
                && proxies_enlarged(proxies, ids, boxes)[i].collider == proxies[i].collider,
        proxies_enlarged(proxies, ids, boxes).dom() == proxies.dom(),
    decreases ids.len(),
{
    if ids.len() > 0 {
        assert forall|i: int| 0 <= i < ids.drop_last().len() implies proxies.contains_key(
            (#[trigger] ids.drop_last()[i])@ as int,
        ) by {
            assert(ids.drop_last()[i] == ids[i]);
        }
        lemma_enlarged_colliders(proxies, ids.drop_last(), boxes.drop_last());
        assert(proxies.contains_key(ids[ids.len() - 1]@ as int));
        assert(proxies_enlarged(proxies, ids.drop_last(), boxes.drop_last()).contains_key(
            ids.last()@ as int,
        ));
        assert(proxies_enlarged(proxies, ids, boxes).dom() =~= proxies.dom());
    }
}

/// The boxes of a tree after those of the proxies with the given IDs have been replaced.
pub open spec fn boxes_enlarged(
    tree_boxes: Map<u32, Aabb>,
    ids: Seq<ProxyId>,
    boxes: Seq<MovedBoxes>,
) -> Map<u32, Aabb>
    decreases ids.len(),
{
    if ids.len() == 0 {
        tree_boxes
    } else {
        boxes_enlarged(tree_boxes, ids.drop_last(), boxes.drop_last()).insert(
            ids.last()@,
            boxes.last().enlarged_aabb,
        )
    }
}

/// The moved keys after inserting those of the proxies with the given IDs.
pub open spec fn keys_enlarged(
    keys: Seq<ColliderTreeProxyKey>,
    ids: Seq<ProxyId>,
    tree_type: ColliderTreeType,
) -> Seq<ColliderTreeProxyKey>
    decreases ids.len(),
{
    if ids.len() == 0 {
        keys
    } else {
        keys_with(
            keys_enlarged(keys, ids.drop_last(), tree_type),
            ColliderTreeProxyKey::of(ids.last()@, tree_type),
        )
    }
}

/// Returns the colliders of the proxies with the given IDs.
pub fn colliders_of(tree: &ColliderTree, ids: &Vec<ProxyId>) -> (colliders: Vec<Entity>)
    requires
        forall|i: int| 0 <= i < ids.len() ==> tree.has(#[trigger] ids[i]),
    ensures
        colliders.len() == ids.len(),
        forall|i: int|
            0 <= i < ids.len() ==> #[trigger] colliders[i]
                == tree.proxies@[ids[i]@ as int].collider,
{
    let mut colliders: Vec<Entity> = Vec::new();
    let mut i: usize = 0;
    while i < ids.len()
        invariant
            i <= ids.len(),
            colliders.len() == i,
            forall|j: int| 0 <= j < ids.len() ==> tree.has(#[trigger] ids[j]),
            forall|j: int|
                0 <= j < i ==> #[trigger] colliders[j] == tree.proxies@[ids[j]@ as int].collider,
        decreases ids.len() - i,
    {
        assert(tree.has(ids[i as int]));
        match tree.get_proxy(ids[i]) {
            Some(proxy) => {
                colliders.push(proxy.collider);
            },
            None => {
                assert(false);
            },
        }
        i = i + 1;
    }
    colliders
}

/// Enlarges the moved proxies of a tree: replaces their bounding boxes, lists them as moved,
/// and refits the tree.
pub fn enlarge_proxies(
    tree: &mut ColliderTree,
    tree_type: ColliderTreeType,
    ids: &Vec<ProxyId>,
    boxes: &Vec<MovedBoxes>,
    moved_proxies: &mut MovedProxies,
)
    requires
        old(tree).wf(),
        old(tree).roomy(),
        old(moved_proxies).wf(),
        ids.len() == boxes.len(),
        forall|i: int|
            0 <= i < ids.len() ==> old(tree).boxes().contains_key((#[trigger] ids[i])@),
    ensures
        final(tree).wf(),
        final(moved_proxies).wf(),
        final(tree).proxies@ == proxies_enlarged(old(tree).proxies@, ids@, boxes@),
        final(tree).boxes() == boxes_enlarged(old(tree).boxes(), ids@, boxes@),
        final(tree).moved_proxies@ == old(tree).moved_proxies@ + ids@,
        final(moved_proxies)@ == keys_enlarged(old(moved_proxies)@, ids@, tree_type),
        final(tree).proxies@.dom() == old(tree).proxies@.dom(),
        final(tree).boxes().dom() == old(tree).boxes().dom(),
        final(tree).proxies.slot_count() == old(tree).proxies.slot_count(),
        final(tree).proxies.free_slots() == old(tree).proxies.free_slots(),
        // Each proxy that is listed once gets its own box, and its enlarged box in the tree.
        (forall|i: int, j: int|
            0 <= i < j < ids.len() ==> (#[trigger] ids[i])@ != (#[trigger] ids[j])@)
            ==> forall|i: int|
            0 <= i < ids.len() ==> {
                let id = (#[trigger] ids[i])@;
                &&& final(tree).proxies@[id as int].aabb == boxes[i].aabb
                &&& final(tree).boxes().contains_key(id)
                &&& final(tree).boxes()[id] == boxes[i].enlarged_aabb
            },
        old(tree).synced() ==> final(tree).synced(),
        bvh_view(final(tree).bvh).shape() == bvh_view(old(tree).bvh).shape(),
        final(tree).walkable() == old(tree).walkable(),
        final(tree).roomy() == old(tree).roomy(),
        forall|spare: nat| #[trigger]
            final(tree).reinsertable(spare) == old(tree).reinsertable(spare),
        old(tree).walkable() && final(tree).boxes_numeric() ==> final(tree).tight(),
{
    let mut i: usize = 0;
    proof {
        assert(ids@.take(0) =~= Seq::<ProxyId>::empty());
        assert(boxes@.take(0) =~= Seq::<MovedBoxes>::empty());
        assert(tree.moved_proxies@ + ids@.take(0) =~= tree.moved_proxies@);
    }
    while i < ids.len()
        invariant
            i <= ids.len(),
            ids.len() == boxes.len(),
            tree.wf(),
            moved_proxies.wf(),
            forall|j: int|
                0 <= j < ids.len() ==> old(tree).boxes().contains_key((#[trigger] ids[j])@),
            tree.proxies@ == proxies_enlarged(
                old(tree).proxies@,
                ids@.take(i as int),
                boxes@.take(i as int),
            ),
            tree.boxes() == boxes_enlarged(
                old(tree).boxes(),
                ids@.take(i as int),
                boxes@.take(i as int),
            ),
            tree.moved_proxies@ == old(tree).moved_proxies@ + ids@.take(i as int),
            moved_proxies@ == keys_enlarged(
                old(moved_proxies)@,
                ids@.take(i as int),
                tree_type,
            ),
            tree.proxies@.dom() == old(tree).proxies@.dom(),
            tree.boxes().dom() == old(tree).boxes().dom(),
            tree.proxies.slot_count() == old(tree).proxies.slot_count(),
            tree.proxies.free_slots() == old(tree).proxies.free_slots(),
            old(tree).synced() ==> tree.synced(),
            old(tree).roomy(),
            bvh_view(tree.bvh).shape() == bvh_view(old(tree).bvh).shape(),
            tree.walkable() == old(tree).walkable(),
            tree.roomy() == old(tree).roomy(),
            forall|spare: nat| #[trigger] tree.reinsertable(spare) == old(tree).reinsertable(spare),
        decreases ids.len() - i,
    {
        let proxy_id: ProxyId = ids[i];
        let moved: MovedBoxes = boxes[i];
        let ghost tree0 = *tree;
        proof {
            assert(old(tree).boxes().dom().contains(ids[i as int]@));
            assert(tree.boxes().contains_key(proxy_id@));
            tree.lemma_ids();
            assert(ids@.take(i + 1).drop_last() =~= ids@.take(i as int));
            assert(boxes@.take(i + 1).drop_last() =~= boxes@.take(i as int));
        }
        // Update the proxy's bounding boxes.
        if let Some(proxy) = tree.get_proxy_mut(proxy_id) {
            proxy.aabb = moved.aabb;
        }
        tree.set_proxy_aabb(proxy_id, moved.enlarged_aabb);
        // Record the moved proxy.
        tree.moved_proxies.push(proxy_id);
        moved_proxies.insert(ColliderTreeProxyKey::new(proxy_id, tree_type));
        proof {
            assert(old(tree).moved_proxies@ + ids@.take(i + 1) =~= (old(tree).moved_proxies@
                + ids@.take(i as int)).push(proxy_id));
            assert(tree.proxies@.dom() =~= tree0.proxies@.dom());
            assert(tree.boxes().dom() =~= tree0.boxes().dom());
        }
        i = i + 1;
    }
    proof {
        assert(ids@.take(i as int) =~= ids@);
        assert(boxes@.take(i as int) =~= boxes@);
        if forall|i: int, j: int|
            0 <= i < j < ids.len() ==> (#[trigger] ids[i])@ != (#[trigger] ids[j])@ {
            assert forall|i: int| 0 <= i < ids.len() implies old(tree).proxies@.contains_key(
                (#[trigger] ids@[i])@ as int,
            ) by {
                assert(old(tree).boxes().contains_key(ids[i]@));
            }
            assert(forall|i: int, j: int|
                0 <= i < j < ids@.len() ==> (#[trigger] ids@[i])@ != (#[trigger] ids@[j])@);
            enlarged_proxies_by_id(old(tree).proxies@, ids@, boxes@);
            enlarged_boxes_by_id(old(tree).boxes(), ids@, boxes@);
        }
    }
    // Refit the tree after enlarging proxies.
    tree.refit_all();
}

/// Enlarging proxies adds their keys and no others, and keeps the keys distinct and in order.
pub proof fn keys_enlarged_members(
    keys: Seq<ColliderTreeProxyKey>,
    ids: Seq<ProxyId>,
    tree_type: ColliderTreeType,
)
    requires
        keys.no_duplicates(),
    ensures
        keys_enlarged(keys, ids, tree_type).no_duplicates(),
        keys.is_prefix_of(keys_enlarged(keys, ids, tree_type)),
        forall|k: ColliderTreeProxyKey| #[trigger]
            keys_enlarged(keys, ids, tree_type).contains(k) <==> keys.contains(k) || exists|i: int|
                0 <= i < ids.len() && k == ColliderTreeProxyKey::of(
                    (#[trigger] ids[i])@,
                    tree_type,
                ),
    decreases ids.len(),
{
    if ids.len() > 0 {
        let before = keys_enlarged(keys, ids.drop_last(), tree_type);
        let after = keys_enlarged(keys, ids, tree_type);
        let key = ColliderTreeProxyKey::of(ids.last()@, tree_type);
        keys_enlarged_members(keys, ids.drop_last(), tree_type);
        keys_with_members(before, key);
        assert forall|k: ColliderTreeProxyKey| #[trigger]
            after.contains(k) <==> keys.contains(k) || exists|i: int|
                0 <= i < ids.len() && k == ColliderTreeProxyKey::of(
                    (#[trigger] ids[i])@,
                    tree_type,
                ) by {
            if before.contains(k) && !keys.contains(k) {
                let i = choose|i: int|
                    0 <= i < ids.drop_last().len() && k == ColliderTreeProxyKey::of(
                        (#[trigger] ids.drop_last()[i])@,
                        tree_type,
                    );
                assert(ids[i] == ids.drop_last()[i]);
            }
            if k == key {
                assert(ids[ids.len() - 1] == ids.last());
            }
            if exists|i: int|
                0 <= i < ids.len() && k == ColliderTreeProxyKey::of(
                    (#[trigger] ids[i])@,
                    tree_type,
                ) {
                let i = choose|i: int|
                    0 <= i < ids.len() && k == ColliderTreeProxyKey::of(
                        (#[trigger] ids[i])@,
                        tree_type,
                    );
                if i < ids.len() - 1 {
                    assert(ids.drop_last()[i] == ids[i]);
                }
            }
        }
    }
}

/// The tick at which the bounding boxes of dynamic and kinematic colliders were last updated.
#[derive(Clone, Copy, Debug, PartialEq, Eq, Structural)]
pub struct LastDynamicKinematicAabbUpdate(pub u32);

/// Returns whether the bounding box of a collider may have changed since the last update, which
/// is the case if its position, its rotation or the collider itself has changed.
pub fn aabb_may_have_changed(
    position_changed: u32,
    rotation_changed: u32,
    collider_changed: u32,
    last_update: LastDynamicKinematicAabbUpdate,
    this_run: u32,
) -> (res: bool)
    ensures
        res == (newer_than(position_changed, last_update.0, this_run) || newer_than(
            rotation_changed,
            last_update.0,
            this_run,
        ) || newer_than(collider_changed, last_update.0, this_run)),
        newer_than(position_changed, last_update.0, this_run) ==> res,
        newer_than(rotation_changed, last_update.0, this_run) ==> res,
        newer_than(collider_changed, last_update.0, this_run) ==> res,
{
    is_newer_than(position_changed, last_update.0, this_run) || is_newer_than(
        rotation_changed,
        last_update.0,
        this_run,
    ) || is_newer_than(collider_changed, last_update.0, this_run)
}

/// Enlarges the moved proxies of the dynamic and the kinematic tree, and records when.
pub fn update_dynamic_kinematic_aabbs(
    trees: &mut ColliderTrees,
    moved_proxies: &mut MovedProxies,
    dynamic_ids: &Vec<ProxyId>,
    dynamic_boxes: &Vec<MovedBoxes>,
    kinematic_ids: &Vec<ProxyId>,
    kinematic_boxes: &Vec<MovedBoxes>,
    last_update: &mut LastDynamicKinematicAabbUpdate,
    this_run: u32,
)
    requires
        old(trees).wf(),
        old(trees).dynamic_tree.roomy(),
        old(trees).kinematic_tree.roomy(),
        old(moved_proxies).wf(),
        dynamic_ids.len() == dynamic_boxes.len(),
        kinematic_ids.len() == kinematic_boxes.len(),
        forall|i: int|
            0 <= i < dynamic_ids.len() ==> old(trees).dynamic_tree.boxes().contains_key(
                (#[trigger] dynamic_ids[i])@,
            ),
        forall|i: int|
            0 <= i < kinematic_ids.len() ==> old(trees).kinematic_tree.boxes().contains_key(
                (#[trigger] kinematic_ids[i])@,
            ),
    ensures
        final(trees).wf(),
        final(moved_proxies).wf(),
        final(trees).dynamic_tree.proxies@ == proxies_enlarged(
            old(trees).dynamic_tree.proxies@,
            dynamic_ids@,
            dynamic_boxes@,
        ),
        final(trees).dynamic_tree.boxes() == boxes_enlarged(
            old(trees).dynamic_tree.boxes(),
            dynamic_ids@,
            dynamic_boxes@,
        ),
        final(trees).dynamic_tree.moved_proxies@ == old(trees).dynamic_tree.moved_proxies@
            + dynamic_ids@,
        final(trees).kinematic_tree.proxies@ == proxies_enlarged(
            old(trees).kinematic_tree.proxies@,
            kinematic_ids@,
            kinematic_boxes@,
        ),
        final(trees).kinematic_tree.boxes() == boxes_enlarged(
            old(trees).kinematic_tree.boxes(),
            kinematic_ids@,
            kinematic_boxes@,
        ),
        final(trees).kinematic_tree.moved_proxies@ == old(trees).kinematic_tree.moved_proxies@
            + kinematic_ids@,
        bvh_view(final(trees).dynamic_tree.bvh).shape() == bvh_view(
            old(trees).dynamic_tree.bvh,
        ).shape(),
        bvh_view(final(trees).kinematic_tree.bvh).shape() == bvh_view(
            old(trees).kinematic_tree.bvh,
        ).shape(),
        final(trees).static_tree == old(trees).static_tree,
        final(trees).standalone_tree == old(trees).standalone_tree,
        final(moved_proxies)@ == keys_enlarged(
            keys_enlarged(old(moved_proxies)@, dynamic_ids@, ColliderTreeType::Dynamic),
            kinematic_ids@,
            ColliderTreeType::Kinematic,
        ),
        // Each proxy that is listed once gets its own box, and its enlarged box in the tree.
        (forall|i: int, j: int|
            0 <= i < j < dynamic_ids.len() ==> (#[trigger] dynamic_ids[i])@ != (
            #[trigger] dynamic_ids[j])@)
            ==> forall|i: int|
            0 <= i < dynamic_ids.len() ==> {
                let id = (#[trigger] dynamic_ids[i])@;
                &&& final(trees).dynamic_tree.proxies@[id as int].aabb == dynamic_boxes[i].aabb
                &&& final(trees).dynamic_tree.boxes().contains_key(id)
                &&& final(trees).dynamic_tree.boxes()[id] == dynamic_boxes[i].enlarged_aabb
            },
        // Each proxy that is listed once gets its own box, and its enlarged box in the tree.
        (forall|i: int, j: int|
            0 <= i < j < kinematic_ids.len() ==> (#[trigger] kinematic_ids[i])@ != (
            #[trigger] kinematic_ids[j])@)
            ==> forall|i: int|
            0 <= i < kinematic_ids.len() ==> {
                let id = (#[trigger] kinematic_ids[i])@;
                &&& final(trees).kinematic_tree.proxies@[id as int].aabb == kinematic_boxes[i].aabb
                &&& final(trees).kinematic_tree.boxes().contains_key(id)
                &&& final(trees).kinematic_tree.boxes()[id] == kinematic_boxes[i].enlarged_aabb
            },
        final(last_update).0 == this_run,
        one_proxy_each(old(trees).proxy_map()) ==> one_proxy_each(final(trees).proxy_map()),
        old(trees).synced() ==> final(trees).synced(),
        old(trees).dynamic_tree.walkable() && final(trees).dynamic_tree.boxes_numeric()
            ==> final(trees).dynamic_tree.tight(),
        old(trees).kinematic_tree.walkable() && final(trees).kinematic_tree.boxes_numeric()
            ==> final(trees).kinematic_tree.tight(),
        moved_exist(*old(trees), old(moved_proxies)@) ==> moved_exist(
            *final(trees),
            final(moved_proxies)@,
        ),
{
    trees.dynamic_tree.init_primitives_to_nodes();
    trees.kinematic_tree.init_primitives_to_nodes();
    proof {
        moved_proxies.lemma_no_duplicates();
    }
    enlarge_proxies(
        &mut trees.dynamic_tree,
        ColliderTreeType::Dynamic,
        dynamic_ids,
        dynamic_boxes,
        moved_proxies,
    );
    proof {
        moved_proxies.lemma_no_duplicates();
    }
    enlarge_proxies(
        &mut trees.kinematic_tree,
        ColliderTreeType::Kinematic,
        kinematic_ids,
        kinematic_boxes,
        moved_proxies,
    );
    // Record the time of the update.
    last_update.0 = this_run;
    proof {
        keys_enlarged_members(old(moved_proxies)@, dynamic_ids@, ColliderTreeType::Dynamic);
        keys_enlarged_members(
            keys_enlarged(old(moved_proxies)@, dynamic_ids@, ColliderTreeType::Dynamic),
            kinematic_ids@,
            ColliderTreeType::Kinematic,
        );
        assert forall|i: int|
            0 <= i < dynamic_ids.len() implies old(trees).dynamic_tree.proxies@.contains_key(
            (#[trigger] dynamic_ids@[i])@ as int,
        ) by {
            assert(old(trees).dynamic_tree.boxes().contains_key(dynamic_ids[i]@));
        }
        lemma_enlarged_colliders(old(trees).dynamic_tree.proxies@, dynamic_ids@, dynamic_boxes@);
        assert forall|i: int|
            0 <= i < kinematic_ids.len() implies old(trees).kinematic_tree.proxies@.contains_key(
            (#[trigger] kinematic_ids@[i])@ as int,
        ) by {
            assert(old(trees).kinematic_tree.boxes().contains_key(kinematic_ids[i]@));
        }
        lemma_enlarged_colliders(
            old(trees).kinematic_tree.proxies@,
            kinematic_ids@,
            kinematic_boxes@,
        );
        if one_proxy_each(old(trees).proxy_map()) {
            assert forall|k: ColliderTreeProxyKey| #[trigger]
                trees.proxy_map().contains_key(k) implies old(trees).proxy_map().contains_key(k)
                && old(trees).proxy_map()[k].collider == trees.proxy_map()[k].collider by {
                let t = k.spec_tree_type();
                assert(trees.tree(t).proxies@.dom() == old(trees).tree(t).proxies@.dom());
                assert(trees.tree(t).proxies@.contains_key(k.spec_id() as int));
                assert(old(trees).tree(t).proxies@.dom().contains(k.spec_id() as int));
            }
            changing_keeps_one_proxy_each(old(trees).proxy_map(), trees.proxy_map());
        }
        if moved_exist(*old(trees), old(moved_proxies)@) {
            assert forall|k: ColliderTreeProxyKey| #[trigger]
                moved_proxies@.contains(k) implies trees.has(k) by {
                assert forall|t: ColliderTreeType|
                    (#[trigger] trees.tree(t)).proxies@.dom() == old(trees).tree(
                        t,
                    ).proxies@.dom() by {}
                if old(moved_proxies)@.contains(k) {
                    assert(old(trees).has(k));
                    assert(old(trees).tree(k.spec_tree_type()).proxies@.dom().contains(
                        k.spec_id() as int,
                    ));
                } else if exists|i: int|
                    0 <= i < kinematic_ids.len() && k == ColliderTreeProxyKey::of(
                        (#[trigger] kinematic_ids@[i])@,
                        ColliderTreeType::Kinematic,
                    ) {
                    let i = choose|i: int|
                        0 <= i < kinematic_ids.len() && k == ColliderTreeProxyKey::of(
                            (#[trigger] kinematic_ids@[i])@,
                            ColliderTreeType::Kinematic,
                        );
                    old(trees).kinematic_tree.lemma_ids();
                    assert(old(trees).kinematic_tree.boxes().contains_key(kinematic_ids[i]@));
                    proxy_key_round_trip(kinematic_ids@[i]@, ColliderTreeType::Kinematic);
                    assert(old(trees).kinematic_tree.proxies@.dom().contains(
                        kinematic_ids@[i]@ as int,
                    ));
                } else {
                    let i = choose|i: int|
                        0 <= i < dynamic_ids.len() && k == ColliderTreeProxyKey::of(
                            (#[trigger] dynamic_ids@[i])@,
                            ColliderTreeType::Dynamic,
                        );
                    old(trees).dynamic_tree.lemma_ids();
                    assert(old(trees).dynamic_tree.boxes().contains_key(dynamic_ids[i]@));
                    proxy_key_round_trip(dynamic_ids@[i]@, ColliderTreeType::Dynamic);
                    assert(old(trees).dynamic_tree.proxies@.dom().contains(
                        dynamic_ids@[i]@ as int,
                    ));
                }
            }
        }
    }
}

/// The new bounding box of a collider that has changed.
#[derive(Clone, Copy)]
pub struct ChangedBox {
    /// The proxy of the collider.
    pub id: ProxyId,
    /// The new bounding box.
    pub aabb: Aabb,
    /// Whether the new bounding box is outside of the previous enlarged one.
    pub left_enlarged: bool,
}

impl ChangedBox {
    /// Returns whether the coordinates of the new bounding box are numbers.
    pub fn has_numeric_box(&self) -> (res: bool)
        ensures
            res == aabb_numeric(self.aabb),
    {
        is_numeric(&self.aabb)
    }
}

/// The proxies of a tree after reinserting some of them with new boxes.
pub open spec fn proxies_reinserted(
    proxies: Map<int, ColliderTreeProxy>,
    updates: Seq<ChangedBox>,
) -> Map<int, ColliderTreeProxy>
    decreases updates.len(),
{
    if updates.len() == 0 {
        proxies
    } else {
        let before = proxies_reinserted(proxies, updates.drop_last());
        let i = updates.last().id@ as int;
        before.insert(i, ColliderTreeProxy { aabb: updates.last().aabb, ..before[i] })
    }
}

/// Reinserting proxies with new boxes leaves each with its collider.
proof fn lemma_reinserted_colliders(
    proxies: Map<int, ColliderTreeProxy>,
    updates: Seq<ChangedBox>,
)
    requires
        forall|i: int|
            0 <= i < updates.len() ==> proxies.contains_key((#[trigger] updates[i]).id@ as int),
    ensures
        forall|i: int| #[trigger]
            proxies_reinserted(proxies, updates).contains_key(i) ==> proxies.contains_key(i)
                && proxies_reinserted(proxies, updates)[i].collider == proxies[i].collider,
        proxies_reinserted(proxies, updates).dom() == proxies.dom(),
    decreases updates.len(),
{
    if updates.len() > 0 {
        assert forall|i: int| 0 <= i < updates.drop_last().len() implies proxies.contains_key(
            (#[trigger] updates.drop_last()[i]).id@ as int,
        ) by {
            assert(updates.drop_last()[i] == updates[i]);
        }
        lemma_reinserted_colliders(proxies, updates.drop_last());
        assert(proxies.contains_key(updates[updates.len() - 1].id@ as int));
        assert(proxies_reinserted(proxies, updates.drop_last()).contains_key(
            updates.last().id@ as int,
        ));
        assert(proxies_reinserted(proxies, updates).dom() =~= proxies.dom());
    }
}

/// The boxes of a tree after reinserting proxies with new boxes.
pub open spec fn boxes_reinserted(
    boxes: Map<u32, Aabb>,
    updates: Seq<ChangedBox>,
) -> Map<u32, Aabb>
    decreases updates.len(),
{
    if updates.len() == 0 {
        boxes
    } else {
        boxes_reinserted(boxes, updates.drop_last()).insert(
            updates.last().id@,
            updates.last().aabb,
        )
    }
}

/// Whether each hierarchy follows from the one before by reinserting a proxy with its new box.
pub open spec fn reinserted_one_by_one(states: Seq<Bvh2>, updates: Seq<ChangedBox>) -> bool {
    &&& states.len() == updates.len() + 1
    &&& forall|i: int|
        0 <= i < updates.len() ==> bvh_moved(
            states[i],
            (#[trigger] updates[i]).id@,
            updates[i].aabb,
            states[i + 1],
        )
}

/// Whether a hierarchy has the shape that it gets by reinserting proxies with their new boxes, one
/// after the other.
pub open spec fn hierarchy_reinserted(
    before: Bvh2,
    updates: Seq<ChangedBox>,
    after: Bvh2,
) -> bool {
    exists|states: Seq<Bvh2>| #[trigger]
        reinserted_one_by_one(states, updates) && bvh_view(states.first()) == bvh_view(before)
            && states.last() == after
}

/// The moved keys after reinserting proxies of the tree of the given type, with those added in
/// order whose box has left the enlarged one.
pub open spec fn keys_reinserted(
    keys: Seq<ColliderTreeProxyKey>,
    updates: Seq<ChangedBox>,
    tree_type: ColliderTreeType,
) -> Seq<ColliderTreeProxyKey>
    decreases updates.len(),
{
    if updates.len() == 0 {
        keys
    } else {
        let before = keys_reinserted(keys, updates.drop_last(), tree_type);
        if updates.last().left_enlarged {
            keys_with(before, ColliderTreeProxyKey::of(updates.last().id@, tree_type))
        } else {
            before
        }
    }
}

/// Reinserting proxies adds the keys of those whose box has left the enlarged one and no others,
/// and keeps the keys distinct and in order.
pub proof fn keys_reinserted_members(
    keys: Seq<ColliderTreeProxyKey>,
    updates: Seq<ChangedBox>,
    tree_type: ColliderTreeType,
)
    requires
        keys.no_duplicates(),
    ensures
        keys_reinserted(keys, updates, tree_type).no_duplicates(),
        keys.is_prefix_of(keys_reinserted(keys, updates, tree_type)),
        forall|k: ColliderTreeProxyKey| #[trigger]
            keys_reinserted(keys, updates, tree_type).contains(k) <==> keys.contains(k)
                || exists|i: int|
                0 <= i < updates.len() && (#[trigger] updates[i]).left_enlarged && k
                    == ColliderTreeProxyKey::of(updates[i].id@, tree_type),
    decreases updates.len(),
{
    if updates.len() > 0 {
        let rest = updates.drop_last();
        let before = keys_reinserted(keys, rest, tree_type);
        let after = keys_reinserted(keys, updates, tree_type);
        let key = ColliderTreeProxyKey::of(updates.last().id@, tree_type);
        keys_reinserted_members(keys, rest, tree_type);
        keys_with_members(before, key);
        assert forall|k: ColliderTreeProxyKey| #[trigger]
            after.contains(k) <==> keys.contains(k) || exists|i: int|
                0 <= i < updates.len() && (#[trigger] updates[i]).left_enlarged && k
                    == ColliderTreeProxyKey::of(updates[i].id@, tree_type) by {
            if before.contains(k) && !keys.contains(k) {
                let i = choose|i: int|
                    0 <= i < rest.len() && (#[trigger] rest[i]).left_enlarged && k
                        == ColliderTreeProxyKey::of(rest[i].id@, tree_type);
                assert(updates[i] == rest[i]);
            }
            if k == key {
                assert(updates[updates.len() - 1] == updates.last());
            }
            if exists|i: int|
                0 <= i < updates.len() && (#[trigger] updates[i]).left_enlarged && k
                    == ColliderTreeProxyKey::of(updates[i].id@, tree_type) {
                let i = choose|i: int|
                    0 <= i < updates.len() && (#[trigger] updates[i]).left_enlarged && k
                        == ColliderTreeProxyKey::of(updates[i].id@, tree_type);
                if i < updates.len() - 1 {
                    assert(rest[i] == updates[i]);
                }
            }
        }
    }
}

/// If the proxies of all trees are still there, then so are those of the moved keys after
/// reinserting proxies.
proof fn lemma_reinserted_exist(
    before: ColliderTrees,
    after: ColliderTrees,
    moved: Seq<ColliderTreeProxyKey>,
    updates: Seq<ChangedBox>,
    tree_type: ColliderTreeType,
)
    requires
        before.wf(),
        moved.no_duplicates(),
        forall|t: ColliderTreeType|
            (#[trigger] after.tree(t)).proxies@.dom() == before.tree(t).proxies@.dom(),
        forall|i: int|
            0 <= i < updates.len() ==> before.tree(tree_type).boxes().contains_key(
                (#[trigger] updates[i]).id@,
            ),
    ensures
        moved_exist(before, moved) ==> moved_exist(
            after,
            keys_reinserted(moved, updates, tree_type),
        ),
{
    keys_reinserted_members(moved, updates, tree_type);
    if moved_exist(before, moved) {
        assert forall|k: ColliderTreeProxyKey| #[trigger]
            keys_reinserted(moved, updates, tree_type).contains(k) implies after.has(k) by {
            let t = k.spec_tree_type();
            assert(after.tree(t).proxies@.dom() == before.tree(t).proxies@.dom());
            if moved.contains(k) {
                assert(before.has(k));
                assert(before.tree(t).proxies@.dom().contains(k.spec_id() as int));
            } else {
                let i = choose|i: int|
                    0 <= i < updates.len() && (#[trigger] updates[i]).left_enlarged && k
                        == ColliderTreeProxyKey::of(updates[i].id@, tree_type);
                let tree = before.tree(tree_type);
                assert(tree.wf());
                tree.lemma_ids();
                assert(tree.boxes().contains_key(updates[i].id@));
                assert(tree.proxies@.dom().contains(updates[i].id@ as int));
                proxy_key_round_trip(updates[i].id@, tree_type);
            }
        }
    }
}

/// Reinserts proxies of a tree with new boxes, and marks those as moved whose box has left the
/// enlarged one.
fn reinsert_proxies(
    tree: &mut ColliderTree,
    tree_type: ColliderTreeType,
    updates: &Vec<ChangedBox>,
    moved_proxies: &mut MovedProxies,
)
    requires
        old(tree).wf(),
        old(moved_proxies).wf(),
        old(tree).tight(),
        old(tree).reinsertable(updates.len() as nat),
        forall|i: int|
            0 <= i < updates.len() ==> old(tree).boxes().contains_key((#[trigger] updates[i]).id@)
                && aabb_numeric(updates[i].aabb),
    ensures
        final(tree).wf(),
        final(moved_proxies).wf(),
        final(tree).tight(),
        final(tree).proxies@ == proxies_reinserted(old(tree).proxies@, updates@),
        final(tree).proxies@.dom() == old(tree).proxies@.dom(),
        final(tree).proxies.slot_count() == old(tree).proxies.slot_count(),
        final(tree).proxies.free_slots() == old(tree).proxies.free_slots(),
        final(tree).moved_proxies == old(tree).moved_proxies,
        final(tree).boxes() == boxes_reinserted(old(tree).boxes(), updates@),
        final(tree).boxes().dom() == old(tree).boxes().dom(),
        forall|i: int| #[trigger]
            final(tree).proxies@.contains_key(i) ==> final(tree).proxies@[i].collider
                == old(tree).proxies@[i].collider,
        hierarchy_reinserted(old(tree).bvh, updates@, final(tree).bvh),
        bvh_grown(old(tree).bvh, final(tree).bvh, updates.len() as nat),
        final(moved_proxies)@ == keys_reinserted(old(moved_proxies)@, updates@, tree_type),
        old(moved_proxies)@.no_duplicates(),
        old(tree).synced() ==> final(tree).synced(),
{
    tree.init_primitives_to_nodes();
    let ghost first = tree.bvh;
    let ghost mut states = seq![first];
    let mut i: usize = 0;
    proof {
        moved_proxies.lemma_no_duplicates();
        tree.lemma_reinsertable(updates.len() as nat);
        assert(updates@.take(0) =~= Seq::<ChangedBox>::empty());
    }
    while i < updates.len()
        invariant
            i <= updates.len(),
            tree.wf(),
            moved_proxies.wf(),
            tree.tight(),
            tree.reinsertable((updates.len() - i) as nat),
            tree.reinsertable(0),
            forall|j: int|
                0 <= j < updates.len() ==> old(tree).boxes().contains_key(
                    (#[trigger] updates[j]).id@,
                ) && aabb_numeric(updates[j].aabb),
            tree.proxies@ == proxies_reinserted(old(tree).proxies@, updates@.take(i as int)),
            tree.proxies@.dom() == old(tree).proxies@.dom(),
            tree.proxies.slot_count() == old(tree).proxies.slot_count(),
            tree.proxies.free_slots() == old(tree).proxies.free_slots(),
            tree.moved_proxies == old(tree).moved_proxies,
            tree.boxes() == boxes_reinserted(old(tree).boxes(), updates@.take(i as int)),
            tree.boxes().dom() == old(tree).boxes().dom(),
            bvh_view(first) == bvh_view(old(tree).bvh),
            reinserted_one_by_one(states, updates@.take(i as int)),
            states.first() == first,
            states.last() == tree.bvh,
            bvh_grown(first, tree.bvh, i as nat),
            moved_proxies@ == keys_reinserted(
                old(moved_proxies)@,
                updates@.take(i as int),
                tree_type,
            ),
            old(tree).synced() ==> tree.synced(),
        decreases updates.len() - i,
    {
        let update: ChangedBox = updates[i];
        let ghost tree0 = *tree;
        proof {
            assert(old(tree).boxes().dom().contains(updates[i as int].id@));
            assert(tree.boxes().contains_key(update.id@));
            assert(tree.has(update.id));
            tree.lemma_ids();
            assert(updates@.take(i + 1).drop_last() =~= updates@.take(i as int));
        }
        tree.reinsert_proxy(update.id, update.aabb);
        // Record the moved proxy.
        if update.left_enlarged {
            moved_proxies.insert(ColliderTreeProxyKey::new(update.id, tree_type));
        }
        proof {
            assert(tree.proxies@.dom() =~= tree0.proxies@.dom());
            assert(tree.boxes().dom() =~= tree0.boxes().dom());
            tree.lemma_reinsertable((updates.len() - i - 1) as nat);
            lemma_grown_twice(first, tree0.bvh, tree.bvh, i as nat, 1);
            let done = updates@.take(i + 1);
            let next = states.push(tree.bvh);
            assert forall|j: int| 0 <= j < done.len() implies bvh_moved(
                next[j],
                (#[trigger] done[j]).id@,
                done[j].aabb,
                next[j + 1],
            ) by {
                if j < i {
                    assert(updates@.take(i as int)[j] == done[j]);
                }
            }
            states = next;
        }
        i = i + 1;
    }
    proof {
        assert(updates@.take(i as int) =~= updates@);
        assert forall|j: int| 0 <= j < updates.len() implies old(tree).proxies@.contains_key(
            (#[trigger] updates@[j]).id@ as int,
        ) by {
            assert(old(tree).boxes().contains_key(updates[j].id@));
        }
        lemma_reinserted_colliders(old(tree).proxies@, updates@);
    }
}

/// Reinserts the changed colliders of static bodies with their new bounding boxes, and marks those
/// as moved whose box has left the enlarged one.
pub fn update_static_aabbs(
    trees: &mut ColliderTrees,
    moved_proxies: &mut MovedProxies,
    updates: &Vec<ChangedBox>,
)
    requires
        old(trees).wf(),
        old(moved_proxies).wf(),
        old(trees).static_tree.tight(),
        old(trees).static_tree.reinsertable(updates.len() as nat),
        forall|i: int|
            0 <= i < updates.len() ==> old(trees).static_tree.boxes().contains_key(
                (#[trigger] updates[i]).id@,
            ) && aabb_numeric(updates[i].aabb),
    ensures
        final(trees).wf(),
        final(moved_proxies).wf(),
        final(trees).static_tree.proxies@ == proxies_reinserted(
            old(trees).static_tree.proxies@,
            updates@,
        ),
        final(trees).static_tree.proxies.slot_count()
            == old(trees).static_tree.proxies.slot_count(),
        final(trees).static_tree.proxies.free_slots()
            == old(trees).static_tree.proxies.free_slots(),
        final(trees).static_tree.moved_proxies == old(trees).static_tree.moved_proxies,
        final(trees).static_tree.boxes() == boxes_reinserted(
            old(trees).static_tree.boxes(),
            updates@,
        ),
        hierarchy_reinserted(old(trees).static_tree.bvh, updates@, final(trees).static_tree.bvh),
        bvh_grown(old(trees).static_tree.bvh, final(trees).static_tree.bvh, updates.len() as nat),
        final(moved_proxies)@ == keys_reinserted(
            old(moved_proxies)@,
            updates@,
            ColliderTreeType::Static,
        ),
        final(trees).dynamic_tree == old(trees).dynamic_tree,
        final(trees).kinematic_tree == old(trees).kinematic_tree,
        final(trees).standalone_tree == old(trees).standalone_tree,
        // Each proxy that is listed once gets its own box, also in the tree.
        (forall|i: int, j: int|
            0 <= i < j < updates.len() ==> (#[trigger] updates[i]).id@ != (
            #[trigger] updates[j]).id@) ==> forall|i: int|
            0 <= i < updates.len() ==> {
                let id = (#[trigger] updates[i]).id@;
                &&& final(trees).static_tree.proxies@[id as int].aabb == updates[i].aabb
                &&& final(trees).static_tree.boxes().contains_key(id)
                &&& final(trees).static_tree.boxes()[id] == updates[i].aabb
            },
        // Those whose box has left the enlarged one are listed as moved.
        forall|i: int|
            0 <= i < updates.len() && (#[trigger] updates[i]).left_enlarged
                ==> final(moved_proxies)@.contains(
                ColliderTreeProxyKey::of(
                    updates[i].id@,
                    ColliderTreeType::Static,
                ),
            ),
        one_proxy_each(old(trees).proxy_map()) ==> one_proxy_each(final(trees).proxy_map()),
        old(trees).synced() ==> final(trees).synced(),
        final(trees).static_tree.tight(),
        moved_exist(*old(trees), old(moved_proxies)@) ==> moved_exist(
            *final(trees),
            final(moved_proxies)@,
        ),
{
    reinsert_proxies(&mut trees.static_tree, ColliderTreeType::Static, updates, moved_proxies);
    proof {
        keys_reinserted_members(
            old(moved_proxies)@,
            updates@,
            ColliderTreeType::Static,
        );
        if forall|i: int, j: int|
            0 <= i < j < updates.len() ==> (#[trigger] updates[i]).id@ != (
            #[trigger] updates[j]).id@ {
            assert forall|i: int|
                0 <= i < updates.len() implies old(trees).static_tree.proxies@.contains_key(
                (#[trigger] updates@[i]).id@ as int,
            ) by {
                assert(old(trees).static_tree.boxes().contains_key(updates[i].id@));
            }
            assert(forall|i: int, j: int|
                0 <= i < j < updates@.len() ==> (#[trigger] updates@[i]).id@ != (
                #[trigger] updates@[j]).id@);
            reinserted_proxies_by_id(old(trees).static_tree.proxies@, updates@);
            reinserted_boxes_by_id(old(trees).static_tree.boxes(), updates@);
        }
        lemma_reinserted_exist(
            *old(trees),
            *trees,
            old(moved_proxies)@,
            updates@,
            ColliderTreeType::Static,
        );
        if one_proxy_each(old(trees).proxy_map()) {
            assert forall|k: ColliderTreeProxyKey| #[trigger]
                trees.proxy_map().contains_key(k) implies old(trees).proxy_map().contains_key(k)
                && old(trees).proxy_map()[k].collider == trees.proxy_map()[k].collider by {
                let t = k.spec_tree_type();
                assert(trees.tree(t).proxies@.dom() == old(trees).tree(t).proxies@.dom());
                assert(trees.tree(t).proxies@.contains_key(k.spec_id() as int));
                assert(old(trees).tree(t).proxies@.dom().contains(k.spec_id() as int));
            }
            changing_keeps_one_proxy_each(old(trees).proxy_map(), trees.proxy_map());
        }
    }
}

/// Reinserts the changed colliders without a body with their new bounding boxes, and marks those
/// as moved whose box has left the enlarged one.
pub fn update_standalone_aabbs(
    trees: &mut ColliderTrees,
    moved_proxies: &mut MovedProxies,
    updates: &Vec<ChangedBox>,
)
    requires
        old(trees).wf(),
        old(moved_proxies).wf(),
        old(trees).standalone_tree.tight(),
        old(trees).standalone_tree.reinsertable(updates.len() as nat),
        forall|i: int|
            0 <= i < updates.len() ==> old(trees).standalone_tree.boxes().contains_key(
                (#[trigger] updates[i]).id@,
            ) && aabb_numeric(updates[i].aabb),
    ensures
        final(trees).wf(),
        final(moved_proxies).wf(),
        final(trees).standalone_tree.proxies@ == proxies_reinserted(
            old(trees).standalone_tree.proxies@,
            updates@,
        ),
        final(trees).standalone_tree.proxies.slot_count()
            == old(trees).standalone_tree.proxies.slot_count(),
        final(trees).standalone_tree.proxies.free_slots()
            == old(trees).standalone_tree.proxies.free_slots(),
        final(trees).standalone_tree.moved_proxies == old(trees).standalone_tree.moved_proxies,
        final(trees).standalone_tree.boxes() == boxes_reinserted(
            old(trees).standalone_tree.boxes(),
            updates@,
        ),
        hierarchy_reinserted(
            old(trees).standalone_tree.bvh,
            updates@,
            final(trees).standalone_tree.bvh,
        ),
        bvh_grown(
            old(trees).standalone_tree.bvh,
            final(trees).standalone_tree.bvh,
            updates.len() as nat,
        ),
        final(moved_proxies)@ == keys_reinserted(
            old(moved_proxies)@,
            updates@,
            ColliderTreeType::Standalone,
        ),
        final(trees).dynamic_tree == old(trees).dynamic_tree,
        final(trees).kinematic_tree == old(trees).kinematic_tree,
        final(trees).static_tree == old(trees).static_tree,
        // Each proxy that is listed once gets its own box, also in the tree.
        (forall|i: int, j: int|
            0 <= i < j < updates.len() ==> (#[trigger] updates[i]).id@ != (
            #[trigger] updates[j]).id@) ==> forall|i: int|
            0 <= i < updates.len() ==> {
                let id = (#[trigger] updates[i]).id@;
                &&& final(trees).standalone_tree.proxies@[id as int].aabb == updates[i].aabb
                &&& final(trees).standalone_tree.boxes().contains_key(id)
                &&& final(trees).standalone_tree.boxes()[id] == updates[i].aabb
            },
        // Those whose box has left the enlarged one are listed as moved.
        forall|i: int|
            0 <= i < updates.len() && (#[trigger] updates[i]).left_enlarged
                ==> final(moved_proxies)@.contains(
                ColliderTreeProxyKey::of(
                    updates[i].id@,
                    ColliderTreeType::Standalone,
                ),
            ),
        one_proxy_each(old(trees).proxy_map()) ==> one_proxy_each(final(trees).proxy_map()),
        old(trees).synced() ==> final(trees).synced(),
        final(trees).standalone_tree.tight(),
        moved_exist(*old(trees), old(moved_proxies)@) ==> moved_exist(
            *final(trees),
            final(moved_proxies)@,
        ),
{
    reinsert_proxies(
        &mut trees.standalone_tree,
        ColliderTreeType::Standalone,
        updates,
        moved_proxies,
    );
    proof {
        keys_reinserted_members(
            old(moved_proxies)@,
            updates@,
            ColliderTreeType::Standalone,
        );
        if forall|i: int, j: int|
            0 <= i < j < updates.len() ==> (#[trigger] updates[i]).id@ != (
            #[trigger] updates[j]).id@ {
            assert forall|i: int|
                0 <= i < updates.len() implies old(trees).standalone_tree.proxies@.contains_key(
                (#[trigger] updates@[i]).id@ as int,
            ) by {
                assert(old(trees).standalone_tree.boxes().contains_key(updates[i].id@));
            }
            assert(forall|i: int, j: int|
                0 <= i < j < updates@.len() ==> (#[trigger] updates@[i]).id@ != (
                #[trigger] updates@[j]).id@);
            reinserted_proxies_by_id(old(trees).standalone_tree.proxies@, updates@);
            reinserted_boxes_by_id(old(trees).standalone_tree.boxes(), updates@);
        }
        lemma_reinserted_exist(
            *old(trees),
            *trees,
            old(moved_proxies)@,
            updates@,
            ColliderTreeType::Standalone,
        );
        if one_proxy_each(old(trees).proxy_map()) {
            assert forall|k: ColliderTreeProxyKey| #[trigger]
                trees.proxy_map().contains_key(k) implies old(trees).proxy_map().contains_key(k)
                && old(trees).proxy_map()[k].collider == trees.proxy_map()[k].collider by {
                let t = k.spec_tree_type();
                assert(trees.tree(t).proxies@.dom() == old(trees).tree(t).proxies@.dom());
                assert(trees.tree(t).proxies@.contains_key(k.spec_id() as int));
                assert(old(trees).tree(t).proxies@.dom().contains(k.spec_id() as int));
            }
            changing_keeps_one_proxy_each(old(trees).proxy_map(), trees.proxy_map());
        }
    }
}

/// Enlarging proxies that are listed once each gives each of them its own new bounding box and
/// leaves the rest of it as it was, and leaves all other proxies as they are.
pub proof fn enlarged_proxies_by_id(
    proxies: Map<int, ColliderTreeProxy>,
    ids: Seq<ProxyId>,
    boxes: Seq<MovedBoxes>,
)
    requires
        ids.len() == boxes.len(),
        forall|i: int| 0 <= i < ids.len() ==> proxies.contains_key((#[trigger] ids[i])@ as int),
        forall|i: int, j: int|
            0 <= i < j < ids.len() ==> (#[trigger] ids[i])@ != (#[trigger] ids[j])@,
    ensures
        forall|i: int|
            0 <= i < ids.len() ==> {
                let after = proxies_enlarged(proxies, ids, boxes)[(#[trigger] ids[i])@ as int];
                let before = proxies[ids[i]@ as int];
                &&& after.aabb == boxes[i].aabb
                &&& after.collider == before.collider
                &&& after.body == before.body
                &&& after.layers == before.layers
                &&& after.flags == before.flags
            },
        forall|id: int|
            (forall|i: int| 0 <= i < ids.len() ==> (#[trigger] ids[i])@ != id)
                ==> #[trigger] proxies_enlarged(proxies, ids, boxes)[id] == proxies[id],
        forall|id: int| #[trigger]
            proxies_enlarged(proxies, ids, boxes).contains_key(id) <==> proxies.contains_key(id),
    decreases ids.len(),
{
    if ids.len() > 0 {
        let (rest, rest_boxes) = (ids.drop_last(), boxes.drop_last());
        let n = ids.len() - 1;
        assert forall|i: int| 0 <= i < rest.len() implies proxies.contains_key(
            (#[trigger] rest[i])@ as int,
        ) by {
            assert(rest[i] == ids[i]);
        }
        assert forall|i: int, j: int| 0 <= i < j < rest.len() implies (#[trigger] rest[i])@ != (
        #[trigger] rest[j])@ by {
            assert(rest[i] == ids[i] && rest[j] == ids[j]);
        }
        enlarged_proxies_by_id(proxies, rest, rest_boxes);
        let before = proxies_enlarged(proxies, rest, rest_boxes);
        let after = proxies_enlarged(proxies, ids, boxes);
        assert(before[ids[n]@ as int] == proxies[ids[n]@ as int]) by {
            assert forall|i: int| 0 <= i < rest.len() implies (#[trigger] rest[i])@ != ids[n]@ by {
                assert(rest[i] == ids[i]);
            }
        }
        assert(proxies.contains_key(ids[n]@ as int));
        assert forall|i: int| 0 <= i < ids.len() implies {
            let proxy = after[(#[trigger] ids[i])@ as int];
            &&& proxy.aabb == boxes[i].aabb
            &&& proxy.collider == proxies[ids[i]@ as int].collider
            &&& proxy.body == proxies[ids[i]@ as int].body
            &&& proxy.layers == proxies[ids[i]@ as int].layers
            &&& proxy.flags == proxies[ids[i]@ as int].flags
        } by {
            if i < n {
                assert(rest[i] == ids[i]);
                assert(ids[i]@ != ids[n]@);
            }
        }
        assert forall|id: int|
            (forall|i: int| 0 <= i < ids.len() ==> (
            #[trigger] ids[i])@ != id) implies #[trigger] after[id] == proxies[id] by {
            assert(ids[n]@ != id);
            assert forall|i: int| 0 <= i < rest.len() implies (#[trigger] rest[i])@ != id by {
                assert(rest[i] == ids[i]);
            }
            assert(before[id] == proxies[id]);
        }
    }
}

/// Enlarging proxies that are listed once each gives each of them its own enlarged box in the tree,
/// and leaves the boxes of all others as they are.
pub proof fn enlarged_boxes_by_id(
    tree_boxes: Map<u32, Aabb>,
    ids: Seq<ProxyId>,
    boxes: Seq<MovedBoxes>,
)
    requires
        ids.len() == boxes.len(),
        forall|i: int, j: int|
            0 <= i < j < ids.len() ==> (#[trigger] ids[i])@ != (#[trigger] ids[j])@,
    ensures
        forall|i: int|
            0 <= i < ids.len() ==> boxes_enlarged(tree_boxes, ids, boxes).contains_key(
                (#[trigger] ids[i])@,
            ) && boxes_enlarged(tree_boxes, ids, boxes)[ids[i]@] == boxes[i].enlarged_aabb,
        forall|id: u32|
            (forall|i: int| 0 <= i < ids.len() ==> (#[trigger] ids[i])@ != id) ==> (
            #[trigger] boxes_enlarged(tree_boxes, ids, boxes).contains_key(id)
                <==> tree_boxes.contains_key(id)) && boxes_enlarged(tree_boxes, ids, boxes)[id]
                == tree_boxes[id],
    decreases ids.len(),
{
    if ids.len() > 0 {
        let (rest, rest_boxes) = (ids.drop_last(), boxes.drop_last());
        let n = ids.len() - 1;
        assert forall|i: int, j: int| 0 <= i < j < rest.len() implies (#[trigger] rest[i])@ != (
        #[trigger] rest[j])@ by {
            assert(rest[i] == ids[i] && rest[j] == ids[j]);
        }
        enlarged_boxes_by_id(tree_boxes, rest, rest_boxes);
        let before = boxes_enlarged(tree_boxes, rest, rest_boxes);
        let after = boxes_enlarged(tree_boxes, ids, boxes);
        assert forall|i: int| 0 <= i < ids.len() implies after.contains_key((#[trigger] ids[i])@)
            && after[ids[i]@] == boxes[i].enlarged_aabb by {
            if i < n {
                assert(rest[i] == ids[i]);
                assert(ids[i]@ != ids[n]@);
            }
        }
        assert forall|id: u32|
            (forall|i: int| 0 <= i < ids.len() ==> (#[trigger] ids[i])@ != id) implies (
        #[trigger] after.contains_key(id) <==> tree_boxes.contains_key(id)) && after[id]
            == tree_boxes[id] by {
            assert(ids[n]@ != id);
            assert forall|i: int| 0 <= i < rest.len() implies (#[trigger] rest[i])@ != id by {
                assert(rest[i] == ids[i]);
            }
            assert(before.contains_key(id) <==> tree_boxes.contains_key(id));
        }
    }
}

/// Boxes in a tree that cover the bounding boxes of their proxies still do after proxies that are
/// listed once each have been enlarged, if every enlarged box covers the box that it is for.
pub proof fn enlarged_boxes_cover(
    proxies: Map<int, ColliderTreeProxy>,
    tree_boxes: Map<u32, Aabb>,
    ids: Seq<ProxyId>,
    boxes: Seq<MovedBoxes>,
    id: u32,
)
    requires
        ids.len() == boxes.len(),
        forall|i: int| 0 <= i < ids.len() ==> proxies.contains_key((#[trigger] ids[i])@ as int),
        forall|i: int, j: int|
            0 <= i < j < ids.len() ==> (#[trigger] ids[i])@ != (#[trigger] ids[j])@,
        forall|i: int, other: Aabb|
            0 <= i < boxes.len() && aabb_intersects((#[trigger] boxes[i]).aabb, other)
                ==> #[trigger] aabb_intersects(boxes[i].enlarged_aabb, other),
        forall|other: Aabb| #[trigger]
            aabb_intersects(proxies[id as int].aabb, other) ==> aabb_intersects(
                tree_boxes[id],
                other,
            ),
    ensures
        forall|other: Aabb| #[trigger]
            aabb_intersects(proxies_enlarged(proxies, ids, boxes)[id as int].aabb, other)
                ==> aabb_intersects(boxes_enlarged(tree_boxes, ids, boxes)[id], other),
{
    enlarged_proxies_by_id(proxies, ids, boxes);
    enlarged_boxes_by_id(tree_boxes, ids, boxes);
    if exists|i: int| 0 <= i < ids.len() && (#[trigger] ids[i])@ == id {
        let i = choose|i: int| 0 <= i < ids.len() && (#[trigger] ids[i])@ == id;
        assert(boxes_enlarged(tree_boxes, ids, boxes)[ids[i]@] == boxes[i].enlarged_aabb);
        assert(proxies_enlarged(proxies, ids, boxes)[ids[i]@ as int].aabb == boxes[i].aabb);
    } else {
        assert(boxes_enlarged(tree_boxes, ids, boxes).contains_key(id) <==> tree_boxes.contains_key(
            id,
        ));
        assert(proxies_enlarged(proxies, ids, boxes)[id as int] == proxies[id as int]);
    }
}

/// Enlarging proxies that are listed once each, and not as moved yet, lists them as moved in the
/// given order, after those that are.
pub proof fn enlarged_keys_in_order(
    keys: Seq<ColliderTreeProxyKey>,
    ids: Seq<ProxyId>,
    tree_type: ColliderTreeType,
)
    requires
        keys.no_duplicates(),
        forall|i: int|
            0 <= i < ids.len() ==> (#[trigger] ids[i])@ < PROXY_ID_LIMIT && !keys.contains(
                ColliderTreeProxyKey::of(ids[i]@, tree_type),
            ),
        forall|i: int, j: int|
            0 <= i < j < ids.len() ==> (#[trigger] ids[i])@ != (#[trigger] ids[j])@,
    ensures
        keys_enlarged(keys, ids, tree_type).len() == keys.len() + ids.len(),
        forall|i: int|
            0 <= i < keys.len() ==> #[trigger] keys_enlarged(keys, ids, tree_type)[i] == keys[i],
        forall|i: int|
            0 <= i < ids.len() ==> keys_enlarged(keys, ids, tree_type)[keys.len() + i]
                == ColliderTreeProxyKey::of((#[trigger] ids[i])@, tree_type),
    decreases ids.len(),
{
    if ids.len() > 0 {
        let rest = ids.drop_last();
        let n = ids.len() - 1;
        assert forall|i: int| 0 <= i < rest.len() implies (#[trigger] rest[i])@ < PROXY_ID_LIMIT
            && !keys.contains(ColliderTreeProxyKey::of(rest[i]@, tree_type)) by {
            assert(rest[i] == ids[i]);
        }
        assert forall|i: int, j: int| 0 <= i < j < rest.len() implies (#[trigger] rest[i])@ != (
        #[trigger] rest[j])@ by {
            assert(rest[i] == ids[i] && rest[j] == ids[j]);
        }
        enlarged_keys_in_order(keys, rest, tree_type);
        let before = keys_enlarged(keys, rest, tree_type);
        let after = keys_enlarged(keys, ids, tree_type);
        let key = ColliderTreeProxyKey::of(ids[n]@, tree_type);
        assert(ids[n]@ < PROXY_ID_LIMIT && !keys.contains(key));
        proxy_key_round_trip(ids[n]@, tree_type);
        assert(!before.contains(key)) by {
            keys_enlarged_members(keys, rest, tree_type);
            if before.contains(key) {
                let i = choose|i: int|
                    0 <= i < rest.len() && key == ColliderTreeProxyKey::of(
                        (#[trigger] rest[i])@,
                        tree_type,
                    );
                assert(rest[i] == ids[i]);
                assert(ids[i]@ < PROXY_ID_LIMIT);
                proxy_key_round_trip(ids[i]@, tree_type);
            }
        }
        assert(after == before.push(key));
        assert forall|i: int| 0 <= i < ids.len() implies after[keys.len() + i]
            == ColliderTreeProxyKey::of((#[trigger] ids[i])@, tree_type) by {
            if i < n {
                assert(rest[i] == ids[i]);
                assert(after[keys.len() + i] == before[keys.len() + i]);
            }
        }
    }
}

/// Reinserting proxies that are listed once each gives each of them its own new bounding box and
/// leaves the rest of it as it was, and leaves all other proxies as they are.
pub proof fn reinserted_proxies_by_id(
    proxies: Map<int, ColliderTreeProxy>,
    updates: Seq<ChangedBox>,
)
    requires
        forall|i: int|
            0 <= i < updates.len() ==> proxies.contains_key((#[trigger] updates[i]).id@ as int),
        forall|i: int, j: int|
            0 <= i < j < updates.len() ==> (#[trigger] updates[i]).id@ != (
            #[trigger] updates[j]).id@,
    ensures
        forall|i: int|
            0 <= i < updates.len() ==> {
                let after = proxies_reinserted(proxies, updates)[(
                #[trigger] updates[i]).id@ as int];
                let before = proxies[updates[i].id@ as int];
                &&& after.aabb == updates[i].aabb
                &&& after.collider == before.collider
                &&& after.body == before.body
                &&& after.layers == before.layers
                &&& after.flags == before.flags
            },
        forall|id: int|
            (forall|i: int| 0 <= i < updates.len() ==> (#[trigger] updates[i]).id@ != id)
                ==> #[trigger] proxies_reinserted(proxies, updates)[id] == proxies[id],
        forall|id: int| #[trigger]
            proxies_reinserted(proxies, updates).contains_key(id) <==> proxies.contains_key(id),
    decreases updates.len(),
{
    if updates.len() > 0 {
        let rest = updates.drop_last();
        let n = updates.len() - 1;
        assert forall|i: int| 0 <= i < rest.len() implies proxies.contains_key(
            (#[trigger] rest[i]).id@ as int,
        ) by {
            assert(rest[i] == updates[i]);
        }
        assert forall|i: int, j: int| 0 <= i < j < rest.len() implies (#[trigger] rest[i]).id@ != (
        #[trigger] rest[j]).id@ by {
            assert(rest[i] == updates[i] && rest[j] == updates[j]);
        }
        reinserted_proxies_by_id(proxies, rest);
        let before = proxies_reinserted(proxies, rest);
        let after = proxies_reinserted(proxies, updates);
        assert(before[updates[n].id@ as int] == proxies[updates[n].id@ as int]) by {
            assert forall|i: int| 0 <= i < rest.len() implies (#[trigger] rest[i]).id@
                != updates[n].id@ by {
                assert(rest[i] == updates[i]);
            }
        }
        assert(proxies.contains_key(updates[n].id@ as int));
        assert forall|i: int| 0 <= i < updates.len() implies {
            let proxy = after[(#[trigger] updates[i]).id@ as int];
            &&& proxy.aabb == updates[i].aabb
            &&& proxy.collider == proxies[updates[i].id@ as int].collider
            &&& proxy.body == proxies[updates[i].id@ as int].body
            &&& proxy.layers == proxies[updates[i].id@ as int].layers
            &&& proxy.flags == proxies[updates[i].id@ as int].flags
        } by {
            if i < n {
                assert(rest[i] == updates[i]);
                assert(updates[i].id@ != updates[n].id@);
            }
        }
        assert forall|id: int|
            (forall|i: int| 0 <= i < updates.len() ==> (
            #[trigger] updates[i]).id@ != id) implies #[trigger] after[id] == proxies[id] by {
            assert(updates[n].id@ != id);
            assert forall|i: int| 0 <= i < rest.len() implies (#[trigger] rest[i]).id@ != id by {
                assert(rest[i] == updates[i]);
            }
            assert(before[id] == proxies[id]);
        }
    }
}

/// Reinserting proxies that are listed once each gives each of them its own new box in the tree,
/// and leaves the boxes of all others as they are.
pub proof fn reinserted_boxes_by_id(tree_boxes: Map<u32, Aabb>, updates: Seq<ChangedBox>)
    requires
        forall|i: int, j: int|
            0 <= i < j < updates.len() ==> (#[trigger] updates[i]).id@ != (
            #[trigger] updates[j]).id@,
    ensures
        forall|i: int|
            0 <= i < updates.len() ==> boxes_reinserted(tree_boxes, updates).contains_key(
                (#[trigger] updates[i]).id@,
            ) && boxes_reinserted(tree_boxes, updates)[updates[i].id@] == updates[i].aabb,
        forall|id: u32|
            (forall|i: int| 0 <= i < updates.len() ==> (#[trigger] updates[i]).id@ != id) ==> (
            #[trigger] boxes_reinserted(tree_boxes, updates).contains_key(id)
                <==> tree_boxes.contains_key(id)) && boxes_reinserted(tree_boxes, updates)[id]
                == tree_boxes[id],
    decreases updates.len(),
{
    if updates.len() > 0 {
        let rest = updates.drop_last();
        let n = updates.len() - 1;
        assert forall|i: int, j: int| 0 <= i < j < rest.len() implies (#[trigger] rest[i]).id@ != (
        #[trigger] rest[j]).id@ by {
            assert(rest[i] == updates[i] && rest[j] == updates[j]);
        }
        reinserted_boxes_by_id(tree_boxes, rest);
        let before = boxes_reinserted(tree_boxes, rest);
        let after = boxes_reinserted(tree_boxes, updates);
        assert forall|i: int| 0 <= i < updates.len() implies after.contains_key(
            (#[trigger] updates[i]).id@,
        ) && after[updates[i].id@] == updates[i].aabb by {
            if i < n {
                assert(rest[i] == updates[i]);
                assert(updates[i].id@ != updates[n].id@);
            }
        }
        assert forall|id: u32|
            (forall|i: int| 0 <= i < updates.len() ==> (#[trigger] updates[i]).id@ != id) implies (
        #[trigger] after.contains_key(id) <==> tree_boxes.contains_key(id)) && after[id]
            == tree_boxes[id] by {
            assert(updates[n].id@ != id);
            assert forall|i: int| 0 <= i < rest.len() implies (#[trigger] rest[i]).id@ != id by {
                assert(rest[i] == updates[i]);
            }
            assert(before.contains_key(id) <==> tree_boxes.contains_key(id));
        }
    }
}

/// Removing a key puts the last one in its place, and leaves all others where they are.
pub proof fn last_key_takes_the_place(keys: Seq<ColliderTreeProxyKey>, place: int, other: int)
    requires
        keys.no_duplicates(),
        0 <= place < keys.len(),
        0 <= other < keys.len() - 1,
    ensures
        keys_without(keys, keys[place]).len() == keys.len() - 1,
        other != place ==> keys_without(keys, keys[place])[other] == keys[other],
        other == place ==> keys_without(keys, keys[place])[other] == keys[keys.len() - 1],
{
    assert(keys.contains(keys[place]));
    assert(keys.index_of(keys[place]) == place);
}

/// A proxy is marked in one of the bit vectors exactly if one of them marks it among the proxies of
/// its own kind of body.
pub proof fn marked_by_one_of_the_threads(bit_vecs: Seq<EnlargedProxiesBitVec>, number: int)
    ensures
        dynamic_in_one_of(bit_vecs, bit_vecs.len() as int, number) <==> exists|k: int|
            0 <= k < bit_vecs.len() && (#[trigger] bit_vecs[k]).dynamic@.contains(number),
        kinematic_in_one_of(bit_vecs, bit_vecs.len() as int, number) <==> exists|k: int|
            0 <= k < bit_vecs.len() && (#[trigger] bit_vecs[k]).kinematic@.contains(number),
{
}

/// Bit vectors for given numbers of proxies have room for all of them, each in its own bit vector,
/// and less than a block of 64 to spare.
pub proof fn capacity_suffices(
    bit_vec: EnlargedProxiesBitVec,
    dynamic_capacity: nat,
    kinematic_capacity: nat,
)
    requires
        bit_vec.has_capacity(dynamic_capacity, kinematic_capacity),
    ensures
        dynamic_capacity <= 64 * bit_vec.dynamic.spec_block_count() < dynamic_capacity + 64,
        kinematic_capacity <= 64 * bit_vec.kinematic.spec_block_count() < kinematic_capacity + 64,
        forall|other: EnlargedProxiesBitVec| #[trigger]
            other.same_capacity(bit_vec) ==> other.has_capacity(
                dynamic_capacity,
                kinematic_capacity,
            ),
{
}

} // verus!
