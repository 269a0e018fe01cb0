//! A vector whose indices stay the same when items are removed.

use vstd::prelude::*;

verus! {

/// A vector in which an item keeps its index until it is removed.
///
/// Removing an item leaves a free slot, which is used again by a later item.
#[derive(Debug)]
pub struct StableVec<T> {
    slots: Vec<Option<T>>,
    free: Vec<usize>,
}

impl<T> View for StableVec<T> {
    type V = Map<int, T>;

    /// The items by index.
    closed spec fn view(&self) -> Map<int, T> {
        Map::new(
            |i: int| 0 <= i < self.slots.len() && self.slots[i] is Some,
            |i: int| self.slots[i]->0,
        )
    }
}

impl<T> StableVec<T> {
    /// The number of slots, an upper bound on the indices in use.
    pub closed spec fn slot_count(self) -> nat {
        self.slots@.len()
    }

    /// The free slots, of which the last one is used next.
    pub closed spec fn free_slots(self) -> Seq<usize> {
        self.free@
    }

    /// The index that the next item gets.
    pub open spec fn next_index(self) -> nat {
        if self.free_slots().len() == 0 {
            self.slot_count()
        } else {
            self.free_slots().last() as nat
        }
    }

    /// Whether the free slots are listed once each, and hold no item.
    pub closed spec fn wf(self) -> bool {
        &&& self.free@.no_duplicates()
        &&& forall|k: int|
            0 <= k < self.free.len() ==> #[trigger] self.free[k] < self.slots.len()
                && self.slots[self.free[k] as int] is None
        &&& forall|i: int|
            0 <= i < self.slots.len() && #[trigger] self.slots[i] is None ==> self.free@.contains(
                i as usize,
            )
    }

    /// The indices in use lie below the number of slots.
    pub proof fn lemma_indices(&self)
        ensures
            forall|i: int| #[trigger] self@.contains_key(i) ==> 0 <= i < self.slot_count(),
    {
    }

    /// The index that the next item gets is not in use, and if no slot is free then all
    /// indices below it are.
    pub proof fn lemma_next_index(&self)
        requires
            self.wf(),
        ensures
            !self@.contains_key(self.next_index() as int),
            self.next_index() <= self.slot_count(),
            self.free_slots().len() == 0 ==> forall|i: int|
                0 <= i < self.slot_count() ==> #[trigger] self@.contains_key(i),
            self.free_slots().len() > 0 ==> self.next_index() < self.slot_count(),
    {
        if self.free.len() > 0 {
            assert(self.free@.last() == self.free[self.free.len() - 1]);
        } else {
            assert forall|i: int|
                0 <= i < self.slot_count() implies #[trigger] self@.contains_key(i) by {
                if self.slots[i] is None {
                    assert(self.free@.contains(i as usize));
                }
            }
        }
    }

    /// The number of items is the number of slots that are not free.
    pub proof fn lemma_len(&self)
        requires
            self.wf(),
            self.slot_count() <= usize::MAX,
        ensures
            self@.dom().finite(),
            self@.dom().len() == self.slot_count() - self.free_slots().len(),
    {
        let all = vstd::set_lib::set_int_range(0, self.slots.len() as int);
        vstd::set_lib::lemma_int_range(0, self.slots.len() as int);
        let free = self.free@.map_values(|i: usize| i as int);
        assert(free.no_duplicates());
        free.unique_seq_to_set();
        assert(free.to_set().finite()) by {
            vstd::seq_lib::seq_to_set_is_finite(free);
        }
        assert(self@.dom() =~= all.difference(free.to_set())) by {
            assert forall|i: int|
                self@.dom().contains(i) <==> all.difference(free.to_set()).contains(i) by {
                if all.contains(i) {
                    if self.slots[i] is None {
                        assert(self.free@.contains(i as usize));
                        let k = choose|k: int|
                            0 <= k < self.free.len() && self.free[k] == i as usize;
                        assert(free[k] == i);
                    } else if free.contains(i) {
                        let k = choose|k: int| 0 <= k < free.len() && free[k] == i;
                        assert(self.free[k] == i);
                    }
                }
            }
        }
        assert(free.to_set().subset_of(all)) by {
            assert forall|i: int| free.to_set().contains(i) implies all.contains(i) by {
                let k = choose|k: int| 0 <= k < free.len() && free[k] == i;
                assert(self.free[k] == i);
            }
        }
        assert(all.intersect(free.to_set()) =~= free.to_set());
        vstd::set_lib::lemma_set_disjoint_lens(self@.dom(), free.to_set());
        assert(self@.dom() + free.to_set() =~= all);
    }

    /// Creates a vector without items.
    pub fn new() -> (res: Self)
        ensures
            res.wf(),
            res@ == Map::<int, T>::empty(),
            res.slot_count() == 0,
            res.free_slots() == Seq::<usize>::empty(),
    {
        let res = StableVec { slots: Vec::new(), free: Vec::new() };
        assert(res@ =~= Map::<int, T>::empty());
        res
    }

    /// Returns the number of items.
    pub fn len(&self) -> (res: usize)
        requires
            self.wf(),
        ensures
            res == self@.dom().len(),
            self@.dom().finite(),
    {
        proof {
            self.lemma_len();
        }
        self.slots.len() - self.free.len()
    }

    /// Returns the number of slots, an upper bound on the indices in use.
    pub fn capacity(&self) -> (res: usize)
        ensures
            res == self.slot_count(),
    {
        self.slots.len()
    }

    /// Returns the index that the next item gets.
    pub fn peek_index(&self) -> (res: usize)
        requires
            self.wf(),
        ensures
            res == self.next_index(),
    {
        if self.free.len() == 0 {
            self.slots.len()
        } else {
            self.free[self.free.len() - 1]
        }
    }

    /// Adds an item, and returns its index.
    pub fn push(&mut self, item: T) -> (index: usize)
        requires
            old(self).wf(),
        ensures
            final(self).wf(),
            index == old(self).next_index(),
            final(self)@ == old(self)@.insert(index as int, item),
            !old(self)@.contains_key(index as int),
            final(self).slot_count() == if old(self).free_slots().len() == 0 {
                old(self).slot_count() + 1
            } else {
                old(self).slot_count()
            },
            final(self).free_slots() == if old(self).free_slots().len() == 0 {
                old(self).free_slots()
            } else {
                old(self).free_slots().drop_last()
            },
    {
        proof {
            self.lemma_next_index();
        }
        match self.free.pop() {
            Some(index) => {
                proof {
                    assert(old(self).free@.last() == index);
                    assert(old(self).free[old(self).free.len() - 1] == index);
                }
                self.slots.set(index, Some(item));
                proof {
                    assert(self.free@ =~= old(self).free@.drop_last());
                    assert forall|i: int|
                        0 <= i < self.slots.len() && #[trigger] self.slots[i]
                            is None implies self.free@.contains(i as usize) by {
                        assert(old(self).slots[i] is None);
                        let k = choose|k: int|
                            0 <= k < old(self).free.len() && old(self).free[k] == i as usize;
                        assert(self.free[k] == i as usize);
                    }
                    assert forall|k: int| 0 <= k < self.free.len() implies #[trigger] self.free[k]
                        < self.slots.len() && self.slots[self.free[k] as int] is None by {
                        assert(self.free[k] == old(self).free[k]);
                        assert(self.free[k] != index);
                    }
                    assert(self@ =~= old(self)@.insert(index as int, item));
                }
                index
            },
            None => {
                let index: usize = self.slots.len();
                self.slots.push(Some(item));
                proof {
                    assert(self.free@ =~= old(self).free@);
                    assert forall|i: int|
                        0 <= i < self.slots.len() && #[trigger] self.slots[i]
                            is None implies self.free@.contains(i as usize) by {
                        assert(old(self).slots[i] is None);
                    }
                    assert(self@ =~= old(self)@.insert(index as int, item));
                }
                index
            },
        }
    }

    /// Removes and returns the item with the given index, if there is one.
    pub fn try_remove(&mut self, index: usize) -> (res: Option<T>)
        requires
            old(self).wf(),
        ensures
            final(self).wf(),
            res == if old(self)@.contains_key(index as int) {
                Some(old(self)@[index as int])
            } else {
                None
            },
            final(self)@ == old(self)@.remove(index as int),
            final(self).slot_count() == old(self).slot_count(),
            final(self).free_slots() == if old(self)@.contains_key(index as int) {
                old(self).free_slots().push(index)
            } else {
                old(self).free_slots()
            },
    {
        if index < self.slots.len() && self.slots[index].is_some() {
            self.slots.push(None);
            let item = self.slots.swap_remove(index);
            self.free.push(index);
            proof {
                assert(self.slots@ =~= old(self).slots@.update(index as int, None));
                assert forall|i: int|
                    0 <= i < self.slots.len() && #[trigger] self.slots[i]
                        is None implies self.free@.contains(i as usize) by {
                    if i == index {
                        assert(self.free[self.free.len() - 1] == i as usize);
                    } else {
                        assert(old(self).slots[i] is None);
                        let k = choose|k: int|
                            0 <= k < old(self).free.len() && old(self).free[k] == i as usize;
                        assert(self.free[k] == i as usize);
                    }
                }
                assert forall|k: int| 0 <= k < self.free.len() implies #[trigger] self.free[k]
                    < self.slots.len() && self.slots[self.free[k] as int] is None by {
                    if k < old(self).free.len() {
                        assert(self.free[k] == old(self).free[k]);
                    }
                }
                assert(self.free@.no_duplicates()) by {
                    assert forall|k: int| 0 <= k < old(self).free.len() implies old(self).free[k]
                        != index by {}
                }
                assert(self@ =~= old(self)@.remove(index as int));
            }
            item
        } else {
            assert(self@ =~= old(self)@.remove(index as int));
            None
        }
    }

    /// Returns the item with the given index, if there is one.
    pub fn get(&self, index: usize) -> (res: Option<&T>)
        ensures
            match res {
                Some(item) => self@.contains_key(index as int) && *item == self@[index as int],
                None => !self@.contains_key(index as int),
            },
    {
        if index < self.slots.len() {
            self.slots[index].as_ref()
        } else {
            None
        }
    }

    /// Returns a mutable reference to the item with the given index, if there is one.
    pub fn get_mut(&mut self, index: usize) -> (res: Option<&mut T>)
        ensures
            match res {
                Some(item) => {
                    &&& old(self)@.contains_key(index as int)
                    &&& *item == old(self)@[index as int]
                    &&& final(self)@ =~= old(self)@.insert(index as int, *final(item))
                },
                None => !old(self)@.contains_key(index as int) && final(self)@ =~= old(self)@,
            },
            old(self).wf() ==> final(self).wf(),
            final(self).slot_count() == old(self).slot_count(),
            final(self).free_slots() == old(self).free_slots(),
    {
        if index < self.slots.len() {
            match &mut self.slots[index] {
                Some(item) => {
                    Some(item)
                },
                None => None,
            }
        } else {
            None
        }
    }
}

/// The index of an item that was just removed is used next, and the one that was used next before
/// is used after that.
pub proof fn removed_index_is_used_next<T>(
    before: StableVec<T>,
    removed: StableVec<T>,
    added: StableVec<T>,
    index: usize,
)
    requires
        removed.free_slots() == before.free_slots().push(index),
        removed.slot_count() == before.slot_count(),
        added.free_slots() == removed.free_slots().drop_last(),
        added.slot_count() == removed.slot_count(),
    ensures
        removed.next_index() == index,
        added.next_index() == before.next_index(),
{
    assert(added.free_slots() =~= before.free_slots());
}

impl<T: Copy> StableVec<T> {
    /// Returns a copy, in which items have the same indices.
    pub fn copied(&self) -> (res: Self)
        requires
            self.wf(),
        ensures
            res.wf(),
            res@ == self@,
            res.slot_count() == self.slot_count(),
            res.free_slots() == self.free_slots(),
    {
        let mut slots: Vec<Option<T>> = Vec::new();
        let mut free: Vec<usize> = Vec::new();
        let mut i: usize = 0;
        while i < self.slots.len()
            invariant
                i <= self.slots.len(),
                slots@ == self.slots@.take(i as int),
            decreases self.slots.len() - i,
        {
            slots.push(self.slots[i]);
            i = i + 1;
            assert(slots@ =~= self.slots@.take(i as int));
        }
        i = 0;
        while i < self.free.len()
            invariant
                i <= self.free.len(),
                free@ == self.free@.take(i as int),
            decreases self.free.len() - i,
        {
            free.push(self.free[i]);
            i = i + 1;
            assert(free@ =~= self.free@.take(i as int));
        }
        assert(slots@ =~= self.slots@);
        assert(free@ =~= self.free@);
        let res = StableVec { slots, free };
        assert(res@ =~= self@);
        res
    }
}

} // verus!
