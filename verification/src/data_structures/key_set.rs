//! The hash set of `bevy`, holding numbers.

use bevy::platform::collections::HashSet;
use vstd::prelude::*;

verus! {

/// `bevy::platform::collections::HashSet`, a hash set.
#[verifier::external_type_specification]
#[verifier::external_body]
#[verifier::reject_recursive_types(T)]
#[verifier::reject_recursive_types(S)]
pub struct ExHashSet<T, S>(bevy::platform::collections::HashSet<T, S>);

/// `bevy::platform::hash::FixedHasher`, the hasher of a set, which is the same in every process.
#[verifier::external_type_specification]
#[verifier::external_body]
pub struct ExFixedHasher(bevy::platform::hash::FixedHasher);

/// The numbers that a hash set holds.
pub uninterp spec fn set_of(set: HashSet<u64>) -> Set<u64>;

/// `HashSet::default` makes a set without any number.
#[verifier::external_body]
pub(crate) fn new_set() -> (set: HashSet<u64>)
    ensures
        set_of(set) == Set::<u64>::empty(),
{
    HashSet::default()
}

/// `HashSet::contains` tells whether the set holds the number.
#[verifier::external_body]
pub(crate) fn set_contains(set: &HashSet<u64>, value: u64) -> (res: bool)
    ensures
        res == set_of(*set).contains(value),
{
    set.contains(&value)
}

/// `HashSet::insert` adds the number, and tells whether it was not there before.
#[verifier::external_body]
pub(crate) fn set_insert(set: &mut HashSet<u64>, value: u64) -> (res: bool)
    ensures
        set_of(*final(set)) == set_of(*old(set)).insert(value),
        res == !set_of(*old(set)).contains(value),
{
    set.insert(value)
}

/// `HashSet::remove` takes the number out, and tells whether it was there before.
#[verifier::external_body]
pub(crate) fn set_remove(set: &mut HashSet<u64>, value: u64) -> (res: bool)
    ensures
        set_of(*final(set)) == set_of(*old(set)).remove(value),
        res == set_of(*old(set)).contains(value),
{
    set.remove(&value)
}

/// `HashSet::reserve` makes room for more numbers, and leaves those in the set. It panics if the
/// room cannot be addressed, to which numbers below the given bound do not come close.
#[verifier::external_body]
pub(crate) fn set_reserve(set: &mut HashSet<u64>, additional: usize)
    requires
        set_of(*old(set)) == Set::<u64>::empty(),
        additional <= isize::MAX / 64,
    ensures
        set_of(*final(set)) == set_of(*old(set)),
{
    set.reserve(additional);
}

/// `HashSet::clear` takes every number out.
#[verifier::external_body]
pub(crate) fn set_clear(set: &mut HashSet<u64>)
    ensures
        set_of(*final(set)) == Set::<u64>::empty(),
{
    set.clear();
}

} // verus!
