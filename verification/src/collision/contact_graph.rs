//! The contacts between colliders.

use crate::data_structures::key_set::{new_set, set_contains, set_insert, set_of};
use crate::data_structures::pair_key::{pair_key_bits, pair_key_identifies_pair, PairKey};
use crate::entity::Entity;
use bevy::platform::collections::HashSet;
use vstd::prelude::*;

verus! {

/// What the contact graph knows of a pair of colliders.
#[derive(Clone, Copy, Debug, PartialEq, Eq, Structural)]
pub struct ContactEdge {
    /// The first collider.
    pub collider1: Entity,
    /// The second collider.
    pub collider2: Entity,
    /// The body of the first collider, if any.
    pub body1: Option<Entity>,
    /// The body of the second collider, if any.
    pub body2: Option<Entity>,
    /// Whether the contact causes events.
    pub contact_events: bool,
}

/// What is needed to compute the contact of a pair of colliders.
#[derive(Clone, Copy, Debug, PartialEq, Eq, Structural)]
pub struct ContactPair {
    /// The first collider.
    pub collider1: Entity,
    /// The second collider.
    pub collider2: Entity,
    /// The body of the first collider, if any.
    pub body1: Option<Entity>,
    /// The body of the second collider, if any.
    pub body2: Option<Entity>,
    /// Whether the contact can be modified by the user.
    pub modify_contacts: bool,
    /// Whether the contact has an effect on the bodies.
    pub generate_constraints: bool,
}

/// An edge of the contact graph with its contact pair.
#[derive(Clone, Copy, Debug, PartialEq, Eq, Structural)]
pub struct Contact {
    /// The edge.
    pub edge: ContactEdge,
    /// The contact pair.
    pub pair: ContactPair,
}

impl Contact {
    /// The number of the key of the pair of colliders.
    pub open spec fn key(self) -> u64 {
        pair_key_bits(self.edge.collider1.index, self.edge.collider2.index)
    }
}

/// Whether there is a contact with the given pair key.
pub open spec fn contacts_have(contacts: Seq<Contact>, key: u64) -> bool {
    exists|i: int| 0 <= i < contacts.len() && (#[trigger] contacts[i]).key() == key
}

/// The contacts after adding one, which is added only if there is none for the same pair.
pub open spec fn contacts_with(contacts: Seq<Contact>, contact: Contact) -> Seq<Contact> {
    if contacts_have(contacts, contact.key()) {
        contacts
    } else {
        contacts.push(contact)
    }
}

/// Whether no two contacts are for the same pair of colliders.
pub open spec fn contacts_distinct(contacts: Seq<Contact>) -> bool {
    forall|i: int, j: int|
        0 <= i < j < contacts.len() ==> (#[trigger] contacts[i]).key() != (
        #[trigger] contacts[j]).key()
}

/// The contacts between colliders, at most one for each unordered pair.
pub struct ContactGraph {
    contacts: Vec<Contact>,
    /// The keys of the pairs in contact, for quick lookup.
    keys: HashSet<u64>,
}

impl View for ContactGraph {
    type V = Seq<Contact>;

    /// The contacts, in the order in which they were added.
    closed spec fn view(&self) -> Seq<Contact> {
        self.contacts@
    }
}

impl ContactGraph {
    /// Whether no pair is in contact twice, and the lookup set holds the keys of the pairs.
    pub closed spec fn wf(self) -> bool {
        &&& contacts_distinct(self.contacts@)
        &&& forall|key: u64| #[trigger]
            set_of(self.keys).contains(key) <==> contacts_have(self.contacts@, key)
    }

    /// No two contacts are for the same pair of colliders.
    pub proof fn lemma_distinct(&self)
        requires
            self.wf(),
        ensures
            contacts_distinct(self@),
    {
    }

    /// Creates a graph without contacts.
    pub fn new() -> (res: Self)
        ensures
            res.wf(),
            res@ == Seq::<Contact>::empty(),
    {
        ContactGraph { contacts: Vec::new(), keys: new_set() }
    }

    /// Returns the contacts, in the order in which they were added.
    pub fn contacts(&self) -> (res: &[Contact])
        ensures
            res@ == self@,
    {
        self.contacts.as_slice()
    }

    /// Returns whether the pair of colliders with the given key is in contact.
    pub fn contains_key(&self, pair_key: &PairKey) -> (res: bool)
        requires
            self.wf(),
        ensures
            res == contacts_have(self@, pair_key@),
    {
        set_contains(&self.keys, pair_key.bits())
    }

    /// Adds a contact unless the pair of colliders is in contact already,
    /// and returns whether it was added.
    pub fn add_contact(&mut self, contact: Contact) -> (res: bool)
        requires
            old(self).wf(),
        ensures
            final(self).wf(),
            res == !contacts_have(old(self)@, contact.key()),
            final(self)@ == contacts_with(old(self)@, contact),
    {
        let pair_key = PairKey::new(
            contact.edge.collider1.index_u32(),
            contact.edge.collider2.index_u32(),
        );
        if set_insert(&mut self.keys, pair_key.bits()) {
            self.contacts.push(contact);
            proof {
                contacts_with_members(old(self)@, contact);
            }
            true
        } else {
            assert(set_of(self.keys) =~= set_of(old(self).keys));
            false
        }
    }
}

/// Adding a contact adds its pair and no other, keeps the contacts that are there, and keeps
/// the pairs distinct.
pub proof fn contacts_with_members(contacts: Seq<Contact>, contact: Contact)
    requires
        contacts_distinct(contacts),
    ensures
        contacts_distinct(contacts_with(contacts, contact)),
        contacts.is_prefix_of(contacts_with(contacts, contact)),
        forall|key: u64| #[trigger]
            contacts_have(contacts_with(contacts, contact), key) <==> contacts_have(contacts, key)
                || key == contact.key(),
{
    let after = contacts_with(contacts, contact);
    if !contacts_have(contacts, contact.key()) {
        assert forall|key: u64| #[trigger]
            contacts_have(after, key) <==> contacts_have(contacts, key) || key == contact.key() by {
            if contacts_have(contacts, key) {
                let i = choose|i: int|
                    0 <= i < contacts.len() && (#[trigger] contacts[i]).key() == key;
                assert(after[i].key() == key);
            }
            if key == contact.key() {
                assert(after[contacts.len() as int].key() == key);
            }
            if contacts_have(after, key) {
                let i = choose|i: int| 0 <= i < after.len() && (#[trigger] after[i]).key() == key;
                if i < contacts.len() {
                    assert(contacts[i].key() == key);
                }
            }
        }
        assert forall|i: int, j: int| 0 <= i < j < after.len() implies (
        #[trigger] after[i]).key() != (#[trigger] after[j]).key() by {
            assert(contacts[i] == after[i]);
            if j < contacts.len() {
                assert(contacts[j] == after[j]);
            }
        }
    }
}

/// A pair of colliders is in contact whichever of the two is named first.
pub proof fn contacts_have_unordered(contacts: Seq<Contact>, index1: u32, index2: u32)
    ensures
        contacts_have(contacts, pair_key_bits(index1, index2)) == contacts_have(
            contacts,
            pair_key_bits(index2, index1),
        ),
{
    pair_key_identifies_pair(index1, index2, index2, index1);
}

/// There is a contact with the key of a pair of indices exactly if the two colliders of some
/// contact have these indices, in either order.
pub proof fn contacts_have_pair(contacts: Seq<Contact>, index1: u32, index2: u32)
    ensures
        contacts_have(contacts, pair_key_bits(index1, index2)) <==> exists|i: int|
            0 <= i < contacts.len() && ((#[trigger] contacts[i]).edge.collider1.index == index1
                && contacts[i].edge.collider2.index == index2 || contacts[i].edge.collider1.index
                == index2 && contacts[i].edge.collider2.index == index1),
{
    assert forall|i: int| 0 <= i < contacts.len() implies (#[trigger] contacts[i]).key()
        == pair_key_bits(index1, index2) <==> (contacts[i].edge.collider1.index == index1
        && contacts[i].edge.collider2.index == index2 || contacts[i].edge.collider1.index == index2
        && contacts[i].edge.collider2.index == index1) by {
        pair_key_identifies_pair(
            contacts[i].edge.collider1.index,
            contacts[i].edge.collider2.index,
            index1,
            index2,
        );
    }
}

/// A contact is added at the end, exactly as it is, if no contact is between colliders with the
/// same two indices, in either order. Otherwise there is no change.
pub proof fn contact_added_once(contacts: Seq<Contact>, contact: Contact)
    ensures
        (forall|i: int|
            0 <= i < contacts.len() ==> !((#[trigger] contacts[i]).edge.collider1.index
                == contact.edge.collider1.index && contacts[i].edge.collider2.index
                == contact.edge.collider2.index) && !(contacts[i].edge.collider1.index
                == contact.edge.collider2.index && contacts[i].edge.collider2.index
                == contact.edge.collider1.index)) ==> {
            &&& contacts_with(contacts, contact).len() == contacts.len() + 1
            &&& contacts_with(contacts, contact).last() == contact
        },
        (exists|i: int|
            0 <= i < contacts.len() && ((#[trigger] contacts[i]).edge.collider1.index
                == contact.edge.collider1.index && contacts[i].edge.collider2.index
                == contact.edge.collider2.index || contacts[i].edge.collider1.index
                == contact.edge.collider2.index && contacts[i].edge.collider2.index
                == contact.edge.collider1.index)) ==> contacts_with(contacts, contact) == contacts,
        contacts_with(contacts, contact).len() >= contacts.len(),
        forall|i: int|
            0 <= i < contacts.len() ==> #[trigger] contacts_with(contacts, contact)[i]
                == contacts[i],
{
    contacts_have_pair(contacts, contact.edge.collider1.index, contact.edge.collider2.index);
}

} // verus!
