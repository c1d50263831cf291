//! A shelf: things that are found by a numbered place, and that keep an
//! identity of their own after their place has been given away.

use std::collections::HashMap;

use slab::Slab;
use vstd::prelude::*;

use crate::keys::{
    freed_after, freeing_keeps_numbers, slab_entries, slab_get, slab_insert, slab_new, slab_remove,
    taking_keeps_numbers, vacant_after, vacant_is_not_used, well_numbered,
};

verus! {

broadcast use vstd::std_specs::hash::group_hash_axioms;

/// Things by place. A slab numbers the places and holds the identity of what
/// stands there; a table leads from the identity to the thing.
pub struct Shelf<T> {
    places: Slab<u64>,
    items: HashMap<u64, T>,
}

impl<T> Shelf<T> {
    /// The identity of what stands at each place in use.
    pub closed spec fn ids(&self) -> Map<usize, u64> {
        crate::keys::slab_contents(self.places)
    }

    /// The things by identity.
    pub closed spec fn items(&self) -> Map<u64, T> {
        self.items@
    }

    /// The place that is given away next.
    pub closed spec fn vacant(&self) -> usize {
        crate::keys::slab_vacant_key(self.places)
    }

    /// The places that are given away again before new ones, the next one last.
    pub closed spec fn freed(&self) -> Seq<usize> {
        crate::keys::slab_vacancies(self.places)
    }

    /// Every place leads to a thing, every thing has one place, and the places
    /// are numbered without gaps.
    pub open spec fn well_formed(&self) -> bool {
        &&& forall|k: usize| #[trigger]
            self.ids().contains_key(k) ==> self.items().contains_key(self.ids()[k])
        &&& forall|j: usize, k: usize|
            self.ids().contains_key(j) && self.ids().contains_key(k) && #[trigger] self.ids()[j]
                == #[trigger] self.ids()[k] ==> j == k
        &&& forall|id: u64| #[trigger]
            self.items().contains_key(id) ==> exists|k: usize|
                self.ids().contains_key(k) && #[trigger] self.ids()[k] == id
        &&& well_numbered(self.ids().dom(), self.freed(), self.vacant())
    }

    /// An empty shelf.
    pub fn new() -> (res: Self)
        ensures
            res.well_formed(),
            res.ids() == Map::<usize, u64>::empty(),
            res.items() == Map::<u64, T>::empty(),
            res.vacant() == 0,
            res.freed() == Seq::<usize>::empty(),
    {
        Shelf { places: slab_new(), items: HashMap::new() }
    }

    /// Puts a thing with a new identity at the vacant place.
    pub fn insert(&mut self, id: u64, item: T) -> (res: usize)
        requires
            old(self).well_formed(),
            !old(self).items().contains_key(id),
        ensures
            final(self).well_formed(),
            res == old(self).vacant(),
            !old(self).ids().contains_key(res),
            final(self).freed() == freed_after(old(self).freed()),
            final(self).vacant() == vacant_after(old(self).ids().dom().len(), old(self).freed()),
            final(self).ids() == old(self).ids().insert(res, id),
            final(self).items() == old(self).items().insert(id, item),
    {
        let key = slab_insert(&mut self.places, id);
        self.items.insert(id, item);
        proof {
            let before = old(self);
            let used = before.ids().dom();
            vacant_is_not_used(used, before.freed(), before.vacant());
            assert(self.ids().dom() =~= used.insert(key));
            if self.freed().len() == 0 {
                assert(self.vacant() == used.len() + 1);
            }
            taking_keeps_numbers(used, before.freed(), before.vacant());
            assert forall|i: u64| #[trigger] self.items().contains_key(i) implies exists|k: usize|
                self.ids().contains_key(k) && #[trigger] self.ids()[k] == i by {
                if i == id {
                    assert(self.ids()[key] == i);
                } else {
                    let k = choose|k: usize|
                        before.ids().contains_key(k) && #[trigger] before.ids()[k] == i;
                    assert(self.ids()[k] == i);
                }
            }
        }
        key
    }

    /// Clears a place.
    pub fn remove(&mut self, key: usize)
        requires
            old(self).well_formed(),
            old(self).ids().contains_key(key),
        ensures
            final(self).well_formed(),
            final(self).ids() == old(self).ids().remove(key),
            final(self).items() == old(self).items().remove(old(self).ids()[key]),
            final(self).vacant() == key,
            final(self).freed() == old(self).freed().push(key),
    {
        let id = slab_remove(&mut self.places, key);
        self.items.remove(&id);
        proof {
            let before = old(self);
            freeing_keeps_numbers(before.ids().dom(), before.freed(), before.vacant(), key);
            assert(self.ids().dom() =~= before.ids().dom().remove(key));
            assert forall|i: u64| #[trigger] self.items().contains_key(i) implies exists|k: usize|
                self.ids().contains_key(k) && #[trigger] self.ids()[k] == i by {
                let k = choose|k: usize|
                    before.ids().contains_key(k) && #[trigger] before.ids()[k] == i;
                assert(self.ids()[k] == i);
            }
        }
    }

    /// The identity of what stands at a place, if the place is in use.
    pub fn id_at(&self, key: usize) -> (res: Option<u64>)
        ensures
            res == (if self.ids().contains_key(key) {
                Some(self.ids()[key])
            } else {
                None
            }),
    {
        slab_get(&self.places, key)
    }

    /// Finds a thing by its identity.
    pub fn get(&self, id: u64) -> (res: Option<&T>)
        ensures
            match res {
                Some(item) => self.items().contains_key(id) && *item == self.items()[id],
                None => !self.items().contains_key(id),
            },
    {
        self.items.get(&id)
    }

    /// Takes a thing out to change it; its place waits for it.
    pub fn take(&mut self, id: u64) -> (res: Option<T>)
        ensures
            match res {
                Some(item) => old(self).items().contains_key(id) && item == old(self).items()[id],
                None => !old(self).items().contains_key(id),
            },
            final(self).items() == old(self).items().remove(id),
            final(self).ids() == old(self).ids(),
            final(self).vacant() == old(self).vacant(),
            final(self).freed() == old(self).freed(),
    {
        self.items.remove(&id)
    }

    /// Puts a thing back that was taken out.
    pub fn put_back(&mut self, id: u64, item: T)
        ensures
            final(self).items() == old(self).items().insert(id, item),
            final(self).ids() == old(self).ids(),
            final(self).vacant() == old(self).vacant(),
            final(self).freed() == old(self).freed(),
    {
        self.items.insert(id, item);
    }

    /// The places in use and the identities of what stands there, by ascending
    /// place.
    pub fn entries(&self) -> (res: Vec<(usize, u64)>)
        ensures
            crate::keys::lists_by_key(res@, self.ids()),
    {
        slab_entries(&self.places)
    }
}

} // verus!
