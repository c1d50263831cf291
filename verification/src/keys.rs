//! Numbered places: a slab hands out the keys by which transfers are found.

use slab::Slab;
use vstd::prelude::*;

verus! {

/// A collection of the crate `slab`, whose keys are the indices of its entries.
#[verifier::external_type_specification]
#[verifier::external_body]
#[verifier::reject_recursive_types(T)]
pub struct ExSlab<T>(slab::Slab<T>);

/// What a slab holds, by key.
pub uninterp spec fn slab_contents(s: Slab<u64>) -> Map<usize, u64>;

/// The key that a slab gives to the next value put into it.
pub uninterp spec fn slab_vacant_key(s: Slab<u64>) -> usize;

/// The keys that a slab gives away again before it makes new ones: its list of
/// vacant entries, with the first of that list last.
pub uninterp spec fn slab_vacancies(s: Slab<u64>) -> Seq<usize>;

/// The keys that are left to be given away again after the vacant one was given
/// away.
pub open spec fn freed_after(freed: Seq<usize>) -> Seq<usize> {
    if freed.len() > 0 {
        freed.drop_last()
    } else {
        freed
    }
}

/// The key that is vacant after the vacant one was given away, while `used` keys
/// were in use: the one that was freed last among those left, else a new one.
pub open spec fn vacant_after(used: nat, freed: Seq<usize>) -> usize {
    if freed.len() > 1 {
        freed[freed.len() - 2]
    } else {
        (used + 1) as usize
    }
}

/// Keys are numbered without gaps: those in use and those freed are the first
/// numbers, none is both, and the vacant one was freed last or is the next
/// number.
pub open spec fn well_numbered(used: Set<usize>, freed: Seq<usize>, vacant: usize) -> bool {
    &&& used.finite()
    &&& forall|k: usize| #[trigger]
        used.contains(k) ==> k < used.len() + freed.len() && !freed.contains(k)
    &&& forall|i: int| 0 <= i < freed.len() ==> #[trigger] freed[i] < used.len() + freed.len()
    &&& freed.no_duplicates()
    &&& vacant == (if freed.len() > 0 {
        freed.last() as int
    } else {
        used.len() as int
    })
}

/// The vacant key is not in use.
pub proof fn vacant_is_not_used(used: Set<usize>, freed: Seq<usize>, vacant: usize)
    requires
        well_numbered(used, freed, vacant),
    ensures
        !used.contains(vacant),
{
    if freed.len() > 0 {
        assert(freed.contains(freed.last()));
    }
}

/// Giving the vacant key away keeps keys numbered without gaps.
pub proof fn taking_keeps_numbers(used: Set<usize>, freed: Seq<usize>, vacant: usize)
    requires
        well_numbered(used, freed, vacant),
        freed.len() <= 1 ==> used.len() < usize::MAX,
    ensures
        well_numbered(used.insert(vacant), freed_after(freed), vacant_after(used.len(), freed)),
{
    vacant_is_not_used(used, freed, vacant);
    let left = freed_after(freed);
    assert forall|k: usize| #[trigger] used.insert(vacant).contains(k) implies !left.contains(
        k,
    ) by {
        if left.contains(k) {
            let i = choose|i: int| 0 <= i < left.len() && left[i] == k;
            assert(freed[i] == k);
            assert(freed.contains(k));
        }
    }
    assert forall|i: int| 0 <= i < left.len() implies #[trigger] left[i] < used.len() + 1
        + left.len() by {
        assert(freed[i] == left[i]);
    }
}

/// Freeing a key keeps keys numbered without gaps, and makes it the vacant one.
pub proof fn freeing_keeps_numbers(
    used: Set<usize>,
    freed: Seq<usize>,
    vacant: usize,
    key: usize,
)
    requires
        well_numbered(used, freed, vacant),
        used.contains(key),
    ensures
        well_numbered(used.remove(key), freed.push(key), key),
{
    let more = freed.push(key);
    assert forall|k: usize| #[trigger] used.remove(key).contains(k) implies !more.contains(k) by {
        if more.contains(k) {
            let i = choose|i: int| 0 <= i < more.len() && more[i] == k;
            assert(freed[i] == k);
            assert(freed.contains(k));
        }
    }
    assert forall|i: int| 0 <= i < more.len() implies #[trigger] more[i] < used.len() - 1
        + more.len() by {
        assert(i < freed.len() ==> freed[i] == more[i]);
    }
    assert forall|i: int, j: int| 0 <= i < j < more.len() implies more[i] != more[j] by {
        assert(freed.contains(freed[i]));
    }
}

/// Calls `slab::Slab::new`, which makes a slab that holds nothing, whose first
/// key is 0, and that has no vacant entries.
#[verifier::external_body]
pub(crate) fn slab_new() -> (res: Slab<u64>)
    ensures
        (slab_contents(res) == Map::<usize, u64>::empty()),
        slab_vacant_key(res) == 0,
        (slab_vacancies(res) == Seq::<usize>::empty()),
{
    Slab::new()
}

/// Calls `slab::Slab::insert`, which puts a value at the vacant key, and
/// returns that key. The first entry of the list of vacant entries, if there is
/// one, leaves it; the key that is vacant afterwards is the first of those left,
/// or else the number of the values held, one past the end.
#[verifier::external_body]
pub(crate) fn slab_insert(s: &mut Slab<u64>, value: u64) -> (res: usize)
    ensures
        res == slab_vacant_key(*old(s)),
        slab_contents(*final(s)) == slab_contents(*old(s)).insert(res, value),
        slab_vacancies(*final(s)) == freed_after(slab_vacancies(*old(s))),
        slab_vacancies(*final(s)).len() > 0 ==> slab_vacant_key(*final(s)) == slab_vacancies(
            *final(s),
        ).last(),
        slab_vacancies(*final(s)).len() == 0 ==> slab_vacant_key(*final(s)) == slab_contents(
            *final(s),
        ).dom().len(),
{
    s.insert(value)
}

/// Calls `slab::Slab::remove`, which takes out and returns the value at a key,
/// and makes that key the vacant one, first in the list of vacant entries. It
/// panics where the key holds nothing.
#[verifier::external_body]
pub(crate) fn slab_remove(s: &mut Slab<u64>, key: usize) -> (res: u64)
    requires
        slab_contents(*old(s)).contains_key(key),
    ensures
        res == slab_contents(*old(s))[key],
        slab_contents(*final(s)) == slab_contents(*old(s)).remove(key),
        slab_vacant_key(*final(s)) == key,
        slab_vacancies(*final(s)) == slab_vacancies(*old(s)).push(key),
{
    s.remove(key)
}

/// Calls `slab::Slab::get`, which finds the value at a key, if there is one.
#[verifier::external_body]
pub(crate) fn slab_get(s: &Slab<u64>, key: usize) -> (res: Option<u64>)
    ensures
        res == (if slab_contents(*s).contains_key(key) {
            Some(slab_contents(*s)[key])
        } else {
            None
        }),
{
    s.get(key).copied()
}

/// `entries` lists what a map from keys holds, by ascending key.
pub open spec fn lists_by_key(entries: Seq<(usize, u64)>, contents: Map<usize, u64>) -> bool {
    &&& forall|i: int, j: int|
        0 <= i < j < entries.len() ==> (#[trigger] entries[i]).0 < (#[trigger] entries[j]).0
    &&& forall|i: int|
        0 <= i < entries.len() ==> contents.contains_key((#[trigger] entries[i]).0)
            && contents[entries[i].0] == entries[i].1
    &&& forall|k: usize| #[trigger]
        contents.contains_key(k) ==> exists|i: int|
            0 <= i < entries.len() && (#[trigger] entries[i]).0 == k
}

/// Calls `slab::Slab::iter`, which walks the occupied keys and their values by
/// ascending key.
#[verifier::external_body]
pub(crate) fn slab_entries(s: &Slab<u64>) -> (res: Vec<(usize, u64)>)
    ensures
        lists_by_key(res@, slab_contents(*s)),
{
    s.iter().map(|e| (e.0, *e.1)).collect()
}

} // verus!
