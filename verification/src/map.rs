//! The hash map of one cache partition.

use crate::buffers::bytes_of;
use crate::entry::{CacheEntry, EntryValue};
use bytes::Bytes;
use hashbrown::hash_map::Iter;
use hashbrown::HashMap;
use std::hash::Hash;
use vstd::prelude::*;

verus! {

/// The entries of one partition, by key.
#[verifier::external_body]
#[verifier::reject_recursive_types(K)]
#[verifier::reject_recursive_types(V)]
pub struct ShardMap<K, V> {
    map: HashMap<K, V>,
}

/// A walk over the items of a map.
#[verifier::external_type_specification]
#[verifier::external_body]
#[verifier::reject_recursive_types(K)]
#[verifier::reject_recursive_types(V)]
pub struct ExIter<'a, K, V>(Iter<'a, K, V>);

/// What a map holds: the entry under each key.
pub uninterp spec fn records(map: ShardMap<Bytes, CacheEntry>) -> Map<Seq<u8>, CacheEntry>;

/// What the entries under the keys of a map say.
pub open spec fn entries(map: ShardMap<Bytes, CacheEntry>) -> Map<Seq<u8>, EntryValue> {
    entry_values(records(map))
}

/// What entries say, by key.
pub open spec fn entry_values(records: Map<Seq<u8>, CacheEntry>) -> Map<Seq<u8>, EntryValue> {
    records.map_values(|entry: CacheEntry| entry@)
}

/// What a map without entries holds.
pub open spec fn no_records() -> Map<Seq<u8>, CacheEntry> {
    Map::empty()
}

/// What a walk has still to show, in the order in which it will.
pub uninterp spec fn unvisited(walk: Iter<'_, Bytes, CacheEntry>) -> Seq<(Seq<u8>, CacheEntry)>;

/// Whether `keys` is a list of `count` keys that names every key of a map once.
pub open spec fn lists_keys(keys: Seq<Seq<u8>>, map: Map<Seq<u8>, CacheEntry>, count: usize) -> bool {
    keys.no_duplicates() && keys.to_set() == map.dom() && keys.len() == count
}

/// `HashMap::len` counts the items. What a map of arbitrary keys and values holds has no name, so
/// nothing is said of their number here.
#[verifier::external_body]
fn count_items<K, V>(map: &ShardMap<K, V>) -> usize {
    map.map.len()
}

/// `HashMap::get` finds the value under a key. Which keys are the same is up to their type, so
/// nothing is said of the value.
#[verifier::external_body]
fn get_item<'a, K: Eq + Hash, V>(map: &'a ShardMap<K, V>, key: &K) -> Option<&'a V> {
    map.map.get(key)
}

/// `HashMap::insert` puts a value under a key and hands back the one that it replaces. Which keys
/// are the same is up to their type, so nothing is said of the values.
#[verifier::external_body]
fn insert_item<K: Eq + Hash, V>(map: &mut ShardMap<K, V>, key: K, value: V) -> Option<V> {
    map.map.insert(key, value)
}

/// `HashMap::remove` takes the value under a key out of the map and hands it back. Which keys are
/// the same is up to their type, so nothing is said of the value.
#[verifier::external_body]
fn remove_item<K: Eq + Hash, V>(map: &mut ShardMap<K, V>, key: &K) -> Option<V> {
    map.map.remove(key)
}

/// Whether a map has no items: to count them can only give zero.
pub closed spec fn has_no_items<K, V>(map: ShardMap<K, V>) -> bool {
    forall|count: usize| call_ensures(count_items::<K, V>, (&map,), count) ==> count == 0
}

/// `HashMap::new` makes an empty map: it has no items to count.
#[verifier::external_body]
pub(crate) fn new_map<K, V>() -> (map: ShardMap<K, V>)
    ensures
        has_no_items(map),
{
    ShardMap { map: HashMap::new() }
}

/// `HashMap::new` makes an empty map.
#[verifier::external_body]
fn empty_map() -> (map: ShardMap<Bytes, CacheEntry>)
    ensures
        records(map) == no_records(),
{
    ShardMap { map: HashMap::new() }
}

/// `HashMap::len` counts the entries.
#[verifier::external_body]
fn map_len(map: &ShardMap<Bytes, CacheEntry>) -> (count: usize)
    ensures
        exists|keys: Seq<Seq<u8>>| lists_keys(keys, records(*map), count),
{
    map.map.len()
}

/// `HashMap::iter` walks over every entry once, in an order that is not specified.
#[verifier::external_body]
pub(crate) fn map_iter<'a>(map: &'a ShardMap<Bytes, CacheEntry>) -> (walk: Iter<'a, Bytes, CacheEntry>)
    ensures
        unvisited(walk).len() == records(*map).len(),
        forall|i: int| #![trigger unvisited(walk)[i]]
            0 <= i < unvisited(walk).len() ==> records(*map).contains_pair(unvisited(walk)[i].0, unvisited(walk)[i].1),
        forall|i: int, j: int| #![trigger unvisited(walk)[i], unvisited(walk)[j]]
            0 <= i < j < unvisited(walk).len() ==> unvisited(walk)[i].0 != unvisited(walk)[j].0,
{
    map.map.iter()
}

/// `Iter::next` shows the next entry, until none is left.
#[verifier::external_body]
pub(crate) fn next_entry<'a>(walk: &mut Iter<'a, Bytes, CacheEntry>) -> (item: Option<(&'a Bytes, &'a CacheEntry)>)
    ensures
        match item {
            Some((key, entry)) => {
                &&& unvisited(*old(walk)).len() > 0
                &&& (bytes_of(*key), *entry) == unvisited(*old(walk))[0]
                &&& unvisited(*final(walk)) == unvisited(*old(walk)).drop_first()
            },
            None => unvisited(*old(walk)).len() == 0 && unvisited(*final(walk)) == unvisited(*old(walk)),
        },
{
    walk.next()
}

/// `HashMap::get` finds the entry under a key.
#[verifier::external_body]
fn map_get<'a>(map: &'a ShardMap<Bytes, CacheEntry>, key: &Bytes) -> (entry: Option<&'a CacheEntry>)
    ensures
        match entry {
            Some(entry) => records(*map).contains_pair(bytes_of(*key), *entry),
            None => !records(*map).contains_key(bytes_of(*key)),
        },
{
    map.map.get(key)
}

/// `HashMap::insert` puts an entry under a key and hands back the one that it replaces.
#[verifier::external_body]
fn map_insert(map: &mut ShardMap<Bytes, CacheEntry>, key: Bytes, entry: CacheEntry) -> (previous: Option<CacheEntry>)
    ensures
        records(*final(map)) == records(*old(map)).insert(bytes_of(key), entry),
        match previous {
            Some(previous) => records(*old(map)).contains_pair(bytes_of(key), previous),
            None => !records(*old(map)).contains_key(bytes_of(key)),
        },
{
    map.map.insert(key, entry)
}

/// `HashMap::remove` takes the entry under a key out of the map and hands it back.
#[verifier::external_body]
fn map_remove(map: &mut ShardMap<Bytes, CacheEntry>, key: &Bytes) -> (removed: Option<CacheEntry>)
    ensures
        records(*final(map)) == records(*old(map)).remove(bytes_of(*key)),
        match removed {
            Some(removed) => records(*old(map)).contains_pair(bytes_of(*key), removed),
            None => !records(*old(map)).contains_key(bytes_of(*key)),
        },
{
    map.map.remove(key)
}

impl ShardMap<Bytes, CacheEntry> {
    /// Creates a partition without entries.
    pub fn new() -> (map: Self)
        ensures
            records(map) == no_records(),
    {
        empty_map()
    }

    /// The number of entries.
    pub fn len(&self) -> (count: usize)
        ensures
            count == records(*self).len(),
            records(*self).dom().finite(),
    {
        let count = map_len(self);
        proof {
            let keys = choose|keys: Seq<Seq<u8>>| lists_keys(keys, records(*self), count);
            keys.unique_seq_to_set();
            vstd::seq_lib::seq_to_set_is_finite(keys);
        }
        count
    }

    /// The entry under `key`.
    pub fn get(&self, key: &Bytes) -> (entry: Option<&CacheEntry>)
        ensures
            match entry {
                Some(entry) => records(*self).contains_pair(bytes_of(*key), *entry),
                None => !records(*self).contains_key(bytes_of(*key)),
            },
    {
        map_get(self, key)
    }

    /// Whether there is an entry under `key`.
    pub fn contains_key(&self, key: &Bytes) -> (found: bool)
        ensures
            found == records(*self).contains_key(bytes_of(*key)),
    {
        map_get(self, key).is_some()
    }

    /// Puts `entry` under `key`, and hands back the entry that it replaces.
    pub fn insert(&mut self, key: Bytes, entry: CacheEntry) -> (previous: Option<CacheEntry>)
        ensures
            records(*final(self)) == records(*old(self)).insert(bytes_of(key), entry),
            match previous {
                Some(previous) => records(*old(self)).contains_pair(bytes_of(key), previous),
                None => !records(*old(self)).contains_key(bytes_of(key)),
            },
    {
        map_insert(self, key, entry)
    }

    /// Takes the entry under `key` out of the map, and hands it back.
    pub fn remove(&mut self, key: &Bytes) -> (removed: Option<CacheEntry>)
        ensures
            records(*final(self)) == records(*old(self)).remove(bytes_of(*key)),
            match removed {
                Some(removed) => records(*old(self)).contains_pair(bytes_of(*key), removed),
                None => !records(*old(self)).contains_key(bytes_of(*key)),
            },
    {
        map_remove(self, key)
    }
}

/// Access to the items of a partition with keys and values of any type.
pub trait Partition<K, V>: Sized {
    /// Whether the partition may be found to have `count` items.
    spec fn may_have(&self, count: usize) -> bool;

    /// Whether `value` may be found under `key`.
    spec fn may_find(&self, key: &K, value: Option<&V>) -> bool;

    /// Whether the partition that `map` refers to may be changed by putting `value` under `key`, and
    /// `previous` be handed back.
    spec fn may_insert(map: &mut Self, key: K, value: V, previous: Option<V>) -> bool;

    /// Whether the partition that `map` refers to may be changed by taking out what is under `key`,
    /// and `removed` be handed back.
    spec fn may_remove(map: &mut Self, key: &K, removed: Option<V>) -> bool;

    /// The number of items.
    fn len(&self) -> (count: usize)
        ensures
            self.may_have(count),
    ;

    /// The value under `key`.
    fn get(&self, key: &K) -> (value: Option<&V>)
        ensures
            self.may_find(key, value),
    ;

    /// Whether there is a value under `key`.
    fn contains_key(&self, key: &K) -> (found: bool)
        ensures
            exists|value: Option<&V>| #[trigger] self.may_find(key, value) && found == value is Some,
    ;

    /// Puts `value` under `key`, and hands back the value that it replaces.
    fn insert(&mut self, key: K, value: V) -> (previous: Option<V>)
        ensures
            exists|given: &mut Self| #[trigger] Self::may_insert(given, key, value, previous)
                && *given == *old(self) && *final(given) == *final(self),
    ;

    /// Takes the value under `key` out of the partition, and hands it back.
    fn remove(&mut self, key: &K) -> (removed: Option<V>)
        ensures
            exists|given: &mut Self| #[trigger] Self::may_remove(given, key, removed)
                && *given == *old(self) && *final(given) == *final(self),
    ;
}

impl<K: Eq + Hash, V> Partition<K, V> for ShardMap<K, V> {
    closed spec fn may_have(&self, count: usize) -> bool {
        call_ensures(count_items::<K, V>, (self,), count)
    }

    closed spec fn may_find(&self, key: &K, value: Option<&V>) -> bool {
        call_ensures(get_item::<K, V>, (self, key), value)
    }

    closed spec fn may_insert(map: &mut Self, key: K, value: V, previous: Option<V>) -> bool {
        call_ensures(insert_item::<K, V>, (map, key, value), previous)
    }

    closed spec fn may_remove(map: &mut Self, key: &K, removed: Option<V>) -> bool {
        call_ensures(remove_item::<K, V>, (map, key), removed)
    }

    fn len(&self) -> usize {
        count_items(self)
    }

    fn get(&self, key: &K) -> Option<&V> {
        get_item(self, key)
    }

    fn contains_key(&self, key: &K) -> bool {
        let value = get_item(self, key);
        assert(self.may_find(key, value));
        value.is_some()
    }

    fn insert(&mut self, key: K, value: V) -> Option<V> {
        let ghost item = (key, value);
        let previous = insert_item(self, key, value);
        proof {
            let given = choose|given: &mut Self| #[trigger] call_ensures(insert_item::<K, V>, (given, item.0, item.1), previous)
                && *given == *old(self) && *final(given) == *self;
            assert(Self::may_insert(given, item.0, item.1, previous));
        }
        previous
    }

    fn remove(&mut self, key: &K) -> Option<V> {
        let removed = remove_item(self, key);
        proof {
            let given = choose|given: &mut Self| #[trigger] call_ensures(remove_item::<K, V>, (given, key), removed)
                && *given == *old(self) && *final(given) == *self;
            assert(Self::may_remove(given, key, removed));
        }
        removed
    }
}

/// A map without items is found to have none.
pub proof fn nothing_is_counted_in_a_new_map<K: Eq + Hash, V>(map: ShardMap<K, V>, count: usize)
    requires
        has_no_items(map),
        map.may_have(count),
    ensures
        count == 0,
{
}

/// What the entries of a map say is what each entry under its key says.
pub proof fn entries_are_shown_by_key(map: ShardMap<Bytes, CacheEntry>, key: Seq<u8>)
    ensures
        entries(map).dom().contains(key) <==> records(map).dom().contains(key),
        records(map).dom().contains(key) ==> entries(map)[key] == records(map)[key]@,
{
}

} // verus!
