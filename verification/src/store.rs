//! Reading and writing one partition.

use crate::buffers::bytes_of;
use crate::clock::{current_time_ms, may_be_now};
use crate::entry::{CacheEntry, EntryValue};
use crate::map::{entries, entry_values, records, ShardMap};
use bytes::Bytes;
use vstd::prelude::*;

verus! {

/// A partition after `value` was stored under `key`, never to expire.
pub open spec fn stored(
    store: Map<Seq<u8>, EntryValue>,
    key: Seq<u8>,
    value: Seq<u8>,
) -> Map<Seq<u8>, EntryValue> {
    store.insert(key, EntryValue { key, value, expires_at: None })
}

/// The value under `key` at the time `now`: none where there is no entry or it has expired.
pub open spec fn live_value(store: Map<Seq<u8>, EntryValue>, key: Seq<u8>, now: Option<u64>) -> Option<Seq<u8>> {
    if store.contains_key(key) && !store[key].expired_at(now) {
        Some(store[key].value)
    } else {
        None
    }
}

/// The bytes that a read gives back, if any.
pub open spec fn value_of(value: Option<Bytes>) -> Option<Seq<u8>> {
    match value {
        Some(value) => Some(bytes_of(value)),
        None => None,
    }
}

/// Stores a value under a key, in place of any earlier entry. The new entry was never read.
pub fn store_value(map: &mut ShardMap<Bytes, CacheEntry>, pair: (Bytes, Bytes))
    ensures
        entries(*final(map)) == stored(entries(*old(map)), bytes_of(pair.0), bytes_of(pair.1)),
        exists|entry: CacheEntry| #[trigger] entry.is_unread()
            && records(*final(map)) == records(*old(map)).insert(bytes_of(pair.0), entry),
{
    let (key, value) = pair;
    let entry = CacheEntry::new(key.clone(), value, None);
    let ghost before = records(*map);
    let ghost fresh = entry;
    map.insert(key, entry);
    assert(fresh.is_unread());
    assert(entry_values(before.insert(bytes_of(pair.0), fresh)) =~= entry_values(before).insert(
        bytes_of(pair.0),
        fresh@,
    ));
}

/// Reads the value under `key` as of the time `now`, and records the access in the entry that is
/// read. The payload is shared with the entry.
pub fn read_value_at(map: &ShardMap<Bytes, CacheEntry>, key: &Bytes, now: Option<u64>) -> (value: Option<Bytes>)
    ensures
        value_of(value) == live_value(entries(*map), bytes_of(*key), now),
        value is Some ==> records(*map)[bytes_of(*key)].access_recorded(),
{
    match map.get(key) {
        Some(entry) => if entry.is_expired_at(now) {
            None
        } else {
            entry.record_access();
            Some(entry.value().clone())
        },
        None => None,
    }
}

/// Reads the value under `key` as of the present time, and records the access in the entry that is
/// read.
pub fn read_value(map: &ShardMap<Bytes, CacheEntry>, key: &Bytes) -> (value: Option<Bytes>)
    ensures
        exists|now: Option<u64>| #[trigger] may_be_now(now)
            && value_of(value) == live_value(entries(*map), bytes_of(*key), now),
        value is Some ==> records(*map)[bytes_of(*key)].access_recorded(),
{
    let now = current_time_ms();
    read_value_at(map, key, now)
}

/// A read gives back what was written last, at any time after.
pub proof fn read_gives_back_the_write(
    store: Map<Seq<u8>, EntryValue>,
    key: Seq<u8>,
    value: Seq<u8>,
    now: Option<u64>,
)
    ensures
        live_value(stored(store, key, value), key, now) == Some(value),
{
}

/// A write does not touch other keys.
pub proof fn write_leaves_other_keys(
    store: Map<Seq<u8>, EntryValue>,
    key: Seq<u8>,
    value: Seq<u8>,
    other: Seq<u8>,
    now: Option<u64>,
)
    requires
        other != key,
    ensures
        live_value(stored(store, key, value), other, now) == live_value(store, other, now),
{
}

/// A write replaces an earlier one to the same key without a trace.
pub proof fn last_write_wins(
    store: Map<Seq<u8>, EntryValue>,
    key: Seq<u8>,
    first: Seq<u8>,
    second: Seq<u8>,
)
    ensures
        stored(stored(store, key, first), key, second) == stored(store, key, second),
{
    assert(stored(stored(store, key, first), key, second) =~= stored(store, key, second));
}

/// Writes to different keys may be done in either order.
pub proof fn writes_to_different_keys_commute(
    store: Map<Seq<u8>, EntryValue>,
    key: Seq<u8>,
    value: Seq<u8>,
    other: Seq<u8>,
    other_value: Seq<u8>,
)
    requires
        other != key,
    ensures
        stored(stored(store, key, value), other, other_value) == stored(stored(store, other, other_value), key, value),
{
    assert(stored(stored(store, key, value), other, other_value)
        =~= stored(stored(store, other, other_value), key, value));
}

/// Eviction never makes a read return anything but the value that was there, or none.
pub proof fn eviction_only_hides_values(
    before: Map<Seq<u8>, CacheEntry>,
    kept: Map<Seq<u8>, CacheEntry>,
    key: Seq<u8>,
    now: Option<u64>,
)
    requires
        kept.submap_of(before),
    ensures
        kept.contains_key(key) ==> live_value(entry_values(kept), key, now) == live_value(entry_values(before), key, now),
        !kept.contains_key(key) ==> live_value(entry_values(kept), key, now) is None,
{
    if kept.contains_key(key) {
        assert(before.dom().contains(key) && before[key] == kept[key]);
    }
}

/// A read that finds a partition as a write of the same key has left it gives back what was
/// written.
pub proof fn a_read_after_a_write_gives_the_value(
    written: &mut ShardMap<Bytes, CacheEntry>,
    pair: (Bytes, Bytes),
    found: &ShardMap<Bytes, CacheEntry>,
    key: &Bytes,
    value: Option<Bytes>,
)
    requires
        call_ensures(store_value, (written, pair), ()),
        bytes_of(*key) == bytes_of(pair.0),
        entries(*found) == entries(*final(written)),
        call_ensures(read_value, (found, key), value),
    ensures
        value_of(value) == Some(bytes_of(pair.1)),
{
}

} // verus!
