//! Cache records.

use crate::buffers::bytes_of;
use crate::clock::{current_time_ms, may_be_now};
use bytes::Bytes;
use std::sync::atomic::{AtomicU32, Ordering};
use vstd::prelude::*;

verus! {

/// A cache record containing immutable, shared byte buffers and entry metadata.
///
/// `Bytes` allows the key and value storage to be shared across threads without
/// copying their payloads. Moving a `Bytes` handle into this entry transfers the
/// handle; cloning one only increments the reference count of the shared buffer.
pub struct CacheEntry {
    key: Bytes,
    value: Bytes,
    expires_at: Option<u64>,
    access_counter: AtomicU32,
}

/// What a [`CacheEntry`] says, apart from how often it was read: readers on other threads advance
/// that counter at any time, so it is no part of the entry's value.
#[verifier::ext_equal]
pub struct EntryValue {
    pub key: Seq<u8>,
    pub value: Seq<u8>,
    pub expires_at: Option<u64>,
}

impl EntryValue {
    /// Whether the entry has expired at the given time. Without a clock nothing expires.
    pub open spec fn expired_at(self, now: Option<u64>) -> bool {
        match (self.expires_at, now) {
            (Some(expires_at), Some(now)) => now >= expires_at,
            _ => false,
        }
    }
}

impl View for CacheEntry {
    type V = EntryValue;

    closed spec fn view(&self) -> EntryValue {
        EntryValue {
            key: bytes_of(self.key),
            value: bytes_of(self.value),
            expires_at: self.expires_at,
        }
    }
}

/// When an entry written at `now` with the given time to live expires. A time beyond 64 bits is
/// the largest one; without a clock a time to live has no effect.
pub open spec fn expiry(ttl_ms: Option<u64>, now: Option<u64>) -> Option<u64> {
    match (ttl_ms, now) {
        (Some(ttl), Some(now)) => Some(
            if now + ttl <= u64::MAX {
                (now + ttl) as u64
            } else {
                u64::MAX
            },
        ),
        _ => None,
    }
}

/// The access count that follows `count`; the largest count is never left again.
pub fn next_access_count(count: u32) -> (next: Option<u32>)
    ensures
        count < u32::MAX ==> next == Some((count + 1) as u32),
        count == u32::MAX ==> next is None,
{
    count.checked_add(1)
}

/// `AtomicU32::fetch_update` replaces the counter's value by what [`next_access_count`] makes of
/// it, and hands back the value it found: as `Ok` if it was replaced, as `Err` if there is no next
/// one. What the counter holds is up to the other threads, so nothing is said of it.
#[verifier::external_body]
fn advance_counter(counter: &AtomicU32) -> (found: Result<u32, u32>)
    ensures
        found matches Ok(count) ==> count < u32::MAX,
        found matches Err(count) ==> count == u32::MAX,
{
    counter.fetch_update(Ordering::Relaxed, Ordering::Relaxed, |count| next_access_count(count))
}

impl CacheEntry {
    /// Whether the access counter is a new one that starts at zero: one that `AtomicU32::new`
    /// answers for zero.
    pub closed spec fn is_unread(&self) -> bool {
        call_ensures(AtomicU32::new, (0u32,), self.access_counter)
    }

    /// Whether the access counter may be found to hold `count`: that is what `AtomicU32::load`
    /// answers for it. What it holds at a given moment is up to the readers on other threads.
    pub closed spec fn may_count(&self, count: u32) -> bool {
        call_ensures(AtomicU32::load, (&self.access_counter, Ordering::Relaxed), count)
    }

    /// Whether an access was recorded: the access counter was advanced by one, unless it held the
    /// largest count.
    pub closed spec fn access_recorded(&self) -> bool {
        exists|found: Result<u32, u32>| call_ensures(advance_counter, (&self.access_counter,), found)
    }

    /// Creates an entry whose optional TTL and expiration are measured in
    /// milliseconds.
    ///
    /// If the system clock is unavailable before the Unix epoch, a supplied TTL
    /// is treated as non-expiring rather than risking immediate data eviction.
    pub fn new(key: Bytes, value: Bytes, ttl_ms: Option<u64>) -> (entry: Self)
        ensures
            entry@.key == bytes_of(key),
            entry@.value == bytes_of(value),
            ttl_ms is None ==> entry@.expires_at is None,
            ttl_ms is Some ==> exists|now: Option<u64>|
                #[trigger] may_be_now(now) && entry@.expires_at == expiry(ttl_ms, now),
            entry.is_unread(),
    {
        let now = match ttl_ms {
            Some(_) => current_time_ms(),
            None => None,
        };
        Self::new_at(key, value, ttl_ms, now)
    }

    /// Creates an entry as of the time `now`, where that is known.
    pub fn new_at(key: Bytes, value: Bytes, ttl_ms: Option<u64>, now: Option<u64>) -> (entry: Self)
        ensures
            entry@ == (EntryValue {
                key: bytes_of(key),
                value: bytes_of(value),
                expires_at: expiry(ttl_ms, now),
            }),
            entry.is_unread(),
    {
        let expires_at = match (ttl_ms, now) {
            (Some(ttl), Some(now)) => Some(now.saturating_add(ttl)),
            _ => None,
        };
        CacheEntry { key, value, expires_at, access_counter: AtomicU32::new(0) }
    }

    /// Returns the immutable value payload without cloning its backing bytes.
    pub fn value(&self) -> (value: &Bytes)
        ensures
            bytes_of(*value) == self@.value,
    {
        &self.value
    }

    /// Records an access without taking the containing shard's write lock.
    pub fn record_access(&self)
        ensures
            self.access_recorded(),
    {
        let _ = advance_counter(&self.access_counter);
    }

    /// Returns how many accesses have been recorded so far, up to the largest 32-bit count.
    pub fn access_count(&self) -> (count: u32)
        ensures
            self.may_count(count),
    {
        self.access_counter.load(Ordering::Relaxed)
    }

    /// Returns whether this entry has reached its absolute expiration time.
    pub fn is_expired(&self) -> (expired: bool)
        ensures
            exists|now: Option<u64>| #[trigger] may_be_now(now) && expired == self@.expired_at(now),
    {
        let now = current_time_ms();
        self.is_expired_at(now)
    }

    /// Returns whether this entry has expired at the time `now`, where that is known.
    pub fn is_expired_at(&self, now: Option<u64>) -> (expired: bool)
        ensures
            expired == self@.expired_at(now),
    {
        match (self.expires_at, now) {
            (Some(expires_at), Some(now)) => now >= expires_at,
            _ => false,
        }
    }
}

/// An entry lives for exactly its time to live; one that was given none, or was made without a
/// clock, never expires. A time to live that ends beyond 64 bits ends at the largest time.
pub proof fn entries_live_for_their_time(key: Seq<u8>, value: Seq<u8>, ttl_ms: Option<u64>, made: Option<u64>, now: u64)
    ensures
        ({
            let entry = EntryValue { key, value, expires_at: expiry(ttl_ms, made) };
            entry.expired_at(Some(now)) == match (ttl_ms, made) {
                (Some(ttl), Some(made)) => now >= made + ttl || now == u64::MAX,
                _ => false,
            }
        }),
        ({
            let entry = EntryValue { key, value, expires_at: expiry(ttl_ms, made) };
            !entry.expired_at(None)
        }),
{
}

/// An entry that has expired stays expired.
pub proof fn expired_entries_stay_expired(entry: EntryValue, now: u64, later: u64)
    requires
        entry.expired_at(Some(now)),
        now <= later,
    ensures
        entry.expired_at(Some(later)),
{
}

/// What is said of the counting of accesses is said of the entry's own counter.
proof fn entries_count_with_their_own_counter(entry: &CacheEntry, count: u32)
    ensures
        entry.is_unread() ==> call_ensures(AtomicU32::new, (0u32,), entry.access_counter),
        entry.may_count(count) ==> call_ensures(AtomicU32::load, (&entry.access_counter, Ordering::Relaxed), count),
        entry.access_recorded() ==> exists|found: Result<u32, u32>|
            call_ensures(advance_counter, (&entry.access_counter,), found),
{
}

/// What is said of an entry's key, value and expiration is said of its own fields.
proof fn entries_show_their_own_fields(entry: &CacheEntry)
    ensures
        entry@.key == bytes_of(entry.key),
        entry@.value == bytes_of(entry.value),
        entry@.expires_at == entry.expires_at,
{
}

} // verus!
