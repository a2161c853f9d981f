//! Policies that decide which entries leave a full partition.

use crate::buffers::{bytes_of, bytes_slice};
use crate::entry::CacheEntry;
use crate::locks::{locks_run_the_action, with_lock};
use crate::map::{map_iter, next_entry, records, unvisited, ShardMap};
use crate::text::same_bytes;
use bytes::Bytes;
use crossbeam_queue::ArrayQueue;
use parking_lot::Mutex;
use std::collections::VecDeque;
use vstd::prelude::*;

verus! {

/// A bounded queue that many threads may use at once.
#[verifier::external_type_specification]
#[verifier::external_body]
#[verifier::reject_recursive_types(T)]
pub struct ExArrayQueue<T>(ArrayQueue<T>);

/// How many keys a queue was made for.
pub uninterp spec fn queue_capacity(queue: ArrayQueue<Bytes>) -> nat;

/// `ArrayQueue::new` makes an empty queue of the given capacity. It panics where the capacity is
/// zero or the slots, of five machine words each, exceed the largest allocation.
#[verifier::external_body]
fn new_queue(capacity: usize) -> (queue: ArrayQueue<Bytes>)
    requires
        0 < capacity,
        5 * (usize::BITS / 8) * capacity <= isize::MAX,
    ensures
        queue_capacity(queue) == capacity,
{
    ArrayQueue::new(capacity)
}

/// `ArrayQueue::push` appends an item, or hands it back where the queue is full. Whether it is
/// full is up to the other threads.
pub assume_specification<T>[ ArrayQueue::<T>::push ](queue: &ArrayQueue<T>, value: T) -> (result: Result<(), T>)
    ensures
        result matches Err(rejected) ==> rejected == value,
;

/// The keys that a mutex guarded when it was made.
pub uninterp spec fn initial_order(lock: Mutex<VecDeque<Bytes>>) -> Seq<Seq<u8>>;

/// `Mutex::new` guards a value by a lock that nobody holds.
#[verifier::external_body]
fn new_order_lock(order: VecDeque<Bytes>) -> (lock: Mutex<VecDeque<Bytes>>)
    ensures
        initial_order(lock) == keys_of(order@),
{
    Mutex::new(order)
}

/// A bounded, lock-free buffer of cache keys observed by concurrent readers.
///
/// Reads enqueue lightweight [`Bytes`] handles instead of taking the eviction
/// policy's write lock for every access. A maintenance path can drain a batch
/// and update eviction metadata under one lock acquisition, amortizing lock
/// contention across many reads. When the buffer is full, [`Self::push_key`]
/// returns ownership of the unqueued key so the caller can trigger that drain.
pub struct ReadBuffer {
    pub queue: ArrayQueue<Bytes>,
}

impl ReadBuffer {
    /// Whether the buffer is a new one for `capacity` keys: its queue is one that
    /// `ArrayQueue::new` answers for that capacity.
    pub closed spec fn is_new(&self, capacity: usize) -> bool {
        call_ensures(new_queue, (capacity,), self.queue)
    }

    /// Creates an empty read buffer with a fixed, non-zero `capacity`.
    pub fn new(capacity: usize) -> (buffer: Self)
        requires
            0 < capacity,
            5 * (usize::BITS / 8) * capacity <= isize::MAX,
        ensures
            buffer.is_new(capacity),
            queue_capacity(buffer.queue) == capacity,
    {
        ReadBuffer { queue: new_queue(capacity) }
    }

    /// Attempts to record a key without blocking or acquiring a mutex.
    ///
    /// Returns `Err(key)` when the bounded queue is full. No payload copy is
    /// performed: ownership of the [`Bytes`] handle is either transferred into
    /// the queue or returned directly to the caller. The result is the answer
    /// of this buffer's queue for this key.
    pub fn push_key(&self, key: Bytes) -> (result: Result<(), Bytes>)
        ensures
            call_ensures(ArrayQueue::<Bytes>::push, (&self.queue, key), result),
            result matches Err(rejected) ==> rejected == key,
    {
        self.queue.push(key)
    }
}

/// Defines hooks used by cache eviction implementations.
pub trait EvictionPolicy {
    /// Records that `key` was accessed.
    fn on_read(&self, key: Bytes);

    /// Promotes `key` in policies that maintain an explicit access order.
    fn promote(&self, key: Bytes);

    /// Removes entries from a partition that the caller has exclusive access to.
    fn evict(&self, map: &mut ShardMap<Bytes, CacheEntry>)
        ensures
            records(*final(map)).submap_of(records(*old(map))),
    ;
}

/// How many candidates [`SampledLfu`] compares to find one victim.
pub const SAMPLE_SIZE: usize = 5;

/// Keys of entries that may be evicted, each with the access count that was read for it.
pub type Sample = Vec<(Bytes, u32)>;

/// The keys and counts of a sample.
pub open spec fn candidates(sample: Seq<(Bytes, u32)>) -> Seq<(Seq<u8>, u32)> {
    sample.map_values(|candidate: (Bytes, u32)| (bytes_of(candidate.0), candidate.1))
}

/// The smaller of two numbers.
pub open spec fn at_most(count: nat, limit: nat) -> nat {
    if count <= limit {
        count
    } else {
        limit
    }
}

/// Whether `sample` names different entries of a map, `limit` of them, or all where there are
/// fewer, each with a count that its access counter may be found to hold.
pub open spec fn is_sample_of(sample: Seq<(Seq<u8>, u32)>, map: Map<Seq<u8>, CacheEntry>, limit: nat) -> bool {
    &&& sample.len() == at_most(map.len(), limit)
    &&& forall|i: int| 0 <= i < sample.len() ==> map.contains_key((#[trigger] sample[i]).0)
    &&& forall|i: int| 0 <= i < sample.len() ==> map[(#[trigger] sample[i]).0].may_count(sample[i].1)
    &&& forall|i: int, j: int| 0 <= i < j < sample.len() ==> (#[trigger] sample[i]).0 != (#[trigger] sample[j]).0
}

/// Whether the candidate at `index` was accessed least often, and is the first such one.
pub open spec fn is_least_used(sample: Seq<(Seq<u8>, u32)>, index: int) -> bool {
    &&& 0 <= index < sample.len()
    &&& forall|i: int| 0 <= i < sample.len() ==> sample[index].1 <= (#[trigger] sample[i]).1
    &&& forall|i: int| 0 <= i < index ==> sample[index].1 < (#[trigger] sample[i]).1
}

/// Reads the access counts of the first `limit` entries that a walk over the map shows, or of all
/// entries where there are fewer. Which entries come first, and how often they were read so far,
/// is not determined by what the map holds.
pub fn take_sample(map: &ShardMap<Bytes, CacheEntry>, limit: usize) -> (sample: Sample)
    ensures
        is_sample_of(candidates(sample@), records(*map), limit as nat),
{
    let mut sample: Sample = Vec::new();
    let mut walk = map_iter(map);
    let ghost all = unvisited(walk);
    while sample.len() < limit
        invariant
            sample@.len() <= limit,
            sample@.len() <= all.len(),
            all.len() == records(*map).len(),
            forall|i: int| #![trigger all[i]] 0 <= i < all.len() ==> records(*map).contains_pair(all[i].0, all[i].1),
            forall|i: int, j: int| #![trigger all[i], all[j]] 0 <= i < j < all.len() ==> all[i].0 != all[j].0,
            unvisited(walk) == all.skip(sample@.len() as int),
            forall|i: int| 0 <= i < sample@.len() ==> bytes_of((#[trigger] sample@[i]).0) == all[i].0,
            forall|i: int| 0 <= i < sample@.len() ==> all[i].1.may_count((#[trigger] sample@[i]).1),
        decreases limit - sample.len(),
    {
        match next_entry(&mut walk) {
            Some((key, entry)) => {
                sample.push((key.clone(), entry.access_count()));
            },
            None => {
                return sample;
            },
        }
    }
    sample
}

/// Finds the candidate that was accessed least often; of several such ones, the first.
pub fn least_used(sample: &Sample) -> (index: Option<usize>)
    ensures
        match index {
            Some(index) => is_least_used(candidates(sample@), index as int),
            None => sample@.len() == 0,
        },
{
    if sample.len() == 0 {
        return None;
    }
    let mut least: usize = 0;
    let mut i: usize = 1;
    while i < sample.len()
        invariant
            0 <= least < i <= sample.len(),
            forall|j: int| 0 <= j < i ==> sample@[least as int].1 <= (#[trigger] sample@[j]).1,
            forall|j: int| 0 <= j < least ==> sample@[least as int].1 < (#[trigger] sample@[j]).1,
        decreases sample.len() - i,
    {
        if sample[i].1 < sample[least].1 {
            least = i;
        }
        i = i + 1;
    }
    Some(least)
}

/// Removes the candidate that was accessed least often, and tells whether there was one.
pub fn evict_least_used(map: &mut ShardMap<Bytes, CacheEntry>, sample: &Sample) -> (evicted: bool)
    ensures
        evicted == (sample@.len() > 0),
        !evicted ==> records(*final(map)) == records(*old(map)),
        evicted ==> exists|index: int| #[trigger] is_least_used(candidates(sample@), index)
            && records(*final(map)) == records(*old(map)).remove(candidates(sample@)[index].0),
{
    match least_used(sample) {
        Some(index) => {
            map.remove(&sample[index].0);
            true
        },
        None => false,
    }
}

/// Whether `after` is `before` without the candidate at `index`, the least used of a sample.
pub open spec fn is_round(
    before: Map<Seq<u8>, CacheEntry>,
    sample: Seq<(Seq<u8>, u32)>,
    limit: nat,
    index: int,
    after: Map<Seq<u8>, CacheEntry>,
) -> bool {
    &&& is_sample_of(sample, before, limit)
    &&& is_least_used(sample, index)
    &&& after == before.remove(sample[index].0)
}

/// Whether `after` is what is left of `before` when in each round the least used candidate of a
/// sample is removed, where `rounds` lists the samples and `limit` is their size.
pub open spec fn evicted_in_rounds(
    before: Map<Seq<u8>, CacheEntry>,
    rounds: Seq<Seq<(Seq<u8>, u32)>>,
    limit: nat,
    after: Map<Seq<u8>, CacheEntry>,
) -> bool
    decreases rounds.len(),
{
    if rounds.len() == 0 {
        after == before
    } else {
        exists|middle: Map<Seq<u8>, CacheEntry>, index: int| {
            &&& #[trigger] is_round(middle, rounds.last(), limit, index, after)
            &&& evicted_in_rounds(before, rounds.drop_last(), limit, middle)
        }
    }
}

/// An approximate least-frequently-used policy based on bounded sampling.
pub struct SampledLfu {
    target_capacity: usize,
}

impl SampledLfu {
    /// The number of entries that the policy trims a partition to.
    pub closed spec fn target(&self) -> nat {
        self.target_capacity as nat
    }

    /// Creates a policy that trims a shard to `target_capacity` entries.
    pub fn new(target_capacity: usize) -> (policy: Self)
        ensures
            policy.target() == target_capacity,
    {
        SampledLfu { target_capacity }
    }
}

impl EvictionPolicy for SampledLfu {
    /// LFU frequency is already tracked by the access counter of each entry.
    fn on_read(&self, _key: Bytes) {
    }

    /// LFU does not maintain chronological access order.
    fn promote(&self, _key: Bytes) {
    }

    /// Removes the least frequently used of a few candidates at a time, until the target is met.
    fn evict(&self, map: &mut ShardMap<Bytes, CacheEntry>)
        ensures
            records(*final(map)).len() == at_most(records(*old(map)).len(), self.target()),
            records(*old(map)).len() <= self.target() ==> records(*final(map)) == records(*old(map)),
            records(*old(map)).len() > self.target() ==> records(*final(map)).len() == self.target(),
            forall|counts: Map<Seq<u8>, u32>, key: Seq<u8>|
                #[trigger] counts_are(records(*old(map)), counts) && #[trigger] records(*old(map)).dom().contains(key)
                    && rivals(records(*old(map)), counts, key).len() < 4
                    && rivals(records(*old(map)), counts, key).len() < records(*final(map)).len()
                    ==> records(*final(map)).dom().contains(key),
            forall|counts: Map<Seq<u8>, u32>, key: Seq<u8>|
                #[trigger] counts_are(records(*old(map)), counts) && #[trigger] records(*old(map)).dom().contains(key)
                    && self.target() < records(*old(map)).len() <= 5
                    && (forall|other: Seq<u8>| records(*old(map)).dom().contains(other) && other != key
                        ==> counts[key] < #[trigger] counts[other])
                    ==> !records(*final(map)).dom().contains(key),
            exists|rounds: Seq<Seq<(Seq<u8>, u32)>>|
                #[trigger] evicted_in_rounds(records(*old(map)), rounds, SAMPLE_SIZE as nat, records(*final(map)))
                    && rounds.len() + records(*final(map)).len() == records(*old(map)).len(),
    {
        let ghost before = records(*map);
        let ghost mut rounds: Seq<Seq<(Seq<u8>, u32)>> = Seq::empty();
        assert(evicted_in_rounds(before, rounds, SAMPLE_SIZE as nat, before));
        if map.len() <= self.target_capacity {
            return;
        }
        while map.len() > self.target_capacity
            invariant
                records(*map).submap_of(before),
                before.dom().finite(),
                evicted_in_rounds(before, rounds, SAMPLE_SIZE as nat, records(*map)),
                rounds.len() + records(*map).len() == before.len(),
                records(*map).len() >= at_most(before.len(), self.target_capacity as nat),
            decreases records(*map).len(),
        {
            let ghost middle = records(*map);
            let sample = take_sample(map, SAMPLE_SIZE);
            let ghost found = candidates(sample@);
            evict_least_used(map, &sample);
            proof {
                let index = choose|index: int| #[trigger] is_least_used(found, index) && records(*map) == middle.remove(found[index].0);
                assert(middle.contains_key(found[index].0));
                let longer = rounds.push(found);
                assert(longer.drop_last() =~= rounds);
                assert(is_round(middle, longer.last(), SAMPLE_SIZE as nat, index, records(*map)));
                rounds = longer;
            }
        }
        proof {
            assert forall|counts: Map<Seq<u8>, u32>, key: Seq<u8>|
                #[trigger] counts_are(before, counts) && #[trigger] before.dom().contains(key)
                    && rivals(before, counts, key).len() < 4 && rivals(before, counts, key).len() < records(*map).len()
                implies records(*map).dom().contains(key) by {
                the_most_used_stay(before, rounds, SAMPLE_SIZE as nat, records(*map), counts, key);
            }
            assert forall|counts: Map<Seq<u8>, u32>, key: Seq<u8>|
                #[trigger] counts_are(before, counts) && #[trigger] before.dom().contains(key)
                    && self.target() < before.len() <= 5
                    && (forall|other: Seq<u8>| before.dom().contains(other) && other != key
                        ==> counts[key] < #[trigger] counts[other])
                implies !records(*map).dom().contains(key) by {
                the_least_used_of_few_is_gone(before, rounds, SAMPLE_SIZE as nat, records(*map), counts, key);
            }
        }
    }
}

/// The keys of handles, in order.
pub open spec fn keys_of(handles: Seq<Bytes>) -> Seq<Seq<u8>> {
    handles.map_values(|handle: Bytes| bytes_of(handle))
}

/// The keys that were last promoted among the first `count` promotions of an order.
pub open spec fn retired(order: Seq<Seq<u8>>, count: int) -> Set<Seq<u8>> {
    Set::new(|key: Seq<u8>| order.take(count).contains(key) && !order.skip(count).contains(key))
}

/// What is left of a map when the keys that were last promoted among the first `count` promotions
/// are evicted. A key that was promoted again later stays.
pub open spec fn without_oldest(
    map: Map<Seq<u8>, CacheEntry>,
    order: Seq<Seq<u8>>,
    count: int,
) -> Map<Seq<u8>, CacheEntry> {
    map.remove_keys(retired(order, count))
}

/// Whether `count` is the number of promotions, from the oldest on, that have to be used up to trim
/// a map to `target` entries: the smallest that is enough, or all where all are not enough.
pub open spec fn is_trim(map: Map<Seq<u8>, CacheEntry>, order: Seq<Seq<u8>>, target: nat, count: int) -> bool {
    &&& 0 <= count <= order.len()
    &&& count < order.len() ==> without_oldest(map, order, count).len() <= target
    &&& forall|fewer: int| 0 <= fewer < count ==> (#[trigger] without_oldest(map, order, fewer)).len() > target
}

/// Whether trimming a map to `target` entries, by using up promotions from the oldest on, leaves
/// the entries `kept` and the promotions `waiting`.
pub open spec fn trims(
    map: Map<Seq<u8>, CacheEntry>,
    order: Seq<Seq<u8>>,
    target: nat,
    kept: Map<Seq<u8>, CacheEntry>,
    waiting: Seq<Seq<u8>>,
) -> bool {
    exists|count: int| {
        &&& #[trigger] is_trim(map, order, target, count)
        &&& kept == without_oldest(map, order, count)
        &&& waiting == order.skip(count)
    }
}

/// One more promotion retires its key, unless the key was promoted again later.
proof fn one_more_retired(order: Seq<Seq<u8>>, count: int)
    requires
        0 <= count < order.len(),
    ensures
        order.skip(count + 1).contains(order[count]) ==> retired(order, count + 1) == retired(order, count),
        !order.skip(count + 1).contains(order[count]) ==> retired(order, count + 1) == retired(order, count).insert(order[count]),
        !retired(order, count).contains(order[count]),
{
    let key = order[count];
    let head = order.take(count);
    let longer = order.take(count + 1);
    let tail = order.skip(count);
    let shorter = order.skip(count + 1);
    assert(longer =~= head.push(key));
    assert(tail =~= seq![key] + shorter);
    assert(tail[0] == key);
    assert forall|other: Seq<u8>| longer.contains(other) == (head.contains(other) || other == key) by {
        if head.contains(other) {
            let i = head.index_of(other);
            assert(longer[i] == other);
        }
        if other == key {
            assert(longer[count] == other);
        }
        if longer.contains(other) {
            let i = longer.index_of(other);
            if i < count {
                assert(head[i] == other);
            }
        }
    }
    assert forall|other: Seq<u8>| tail.contains(other) == (shorter.contains(other) || other == key) by {
        if shorter.contains(other) {
            let i = shorter.index_of(other);
            assert(tail[i + 1] == other);
        }
        if tail.contains(other) {
            let i = tail.index_of(other);
            if i > 0 {
                assert(shorter[i - 1] == other);
            }
        }
    }
    if shorter.contains(key) {
        assert(retired(order, count + 1) =~= retired(order, count));
    } else {
        assert(retired(order, count + 1) =~= retired(order, count).insert(key));
    }
}

/// Nothing is retired before the first promotion is used up.
proof fn none_retired(map: Map<Seq<u8>, CacheEntry>, order: Seq<Seq<u8>>)
    ensures
        without_oldest(map, order, 0) == map,
        order.skip(0) == order,
{
    assert(retired(order, 0) =~= Set::empty());
    assert(without_oldest(map, order, 0) =~= map);
    assert(order.skip(0) =~= order);
}

/// Appends `key` as the most recently accessed one.
pub fn record_promotion(order: &mut VecDeque<Bytes>, key: Bytes)
    ensures
        keys_of(final(order)@) == keys_of(old(order)@).push(bytes_of(key)),
{
    order.push_back(key);
}

/// Whether `key` is among the promotions of an order.
pub fn is_waiting(order: &VecDeque<Bytes>, key: &Bytes) -> (waiting: bool)
    ensures
        waiting == keys_of(order@).contains(bytes_of(*key)),
{
    let mut i: usize = 0;
    while i < order.len()
        invariant
            i <= order@.len(),
            forall|j: int| 0 <= j < i ==> bytes_of(#[trigger] order@[j]) != bytes_of(*key),
        decreases order@.len() - i,
    {
        if same_bytes(bytes_slice(&order[i]), bytes_slice(key)) {
            assert(keys_of(order@)[i as int] == bytes_of(*key));
            return true;
        }
        i = i + 1;
    }
    assert forall|j: int| 0 <= j < order@.len() implies keys_of(order@)[j] != bytes_of(*key) by {
        assert(bytes_of(order@[j]) != bytes_of(*key));
    }
    false
}

/// Whether `victims` names, each once, the entries of a map that trimming it to `target` entries
/// evicts, and leaves the promotions `waiting` of an order.
pub open spec fn are_oldest(
    victims: Seq<Seq<u8>>,
    map: Map<Seq<u8>, CacheEntry>,
    order: Seq<Seq<u8>>,
    target: nat,
    waiting: Seq<Seq<u8>>,
) -> bool {
    &&& victims.no_duplicates()
    &&& forall|i: int| 0 <= i < victims.len() ==> map.contains_key(#[trigger] victims[i])
    &&& trims(map, order, target, map.remove_keys(victims.to_set()), waiting)
}

/// Finds the entries that have to leave a map for at most a given number to be left, from the one
/// that was promoted the longest ago on, and uses up their promotions. A promotion of a key
/// without an entry, or of a key that was promoted again later, is only used up.
pub fn retire_oldest(order: &mut VecDeque<Bytes>, goal: (&ShardMap<Bytes, CacheEntry>, usize)) -> (victims: Vec<Bytes>)
    ensures
        are_oldest(
            keys_of(victims@),
            records(*goal.0),
            keys_of(old(order)@),
            goal.1 as nat,
            keys_of(final(order)@),
        ),
{
    let (map, target) = goal;
    let ghost before = records(*map);
    let ghost all = keys_of(order@);
    let ghost mut count: int = 0;
    let mut victims: Vec<Bytes> = Vec::new();
    let mut left = map.len();
    proof {
        none_retired(before, all);
        assert(keys_of(victims@).to_set() =~= Set::empty());
        assert(before.remove_keys(Set::empty()) =~= before);
    }
    while left > target
        invariant
            (map, target) == goal,
            before == records(*map),
            before.dom().finite(),
            all == keys_of(old(order)@),
            0 <= count <= all.len(),
            keys_of(order@) == all.skip(count),
            before.remove_keys(keys_of(victims@).to_set()) == without_oldest(before, all, count),
            left == without_oldest(before, all, count).len(),
            keys_of(victims@).no_duplicates(),
            forall|i: int| 0 <= i < victims@.len() ==> before.contains_key(bytes_of(#[trigger] victims@[i])),
            forall|i: int| 0 <= i < victims@.len() ==> retired(all, count).contains(bytes_of(#[trigger] victims@[i])),
            forall|fewer: int| 0 <= fewer < count ==> (#[trigger] without_oldest(before, all, fewer)).len() > target,
        decreases all.len() - count,
    {
        let ghost current = order@;
        let ghost chosen = victims@;
        match order.pop_front() {
            Some(victim) => {
                assert(bytes_of(victim) == keys_of(current)[0]);
                assert(keys_of(order@) =~= keys_of(current).skip(1));
                assert(keys_of(order@) =~= all.skip(count + 1));
                let ghost key = bytes_of(victim);
                let ghost less = without_oldest(before, all, count);
                proof {
                    one_more_retired(all, count);
                    one_more_evicted(before, all, count);
                }
                if !is_waiting(order, &victim) && map.contains_key(&victim) {
                    victims.push(victim);
                    left = left - 1;
                    proof {
                        assert(keys_of(victims@) =~= keys_of(chosen).push(key));
                        last_victim(keys_of(chosen), key);
                        assert(less.contains_key(key));
                        assert(before.remove_keys(keys_of(victims@).to_set()) =~= less.remove(key));
                    }
                }
                proof {
                    count = count + 1;
                }
            },
            None => {
                assert(is_trim(before, all, target as nat, count));
                return victims;
            },
        }
    }
    assert(is_trim(before, all, target as nat, count));
    victims
}

/// A list that is longer by one key names one more key.
proof fn last_victim(victims: Seq<Seq<u8>>, key: Seq<u8>)
    ensures
        victims.push(key).to_set() == victims.to_set().insert(key),
{
    let longer = victims.push(key);
    assert forall|other: Seq<u8>| longer.to_set().contains(other) == victims.to_set().insert(key).contains(other) by {
        if victims.contains(other) {
            let i = victims.index_of(other);
            assert(longer[i] == other);
        }
        assert(longer[victims.len() as int] == key);
    }
    assert(longer.to_set() =~= victims.to_set().insert(key));
}

/// Removes the entries under the given keys.
pub fn evict_all(map: &mut ShardMap<Bytes, CacheEntry>, victims: &Vec<Bytes>)
    ensures
        records(*final(map)) == records(*old(map)).remove_keys(keys_of(victims@).to_set()),
{
    let ghost before = records(*map);
    let mut i: usize = 0;
    assert(keys_of(victims@.take(0)).to_set() =~= Set::empty());
    while i < victims.len()
        invariant
            i <= victims@.len(),
            records(*map) =~= before.remove_keys(keys_of(victims@.take(i as int)).to_set()),
        decreases victims@.len() - i,
    {
        proof {
            let shorter = keys_of(victims@.take(i as int));
            assert(keys_of(victims@.take(i + 1)) =~= shorter.push(bytes_of(victims@[i as int])));
            last_victim(shorter, bytes_of(victims@[i as int]));
        }
        map.remove(&victims[i]);
        i = i + 1;
    }
    assert(victims@.take(victims@.len() as int) =~= victims@);
}

/// A strict least-recently-used policy with explicit promotion ordering.
///
/// Promotions are intended to be applied in batches drained from [`ReadBuffer`].
/// The internal `parking_lot` lock provides the interior mutability required by
/// [`EvictionPolicy::evict`], whose shared-reference API supports concurrent
/// policy implementations without using a standard-library mutex.
pub struct StrictLru {
    target_capacity: usize,
    access_order: Mutex<VecDeque<Bytes>>,
}

impl StrictLru {
    /// The number of entries that the policy trims a partition to.
    pub closed spec fn target(&self) -> nat {
        self.target_capacity as nat
    }

    /// The order of access that the policy was made with.
    pub closed spec fn first_order(&self) -> Seq<Seq<u8>> {
        initial_order(self.access_order)
    }

    /// Creates an empty LRU policy that trims maps to `target_capacity` entries.
    pub fn new(target_capacity: usize) -> (policy: Self)
        ensures
            policy.target() == target_capacity,
            policy.first_order() == Seq::<Seq<u8>>::empty(),
    {
        StrictLru { target_capacity, access_order: new_order_lock(VecDeque::new()) }
    }

    /// Whether `key` was promoted: [`record_promotion`] was given the order of access under its
    /// lock, and this key.
    pub closed spec fn was_promoted(&self, key: Bytes) -> bool {
        call_ensures(with_lock, (&self.access_order, key, record_promotion), ())
    }

    /// Whether `victims` may be chosen to leave a partition: that is what [`retire_oldest`] answers
    /// when it is given the order of access under its lock, the partition and the target.
    pub closed spec fn may_retire(&self, map: &ShardMap<Bytes, CacheEntry>, victims: Vec<Bytes>) -> bool {
        call_ensures(with_lock, (&self.access_order, (map, self.target_capacity), retire_oldest), victims)
    }

    /// Appends `key` as the most recently accessed entry.
    pub fn promote(&self, key: Bytes)
        ensures
            self.was_promoted(key),
    {
        with_lock(&self.access_order, key, record_promotion)
    }
}

impl EvictionPolicy for StrictLru {
    /// [`ReadBuffer`] batches promotions so cache reads do not contend here.
    fn on_read(&self, _key: Bytes) {
    }

    /// Appends `key` as the most recently accessed entry.
    fn promote(&self, key: Bytes)
        ensures
            self.was_promoted(key),
    {
        StrictLru::promote(self, key);
    }

    /// Removes the entries that were promoted the longest ago, until the target is met or no
    /// promotion is left.
    fn evict(&self, map: &mut ShardMap<Bytes, CacheEntry>)
        ensures
            exists|victims: Vec<Bytes>| #[trigger] self.may_retire(old(map), victims)
                && records(*final(map)) == records(*old(map)).remove_keys(keys_of(victims@).to_set()),
            exists|order: Seq<Seq<u8>>, waiting: Seq<Seq<u8>>|
                #[trigger] trims(records(*old(map)), order, self.target(), records(*final(map)), waiting),
    {
        let target = self.target_capacity;
        let victims = with_lock(&self.access_order, (&*map, target), retire_oldest);
        assert(self.may_retire(old(map), victims));
        assert(self.target() == target);
        evict_all(map, &victims);
    }
}

/// A key that was promoted was appended to the order of access that was found.
pub proof fn promotions_are_appended(policy: &StrictLru, key: Bytes)
    requires
        policy.was_promoted(key),
    ensures
        exists|found: &mut VecDeque<Bytes>| {
            &&& #[trigger] call_ensures(record_promotion, (found, key), ())
            &&& keys_of(final(found)@) == keys_of(found@).push(bytes_of(key))
        },
{
    locks_run_the_action(&policy.access_order, key, record_promotion, ());
    let found = choose|found: &mut VecDeque<Bytes>| call_ensures(record_promotion, (found, key), ());
    assert(call_ensures(record_promotion, (found, key), ()));
}

/// The entries that may be chosen to leave a partition are the ones that were promoted the longest
/// ago, by the order of access that was found.
pub proof fn the_oldest_are_retired(policy: &StrictLru, map: &ShardMap<Bytes, CacheEntry>, victims: Vec<Bytes>)
    requires
        policy.may_retire(map, victims),
    ensures
        exists|order: Seq<Seq<u8>>, waiting: Seq<Seq<u8>>|
            #[trigger] are_oldest(keys_of(victims@), records(*map), order, policy.target(), waiting),
{
    locks_run_the_action(&policy.access_order, (map, policy.target_capacity), retire_oldest, victims);
    let found = choose|found: &mut VecDeque<Bytes>|
        call_ensures(retire_oldest, (found, (map, policy.target_capacity)), victims);
    assert(policy.target() == policy.target_capacity);
}

/// At most one candidate of a sample is the first that was accessed least often.
pub proof fn least_used_is_unique(sample: Seq<(Seq<u8>, u32)>, first: int, second: int)
    requires
        is_least_used(sample, first),
        is_least_used(sample, second),
    ensures
        first == second,
{
    assert(sample[first].1 <= sample[second].1);
    assert(sample[second].1 <= sample[first].1);
}

/// In a map of no more entries than a sample may have, every entry is a candidate: the entry that
/// is evicted was accessed no more often than any other of the map.
pub proof fn small_maps_are_sampled_whole(
    sample: Seq<(Seq<u8>, u32)>,
    map: Map<Seq<u8>, CacheEntry>,
    limit: nat,
    index: int,
)
    requires
        map.dom().finite(),
        map.len() <= limit,
        is_sample_of(sample, map, limit),
        is_least_used(sample, index),
    ensures
        forall|key: Seq<u8>| map.contains_key(key) ==> exists|i: int|
            0 <= i < sample.len() && (#[trigger] sample[i]).0 == key && sample[index].1 <= sample[i].1,
{
    let keys = sample.map_values(|candidate: (Seq<u8>, u32)| candidate.0);
    assert(keys.no_duplicates());
    keys.unique_seq_to_set();
    assert(keys.to_set().subset_of(map.dom())) by {
        assert forall|key: Seq<u8>| keys.to_set().contains(key) implies map.contains_key(key) by {
            let i = keys.index_of(key);
            assert(sample[i].0 == key);
        }
    }
    vstd::set_lib::lemma_subset_equality(keys.to_set(), map.dom());
    assert forall|key: Seq<u8>| map.contains_key(key) implies exists|i: int|
        0 <= i < sample.len() && (#[trigger] sample[i]).0 == key && sample[index].1 <= sample[i].1 by {
        assert(keys.to_set().contains(key));
        let i = keys.index_of(key);
        assert(sample[i].0 == key);
    }
}

/// Each round evicts one entry, and nothing else changes.
pub proof fn rounds_only_remove(
    before: Map<Seq<u8>, CacheEntry>,
    rounds: Seq<Seq<(Seq<u8>, u32)>>,
    limit: nat,
    after: Map<Seq<u8>, CacheEntry>,
)
    requires
        before.dom().finite(),
        evicted_in_rounds(before, rounds, limit, after),
    ensures
        after.submap_of(before),
        after.dom().finite(),
        after.len() + rounds.len() == before.len(),
    decreases rounds.len(),
{
    if rounds.len() > 0 {
        let (middle, index) = choose|middle: Map<Seq<u8>, CacheEntry>, index: int| {
            &&& #[trigger] is_round(middle, rounds.last(), limit, index, after)
            &&& evicted_in_rounds(before, rounds.drop_last(), limit, middle)
        };
        rounds_only_remove(before, rounds.drop_last(), limit, middle);
        assert(middle.contains_key(rounds.last()[index].0));
    }
}

/// Whether the access counter of each entry may be found to hold one count only, as where nobody
/// reads the entries.
pub open spec fn counts_are(map: Map<Seq<u8>, CacheEntry>, counts: Map<Seq<u8>, u32>) -> bool {
    forall|key: Seq<u8>, count: u32| #![trigger map[key].may_count(count)]
        map.contains_key(key) && map[key].may_count(count) ==> count == counts[key]
}

/// The other entries that were accessed at least as often as the one under `key`.
pub open spec fn rivals(map: Map<Seq<u8>, CacheEntry>, counts: Map<Seq<u8>, u32>, key: Seq<u8>) -> Set<Seq<u8>> {
    map.dom().filter(|other: Seq<u8>| other != key && counts[other] >= counts[key])
}

/// Where an entry was accessed less often than every other one, and all are candidates, it is the
/// one that leaves.
pub proof fn the_least_used_of_few_leaves(
    before: Map<Seq<u8>, CacheEntry>,
    sample: Seq<(Seq<u8>, u32)>,
    limit: nat,
    index: int,
    after: Map<Seq<u8>, CacheEntry>,
    counts: Map<Seq<u8>, u32>,
    key: Seq<u8>,
)
    requires
        before.dom().finite(),
        before.len() <= limit,
        is_round(before, sample, limit, index, after),
        counts_are(before, counts),
        before.contains_key(key),
        forall|other: Seq<u8>| before.contains_key(other) && other != key ==> counts[key] < #[trigger] counts[other],
    ensures
        after == before.remove(key),
{
    small_maps_are_sampled_whole(sample, before, limit, index);
    let i = choose|i: int| 0 <= i < sample.len() && (#[trigger] sample[i]).0 == key && sample[index].1 <= sample[i].1;
    assert(before[sample[i].0].may_count(sample[i].1));
    assert(before[sample[index].0].may_count(sample[index].1));
    assert(before.contains_key(sample[index].0));
}

/// Where an entry was accessed less often than every other one of a small map, it is gone after the
/// first round.
pub proof fn the_least_used_of_few_is_gone(
    before: Map<Seq<u8>, CacheEntry>,
    rounds: Seq<Seq<(Seq<u8>, u32)>>,
    limit: nat,
    after: Map<Seq<u8>, CacheEntry>,
    counts: Map<Seq<u8>, u32>,
    key: Seq<u8>,
)
    requires
        before.dom().finite(),
        before.len() <= limit,
        rounds.len() > 0,
        evicted_in_rounds(before, rounds, limit, after),
        counts_are(before, counts),
        before.contains_key(key),
        forall|other: Seq<u8>| before.contains_key(other) && other != key ==> counts[key] < #[trigger] counts[other],
    ensures
        !after.contains_key(key),
    decreases rounds.len(),
{
    let (middle, index) = choose|middle: Map<Seq<u8>, CacheEntry>, index: int| {
        &&& #[trigger] is_round(middle, rounds.last(), limit, index, after)
        &&& evicted_in_rounds(before, rounds.drop_last(), limit, middle)
    };
    if rounds.len() == 1 {
        assert(middle == before);
        the_least_used_of_few_leaves(before, rounds.last(), limit, index, after, counts, key);
    } else {
        the_least_used_of_few_is_gone(before, rounds.drop_last(), limit, middle, counts, key);
    }
}

/// An entry stays where fewer other entries were accessed at least as often than a sample has
/// other candidates, and than entries are left in the end. In particular the entry that was
/// accessed most often is never evicted, unless all are.
pub proof fn the_most_used_stay(
    before: Map<Seq<u8>, CacheEntry>,
    rounds: Seq<Seq<(Seq<u8>, u32)>>,
    limit: nat,
    after: Map<Seq<u8>, CacheEntry>,
    counts: Map<Seq<u8>, u32>,
    key: Seq<u8>,
)
    requires
        before.dom().finite(),
        limit > 0,
        evicted_in_rounds(before, rounds, limit, after),
        counts_are(before, counts),
        before.contains_key(key),
        rivals(before, counts, key).len() < at_most(after.len(), (limit - 1) as nat),
    ensures
        after.contains_key(key),
    decreases rounds.len(),
{
    if rounds.len() > 0 {
        let sample = rounds.last();
        let (middle, index) = choose|middle: Map<Seq<u8>, CacheEntry>, index: int| {
            &&& #[trigger] is_round(middle, sample, limit, index, after)
            &&& evicted_in_rounds(before, rounds.drop_last(), limit, middle)
        };
        rounds_only_remove(before, rounds.drop_last(), limit, middle);
        assert(middle.contains_key(sample[index].0));
        assert(after.len() + 1 == middle.len());
        the_most_used_stay(before, rounds.drop_last(), limit, middle, counts, key);
        if sample[index].0 == key {
            let others = sample.remove(index).map_values(|candidate: (Seq<u8>, u32)| candidate.0);
            let all = rivals(before, counts, key);
            assert(others.no_duplicates());
            others.unique_seq_to_set();
            assert forall|other: Seq<u8>| others.to_set().contains(other) implies all.contains(other) by {
                let j = others.index_of(other);
                let i = if j < index { j } else { j + 1 };
                assert(sample.remove(index)[j] == sample[i]);
                assert(middle.contains_key(sample[i].0));
                assert(before.dom().contains(sample[i].0) && before.dom().contains(key));
                assert(middle[sample[i].0].may_count(sample[i].1));
                assert(middle[sample[index].0].may_count(sample[index].1));
                assert(before[sample[i].0].may_count(sample[i].1));
                assert(before[key].may_count(sample[index].1));
            }
            vstd::set_lib::lemma_len_subset(others.to_set(), all);
        }
    }
}

/// How many promotions have to be used up is determined by the map, the order and the target.
pub proof fn trim_is_unique(map: Map<Seq<u8>, CacheEntry>, order: Seq<Seq<u8>>, target: nat, first: int, second: int)
    requires
        is_trim(map, order, target, first),
        is_trim(map, order, target, second),
    ensures
        first == second,
{
    if first < second {
        assert(without_oldest(map, order, first).len() > target);
    } else if second < first {
        assert(without_oldest(map, order, second).len() > target);
    }
}

/// One more promotion that is used up makes the map smaller by at most one entry.
proof fn one_more_evicted(map: Map<Seq<u8>, CacheEntry>, order: Seq<Seq<u8>>, count: int)
    requires
        map.dom().finite(),
        0 <= count < order.len(),
    ensures
        without_oldest(map, order, count + 1) == if order.skip(count + 1).contains(order[count]) {
            without_oldest(map, order, count)
        } else {
            without_oldest(map, order, count).remove(order[count])
        },
        without_oldest(map, order, count).dom().finite(),
        without_oldest(map, order, count).len() <= without_oldest(map, order, count + 1).len() + 1,
{
    one_more_retired(order, count);
    let less = without_oldest(map, order, count);
    assert(less.dom().subset_of(map.dom()));
    vstd::set_lib::lemma_set_subset_finite(map.dom(), less.dom());
    if !order.skip(count + 1).contains(order[count]) {
        assert(without_oldest(map, order, count + 1) =~= less.remove(order[count]));
        assert(less.remove(order[count]).dom() =~= less.dom().remove(order[count]));
    }
}

/// Trimming removes entries and changes none. It never removes more than is needed to meet the
/// target, and removes nothing where the target is met already.
pub proof fn trimming_only_removes_what_it_must(
    map: Map<Seq<u8>, CacheEntry>,
    order: Seq<Seq<u8>>,
    target: nat,
    kept: Map<Seq<u8>, CacheEntry>,
    waiting: Seq<Seq<u8>>,
)
    requires
        map.dom().finite(),
        trims(map, order, target, kept, waiting),
    ensures
        kept.submap_of(map),
        kept.len() >= at_most(map.len(), target),
        map.len() <= target ==> kept == map && waiting == order,
{
    let count = choose|count: int| {
        &&& #[trigger] is_trim(map, order, target, count)
        &&& kept == without_oldest(map, order, count)
        &&& waiting == order.skip(count)
    };
    none_retired(map, order);
    if count > 0 {
        assert(without_oldest(map, order, count - 1).len() > target);
        assert(without_oldest(map, order, 0).len() > target);
        one_more_evicted(map, order, count - 1);
    }
}

/// Where every entry was promoted, trimming meets the target exactly.
pub proof fn trimming_meets_the_target(
    map: Map<Seq<u8>, CacheEntry>,
    order: Seq<Seq<u8>>,
    target: nat,
    kept: Map<Seq<u8>, CacheEntry>,
    waiting: Seq<Seq<u8>>,
)
    requires
        map.dom().finite(),
        forall|key: Seq<u8>| map.contains_key(key) ==> order.contains(key),
        trims(map, order, target, kept, waiting),
    ensures
        kept.len() == at_most(map.len(), target),
{
    trimming_only_removes_what_it_must(map, order, target, kept, waiting);
    let count = choose|count: int| {
        &&& #[trigger] is_trim(map, order, target, count)
        &&& kept == without_oldest(map, order, count)
        &&& waiting == order.skip(count)
    };
    if count == order.len() {
        assert(order.take(count) =~= order);
        assert(order.skip(count) =~= Seq::empty());
        assert(kept.dom() =~= Set::empty());
    }
    vstd::set_lib::lemma_len_subset(kept.dom(), map.dom());
}

/// Whether the promotion at `index` is the last one of its key.
pub open spec fn is_last_promotion(order: Seq<Seq<u8>>, index: int) -> bool {
    &&& 0 <= index < order.len()
    &&& forall|later: int| index < later < order.len() ==> order[later] != order[index]
}

/// Entries leave in the order of their last promotions: an entry that is evicted was promoted, and
/// every entry whose last promotion came before its last one is evicted too. A key that still
/// waits keeps its entry.
pub proof fn the_least_recently_used_leaves_first(
    map: Map<Seq<u8>, CacheEntry>,
    order: Seq<Seq<u8>>,
    target: nat,
    kept: Map<Seq<u8>, CacheEntry>,
    waiting: Seq<Seq<u8>>,
)
    requires
        trims(map, order, target, kept, waiting),
    ensures
        forall|key: Seq<u8>| map.contains_key(key) && !#[trigger] kept.contains_key(key) ==> order.contains(key),
        forall|older: int, newer: int| #![trigger is_last_promotion(order, older), is_last_promotion(order, newer)]
            is_last_promotion(order, older) && is_last_promotion(order, newer) && older <= newer
                && map.contains_key(order[newer]) && !kept.contains_key(order[newer]) ==> !kept.contains_key(order[older]),
        forall|key: Seq<u8>| #[trigger] waiting.contains(key) && map.contains_key(key) ==> kept.contains_key(key),
{
    let count = choose|count: int| {
        &&& #[trigger] is_trim(map, order, target, count)
        &&& kept == without_oldest(map, order, count)
        &&& waiting == order.skip(count)
    };
    let head = order.take(count);
    let tail = order.skip(count);
    assert forall|key: Seq<u8>| map.contains_key(key) && !#[trigger] kept.contains_key(key) implies order.contains(key) by {
        let i = head.index_of(key);
        assert(order[i] == key);
    }
    assert forall|older: int, newer: int| #![trigger is_last_promotion(order, older), is_last_promotion(order, newer)]
        is_last_promotion(order, older) && is_last_promotion(order, newer) && older <= newer
            && map.contains_key(order[newer]) && !kept.contains_key(order[newer]) implies !kept.contains_key(order[older]) by {
        if newer >= count {
            assert(tail[newer - count] == order[newer]);
        }
        assert(head[older] == order[older]);
        if tail.contains(order[older]) {
            let i = tail.index_of(order[older]);
            assert(order[count + i] == order[older]);
        }
    }
}

/// A key that was just promoted is evicted only after every other entry that was promoted: while
/// one of those is left, so is its own entry.
pub proof fn the_last_promoted_stays_longest(
    map: Map<Seq<u8>, CacheEntry>,
    order: Seq<Seq<u8>>,
    key: Seq<u8>,
    target: nat,
    kept: Map<Seq<u8>, CacheEntry>,
    waiting: Seq<Seq<u8>>,
    other: Seq<u8>,
)
    requires
        trims(map, order.push(key), target, kept, waiting),
        map.contains_key(key),
        order.contains(other),
        kept.contains_key(other),
    ensures
        kept.contains_key(key),
{
    let promoted = order.push(key);
    let count = choose|count: int| {
        &&& #[trigger] is_trim(map, promoted, target, count)
        &&& kept == without_oldest(map, promoted, count)
        &&& waiting == promoted.skip(count)
    };
    if count < promoted.len() {
        let tail = promoted.skip(count);
        assert(tail[promoted.len() - 1 - count] == key);
    } else {
        assert(promoted.take(count) =~= promoted);
        assert(promoted.skip(count) =~= Seq::empty());
        let i = order.index_of(other);
        assert(promoted[i] == other);
        assert(retired(promoted, count).contains(other));
    }
}

/// A promotion whose entry is gone is passed over: the outcome is the same as without it.
pub proof fn stale_promotions_are_skipped(
    map: Map<Seq<u8>, CacheEntry>,
    stale: Seq<u8>,
    order: Seq<Seq<u8>>,
    target: nat,
    kept: Map<Seq<u8>, CacheEntry>,
    waiting: Seq<Seq<u8>>,
)
    requires
        map.len() > target,
        !map.contains_key(stale),
        trims(map, order, target, kept, waiting),
    ensures
        trims(map, seq![stale] + order, target, kept, waiting),
{
    let count = choose|count: int| {
        &&& #[trigger] is_trim(map, order, target, count)
        &&& kept == without_oldest(map, order, count)
        &&& waiting == order.skip(count)
    };
    let longer = seq![stale] + order;
    assert forall|n: int| 0 <= n <= order.len() implies
        #[trigger] without_oldest(map, longer, n + 1) == without_oldest(map, order, n) by {
        assert(longer.skip(n + 1) =~= order.skip(n));
        let head = longer.take(n + 1);
        assert forall|key: Seq<u8>| map.contains_key(key) implies head.contains(key) == order.take(n).contains(key) by {
            if order.take(n).contains(key) {
                let i = order.take(n).index_of(key);
                assert(head[i + 1] == key);
            }
            if head.contains(key) {
                let i = head.index_of(key);
                assert(i > 0);
                assert(order.take(n)[i - 1] == key);
            }
        }
        assert(without_oldest(map, longer, n + 1) =~= without_oldest(map, order, n));
    }
    none_retired(map, longer);
    assert forall|fewer: int| 0 <= fewer < count + 1 implies (#[trigger] without_oldest(map, longer, fewer)).len() > target by {
        if fewer > 0 {
            assert(without_oldest(map, longer, (fewer - 1) + 1) == without_oldest(map, order, fewer - 1));
        }
    }
    assert(without_oldest(map, longer, count + 1) == without_oldest(map, order, count));
    assert(is_trim(map, longer, target, count + 1));
    assert(longer.skip(count + 1) =~= order.skip(count));
}

/// What [`StrictLru`] does, it does with its own order of access and its own target.
proof fn policies_use_their_own_order(policy: &StrictLru, key: Bytes, map: &ShardMap<Bytes, CacheEntry>, victims: Vec<Bytes>)
    ensures
        policy.was_promoted(key) ==> call_ensures(with_lock, (&policy.access_order, key, record_promotion), ()),
        policy.may_retire(map, victims) ==> call_ensures(
            with_lock,
            (&policy.access_order, (map, policy.target_capacity), retire_oldest),
            victims,
        ),
        policy.target() == policy.target_capacity,
        policy.first_order() == initial_order(policy.access_order),
{
}

/// A policy aims at the number of entries that it was made for.
proof fn policies_aim_at_their_own_target(policy: &SampledLfu)
    ensures
        policy.target() == policy.target_capacity,
{
}

/// A new read buffer is one whose queue was made for its capacity.
proof fn new_buffers_have_new_queues(buffer: &ReadBuffer, capacity: usize)
    requires
        buffer.is_new(capacity),
    ensures
        call_ensures(new_queue, (capacity,), buffer.queue),
        queue_capacity(buffer.queue) == capacity,
{
}

} // verus!
