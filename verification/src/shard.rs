//! A cache made of independently locked partitions.

pub use crate::eviction::SampledLfu;

use crate::eviction::{EvictionPolicy, ReadBuffer};
use crate::locks::{make_lock, was_made_around};
use crate::map::{has_no_items, new_map, ShardMap};
use parking_lot::RwLock;
use std::collections::hash_map::RandomState;
use std::hash::{BuildHasher, Hash};
use vstd::arithmetic::power::pow;
use vstd::arithmetic::power2::{is_pow2, is_pow2_equiv, lemma2_to64, lemma_pow2, lemma_pow2_strictly_increases};
use vstd::prelude::*;

verus! {

/// The fixed shard count. It must remain a power of two for bitmask routing.
pub const SHARD_COUNT: usize = 64;

/// How many entries a cache holds by default, all shards together.
pub const DEFAULT_CAPACITY: usize = 100_000;

/// How many keys the read buffer of a shard takes.
pub const READ_BUFFER_CAPACITY: usize = 128;

/// `BuildHasher::hash_one` digests a key. Hash builders are seeded when they are made, so nothing
/// is known of the digest.
#[verifier::external_body]
fn hash_key<S: BuildHasher, Q: Hash + ?Sized>(hash_builder: &S, key: &Q) -> u64 {
    hash_builder.hash_one(key)
}

/// `RandomState::new` makes a hash builder with a random seed.
pub assume_specification[ RandomState::new ]() -> RandomState
;

/// An independently locked cache partition.
///
/// The head and the tail of the read buffer's queue are padded to the length of a cache line, as
/// far as the queue knows it for the target. This aligns the shard too, and keeps adjacent shards
/// from invalidating each other's CPU caches under concurrent writes.
#[verifier::reject_recursive_types(K)]
#[verifier::reject_recursive_types(V)]
pub struct CacheShard<K, V, P> {
    pub map: RwLock<ShardMap<K, V>>,
    pub policy: P,
    pub read_buffer: ReadBuffer,
}

impl<K, V, P> CacheShard<K, V, P> {
    /// Whether the partition is a new one: its map was made without items, and its read buffer for
    /// [`READ_BUFFER_CAPACITY`] keys.
    pub open spec fn is_new(&self) -> bool {
        &&& self.read_buffer.is_new(READ_BUFFER_CAPACITY)
        &&& exists|map: ShardMap<K, V>| has_no_items(map) && #[trigger] was_made_around(self.map, map)
    }

    /// Creates an empty partition with the given policy.
    fn new(policy: P) -> (shard: Self)
        ensures
            shard.policy == policy,
            shard.is_new(),
    {
        let map = new_map();
        let ghost contents = map;
        let shard = CacheShard {
            map: make_lock(map),
            policy,
            read_buffer: ReadBuffer::new(READ_BUFFER_CAPACITY),
        };
        assert(was_made_around(shard.map, contents));
        shard
    }
}

/// The number of the shard, out of `shard_count`, that holds the keys with the given hash.
pub open spec fn shard_number(hash: u64, shard_count: nat) -> int {
    hash as int % shard_count as int
}

/// Keeping the bits below a power of two is taking the remainder.
proof fn mask_is_remainder(hash: u64, shard_count: u64)
    requires
        is_pow2(shard_count as int),
    ensures
        hash & ((shard_count - 1) as u64) == hash as int % shard_count as int,
{
    is_pow2_equiv(shard_count as int);
    let n = choose|n: nat| pow(2, n) == shard_count;
    lemma_pow2(n);
    if n >= 64 {
        if n > 64 {
            lemma_pow2_strictly_increases(64, n);
        }
        lemma2_to64();
    }
    vstd::bits::lemma_u64_low_bits_mask_is_mod(hash, n);
    reveal(is_pow2);
    assert(vstd::bits::low_bits_mask(n) == shard_count - 1);
}

/// Routes a hash to one of `shard_count` shards.
pub fn shard_index(hash: u64, shard_count: usize) -> (index: usize)
    requires
        is_pow2(shard_count as int),
    ensures
        index as int == shard_number(hash, shard_count as nat),
        index as int == hash as int % shard_count as int,
        index < shard_count,
{
    proof {
        reveal(is_pow2);
        mask_is_remainder(hash, shard_count as u64);
    }
    let mask: u64 = shard_count as u64 - 1;
    (hash & mask) as usize
}

/// A fixed-size collection of independently locked cache partitions.
///
/// Unrelated keys can be read or written concurrently when they route to different shards.
#[verifier::reject_recursive_types(K)]
#[verifier::reject_recursive_types(V)]
pub struct ShardedCache<K, V, P = SampledLfu, S = RandomState> {
    shards: Vec<CacheShard<K, V, P>>,
    hash_builder: S,
}

impl<K, V, P, S> ShardedCache<K, V, P, S> {
    /// The number of shards is a power of two.
    #[verifier::type_invariant]
    spec fn well_formed(self) -> bool {
        is_pow2(self.shards@.len() as int)
    }

    /// The shards, in order.
    pub closed spec fn shard_list(&self) -> Seq<CacheShard<K, V, P>> {
        self.shards@
    }

    /// What the keys are digested with.
    pub closed spec fn hasher(&self) -> S {
        self.hash_builder
    }

    /// The shards, in order.
    pub fn shards(&self) -> (shards: &Vec<CacheShard<K, V, P>>)
        ensures
            shards@ == self.shard_list(),
            is_pow2(shards@.len() as int),
    {
        proof {
            use_type_invariant(self);
        }
        &self.shards
    }
}

impl<K, V, P, S> ShardedCache<K, V, P, S>
where
    P: EvictionPolicy,
    S: BuildHasher,
{
    /// Creates an empty cache with a power-of-two shard count and hash builder. Each shard has a
    /// policy of its own, made for an equal part of the total capacity.
    pub fn new(
        shard_count: usize,
        total_capacity: usize,
        policy_factory: impl Fn(usize) -> P,
        hash_builder: S,
    ) -> (cache: Self)
        requires
            is_pow2(shard_count as int),
            policy_factory.requires((total_capacity / shard_count,)),
        ensures
            cache.shard_list().len() == shard_count,
            forall|i: int| 0 <= i < shard_count ==> policy_factory.ensures(
                (total_capacity / shard_count,),
                (#[trigger] cache.shard_list()[i]).policy,
            ),
            forall|i: int| 0 <= i < shard_count ==> (#[trigger] cache.shard_list()[i]).is_new(),
            cache.hasher() == hash_builder,
    {
        proof {
            reveal(is_pow2);
        }
        let capacity_per_shard: usize = total_capacity / shard_count;
        let mut shards: Vec<CacheShard<K, V, P>> = Vec::with_capacity(shard_count);
        while shards.len() < shard_count
            invariant
                shards@.len() <= shard_count,
                policy_factory.requires((capacity_per_shard,)),
                forall|i: int| 0 <= i < shards@.len() ==> policy_factory.ensures((capacity_per_shard,), (#[trigger] shards@[i]).policy),
                forall|i: int| 0 <= i < shards@.len() ==> (#[trigger] shards@[i]).is_new(),
            decreases shard_count - shards.len(),
        {
            shards.push(CacheShard::new(policy_factory(capacity_per_shard)));
        }
        ShardedCache { shards, hash_builder }
    }

    /// Whether `hash` may be the digest of `key`: that is what the hash builder answers for it.
    pub closed spec fn may_hash<Q: Hash + ?Sized>(&self, key: &Q, hash: u64) -> bool {
        call_ensures(hash_key::<S, Q>, (&self.hash_builder, key), hash)
    }

    /// Whether `key` may be routed to `shard`: that is the shard of a digest of the key.
    pub open spec fn may_route<Q: Hash + ?Sized>(&self, key: &Q, shard: CacheShard<K, V, P>) -> bool {
        exists|hash: u64| #[trigger] self.may_hash(key, hash)
            && shard == self.shard_list()[shard_number(hash, self.shard_list().len())]
    }

    /// Hashes `key` and returns its shard using power-of-two bitmask routing.
    pub fn get_shard<Q>(&self, key: &Q) -> (shard: &CacheShard<K, V, P>)
    where
        Q: Hash + ?Sized,
        ensures
            self.may_route(key, *shard),
    {
        let hash = hash_key(&self.hash_builder, key);
        assert(self.may_hash(key, hash));
        self.shard_of_hash(hash)
    }

    /// Returns the shard of the keys with the given hash.
    pub fn shard_of_hash(&self, hash: u64) -> (shard: &CacheShard<K, V, P>)
        ensures
            0 <= shard_number(hash, self.shard_list().len()) < self.shard_list().len(),
            *shard == self.shard_list()[shard_number(hash, self.shard_list().len())],
            *shard == self.shard_list()[hash as int % self.shard_list().len() as int],
    {
        proof {
            use_type_invariant(self);
        }
        let index = shard_index(hash, self.shards.len());
        &self.shards[index]
    }
}

impl<K, V, S> ShardedCache<K, V, SampledLfu, S>
where
    S: BuildHasher,
{
    /// Creates an empty cache with room for [`DEFAULT_CAPACITY`] entries, whose shards evict what
    /// is used least.
    pub fn with_hasher(shard_count: usize, hash_builder: S) -> (cache: Self)
        requires
            is_pow2(shard_count as int),
        ensures
            cache.shard_list().len() == shard_count,
            forall|i: int| 0 <= i < shard_count ==>
                (#[trigger] cache.shard_list()[i]).policy.target() == DEFAULT_CAPACITY / shard_count,
            forall|i: int| 0 <= i < shard_count ==> (#[trigger] cache.shard_list()[i]).is_new(),
            cache.hasher() == hash_builder,
    {
        proof {
            reveal(is_pow2);
        }
        Self::new(shard_count, DEFAULT_CAPACITY, SampledLfu::new, hash_builder)
    }
}

impl<K, V> Default for ShardedCache<K, V> {
    /// Creates an empty cache with [`SHARD_COUNT`] shards and a randomly seeded hash builder.
    fn default() -> (cache: Self)
        ensures
            cache.shard_list().len() == SHARD_COUNT,
            cache.shard_list().len() == 64,
            forall|i: int| 0 <= i < SHARD_COUNT ==>
                (#[trigger] cache.shard_list()[i]).policy.target() == DEFAULT_CAPACITY / SHARD_COUNT,
            forall|i: int| 0 <= i < 64 ==> (#[trigger] cache.shard_list()[i]).policy.target() == 1562,
            forall|i: int| 0 <= i < SHARD_COUNT ==> (#[trigger] cache.shard_list()[i]).is_new(),
    {
        proof {
            reveal_with_fuel(is_pow2, 7);
        }
        Self::with_hasher(SHARD_COUNT, RandomState::new())
    }
}

/// Every hash routes to one of the shards, and every shard is routed to.
pub proof fn routing_covers_the_shards(hash: u64, shard_count: usize, index: int)
    requires
        is_pow2(shard_count as int),
        0 <= index < shard_count,
    ensures
        0 <= shard_number(hash, shard_count as nat) < shard_count,
        shard_number(index as u64, shard_count as nat) == index,
{
    vstd::arithmetic::div_mod::lemma_small_mod(index as nat, shard_count as nat);
}

/// The shards together never hold more than the total capacity, when each is trimmed to its part.
pub proof fn shards_share_the_capacity(shard_count: usize, total_capacity: usize)
    requires
        is_pow2(shard_count as int),
    ensures
        shard_count * (total_capacity / shard_count) <= total_capacity,
{
    reveal(is_pow2);
    vstd::arithmetic::div_mod::lemma_fundamental_div_mod(total_capacity as int, shard_count as int);
}

/// Where the hash builder gives a key one digest only, the key is routed to one shard only.
pub proof fn equal_digests_route_to_one_shard<K, V, P: EvictionPolicy, S: BuildHasher, Q: Hash + ?Sized>(
    cache: &ShardedCache<K, V, P, S>,
    key: &Q,
    digest: u64,
    first: CacheShard<K, V, P>,
    second: CacheShard<K, V, P>,
)
    requires
        forall|hash: u64| cache.may_hash(key, hash) ==> hash == digest,
        cache.may_route(key, first),
        cache.may_route(key, second),
    ensures
        first == second,
        first == cache.shard_list()[shard_number(digest, cache.shard_list().len())],
{
}

/// A key is digested by the cache's own hash builder.
proof fn keys_are_digested_by_the_hash_builder<K, V, P: EvictionPolicy, S: BuildHasher, Q: Hash + ?Sized>(
    cache: &ShardedCache<K, V, P, S>,
    key: &Q,
    hash: u64,
)
    requires
        cache.may_hash(key, hash),
    ensures
        call_ensures(hash_key::<S, Q>, (&cache.hash_builder, key), hash),
{
}

/// A key is routed to the shard whose number is the remainder of its digest.
pub proof fn keys_are_routed_by_the_remainder<K, V, P: EvictionPolicy, S: BuildHasher, Q: Hash + ?Sized>(
    cache: &ShardedCache<K, V, P, S>,
    key: &Q,
    shard: CacheShard<K, V, P>,
)
    requires
        cache.may_route(key, shard),
    ensures
        exists|hash: u64| #[trigger] cache.may_hash(key, hash)
            && shard == cache.shard_list()[hash as int % cache.shard_list().len() as int],
{
}

/// A new shard has a map without items and a read buffer for 128 keys.
pub proof fn new_shards_are_empty<K, V, P>(shard: CacheShard<K, V, P>)
    requires
        shard.is_new(),
    ensures
        shard.read_buffer.is_new(128),
        exists|map: ShardMap<K, V>| has_no_items(map) && #[trigger] was_made_around(shard.map, map),
{
}

} // verus!
