use aether_cache::entry::CacheEntry;
use aether_cache::map::Partition;
use aether_cache::shard::{shard_index, CacheShard, SampledLfu, ShardedCache, SHARD_COUNT};
use aether_cache::eviction::{EvictionPolicy, StrictLru};
use bytes::Bytes;
use hashbrown::DefaultHashBuilder;
use std::cell::RefCell;
use std::mem::align_of;
use std::sync::Arc;

#[test]
fn shards_are_cache_line_aligned() {
    assert!(align_of::<CacheShard<u64, u64, SampledLfu>>() >= 64);
}

#[test]
fn creates_the_fixed_number_of_shards() {
    let cache = ShardedCache::<u64, u64>::default();

    assert_eq!(cache.shards().len(), SHARD_COUNT);
}

#[test]
fn equal_keys_route_to_the_same_shard() {
    let cache = ShardedCache::<String, u64>::default();

    assert!(std::ptr::eq(
        cache.get_shard("consistent-key"),
        cache.get_shard("consistent-key"),
    ));
}

#[test]
fn concurrent_inserts_preserve_every_entry() {
    const THREAD_COUNT: usize = 16;
    const INSERTS_PER_THREAD: usize = 10_000;

    let cache = Arc::new(ShardedCache::<String, String>::default());
    let runtime = tokio::runtime::Builder::new_multi_thread().build().unwrap();

    let mut handles = Vec::with_capacity(THREAD_COUNT);

    for thread_id in 0..THREAD_COUNT {
        let cache = Arc::clone(&cache);
        handles.push(runtime.spawn_blocking(move || {
            for item_id in 0..INSERTS_PER_THREAD {
                let key = format!("{thread_id}:{item_id}");
                let value = format!("value:{thread_id}:{item_id}");

                cache.get_shard(&key).map.write().insert(key, value);
            }
        }));
    }

    for handle in handles {
        runtime.block_on(handle).expect("cache worker thread panicked");
    }

    let item_count: usize = cache
        .shards()
        .iter()
        .map(|shard| shard.map.read().len())
        .sum();

    assert_eq!(item_count, THREAD_COUNT * INSERTS_PER_THREAD);
}

#[test]
fn partitions_hold_keys_and_values_of_any_type() {
    let cache = ShardedCache::<u64, String>::default();
    let shard = cache.get_shard(&7u64);
    assert_eq!(shard.map.write().insert(7, "seven".to_owned()), None);
    assert_eq!(shard.map.write().insert(7, "VII".to_owned()), Some("seven".to_owned()));
    assert_eq!(shard.map.read().get(&7), Some(&"VII".to_owned()));
    assert!(shard.map.read().contains_key(&7));
    assert!(!shard.map.read().contains_key(&8));
    assert_eq!(shard.map.read().len(), 1);
    assert_eq!(shard.map.write().remove(&7), Some("VII".to_owned()));
    assert_eq!(shard.map.write().remove(&7), None);
    assert_eq!(shard.map.read().len(), 0);
}

#[test]
fn routing_keeps_the_low_bits_of_the_hash() {
    assert_eq!(shard_index(0, 64), 0);
    assert_eq!(shard_index(63, 64), 63);
    assert_eq!(shard_index(64, 64), 0);
    assert_eq!(shard_index(u64::MAX, 64), 63);
    assert_eq!(shard_index(0x1234_5678_9abc_def0, 16), 0);
    assert_eq!(shard_index(0x1234_5678_9abc_deff, 16), 15);
    assert_eq!(shard_index(u64::MAX, 1), 0);
}

#[test]
fn hashes_route_to_the_shard_of_that_number() {
    let cache = ShardedCache::<u64, u64>::default();
    for hash in [0, 1, 63, 64, 130, u64::MAX] {
        let index = (hash % 64) as usize;
        assert!(std::ptr::eq(cache.shard_of_hash(hash), &cache.shards()[index]));
    }
}

#[test]
fn keys_spread_over_the_shards() {
    let cache = ShardedCache::<u64, u64>::default();
    let first = cache.get_shard(&0u64);
    assert!((1..1_000u64).any(|key| !std::ptr::eq(cache.get_shard(&key), first)));
}

#[test]
fn each_shard_gets_its_part_of_the_capacity() {
    let asked = RefCell::new(Vec::new());
    let cache = ShardedCache::<Bytes, CacheEntry, StrictLru, DefaultHashBuilder>::new(
        4,
        1_003,
        |capacity| {
            asked.borrow_mut().push(capacity);
            StrictLru::new(capacity)
        },
        DefaultHashBuilder::default(),
    );
    assert_eq!(cache.shards().len(), 4);
    assert_eq!(*asked.borrow(), vec![250, 250, 250, 250]);
}

#[test]
fn shards_start_empty_with_a_read_buffer() {
    let cache = ShardedCache::<Bytes, CacheEntry>::default();
    for shard in cache.shards() {
        assert_eq!(shard.map.read().len(), 0);
        assert_eq!(shard.read_buffer.queue.capacity(), 128);
        assert!(shard.read_buffer.queue.is_empty());
    }
}

#[test]
fn a_shard_is_trimmed_to_its_capacity() {
    let cache = ShardedCache::<Bytes, CacheEntry, SampledLfu, DefaultHashBuilder>::new(
        1,
        10,
        SampledLfu::new,
        DefaultHashBuilder::default(),
    );
    for index in 0..25 {
        let key = Bytes::from(format!("{index}"));
        let entry = CacheEntry::new(key.clone(), Bytes::new(), None);
        cache.get_shard(&key).map.write().insert(key, entry);
    }
    let shard = &cache.shards()[0];
    shard.policy.evict(&mut shard.map.write());
    assert_eq!(shard.map.read().len(), 10);
}
