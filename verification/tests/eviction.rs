use aether_cache::entry::CacheEntry;
use aether_cache::eviction::{
    evict_all, evict_least_used, is_waiting, least_used, record_promotion, retire_oldest, take_sample,
    EvictionPolicy, ReadBuffer, SampledLfu, StrictLru,
};
use aether_cache::map::ShardMap;
use bytes::Bytes;
use parking_lot::RwLock;
use std::collections::VecDeque;

fn entry(key: &'static [u8]) -> CacheEntry {
    let key = Bytes::from_static(key);
    CacheEntry::new(key, Bytes::from_static(b"value"), None)
}

fn insert(map: &mut ShardMap<Bytes, CacheEntry>, key: Bytes) {
    map.insert(key.clone(), CacheEntry::new(key, Bytes::new(), None));
}

fn handle(key: &'static str) -> Bytes {
    Bytes::from_static(key.as_bytes())
}

#[test]
fn accepts_a_key_when_capacity_is_available() {
    let buffer = ReadBuffer::new(1);
    let key = Bytes::from_static(b"key");

    assert_eq!(buffer.push_key(key.clone()), Ok(()));
    assert_eq!(buffer.queue.pop(), Some(key));
}

#[test]
fn returns_the_key_when_the_buffer_is_full() {
    let buffer = ReadBuffer::new(1);
    let queued = Bytes::from_static(b"queued");
    let rejected = Bytes::from_static(b"rejected");

    assert_eq!(buffer.push_key(queued), Ok(()));
    assert_eq!(buffer.push_key(rejected.clone()), Err(rejected));
}

#[test]
fn a_buffer_takes_as_many_keys_as_it_was_made_for() {
    let buffer = ReadBuffer::new(3);
    assert_eq!(buffer.queue.capacity(), 3);
    for key in ["a", "b", "c"] {
        assert_eq!(buffer.push_key(handle(key)), Ok(()));
    }
    assert_eq!(buffer.push_key(handle("d")), Err(handle("d")));
    assert_eq!(buffer.queue.pop(), Some(handle("a")));
    assert_eq!(buffer.push_key(handle("d")), Ok(()));
}

#[test]
fn evicts_the_least_frequently_used_entry_from_five_candidates() {
    let lock = RwLock::new(ShardMap::new());
    let cold_key = Bytes::from_static(b"cold");

    {
        let mut map = lock.write();
        map.insert(cold_key.clone(), entry(b"cold"));
        for key in [b"hot-1", b"hot-2", b"hot-3", b"hot-4"] {
            let key = Bytes::from_static(key);
            let hot_entry = CacheEntry::new(key.clone(), Bytes::from_static(b"value"), None);
            hot_entry.record_access();
            map.insert(key, hot_entry);
        }

        SampledLfu::new(4).evict(&mut map);
    }

    let map = lock.read();
    assert_eq!(map.len(), 4);
    assert!(!map.contains_key(&cold_key));
}

#[test]
fn evicts_until_the_target_capacity_is_reached() {
    let lock = RwLock::new(ShardMap::new());
    let mut map = lock.write();
    for index in 0..12 {
        let key = Bytes::from(index.to_string());
        map.insert(key.clone(), CacheEntry::new(key, Bytes::new(), None));
    }

    SampledLfu::new(3).evict(&mut map);

    assert_eq!(map.len(), 3);
}

#[test]
fn a_small_map_is_left_alone() {
    let mut map = ShardMap::new();
    insert(&mut map, handle("a"));
    insert(&mut map, handle("b"));
    SampledLfu::new(2).evict(&mut map);
    assert_eq!(map.len(), 2);
    let policy = StrictLru::new(2);
    policy.promote(handle("a"));
    policy.evict(&mut map);
    assert_eq!(map.len(), 2);
}

#[test]
fn a_target_of_zero_empties_the_map() {
    let mut map = ShardMap::new();
    for key in ["a", "b", "c", "d", "e", "f", "g"] {
        insert(&mut map, handle(key));
    }
    SampledLfu::new(0).evict(&mut map);
    assert_eq!(map.len(), 0);
}

#[test]
fn reads_and_promotions_do_not_concern_the_lfu_policy() {
    let policy = SampledLfu::new(1);
    policy.on_read(handle("a"));
    policy.promote(handle("a"));
    let mut map = ShardMap::new();
    let used = CacheEntry::new(handle("b"), Bytes::new(), None);
    used.record_access();
    map.insert(handle("b"), used);
    insert(&mut map, handle("a"));
    policy.evict(&mut map);
    assert!(map.contains_key(&handle("b")));
    assert!(!map.contains_key(&handle("a")));
}

#[test]
fn a_sample_shows_each_entry_at_most_once() {
    let mut map = ShardMap::new();
    assert!(take_sample(&map, 5).is_empty());
    for key in ["a", "b", "c"] {
        let entry = CacheEntry::new(handle(key), Bytes::new(), None);
        if key == "b" {
            entry.record_access();
        }
        map.insert(handle(key), entry);
    }
    let mut whole = take_sample(&map, 5);
    whole.sort();
    assert_eq!(whole, vec![(handle("a"), 0), (handle("b"), 1), (handle("c"), 0)]);
    assert_eq!(take_sample(&map, 2).len(), 2);
    assert_eq!(take_sample(&map, 0).len(), 0);
}

#[test]
fn the_first_of_the_least_used_is_chosen() {
    assert_eq!(least_used(&vec![]), None);
    assert_eq!(least_used(&vec![(handle("a"), 7)]), Some(0));
    assert_eq!(
        least_used(&vec![(handle("a"), 3), (handle("b"), 1), (handle("c"), 2), (handle("d"), 1)]),
        Some(1)
    );
    assert_eq!(least_used(&vec![(handle("a"), u32::MAX), (handle("b"), 0)]), Some(1));
}

#[test]
fn the_least_used_candidate_is_evicted() {
    let mut map = ShardMap::new();
    for key in ["a", "b", "c"] {
        insert(&mut map, handle(key));
    }
    assert!(evict_least_used(&mut map, &vec![(handle("a"), 2), (handle("c"), 1)]));
    assert!(!map.contains_key(&handle("c")));
    assert_eq!(map.len(), 2);
    assert!(!evict_least_used(&mut map, &vec![]));
    assert_eq!(map.len(), 2);
}

#[test]
fn evicts_promoted_keys_in_chronological_order() {
    let lock = RwLock::new(ShardMap::new());
    let policy = StrictLru::new(1);
    let oldest = Bytes::from_static(b"oldest");
    let middle = Bytes::from_static(b"middle");
    let newest = Bytes::from_static(b"newest");

    policy.promote(oldest.clone());
    policy.promote(middle.clone());
    policy.promote(newest.clone());

    let mut map = lock.write();
    insert(&mut map, oldest.clone());
    insert(&mut map, middle.clone());
    insert(&mut map, newest.clone());
    policy.evict(&mut map);

    assert_eq!(map.len(), 1);
    assert!(!map.contains_key(&oldest));
    assert!(!map.contains_key(&middle));
    assert!(map.contains_key(&newest));
}

#[test]
fn skips_stale_access_order_entries() {
    let lock = RwLock::new(ShardMap::new());
    let policy = StrictLru::new(1);
    let stale = Bytes::from_static(b"stale");
    let victim = Bytes::from_static(b"victim");
    let survivor = Bytes::from_static(b"survivor");

    policy.promote(stale);
    policy.promote(victim.clone());

    let mut map = lock.write();
    insert(&mut map, victim.clone());
    insert(&mut map, survivor.clone());
    policy.evict(&mut map);

    assert_eq!(map.len(), 1);
    assert!(!map.contains_key(&victim));
    assert!(map.contains_key(&survivor));
}

#[test]
fn promotions_that_were_evicted_are_used_up() {
    let policy = StrictLru::new(1);
    for key in ["a", "b", "c"] {
        EvictionPolicy::promote(&policy, handle(key));
        policy.on_read(handle(key));
    }
    let mut map = ShardMap::new();
    insert(&mut map, handle("a"));
    insert(&mut map, handle("b"));
    policy.evict(&mut map);
    assert!(map.contains_key(&handle("b")));
    insert(&mut map, handle("a"));
    policy.evict(&mut map);
    assert_eq!(map.len(), 1);
    assert!(map.contains_key(&handle("a")));
}

#[test]
fn a_key_that_was_promoted_again_is_the_most_recently_used() {
    let policy = StrictLru::new(1);
    for key in ["a", "b", "a"] {
        policy.promote(handle(key));
    }
    let mut map = ShardMap::new();
    insert(&mut map, handle("a"));
    insert(&mut map, handle("b"));
    policy.evict(&mut map);
    assert_eq!(map.len(), 1);
    assert!(map.contains_key(&handle("a")));
    assert!(!map.contains_key(&handle("b")));
}

#[test]
fn only_the_last_promotion_of_a_key_counts() {
    let mut order = VecDeque::new();
    for key in ["a", "b", "a", "c", "b"] {
        record_promotion(&mut order, handle(key));
    }
    let mut map = ShardMap::new();
    for key in ["a", "b", "c"] {
        insert(&mut map, handle(key));
    }
    assert_eq!(retire_oldest(&mut order, (&map, 1)), vec![handle("a"), handle("c")]);
    assert_eq!(order, VecDeque::from(vec![handle("b")]));
    assert_eq!(map.len(), 3);
}

#[test]
fn keys_wait_until_their_promotions_are_used_up() {
    let order = VecDeque::from(vec![handle("a"), handle("bc")]);
    assert!(is_waiting(&order, &handle("a")));
    assert!(is_waiting(&order, &handle("bc")));
    assert!(!is_waiting(&order, &handle("b")));
    assert!(!is_waiting(&order, &handle("bd")));
    assert!(!is_waiting(&VecDeque::new(), &handle("a")));
}

#[test]
fn trimming_stops_at_the_target_or_when_no_promotion_is_left() {
    let mut order = VecDeque::new();
    let mut map = ShardMap::new();
    for key in ["gone", "a", "b", "c"] {
        record_promotion(&mut order, handle(key));
    }
    for key in ["a", "b", "c", "never promoted"] {
        insert(&mut map, handle(key));
    }
    let victims = retire_oldest(&mut order, (&map, 2));
    assert_eq!(victims, vec![handle("a"), handle("b")]);
    evict_all(&mut map, &victims);
    assert_eq!(map.len(), 2);
    assert!(map.contains_key(&handle("c")));
    assert_eq!(order, VecDeque::from(vec![handle("c")]));
    let victims = retire_oldest(&mut order, (&map, 0));
    evict_all(&mut map, &victims);
    assert_eq!(map.len(), 1);
    assert!(map.contains_key(&handle("never promoted")));
    assert!(order.is_empty());
    assert!(retire_oldest(&mut order, (&map, 0)).is_empty());
}

#[test]
fn the_most_used_entries_stay() {
    let mut map = ShardMap::new();
    for index in 0..40 {
        let key = Bytes::from(format!("{index}"));
        let entry = CacheEntry::new(key.clone(), Bytes::new(), None);
        for _ in 0..index {
            entry.record_access();
        }
        map.insert(key, entry);
    }
    SampledLfu::new(6).evict(&mut map);
    assert_eq!(map.len(), 6);
    for index in 36..40 {
        assert!(map.contains_key(&Bytes::from(format!("{index}"))));
    }
}
