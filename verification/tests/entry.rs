use aether_cache::clock::{clamp_millis, current_time_ms, time_after};
use aether_cache::entry::{next_access_count, CacheEntry};
use bytes::Bytes;
use std::time::{Duration, UNIX_EPOCH};

fn entry_at(ttl_ms: Option<u64>, now: Option<u64>) -> CacheEntry {
    CacheEntry::new_at(Bytes::from_static(b"key"), Bytes::from_static(b"value"), ttl_ms, now)
}

#[test]
fn an_entry_shares_its_value() {
    let value = Bytes::from(b"shared".to_vec());
    let entry = CacheEntry::new(Bytes::from_static(b"key"), value.clone(), None);
    assert_eq!(entry.value(), &value);
    assert_eq!(entry.value().as_ptr(), value.as_ptr());
}

#[test]
fn an_entry_lives_for_its_time_to_live() {
    let entry = entry_at(Some(10), Some(1_000));
    assert!(!entry.is_expired_at(Some(999)));
    assert!(!entry.is_expired_at(Some(1_009)));
    assert!(entry.is_expired_at(Some(1_010)));
    assert!(entry.is_expired_at(Some(u64::MAX)));
    assert!(!entry.is_expired_at(None));
}

#[test]
fn an_entry_without_a_time_to_live_never_expires() {
    assert!(!entry_at(None, Some(0)).is_expired_at(Some(u64::MAX)));
    assert!(!CacheEntry::new(Bytes::new(), Bytes::new(), None).is_expired());
}

#[test]
fn a_time_to_live_has_no_effect_without_a_clock() {
    assert!(!entry_at(Some(0), None).is_expired_at(Some(u64::MAX)));
}

#[test]
fn a_time_beyond_64_bits_is_the_largest_one() {
    let entry = entry_at(Some(u64::MAX), Some(5));
    assert!(!entry.is_expired_at(Some(u64::MAX - 1)));
    assert!(entry.is_expired_at(Some(u64::MAX)));
}

#[test]
fn the_clock_decides_about_the_present() {
    assert!(CacheEntry::new(Bytes::new(), Bytes::new(), Some(0)).is_expired());
    assert!(!CacheEntry::new(Bytes::new(), Bytes::new(), Some(3_600_000)).is_expired());
    let first = current_time_ms().unwrap();
    assert!(first > 1_600_000_000_000);
    assert!(first < 10_000_000_000_000);
    let entry = entry_at(Some(3_600_000), Some(first));
    assert!(!entry.is_expired());
}

#[test]
fn times_are_whole_milliseconds_since_the_epoch() {
    let later = UNIX_EPOCH + Duration::from_micros(1_234_999);
    assert_eq!(time_after(later.duration_since(UNIX_EPOCH)), Some(1_234));
    assert_eq!(time_after(Ok(Duration::ZERO)), Some(0));
    assert_eq!(time_after(Ok(Duration::MAX)), Some(u64::MAX));
    assert_eq!(time_after(UNIX_EPOCH.duration_since(later)), None);
}

#[test]
fn milliseconds_are_clamped_to_64_bits() {
    assert_eq!(clamp_millis(0), 0);
    assert_eq!(clamp_millis(u64::MAX as u128), u64::MAX);
    assert_eq!(clamp_millis(u64::MAX as u128 + 1), u64::MAX);
}

#[test]
fn accesses_are_counted() {
    let entry = entry_at(None, None);
    assert_eq!(entry.access_count(), 0);
    entry.record_access();
    entry.record_access();
    entry.record_access();
    assert_eq!(entry.access_count(), 3);
}

#[test]
fn the_largest_access_count_is_kept() {
    assert_eq!(next_access_count(0), Some(1));
    assert_eq!(next_access_count(u32::MAX - 1), Some(u32::MAX));
    assert_eq!(next_access_count(u32::MAX), None);
}
