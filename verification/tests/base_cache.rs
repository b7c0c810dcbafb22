use bytesize::ByteSize;
use quickwit::cache::base_cache::{
    AnyCache, CachePolicy, CacheValue, Capacity, FakeCacheEntry, Lru,
};
use quickwit::cache::counters::CacheMetricCounters;
use quickwit::cache::tiny_lfu::TinyLfu;
use quickwit::stable_deref_bytes::OwnedBytes;

fn payload(bytes: &[u8]) -> CacheValue {
    CacheValue::Payload(OwnedBytes::new(bytes.to_vec()))
}

fn bytes_of(value: Option<CacheValue>) -> Option<Vec<u8>> {
    match value {
        Some(CacheValue::Payload(bytes)) => Some(bytes.as_slice().to_vec()),
        _ => None,
    }
}

fn policies() -> [CachePolicy; 3] {
    [CachePolicy::Lru, CachePolicy::S3Fifo, CachePolicy::TinyLfu]
}

#[test]
fn test_any_cache_policies_roundtrip() {
    for policy in policies() {
        let mut cache = AnyCache::from_policy_and_capacity(
            policy,
            ByteSize::kb(10).as_u64(),
            CacheMetricCounters::new(),
        );
        assert!(cache.get("missing").is_none());
        cache.put("key".to_string(), payload(b"hello"));
        assert_eq!(bytes_of(cache.get("key")).unwrap(), b"hello");
        let counters = cache.counters();
        assert_eq!(counters.misses_num_items, 1);
        assert_eq!(counters.hits_num_items, 1);
        assert_eq!(counters.hits_num_bytes, 5);
    }
}

#[test]
fn test_any_cache_oversized_value_is_not_stored() {
    for policy in policies() {
        let mut cache = AnyCache::from_policy_and_capacity(
            policy,
            ByteSize::b(3).as_u64(),
            CacheMetricCounters::new(),
        );
        cache.put("key".to_string(), payload(b"too big"));
        assert!(cache.get("key").is_none());
    }
}

#[test]
fn test_tiny_lfu_rejects_entries_larger_than_u32_max() {
    // moka's weigher can only represent a weight up to u32::MAX: an entry beyond that would
    // be silently underweighted, letting the cache exceed its real configured capacity.
    let mut cache = AnyCache::from_policy_and_capacity(
        CachePolicy::TinyLfu,
        ByteSize::gb(10).as_u64(),
        CacheMetricCounters::new(),
    );
    cache.put(
        "key".to_string(),
        CacheValue::Fake(FakeCacheEntry(u32::MAX as usize + 1)),
    );
    assert!(cache.get("key").is_none());
}

#[test]
fn test_any_cache_enforces_capacity() {
    const CAPACITY: u64 = 10;
    for policy in policies() {
        let mut cache = AnyCache::from_policy_and_capacity(
            policy,
            ByteSize::b(CAPACITY).as_u64(),
            CacheMetricCounters::new(),
        );
        // 5 entries of 4 bytes each: admitting them all would need 20 bytes, twice the
        // capacity, so eviction (or refusal to admit) must kick in.
        for i in 0..5 {
            cache.put(i.to_string(), payload(b"abcd"));
        }
        if let AnyCache::TinyLfu(tiny_lfu) = &mut cache {
            // moka uses a write-behind strategy to maintain high performance.
            tiny_lfu.settle();
        }
        let in_cache_num_bytes = cache.counters().in_cache_num_bytes;
        assert!(
            in_cache_num_bytes as u64 <= CAPACITY,
            "{in_cache_num_bytes} bytes stored, capacity is {CAPACITY}"
        );
        let num_present = (0..5)
            .filter(|i: &i32| cache.get(&i.to_string()).is_some())
            .count();
        assert!(
            num_present < 5,
            "expected some entries to be rejected or evicted"
        );
    }
}

#[test]
fn test_tiny_lfu_counts_what_leaves_at_once() {
    let mut cache = TinyLfu::with_capacity(100, CacheMetricCounters::new());
    cache.put("a".to_string(), payload(b"abcd"));
    cache.put("a".to_string(), payload(b"ab"));
    cache.put("b".to_string(), payload(b"xyz"));
    let counters = cache.counters();
    assert_eq!(counters.in_cache_count, 2);
    assert_eq!(counters.in_cache_num_bytes, 5);
    // The value that was replaced.
    assert_eq!(counters.evict_num_items, 1);
    assert_eq!(counters.evict_num_bytes, 4);
    // There is nothing left to settle.
    cache.settle();
    assert_eq!(cache.counters(), counters);
}

#[test]
fn test_tiny_lfu_stays_within_its_capacity() {
    let mut cache = TinyLfu::with_capacity(10, CacheMetricCounters::new());
    for i in 0..100 {
        assert!(cache.accounts_for(4));
        cache.put((i % 30).to_string(), payload(&b"abcdefgh"[..4 + i % 5]));
        let counters = cache.counters();
        assert!(counters.in_cache_num_bytes <= 10);
        let held: usize = (0..30)
            .filter_map(|key: i32| bytes_of(cache.get(&key.to_string())))
            .map(|bytes| bytes.len())
            .sum();
        assert_eq!(counters.in_cache_num_bytes, held as i64);
    }
    assert!(cache.counters().evict_num_items > 0);
}

#[test]
fn test_s3_fifo_makes_room_for_new_keys() {
    let mut cache =
        AnyCache::from_policy_and_capacity(CachePolicy::S3Fifo, 100, CacheMetricCounters::new());
    for i in 0..50 {
        let key = i.to_string();
        // Up to 96% of the capacity.
        let bytes = vec![7; 46 + i];
        cache.put(key.clone(), payload(&bytes));
        assert_eq!(bytes_of(cache.get(&key)), Some(bytes));
        assert!(cache.counters().in_cache_num_bytes <= 100);
    }
    // More than 98% of the capacity is not admitted, and takes the value of its key away.
    cache.put("49".to_string(), payload(&[7; 99]));
    assert!(cache.get("49").is_none());
}

#[test]
fn test_unbounded_cache_evicts_nothing() {
    let mut cache = AnyCache::unbounded(CacheMetricCounters::new());
    for i in 0..100 {
        assert!(cache.accounts_for(4));
        cache.put(i.to_string(), payload(b"abcd"));
    }
    for i in 0..100 {
        assert!(cache.get(&i.to_string()).is_some());
    }
    assert_eq!(cache.counters().in_cache_count, 100);
    assert_eq!(cache.counters().in_cache_num_bytes, 400);
}

#[test]
fn test_lru_spares_items_accessed_recently() {
    const MINUTE: u64 = 60_000_000_000;
    let mut cache = Lru::with_capacity(Capacity::InBytes(6), CacheMetricCounters::new());
    cache.put_at("a".to_string(), payload(b"aaa"), 0);
    cache.put_at("b".to_string(), payload(b"bbb"), 0);
    // "a" was accessed less than a minute before: nothing makes room for "c".
    cache.put_at("c".to_string(), payload(b"ccc"), MINUTE / 2);
    assert!(cache.get_at("c", MINUTE / 2).is_none());
    assert_eq!(cache.num_bytes(), 6);
    // "a" is accessed again, so that "b" is the item to go.
    assert!(cache.get_at("a", MINUTE / 2).is_some());
    cache.put_at("c".to_string(), payload(b"ccc"), 10 * MINUTE);
    assert!(cache.get_at("b", 10 * MINUTE).is_none());
    assert!(cache.get_at("a", 10 * MINUTE).is_some());
    assert!(cache.get_at("c", 10 * MINUTE).is_some());
    let counters = cache.counters();
    assert_eq!(counters.evict_num_items, 1);
    assert_eq!(counters.evict_num_bytes, 3);
    let counters = cache.close();
    assert_eq!(counters.in_cache_count, 0);
    assert_eq!(counters.in_cache_num_bytes, 0);
}

#[test]
fn test_lru_replaces_the_value_of_a_key() {
    let mut cache = Lru::with_capacity(Capacity::InBytes(6), CacheMetricCounters::new());
    cache.put_at("a".to_string(), payload(b"aaa"), 0);
    cache.put_at("a".to_string(), payload(b"bbbb"), 0);
    assert_eq!(bytes_of(cache.get_at("a", 0)).unwrap(), b"bbbb");
    assert_eq!(cache.num_bytes(), 4);
}

#[test]
fn test_capacity() {
    assert!(Capacity::InBytes(6).exceeds_capacity(7));
    assert!(!Capacity::InBytes(6).exceeds_capacity(6));
    assert!(!Capacity::Unlimited.exceeds_capacity(usize::MAX));
}

#[test]
fn test_any_cache_takes_gauges_back_when_closed() {
    for policy in policies() {
        let mut cache =
            AnyCache::from_policy_and_capacity(policy, 100, CacheMetricCounters::new());
        cache.put("a".to_string(), payload(b"abcd"));
        cache.put("b".to_string(), payload(b"xyz"));
        cache.settle();
        assert_eq!(cache.counters().in_cache_count, 2);
        assert_eq!(cache.counters().in_cache_num_bytes, 7);
        let counters = cache.close();
        assert_eq!(counters.in_cache_count, 0);
        assert_eq!(counters.in_cache_num_bytes, 0);
        // What goes with the cache is not evicted.
        assert_eq!(counters.evict_num_items, 0);
        assert_eq!(counters.evict_num_bytes, 0);
    }
}

#[test]
fn test_s3_fifo_numbers_its_entries() {
    // Room is left for keys that have left the cache: half of the number of 128 KiB items that fit.
    let large = AnyCache::from_policy_and_capacity(
        CachePolicy::S3Fifo,
        (1 << 34) * 131_072 - 1,
        CacheMetricCounters::new(),
    );
    assert!(!large.accounts_for(0));
    let cache =
        AnyCache::from_policy_and_capacity(CachePolicy::S3Fifo, 1_000, CacheMetricCounters::new());
    assert!(cache.accounts_for(0));
}
