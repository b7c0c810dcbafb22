use std::collections::HashMap;

use quickwit::cache::base_cache::{AnyCache, CachePolicy};
use quickwit::cache::counters::CacheMetricCounters;
use quickwit::cache::disk_sized_cache::{DiskSizedCache, PutDecision, ReadOutcome, ScannedFile};
use quickwit::cache::tiered_sized_cache::{LookupStep, TieredSizedCache};
use quickwit::stable_deref_bytes::OwnedBytes;

type Files = HashMap<String, (i128, Vec<u8>)>;

fn memory_cache() -> AnyCache {
    AnyCache::from_policy_and_capacity(CachePolicy::Lru, 1_000, CacheMetricCounters::new())
}

fn open_disk(files: &mut Files, capacity_in_bytes: u64) -> DiskSizedCache {
    let scanned: Vec<ScannedFile> = files
        .iter()
        .map(|(name, (modified, contents))| ScannedFile {
            file_name: name.clone(),
            num_bytes: contents.len() as u64,
            modified: *modified,
        })
        .collect();
    // Zero debounce so accesses deterministically refresh the on-disk recency in tests.
    let (disk, victims) = DiskSizedCache::open_with_interval(
        scanned,
        capacity_in_bytes,
        0,
        CacheMetricCounters::new(),
    );
    for victim in victims {
        files.remove(&victim);
    }
    disk
}

fn put(cache: &mut TieredSizedCache, files: &mut Files, key: &str, payload: &[u8], now: u64) {
    let bytes = OwnedBytes::new(payload.to_vec());
    if cache.put(key, &bytes) == Some(PutDecision::Write) {
        files.insert(key.to_string(), (now as i128, payload.to_vec()));
        for victim in cache.finish_put(key, payload.len() as u64, true, now) {
            files.remove(&victim);
        }
    }
}

fn get(cache: &mut TieredSizedCache, files: &mut Files, key: &str, now: u64) -> Option<Vec<u8>> {
    match cache.get(key, now) {
        LookupStep::Found(bytes, refresh_mtime) => {
            if refresh_mtime {
                if let Some(file) = files.get_mut(key) {
                    file.0 = now as i128;
                }
            }
            Some(bytes.as_slice().to_vec())
        }
        LookupStep::ReadFile(generation) => {
            let outcome = match files.get(key) {
                Some((_, contents)) => ReadOutcome::Read(contents.clone()),
                None => ReadOutcome::Failed,
            };
            let bytes = cache.finish_get(key, generation, outcome)?;
            Some(bytes.as_slice().to_vec())
        }
        LookupStep::Missing => None,
    }
}

#[test]
fn test_memory_only() {
    let mut files = Files::new();
    let mut cache = TieredSizedCache::new(memory_cache(), None);
    assert!(get(&mut cache, &mut files, "a", 0).is_none());
    put(&mut cache, &mut files, "a", b"hello", 1);
    assert_eq!(get(&mut cache, &mut files, "a", 2).unwrap(), b"hello");
    assert!(files.is_empty());
}

#[test]
fn test_put_writes_to_both_tiers() {
    let mut files = Files::new();
    let disk = open_disk(&mut files, 1_000);
    let mut cache = TieredSizedCache::new(memory_cache(), Some(disk));
    put(&mut cache, &mut files, "a", b"hello", 1);
    assert_eq!(get(&mut cache, &mut files, "a", 2).unwrap(), b"hello");
    // The payload must have been persisted on disk as well.
    assert_eq!(files["a"].1, b"hello");
}

#[test]
fn test_disk_hit_is_promoted_to_memory() {
    let mut files = Files::new();
    let disk = open_disk(&mut files, 1_000);
    let mut cache = TieredSizedCache::new(memory_cache(), Some(disk));
    put(&mut cache, &mut files, "a", b"hello", 1);
    // Simulate a fresh process: only the disk tier still holds the data.
    let disk = open_disk(&mut files, 1_000);
    let mut cache = TieredSizedCache::new(memory_cache(), Some(disk));
    assert_eq!(get(&mut cache, &mut files, "a", 2).unwrap(), b"hello");
    // After a disk hit, deleting the file must not lose the value: it lives in memory now.
    files.remove("a");
    assert_eq!(get(&mut cache, &mut files, "a", 3).unwrap(), b"hello");
}

#[test]
fn test_memory_hit_refreshes_disk_recency_across_reopen() {
    let mut files = Files::new();
    let disk = open_disk(&mut files, 6);
    let mut cache = TieredSizedCache::new(memory_cache(), Some(disk));
    // Both entries land in memory (L1) and on disk (L2). By first-write time "a" is older.
    put(&mut cache, &mut files, "a", b"aaa", 1);
    put(&mut cache, &mut files, "b", b"bbb", 2);
    // "a" is served purely from the in-memory tier (it never re-reads disk), yet this must
    // still refresh its disk recency so it outranks the more recently written "b".
    assert_eq!(get(&mut cache, &mut files, "a", 3).unwrap(), b"aaa");
    // Reopen the disk tier alone (simulating a restart) with room for a single entry.
    let disk = open_disk(&mut files, 3);
    assert!(disk.contains("a"));
    assert!(!disk.contains("b"));
}

#[test]
fn test_vanished_file_is_a_miss() {
    let mut files = Files::new();
    let disk = open_disk(&mut files, 1_000);
    let mut cache = TieredSizedCache::new(memory_cache(), Some(disk));
    put(&mut cache, &mut files, "a", b"hello", 1);
    let disk = open_disk(&mut files, 1_000);
    let mut cache = TieredSizedCache::new(memory_cache(), Some(disk));
    files.clear();
    assert!(get(&mut cache, &mut files, "a", 2).is_none());
    assert!(matches!(cache.get("a", 3), LookupStep::Missing));
}

#[test]
fn test_both_tiers_take_their_gauges_back_when_closed() {
    let mut files = Files::new();
    let disk = open_disk(&mut files, 1_000);
    let mut cache = TieredSizedCache::new(memory_cache(), Some(disk));
    put(&mut cache, &mut files, "a", b"hello", 1);
    let (memory_counters, disk_counters) = cache.counters();
    assert_eq!(memory_counters.in_cache_num_bytes, 5);
    assert_eq!(disk_counters.unwrap().in_cache_num_bytes, 5);
    let (memory_counters, disk_counters) = cache.close();
    assert_eq!(memory_counters, CacheMetricCounters::new());
    assert_eq!(disk_counters, Some(CacheMetricCounters::new()));
    let (_, no_disk_counters) = TieredSizedCache::new(memory_cache(), None).close();
    assert_eq!(no_disk_counters, None);
}
