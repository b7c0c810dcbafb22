use std::collections::HashMap;

use quickwit::cache::counters::CacheMetricCounters;
use quickwit::cache::disk_sized_cache::{
    path_for, scan_metadata, scan_name, shard_dir, temp_file_name, DiskSizedCache, PutDecision,
    ReadOutcome, ScanAction, ScannedFile,
};

/// A disk, as far as a cache sees it: file names with modification times and contents.
struct Disk {
    files: HashMap<String, (i128, Vec<u8>)>,
    now: u64,
}

impl Disk {
    fn new() -> Disk {
        Disk { files: HashMap::new(), now: 0 }
    }

    /// Opens a cache over the files, without any interval between refreshes of their mtimes.
    fn open(&mut self, capacity_in_bytes: u64) -> DiskSizedCache {
        let mut scanned: Vec<ScannedFile> = Vec::new();
        for (name, (modified, contents)) in &self.files {
            scanned.push(ScannedFile {
                file_name: name.clone(),
                num_bytes: contents.len() as u64,
                modified: *modified,
            });
        }
        let (cache, victims) = DiskSizedCache::open_with_interval(
            scanned,
            capacity_in_bytes,
            0,
            CacheMetricCounters::new(),
        );
        for victim in victims {
            self.files.remove(&victim);
        }
        cache
    }

    fn put(&mut self, cache: &mut DiskSizedCache, key: &str, payload: &[u8]) -> PutDecision {
        self.now += 1;
        let decision = cache.begin_put(key, payload.len() as u64);
        if decision == PutDecision::Write {
            self.files.insert(key.to_string(), (self.now as i128, payload.to_vec()));
            for victim in cache.finish_put(key, payload.len() as u64, true, self.now) {
                self.files.remove(&victim);
            }
        }
        decision
    }

    fn get(&mut self, cache: &mut DiskSizedCache, key: &str) -> Option<Vec<u8>> {
        self.now += 1;
        let generation = cache.begin_get(key, self.now)?;
        let outcome = match self.files.get_mut(key) {
            Some((modified, contents)) => {
                *modified = self.now as i128;
                ReadOutcome::Read(contents.clone())
            }
            None => ReadOutcome::Failed,
        };
        cache.finish_get(key, generation, outcome)
    }

    fn touch(&mut self, cache: &mut DiskSizedCache, key: &str) {
        self.now += 1;
        if cache.touch(key, self.now) {
            self.files.get_mut(key).unwrap().0 = self.now as i128;
        }
    }
}

#[test]
fn test_put_get() {
    let mut disk = Disk::new();
    let mut cache = disk.open(1_000);
    assert!(disk.get(&mut cache, "missing").is_none());

    disk.put(&mut cache, "a", b"hello");
    assert_eq!(disk.get(&mut cache, "a").unwrap(), b"hello");
    assert!(disk.files.contains_key("a"));
    let counters = cache.counters();
    assert_eq!(counters.misses_num_items, 1);
    assert_eq!(counters.hits_num_items, 1);
    assert_eq!(counters.hits_num_bytes, 5);
    assert_eq!(counters.in_cache_count, 1);
    assert_eq!(cache.close().in_cache_num_bytes, 0);
}

#[test]
fn test_persists_across_reopen() {
    let mut disk = Disk::new();
    let mut cache = disk.open(1_000);
    disk.put(&mut cache, "a", b"hello");
    disk.put(&mut cache, "b", b"world");
    // Re-opening the cache should recover the previously stored entries.
    let mut cache = disk.open(1_000);
    assert_eq!(disk.get(&mut cache, "a").unwrap(), b"hello");
    assert_eq!(disk.get(&mut cache, "b").unwrap(), b"world");
}

#[test]
fn test_lru_eviction() {
    let mut disk = Disk::new();
    let mut cache = disk.open(6);
    disk.put(&mut cache, "a", b"aaa");
    disk.put(&mut cache, "b", b"bbb");
    // Access "a" so that "b" becomes the least recently used entry.
    assert_eq!(disk.get(&mut cache, "a").unwrap(), b"aaa");
    // Inserting a third entry must evict "b".
    disk.put(&mut cache, "c", b"ccc");

    assert_eq!(disk.get(&mut cache, "a").unwrap(), b"aaa");
    assert!(disk.get(&mut cache, "b").is_none());
    assert_eq!(disk.get(&mut cache, "c").unwrap(), b"ccc");
    // The evicted entry's file must be gone.
    assert!(!disk.files.contains_key("b"));
    assert_eq!(cache.counters().evict_num_items, 1);
}

#[test]
fn test_payload_larger_than_capacity_is_ignored() {
    let mut disk = Disk::new();
    let mut cache = disk.open(3);
    assert_eq!(disk.put(&mut cache, "big", b"toolarge"), PutDecision::TooLarge);
    assert!(disk.get(&mut cache, "big").is_none());
    assert!(!disk.files.contains_key("big"));
}

#[test]
fn test_put_same_key_twice_keeps_single_entry() {
    let mut disk = Disk::new();
    let mut cache = disk.open(6);
    disk.put(&mut cache, "a", b"aaa");
    // Immutable payload: putting the same key again is a no-op and must not evict others.
    assert_eq!(disk.put(&mut cache, "a", b"aaa"), PutDecision::AlreadyCached);
    disk.put(&mut cache, "b", b"bbb");
    assert_eq!(disk.get(&mut cache, "a").unwrap(), b"aaa");
    assert_eq!(disk.get(&mut cache, "b").unwrap(), b"bbb");
}

#[test]
fn test_get_after_manual_file_deletion() {
    let mut disk = Disk::new();
    let mut cache = disk.open(1_000);
    disk.put(&mut cache, "a", b"hello");
    disk.files.remove("a");
    // The stale entry should be detected and reported as a miss.
    assert!(disk.get(&mut cache, "a").is_none());
    // ... and dropped from the index, so it stops counting against the capacity.
    assert!(!cache.contains("a"));
    assert_eq!(cache.num_bytes(), 0);
}

#[test]
fn test_open_evicts_when_over_capacity() {
    let mut disk = Disk::new();
    let mut cache = disk.open(1_000);
    disk.put(&mut cache, "a", b"aaa");
    disk.put(&mut cache, "b", b"bbb");
    // Re-open with a capacity that can only hold one of the two entries.
    let mut cache = disk.open(3);
    let a = disk.get(&mut cache, "a");
    let b = disk.get(&mut cache, "b");
    // Exactly one entry should have survived.
    assert_ne!(a.is_some(), b.is_some());
}

#[test]
fn test_open_cleans_up_temp_files() {
    assert!(matches!(
        scan_name(Some(true), Some("a.tmp42".to_string())),
        ScanAction::RemoveTemp
    ));
    assert!(matches!(
        scan_name(None, Some(temp_file_name("a", 7))),
        ScanAction::RemoveTemp
    ));
    assert_eq!(temp_file_name("a", 7), "a.tmp7");
    assert_ne!(temp_file_name("a", 7), temp_file_name("a", 70));
}

#[test]
fn test_open_inspects_regular_files_only() {
    assert!(matches!(scan_name(Some(false), Some("a".to_string())), ScanAction::Skip));
    assert!(matches!(scan_name(Some(true), None), ScanAction::Skip));
    assert!(matches!(
        scan_name(None, Some("a".to_string())),
        ScanAction::Inspect(name) if name == "a"
    ));
    let file = scan_metadata("a".to_string(), Some((true, 3, Some(12)))).unwrap();
    assert_eq!((file.file_name.as_str(), file.num_bytes, file.modified), ("a", 3, 12));
    let file = scan_metadata("a".to_string(), Some((true, 3, None))).unwrap();
    assert_eq!(file.modified, 0);
    assert!(scan_metadata("a".to_string(), Some((false, 3, None))).is_none());
    assert!(scan_metadata("a".to_string(), None).is_none());
}

#[test]
fn test_read_refreshes_recency_across_reopen() {
    let mut disk = Disk::new();
    let mut cache = disk.open(6);
    // "a" is written first, "b" second: ordered purely by first-write time, "a" is older.
    disk.put(&mut cache, "a", b"aaa");
    disk.put(&mut cache, "b", b"bbb");
    // Reading "a" must refresh its on-disk recency, making it newer than "b".
    assert_eq!(disk.get(&mut cache, "a").unwrap(), b"aaa");
    // Reopen with room for a single entry: the recently *read* "a" must survive over the more
    // recently *written* but never-read "b".
    let mut cache = disk.open(3);
    assert_eq!(disk.get(&mut cache, "a").unwrap(), b"aaa");
    assert!(disk.get(&mut cache, "b").is_none());
}

#[test]
fn test_touch_refreshes_recency_across_reopen() {
    let mut disk = Disk::new();
    let mut cache = disk.open(6);
    disk.put(&mut cache, "a", b"aaa");
    disk.put(&mut cache, "b", b"bbb");
    // An access served by a higher tier must still make "a" the most-recently-used entry on disk.
    disk.touch(&mut cache, "a");
    // Reopen with room for a single entry: the touched "a" must survive over "b".
    let mut cache = disk.open(3);
    assert_eq!(disk.get(&mut cache, "a").unwrap(), b"aaa");
    assert!(disk.get(&mut cache, "b").is_none());
}

#[test]
fn test_touches_are_debounced() {
    let (mut cache, _) =
        DiskSizedCache::open_with_interval(Vec::new(), 100, 10, CacheMetricCounters::new());
    assert_eq!(cache.begin_put("a", 3), PutDecision::Write);
    assert!(cache.finish_put("a", 3, true, 0).is_empty());
    assert!(!cache.touch("a", 5));
    assert!(cache.touch("a", 10));
    assert!(!cache.touch("a", 15));
    assert!(!cache.touch("b", 100));
}

#[test]
fn test_failed_writes_store_nothing() {
    let (mut cache, victims) = DiskSizedCache::open(Vec::new(), 100, CacheMetricCounters::new());
    assert!(victims.is_empty());
    assert_eq!(cache.begin_put("a", 3), PutDecision::Write);
    assert!(cache.finish_put("a", 3, false, 0).is_empty());
    assert!(!cache.contains("a"));
    assert_eq!(cache.num_entries(), 0);
}

#[test]
fn test_interrupted_reads_keep_the_entry() {
    let mut disk = Disk::new();
    let mut cache = disk.open(100);
    disk.put(&mut cache, "a", b"aaa");
    let generation = cache.begin_get("a", 10).unwrap();
    assert!(cache.finish_get("a", generation, ReadOutcome::Interrupted).is_none());
    assert!(cache.contains("a"));
}

#[test]
fn test_stale_read_does_not_drop_a_new_entry() {
    let mut disk = Disk::new();
    let mut cache = disk.open(3);
    disk.put(&mut cache, "a", b"aaa");
    let stale = cache.begin_get("a", 10).unwrap();
    // "a" is evicted and inserted again while its file is being read.
    disk.put(&mut cache, "b", b"bbb");
    disk.put(&mut cache, "a", b"aaa");
    assert!(cache.finish_get("a", stale, ReadOutcome::Failed).is_none());
    assert!(cache.contains("a"));
}

#[test]
fn test_entries_are_sharded_and_survive_reopen() {
    let mut disk = Disk::new();
    let mut cache = disk.open(100_000);
    // Insert enough entries that at least two distinct shard directories get used.
    for i in 0..64 {
        let key = format!("key-{i}");
        assert_eq!(disk.put(&mut cache, &key, b"payload"), PutDecision::Write);
    }
    // Files are nested under shard sub-directories.
    let mut shards: Vec<String> = Vec::new();
    for file_name in disk.files.keys() {
        let (shard, name_in_shard) = path_for(file_name);
        assert_eq!(&name_in_shard, file_name);
        assert_eq!(shard.len(), 2);
        if !shards.contains(&shard) {
            shards.push(shard);
        }
    }
    assert!(shards.len() > 1, "entries should be spread over several shards");

    // Every entry is still retrievable, including after a reopen.
    let mut cache = disk.open(100_000);
    for i in 0..64 {
        let key = format!("key-{i}");
        assert_eq!(disk.get(&mut cache, &key).unwrap(), b"payload");
    }
}

#[test]
fn test_shard_is_the_fnv_1a_hash() {
    // The hash of no bytes is cbf29ce484222325, that of "a" is af63dc4c8601ec8c.
    assert_eq!(shard_dir(""), "25");
    assert_eq!(shard_dir("a"), "8c");
}
