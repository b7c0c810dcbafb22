//! The index of a size-bounded cache that persists its entries on disk.
//!
//! Each entry is stored as a single file named after its key, inside a shard sub-directory. The
//! index decides what to read, write and delete; the files themselves are the caller's. Times are
//! ticks of a monotonic clock.
use super::counters::CacheMetricCounters;
use super::lru_map;
use super::lru_map::LruMap;
use crate::sort::{merge_sort, Ranked, Sortable};
use crate::text;
use std::hash::Hasher;
use vstd::prelude::*;

verus! {

/// Substring used to mark files that are being written.
pub const TEMP_MARKER: &'static str = ".tmp";

/// Default minimum delay between two on-disk mtime refreshes for the same entry, in nanoseconds:
/// five minutes.
pub const DEFAULT_MTIME_REFRESH_INTERVAL: u64 = 300_000_000_000;

/// Number of shard sub-directories files are spread across.
pub const NUM_SHARDS: u64 = 256;

/// Book-keeping for each on-disk entry.
#[derive(Clone, Copy, Debug, PartialEq, Eq, Structural)]
pub struct CacheEntry {
    /// Size of the file.
    pub num_bytes: u64,
    /// Time of the last in-process on-disk mtime refresh for this entry, if any. Used only to
    /// debounce metadata writes.
    pub last_mtime_refresh: Option<u64>,
    /// Identifies this particular entry. A key that is evicted and inserted again gets a fresh
    /// generation.
    pub generation: u64,
}

/// Total size of some entries.
pub open spec fn total_bytes(entries: Seq<(Seq<char>, CacheEntry)>) -> nat
    decreases entries.len(),
{
    if entries.len() == 0 {
        0
    } else {
        total_bytes(entries.drop_last()) + entries.last().1.num_bytes as nat
    }
}

/// How many entries, from the least recently used one on, have to go until `incoming` extra bytes
/// fit under `capacity`: as few as possible, and at most all.
pub open spec fn num_victims(
    entries: Seq<(Seq<char>, CacheEntry)>,
    incoming: nat,
    capacity: nat,
) -> nat
    decreases entries.len(),
{
    if entries.len() == 0 || total_bytes(entries) + incoming <= capacity {
        0
    } else {
        1 + num_victims(entries.skip(1), incoming, capacity)
    }
}

/// Whether the mtime of an entry is due for a refresh at time `now`: never refreshed, refreshed
/// at least `interval` ago, or forced.
pub open spec fn refresh_due(entry: CacheEntry, interval: u64, force: bool, now: u64) -> bool {
    ||| force
    ||| entry.last_mtime_refresh is None
    ||| now - entry.last_mtime_refresh->0 >= interval
    ||| interval == 0
}

/// Mathematical content of a [`DiskCacheIndex`].
#[verifier::ext_equal]
pub struct DiskIndexModel {
    /// Entries by file name, the least recently used first.
    pub entries: Seq<(Seq<char>, CacheEntry)>,
    pub capacity_in_bytes: u64,
    pub mtime_refresh_interval: u64,
    pub generation_counter: u64,
    pub cache_counters: CacheMetricCounters,
}

impl DiskIndexModel {
    /// The model with a new, most recently used entry.
    pub open spec fn with_entry(
        self,
        file_name: Seq<char>,
        num_bytes: u64,
        last_mtime_refresh: Option<u64>,
    ) -> DiskIndexModel {
        let generation = self.generation_counter.wrapping_add(1);
        DiskIndexModel {
            entries: self.entries.push(
                (file_name, CacheEntry { num_bytes, last_mtime_refresh, generation }),
            ),
            generation_counter: generation,
            cache_counters: self.cache_counters.stored(num_bytes),
            ..self
        }
    }

    /// The model without the entry of `file_name`, whose file is gone. This is no eviction.
    pub open spec fn without_entry(self, file_name: Seq<char>) -> DiskIndexModel {
        if lru_map::has_key(self.entries, file_name) {
            DiskIndexModel {
                entries: lru_map::without(self.entries, file_name),
                cache_counters: self.cache_counters.removed(
                    1,
                    lru_map::value_of(self.entries, file_name).num_bytes,
                ),
                ..self
            }
        } else {
            self
        }
    }

    /// The model after an access to `file_name` at time `now`: the entry becomes the most recently
    /// used one, and remembers the refresh of its mtime if that is due.
    pub open spec fn accessed(self, file_name: Seq<char>, force: bool, now: u64) -> DiskIndexModel {
        if lru_map::has_key(self.entries, file_name) {
            let entry = lru_map::value_of(self.entries, file_name);
            let refreshed = if refresh_due(entry, self.mtime_refresh_interval, force, now) {
                CacheEntry { last_mtime_refresh: Some(now), ..entry }
            } else {
                entry
            };
            DiskIndexModel {
                entries: lru_map::without(self.entries, file_name).push((file_name, refreshed)),
                ..self
            }
        } else {
            self
        }
    }

    /// The model after the eviction of the `n` least recently used entries.
    pub open spec fn evicted(self, n: nat) -> DiskIndexModel
        decreases n,
    {
        if n == 0 {
            self
        } else {
            DiskIndexModel {
                entries: self.entries.skip(1),
                cache_counters: self.cache_counters.evicted(1, self.entries[0].1.num_bytes),
                ..self
            }.evicted((n - 1) as nat)
        }
    }

    /// How many entries have to go until `incoming` extra bytes fit.
    pub open spec fn num_victims(self, incoming: nat) -> nat {
        num_victims(self.entries, incoming, self.capacity_in_bytes as nat)
    }

    /// The model once enough entries have gone for `incoming` extra bytes to fit.
    pub open spec fn evicted_to_fit(self, incoming: nat) -> DiskIndexModel {
        self.evicted(self.num_victims(incoming))
    }

    /// The model with another set of counters.
    pub open spec fn counting(self, cache_counters: CacheMetricCounters) -> DiskIndexModel {
        DiskIndexModel { cache_counters, ..self }
    }
}

/// Whether `names` are the file names of the first `n` entries.
pub open spec fn are_first_names(
    names: Seq<String>,
    entries: Seq<(Seq<char>, CacheEntry)>,
    n: nat,
) -> bool {
    &&& names.len() == n
    &&& n <= entries.len()
    &&& forall|i: int| 0 <= i < n ==> (#[trigger] names[i])@ == entries[i].0
}

/// The in-memory index of the entries on disk.
pub struct DiskCacheIndex {
    /// Maps the on-disk file name to its book-keeping. The LRU order tracks the recency of
    /// accesses for eviction.
    lru_cache: LruMap<CacheEntry>,
    num_bytes: u64,
    capacity_in_bytes: u64,
    /// Minimum delay between two on-disk mtime refreshes for the same entry.
    mtime_refresh_interval: u64,
    /// Hands out [`CacheEntry::generation`] values.
    generation_counter: u64,
    cache_counters: CacheMetricCounters,
}

impl View for DiskCacheIndex {
    type V = DiskIndexModel;

    closed spec fn view(&self) -> DiskIndexModel {
        DiskIndexModel {
            entries: self.lru_cache@,
            capacity_in_bytes: self.capacity_in_bytes,
            mtime_refresh_interval: self.mtime_refresh_interval,
            generation_counter: self.generation_counter,
            cache_counters: self.cache_counters,
        }
    }
}

impl DiskCacheIndex {
    /// The tracked number of bytes is the total size of the entries.
    pub closed spec fn wf(&self) -> bool {
        &&& self.lru_cache.wf()
        &&& self.num_bytes == total_bytes(self.lru_cache@)
    }

    /// An index without entries.
    fn new(
        capacity_in_bytes: u64,
        mtime_refresh_interval: u64,
        cache_counters: CacheMetricCounters,
    ) -> (index: DiskCacheIndex)
        ensures
            index.wf(),
            index@ == (DiskIndexModel {
                entries: Seq::empty(),
                capacity_in_bytes,
                mtime_refresh_interval,
                generation_counter: 0,
                cache_counters,
            }),
    {
        DiskCacheIndex {
            lru_cache: LruMap::new(),
            num_bytes: 0,
            capacity_in_bytes,
            mtime_refresh_interval,
            generation_counter: 0,
            cache_counters,
        }
    }

    /// Inserts a new entry for `file_name`, which is not tracked yet, and accounts for its bytes.
    fn insert_entry(&mut self, file_name: String, num_bytes: u64, last_mtime_refresh: Option<u64>)
        requires
            old(self).wf(),
            !lru_map::has_key(old(self)@.entries, file_name@),
            total_bytes(old(self)@.entries) + num_bytes <= u64::MAX,
        ensures
            final(self).wf(),
            final(self)@ == old(self)@.with_entry(file_name@, num_bytes, last_mtime_refresh),
    {
        let ghost before = self.lru_cache@;
        self.generation_counter = self.generation_counter.wrapping_add(1);
        self.num_bytes = self.num_bytes + num_bytes;
        self.cache_counters.record_stored(num_bytes);
        let entry = CacheEntry { num_bytes, last_mtime_refresh, generation: self.generation_counter };
        self.lru_cache.insert(file_name, entry);
        proof {
            assert(self.lru_cache@.drop_last() =~= before);
        }
    }

    /// Forgets the entry of `file_name`, if there is one. This is no eviction.
    fn remove_entry(&mut self, file_name: &str)
        requires
            old(self).wf(),
        ensures
            final(self).wf(),
            final(self)@ == old(self)@.without_entry(file_name@),
    {
        let ghost before = self.lru_cache@;
        proof {
            lru_map::lemma_distinct_keys(self.lru_cache);
            if lru_map::has_key(before, file_name@) {
                let i = lru_map::key_index(before, file_name@);
                assert(lru_map::key_at(before, i, file_name@));
                lemma_total_remove(before, i);
            }
        }
        if let Some(entry) = self.lru_cache.pop(file_name) {
            self.num_bytes = self.num_bytes - entry.num_bytes;
            self.cache_counters.record_removed(1, entry.num_bytes);
        }
    }

    /// Drops the entry for `file_name`, whose file turned out to be missing, but only if it is
    /// still the exact entry that was read, i.e. `generation` still matches.
    pub fn drop_vanished_entry(&mut self, file_name: &str, generation: u64)
        requires
            old(self).wf(),
        ensures
            final(self).wf(),
            final(self)@ == if lru_map::has_key(old(self)@.entries, file_name@) && lru_map::value_of(
                old(self)@.entries,
                file_name@,
            ).generation == generation {
                old(self)@.without_entry(file_name@)
            } else {
                old(self)@
            },
    {
        let current = match self.lru_cache.peek(file_name) {
            Some(entry) => entry.generation == generation,
            None => false,
        };
        if current {
            self.remove_entry(file_name);
        }
    }

    /// Records an access to `file_name`: refreshes the in-memory LRU recency and reports the
    /// entry's generation together with whether the on-disk mtime is due for a refresh, updating
    /// the debounce timestamp if so.
    ///
    /// When `force_refresh` is set the mtime is always considered due. Returns `None` if the entry
    /// is not tracked.
    pub fn record_access(&mut self, file_name: &str, force_refresh: bool, now: u64) -> (access: Option<
        (u64, bool),
    >)
        requires
            old(self).wf(),
        ensures
            final(self).wf(),
            final(self)@ == old(self)@.accessed(file_name@, force_refresh, now),
            access == if lru_map::has_key(old(self)@.entries, file_name@) {
                let entry = lru_map::value_of(old(self)@.entries, file_name@);
                Some(
                    (
                        entry.generation,
                        refresh_due(entry, old(self)@.mtime_refresh_interval, force_refresh, now),
                    ),
                )
            } else {
                None
            },
    {
        let ghost before = self.lru_cache@;
        let interval: u64 = self.mtime_refresh_interval;
        proof {
            lru_map::lemma_distinct_keys(self.lru_cache);
            if lru_map::has_key(before, file_name@) {
                let i = lru_map::key_index(before, file_name@);
                assert(lru_map::key_at(before, i, file_name@));
                lemma_total_remove(before, i);
            }
        }
        let access = match self.lru_cache.get_mut(file_name) {
            None => None,
            Some(entry) => {
                let due = force_refresh || match entry.last_mtime_refresh {
                    Some(last) => now.saturating_sub(last) >= interval,
                    None => true,
                };
                if due {
                    entry.last_mtime_refresh = Some(now);
                }
                Some((entry.generation, due))
            },
        };
        proof {
            if lru_map::has_key(before, file_name@) {
                let after = self.lru_cache@;
                assert(after.drop_last() =~= lru_map::without(before, file_name@));
                assert(after.last().1.num_bytes == lru_map::value_of(before, file_name@).num_bytes);
            }
        }
        access
    }

    /// Evicts the least recently used entries until `incoming` extra bytes would fit under the
    /// capacity. Returns the file names that must be deleted from disk.
    pub fn evict_to_fit(&mut self, incoming: u64) -> (victims: Vec<String>)
        requires
            old(self).wf(),
        ensures
            final(self).wf(),
            final(self)@ == old(self)@.evicted_to_fit(incoming as nat),
            are_first_names(
                victims@,
                old(self)@.entries,
                old(self)@.num_victims(incoming as nat),
            ),
    {
        let ghost before = self@;
        let ghost n = before.num_victims(incoming as nat);
        let mut victims: Vec<String> = Vec::new();
        proof {
            assert(before.entries.skip(0) =~= before.entries);
            assert(before.evicted(0) == before);
        }
        while incoming > self.capacity_in_bytes || self.num_bytes > self.capacity_in_bytes
            - incoming
            invariant_except_break
                n == victims@.len() + self@.num_victims(incoming as nat),
            invariant
                self.wf(),
                self@.capacity_in_bytes == before.capacity_in_bytes,
                victims@.len() <= n,
                victims@.len() <= before.entries.len(),
                self@ == before.evicted(victims@.len()),
                self@.entries == before.entries.skip(victims@.len() as int),
                are_first_names(victims@, before.entries, victims@.len()),
            ensures
                n == victims@.len(),
            decreases self.lru_cache@.len(),
        {
            let ghost here = self@;
            let ghost k = victims@.len();
            match self.lru_cache.pop_lru() {
                Some((file_name, entry)) => {
                    proof {
                        lemma_total_remove(here.entries, 0);
                        assert(here.entries.remove(0) =~= here.entries.skip(1));
                        lemma_evict_one_more(before, k);
                        assert(before.entries.skip(k as int).skip(1) =~= before.entries.skip(
                            k as int + 1,
                        ));
                    }
                    self.num_bytes = self.num_bytes - entry.num_bytes;
                    self.cache_counters.record_evicted(1, entry.num_bytes);
                    victims.push(file_name);
                    proof {
                        assert(self@ =~= before.evicted(k + 1));
                    }
                },
                None => {
                    break ;
                },
            }
        }
        victims
    }

    /// Number of entries.
    pub fn len(&self) -> (len: usize)
        ensures
            len == self@.entries.len(),
    {
        self.lru_cache.len()
    }

    /// Total size of the entries.
    pub fn num_bytes(&self) -> (num_bytes: u64)
        requires
            self.wf(),
        ensures
            num_bytes == total_bytes(self@.entries),
    {
        self.num_bytes
    }

    /// Whether `file_name` is tracked.
    pub fn contains(&self, file_name: &str) -> (contained: bool)
        requires
            self.wf(),
        ensures
            contained == lru_map::has_key(self@.entries, file_name@),
    {
        self.lru_cache.contains(file_name)
    }

    /// Ends the index, and returns its counters. What it held is subtracted from the gauges, and
    /// not counted as evicted, since the whole index goes.
    pub fn close(self) -> (counters: CacheMetricCounters)
        requires
            self.wf(),
        ensures
            counters == self@.cache_counters.removed(
                self@.entries.len() as u64,
                total_bytes(self@.entries) as u64,
            ),
    {
        let mut counters = self.cache_counters;
        counters.record_removed(self.lru_cache.len() as u64, self.num_bytes);
        counters
    }
}

/// The total without the entry at position `i`.
proof fn lemma_total_remove(entries: Seq<(Seq<char>, CacheEntry)>, i: int)
    requires
        0 <= i < entries.len(),
    ensures
        total_bytes(entries) == total_bytes(entries.remove(i)) + entries[i].1.num_bytes,
    decreases entries.len(),
{
    if i == entries.len() - 1 {
        assert(entries.remove(i) =~= entries.drop_last());
    } else {
        lemma_total_remove(entries.drop_last(), i);
        assert(entries.remove(i).drop_last() =~= entries.drop_last().remove(i));
    }
}

/// Evicting one more entry, on the right.
proof fn lemma_evict_one_more(model: DiskIndexModel, n: nat)
    requires
        n < model.entries.len(),
    ensures
        model.evicted(n).entries == model.entries.skip(n as int),
        model.evicted(n + 1) == (DiskIndexModel {
            entries: model.evicted(n).entries.skip(1),
            cache_counters: model.evicted(n).cache_counters.evicted(
                1,
                model.entries[n as int].1.num_bytes,
            ),
            ..model.evicted(n)
        }),
    decreases n,
{
    let once = DiskIndexModel {
        entries: model.entries.skip(1),
        cache_counters: model.cache_counters.evicted(1, model.entries[0].1.num_bytes),
        ..model
    };
    if n == 0 {
        assert(model.entries.skip(0) =~= model.entries);
        assert(once.evicted(0) == once);
        assert(model.evicted(1) == once.evicted(0));
    } else {
        lemma_evict_one_more(once, (n - 1) as nat);
        assert(model.entries.skip(1).skip(n - 1) =~= model.entries.skip(n as int));
        assert(once.entries[n - 1] == model.entries[n as int]);
        assert(model.evicted(n) == once.evicted((n - 1) as nat));
        assert(model.evicted(n + 1) == once.evicted(n));
    }
}

/// A file found in a shard sub-directory when the cache is opened.
pub struct ScannedFile {
    pub file_name: String,
    pub num_bytes: u64,
    /// Time of the last modification, relative to the Unix epoch.
    pub modified: i128,
}

impl Ranked for ScannedFile {
    /// Older files go first.
    open spec fn ranks_before(self, other: ScannedFile) -> bool {
        self.modified < other.modified
    }

    proof fn ranks_asymmetric(a: ScannedFile, b: ScannedFile) {
    }

    proof fn ranks_weakly(a: ScannedFile, b: ScannedFile, c: ScannedFile) {
    }
}

impl Sortable for ScannedFile {
    fn goes_before(&self, other: &ScannedFile) -> (before: bool) {
        self.modified < other.modified
    }
}

/// What to do with a directory entry found in a shard sub-directory.
pub enum ScanAction {
    /// Leave it alone.
    Skip,
    /// Leftover temporary file from an interrupted write: delete it.
    RemoveTemp,
    /// Read its metadata.
    Inspect(String),
}

/// Decides what to do with a directory entry, given whether it is a file and its name, as far as
/// these could be read.
pub fn scan_name(is_file: Option<bool>, file_name: Option<String>) -> (action: ScanAction)
    ensures
        match file_name {
            Some(name) => if is_file == Some(false) {
                action is Skip
            } else if text::occurs_in(name@, TEMP_MARKER@) {
                action is RemoveTemp
            } else {
                action == ScanAction::Inspect(name)
            },
            None => action is Skip,
        },
{
    if let Some(false) = is_file {
        return ScanAction::Skip;
    }
    match file_name {
        None => ScanAction::Skip,
        Some(name) => if text::contains(name.as_str(), TEMP_MARKER) {
            ScanAction::RemoveTemp
        } else {
            ScanAction::Inspect(name)
        },
    }
}

/// The file to track, given its metadata as far as they could be read: whether it is a file, its
/// size, and the time of its last modification, by default the Unix epoch.
pub fn scan_metadata(file_name: String, metadata: Option<(bool, u64, Option<i128>)>) -> (file: Option<
    ScannedFile,
>)
    ensures
        file == match metadata {
            Some((true, num_bytes, modified)) => Some(
                ScannedFile {
                    file_name,
                    num_bytes,
                    modified: match modified {
                        Some(modified) => modified,
                        None => 0,
                    },
                },
            ),
            _ => None,
        },
{
    match metadata {
        Some((true, num_bytes, modified)) => {
            let modified: i128 = match modified {
                Some(modified) => modified,
                None => 0,
            };
            Some(ScannedFile { file_name, num_bytes, modified })
        },
        _ => None,
    }
}

/// Total size of some files.
pub open spec fn total_file_bytes(files: Seq<ScannedFile>) -> nat
    decreases files.len(),
{
    if files.len() == 0 {
        0
    } else {
        total_file_bytes(files.drop_last()) + files.last().num_bytes as nat
    }
}

impl DiskIndexModel {
    /// The model after `files` have been loaded in order, each as the most recently used entry. A
    /// name that comes again replaces its earlier entry.
    pub open spec fn loaded(self, files: Seq<ScannedFile>) -> DiskIndexModel
        decreases files.len(),
    {
        if files.len() == 0 {
            self
        } else {
            let file = files.last();
            self.loaded(files.drop_last()).without_entry(file.file_name@).with_entry(
                file.file_name@,
                file.num_bytes,
                None,
            )
        }
    }
}

/// How reading the file of an entry ended.
pub enum ReadOutcome {
    /// The file was read.
    Read(Vec<u8>),
    /// The file could not be read: it vanished.
    Failed,
    /// The read was interrupted. The file is likely still valid.
    Interrupted,
}

/// What to do about a payload.
#[derive(Clone, Copy, Debug, PartialEq, Eq, Structural)]
pub enum PutDecision {
    /// The payload is larger than the whole cache: nothing to do.
    TooLarge,
    /// An entry exists already. Payloads are immutable: nothing to do.
    AlreadyCached,
    /// Write the file.
    Write,
}

/// A size-bounded cache that persists its entries on disk.
///
/// Entries are evicted following an LRU policy once the capacity (in bytes) is exceeded.
pub struct DiskSizedCache {
    index: DiskCacheIndex,
}

impl View for DiskSizedCache {
    type V = DiskIndexModel;

    closed spec fn view(&self) -> DiskIndexModel {
        self.index@
    }
}

impl DiskSizedCache {
    /// The index is well-formed, and the entries fit under the capacity.
    pub closed spec fn wf(&self) -> bool {
        &&& self.index.wf()
        &&& total_bytes(self.index@.entries) <= self.index@.capacity_in_bytes
    }

    /// Opens a cache over the files found on disk, with the default interval between mtime
    /// refreshes. Returns it with the names of the files to delete.
    pub fn open(
        files: Vec<ScannedFile>,
        capacity_in_bytes: u64,
        cache_counters: CacheMetricCounters,
    ) -> (opened: (DiskSizedCache, Vec<String>))
        requires
            total_file_bytes(files@) <= u64::MAX,
        ensures
            opened.0.wf(),
            ({
                let loaded = DiskIndexModel {
                    entries: Seq::empty(),
                    capacity_in_bytes,
                    mtime_refresh_interval: DEFAULT_MTIME_REFRESH_INTERVAL,
                    generation_counter: 0,
                    cache_counters,
                }.loaded(crate::sort::sorted(files@));
                &&& opened.0@ == loaded.evicted_to_fit(0)
                &&& are_first_names(opened.1@, loaded.entries, loaded.num_victims(0))
            }),
            opened.0@.mtime_refresh_interval == 300_000_000_000,
    {
        DiskSizedCache::open_with_interval(
            files,
            capacity_in_bytes,
            DEFAULT_MTIME_REFRESH_INTERVAL,
            cache_counters,
        )
    }

    /// Opens a cache over the files found on disk. The least recently modified files come first in
    /// the LRU order, and are evicted until the others fit under the capacity. Returns the cache
    /// with the names of the files to delete.
    pub fn open_with_interval(
        files: Vec<ScannedFile>,
        capacity_in_bytes: u64,
        mtime_refresh_interval: u64,
        cache_counters: CacheMetricCounters,
    ) -> (opened: (DiskSizedCache, Vec<String>))
        requires
            total_file_bytes(files@) <= u64::MAX,
        ensures
            opened.0.wf(),
            ({
                let loaded = DiskIndexModel {
                    entries: Seq::empty(),
                    capacity_in_bytes,
                    mtime_refresh_interval,
                    generation_counter: 0,
                    cache_counters,
                }.loaded(crate::sort::sorted(files@));
                &&& opened.0@ == loaded.evicted_to_fit(0)
                &&& are_first_names(opened.1@, loaded.entries, loaded.num_victims(0))
            }),
            opened.0@.capacity_in_bytes == capacity_in_bytes,
            opened.0@.mtime_refresh_interval == mtime_refresh_interval,
    {
        proof {
            lemma_total_files_sorted(files@);
        }
        let files = merge_sort(files);
        let mut index = DiskCacheIndex::new(
            capacity_in_bytes,
            mtime_refresh_interval,
            cache_counters,
        );
        let ghost empty = index@;
        proof {
            assert(files@.take(0) =~= Seq::empty());
        }
        for i in 0..files.len()
            invariant
                index.wf(),
                index@ == empty.loaded(files@.take(i as int)),
                total_file_bytes(files@) <= u64::MAX,
                total_bytes(index@.entries) <= total_file_bytes(files@.take(i as int)),
                index@.capacity_in_bytes == capacity_in_bytes,
                index@.mtime_refresh_interval == mtime_refresh_interval,
        {
            let ghost before = index@;
            proof {
                assert(files@.take(i + 1).drop_last() =~= files@.take(i as int));
                lemma_total_files_take(files@, i + 1);
                lru_map::lemma_distinct_keys(index.lru_cache);
                if lru_map::has_key(before.entries, files@[i as int].file_name@) {
                    let k = lru_map::key_index(before.entries, files@[i as int].file_name@);
                    assert(lru_map::key_at(before.entries, k, files@[i as int].file_name@));
                    lemma_total_remove(before.entries, k);
                }
            }
            index.remove_entry(files[i].file_name.as_str());
            proof {
                lemma_without_entry(before, index, files@[i as int].file_name@);
            }
            let ghost cleared = index@.entries;
            index.insert_entry(files[i].file_name.clone(), files[i].num_bytes, None);
            proof {
                assert(index@.entries.drop_last() =~= cleared);
            }
        }
        proof {
            assert(files@.take(files@.len() as int) =~= files@);
        }
        let ghost loaded = index@;
        let victims = index.evict_to_fit(0);
        proof {
            law_eviction_makes_room(loaded, 0);
            lemma_evicted_keeps_interval(loaded, loaded.num_victims(0));
        }
        (DiskSizedCache { index }, victims)
    }

    /// Starts a lookup at time `now`. Returns the generation of the entry whose file is to be
    /// read, or `None`, counting a miss, when the key is not cached.
    ///
    /// Reaching the disk tier means the entry was not served from memory, i.e. it has not been
    /// accessed for a while, so that its recency is always refreshed.
    pub fn begin_get(&mut self, key: &str, now: u64) -> (generation: Option<u64>)
        requires
            old(self).wf(),
        ensures
            final(self).wf(),
            if lru_map::has_key(old(self)@.entries, key@) {
                &&& generation == Some(lru_map::value_of(old(self)@.entries, key@).generation)
                &&& final(self)@ == old(self)@.accessed(key@, true, now)
            } else {
                &&& generation is None
                &&& final(self)@ == old(self)@.counting(old(self)@.cache_counters.miss())
            },
    {
        let ghost before = self@;
        proof {
            lemma_accessed_total(self.index, key@, true, now);
        }
        match self.index.record_access(key, true, now) {
            Some((generation, _due)) => Some(generation),
            None => {
                self.index.cache_counters.record_miss();
                None
            },
        }
    }

    /// Ends a lookup of the entry with generation `generation`, and returns the payload if it was
    /// read.
    ///
    /// A file that could not be read has vanished: its stale entry is dropped, unless a concurrent
    /// insertion replaced it meanwhile.
    pub fn finish_get(&mut self, key: &str, generation: u64, outcome: ReadOutcome) -> (payload: Option<
        Vec<u8>,
    >)
        requires
            old(self).wf(),
        ensures
            final(self).wf(),
            match outcome {
                ReadOutcome::Read(buffer) => {
                    &&& payload == Some(buffer)
                    &&& final(self)@ == old(self)@.counting(
                        old(self)@.cache_counters.hit(buffer@.len() as u64),
                    )
                },
                ReadOutcome::Failed => {
                    let dropped = if lru_map::has_key(old(self)@.entries, key@)
                        && lru_map::value_of(old(self)@.entries, key@).generation == generation {
                        old(self)@.without_entry(key@)
                    } else {
                        old(self)@
                    };
                    &&& payload is None
                    &&& final(self)@ == dropped.counting(dropped.cache_counters.miss())
                },
                ReadOutcome::Interrupted => {
                    &&& payload is None
                    &&& final(self)@ == old(self)@.counting(old(self)@.cache_counters.miss())
                },
            },
    {
        match outcome {
            ReadOutcome::Read(buffer) => {
                self.index.cache_counters.record_hit(buffer.len() as u64);
                Some(buffer)
            },
            ReadOutcome::Failed => {
                proof {
                    let entries = self.index@.entries;
                    if lru_map::has_key(entries, key@) {
                        let k = lru_map::key_index(entries, key@);
                        assert(lru_map::key_at(entries, k, key@));
                        lemma_total_remove(entries, k);
                    }
                }
                self.index.drop_vanished_entry(key, generation);
                self.index.cache_counters.record_miss();
                None
            },
            ReadOutcome::Interrupted => {
                self.index.cache_counters.record_miss();
                None
            },
        }
    }

    /// Records an access to `key` at time `now` that was served by a higher cache tier, without
    /// reading the file. Returns whether to refresh the mtime of the file.
    pub fn touch(&mut self, key: &str, now: u64) -> (refresh_mtime: bool)
        requires
            old(self).wf(),
        ensures
            final(self).wf(),
            final(self)@ == old(self)@.accessed(key@, false, now),
            refresh_mtime == (lru_map::has_key(old(self)@.entries, key@) && refresh_due(
                lru_map::value_of(old(self)@.entries, key@),
                old(self)@.mtime_refresh_interval,
                false,
                now,
            )),
    {
        proof {
            lemma_accessed_total(self.index, key@, false, now);
        }
        match self.index.record_access(key, false, now) {
            Some((_generation, due)) => due,
            None => false,
        }
    }

    /// Starts storing a payload of `num_bytes` bytes under `key`.
    ///
    /// A payload larger than the whole cache capacity is ignored. If an entry already exists for
    /// the key, it is kept as it is and its recency is refreshed. Otherwise the file has to be
    /// written: before evicting, so that a failed write costs no valid entry.
    pub fn begin_put(&mut self, key: &str, num_bytes: u64) -> (decision: PutDecision)
        requires
            old(self).wf(),
        ensures
            final(self).wf(),
            decision == if old(self)@.capacity_in_bytes < num_bytes {
                PutDecision::TooLarge
            } else if lru_map::has_key(old(self)@.entries, key@) {
                PutDecision::AlreadyCached
            } else {
                PutDecision::Write
            },
            final(self)@ == if decision == PutDecision::AlreadyCached {
                (DiskIndexModel {
                    entries: lru_map::touched(old(self)@.entries, key@),
                    ..old(self)@
                })
            } else {
                old(self)@
            },
    {
        if self.index.capacity_in_bytes < num_bytes {
            return PutDecision::TooLarge;
        }
        proof {
            lemma_touched_total(self.index@.entries, key@);
        }
        if self.index.lru_cache.promote(key) {
            PutDecision::AlreadyCached
        } else {
            PutDecision::Write
        }
    }

    /// Ends storing a payload of `num_bytes` bytes under `key`, once its file has been written at
    /// time `now`, or the write has failed. Returns the names of the files to delete.
    ///
    /// A write that lost a race with a concurrent insertion of the same (immutable) payload changes
    /// nothing but the recency of the entry.
    pub fn finish_put(&mut self, key: &str, num_bytes: u64, written: bool, now: u64) -> (victims: Vec<
        String,
    >)
        requires
            old(self).wf(),
            num_bytes <= old(self)@.capacity_in_bytes,
        ensures
            final(self).wf(),
            if !written {
                &&& victims@.len() == 0
                &&& final(self)@ == old(self)@
            } else if lru_map::has_key(old(self)@.entries, key@) {
                &&& victims@.len() == 0
                &&& final(self)@ == (DiskIndexModel {
                    entries: lru_map::touched(old(self)@.entries, key@),
                    ..old(self)@
                })
            } else {
                &&& are_first_names(
                    victims@,
                    old(self)@.entries,
                    old(self)@.num_victims(num_bytes as nat),
                )
                &&& final(self)@ == old(self)@.evicted_to_fit(num_bytes as nat).with_entry(
                    key@,
                    num_bytes,
                    Some(now),
                )
            },
    {
        if !written {
            return Vec::new();
        }
        let ghost before = self@;
        proof {
            lemma_touched_total(self.index@.entries, key@);
        }
        if self.index.lru_cache.promote(key) {
            return Vec::new();
        }
        let victims = self.index.evict_to_fit(num_bytes);
        proof {
            law_eviction_makes_room(before, num_bytes as nat);
            let left = self.index@.entries;
            if lru_map::has_key(left, key@) {
                let i = lru_map::key_index(left, key@);
                assert(lru_map::key_at(left, i, key@));
                let n = before.num_victims(num_bytes as nat);
                assert(lru_map::key_at(before.entries, i + n, key@));
            }
        }
        let ghost room = self.index@.entries;
        self.index.insert_entry(key.to_owned(), num_bytes, Some(now));
        proof {
            assert(self.index@.entries.drop_last() =~= room);
        }
        victims
    }

    /// Number of entries.
    pub fn num_entries(&self) -> (num_entries: usize)
        ensures
            num_entries == self@.entries.len(),
    {
        self.index.len()
    }

    /// Total size of the entries.
    pub fn num_bytes(&self) -> (num_bytes: u64)
        requires
            self.wf(),
        ensures
            num_bytes == total_bytes(self@.entries),
    {
        self.index.num_bytes()
    }

    /// Whether `key` is cached.
    pub fn contains(&self, key: &str) -> (contained: bool)
        requires
            self.wf(),
        ensures
            contained == lru_map::has_key(self@.entries, key@),
    {
        self.index.contains(key)
    }

    /// The counters of the cache.
    pub fn counters(&self) -> (counters: CacheMetricCounters)
        ensures
            counters == self@.cache_counters,
    {
        self.index.cache_counters
    }

    /// Ends the cache, and returns its counters, without what it held.
    pub fn close(self) -> (counters: CacheMetricCounters)
        requires
            self.wf(),
        ensures
            counters == self@.cache_counters.removed(
                self@.entries.len() as u64,
                total_bytes(self@.entries) as u64,
            ),
    {
        self.index.close()
    }
}

/// The 64-bit FNV-1a hash of some bytes.
pub open spec fn fnv1a(bytes: Seq<u8>) -> u64
    decreases bytes.len(),
{
    if bytes.len() == 0 {
        0xcbf29ce484222325
    } else {
        (fnv1a(bytes.drop_last()) ^ (bytes.last() as u64)).wrapping_mul(0x100000001b3)
    }
}

/// [`fnv::FnvHasher`], fed with some bytes from its default state, ends in their FNV-1a hash.
#[verifier::external_body]
fn fnv_hash(bytes: &[u8]) -> (hash: u64)
    ensures
        hash == fnv1a(bytes@),
{
    let mut hasher = fnv::FnvHasher::default();
    hasher.write(bytes);
    hasher.finish()
}

/// The shard sub-directory name a file belongs to: the hash of its name modulo the number of
/// shards, as two hexadecimal digits.
pub open spec fn shard_name(file_name: Seq<char>) -> Seq<char> {
    text::hex_digits((fnv1a(vstd::utf8::encode_utf8(file_name)) % NUM_SHARDS) as u8)
}

/// Returns the shard sub-directory name a file belongs to.
pub fn shard_dir(file_name: &str) -> (shard: String)
    ensures
        shard@ == shard_name(file_name@),
{
    text::hex((fnv_hash(file_name.as_bytes()) % NUM_SHARDS) as u8)
}

/// Returns the path of an entry below the root of the cache: its shard sub-directory and its file
/// name.
pub fn path_for(file_name: &str) -> (path: (String, String))
    ensures
        path.0@ == shard_name(file_name@),
        path.1@ == file_name@,
{
    (shard_dir(file_name), file_name.to_owned())
}

/// The name of the temporary file that the entry `file_name` is written to.
pub open spec fn temp_name(file_name: Seq<char>, counter: u64) -> Seq<char> {
    file_name + TEMP_MARKER@ + text::decimal_digits(counter as nat)
}

/// Returns the name of a temporary file for the entry `file_name`. A counter guarantees its
/// uniqueness.
pub fn temp_file_name(file_name: &str, counter: u64) -> (name: String)
    ensures
        name@ == temp_name(file_name@, counter),
{
    let mut name = file_name.to_owned();
    name.append(TEMP_MARKER);
    name.append(text::decimal(counter).as_str());
    name
}

proof fn lemma_evicted_keeps_interval(model: DiskIndexModel, n: nat)
    ensures
        model.evicted(n).mtime_refresh_interval == model.mtime_refresh_interval,
    decreases n,
{
    if n > 0 {
        lemma_evicted_keeps_interval(
            DiskIndexModel {
                entries: model.entries.skip(1),
                cache_counters: model.cache_counters.evicted(1, model.entries[0].1.num_bytes),
                ..model
            },
            (n - 1) as nat,
        );
    }
}

proof fn lemma_total_files_take(files: Seq<ScannedFile>, n: int)
    requires
        0 <= n <= files.len(),
    ensures
        total_file_bytes(files.take(n)) <= total_file_bytes(files),
    decreases files.len(),
{
    if n < files.len() {
        lemma_total_files_take(files.drop_last(), n);
        assert(files.drop_last().take(n) =~= files.take(n));
    } else {
        assert(files.take(n) =~= files);
    }
}

proof fn lemma_total_files_insert(files: Seq<ScannedFile>, file: ScannedFile)
    ensures
        total_file_bytes(crate::sort::insert_ranked(files, file)) == total_file_bytes(files)
            + file.num_bytes,
    decreases files.len(),
{
    let inserted = crate::sort::insert_ranked(files, file);
    if files.len() == 0 || !file.ranks_before(files.last()) {
        assert(inserted.drop_last() =~= files);
    } else {
        lemma_total_files_insert(files.drop_last(), file);
        assert(inserted.drop_last() =~= crate::sort::insert_ranked(files.drop_last(), file));
    }
}

proof fn lemma_total_files_sorted(files: Seq<ScannedFile>)
    ensures
        total_file_bytes(crate::sort::sorted(files)) == total_file_bytes(files),
    decreases files.len(),
{
    if files.len() > 0 {
        lemma_total_files_sorted(files.drop_last());
        lemma_total_files_insert(crate::sort::sorted(files.drop_last()), files.last());
    }
}

/// Once its entry is removed, a name is not tracked.
proof fn lemma_without_entry(before: DiskIndexModel, index: DiskCacheIndex, file_name: Seq<char>)
    requires
        index.wf(),
        lru_map::distinct_keys(before.entries),
        index@ == before.without_entry(file_name),
    ensures
        !lru_map::has_key(index@.entries, file_name),
{
    if lru_map::has_key(before.entries, file_name) {
        let k = lru_map::key_index(before.entries, file_name);
        assert(lru_map::key_at(before.entries, k, file_name));
        let after = index@.entries;
        assert(after == before.entries.remove(k));
        if lru_map::has_key(after, file_name) {
            let i = lru_map::key_index(after, file_name);
            assert(lru_map::key_at(after, i, file_name));
            if i < k {
                assert(before.entries[i].0 != before.entries[k].0);
            } else {
                assert(before.entries[k].0 != before.entries[i + 1].0);
            }
        }
    }
}

proof fn lemma_touched_total(entries: Seq<(Seq<char>, CacheEntry)>, key: Seq<char>)
    ensures
        total_bytes(lru_map::touched(entries, key)) == total_bytes(entries),
{
    if lru_map::has_key(entries, key) {
        let k = lru_map::key_index(entries, key);
        assert(lru_map::key_at(entries, k, key));
        lemma_total_remove(entries, k);
        assert(lru_map::touched(entries, key).drop_last() =~= lru_map::without(entries, key));
    }
}

proof fn lemma_accessed_total(index: DiskCacheIndex, key: Seq<char>, force: bool, now: u64)
    ensures
        total_bytes(index@.accessed(key, force, now).entries) == total_bytes(index@.entries),
{
    let entries = index@.entries;
    if lru_map::has_key(entries, key) {
        let k = lru_map::key_index(entries, key);
        assert(lru_map::key_at(entries, k, key));
        lemma_total_remove(entries, k);
        assert(index@.accessed(key, force, now).entries.drop_last() =~= lru_map::without(
            entries,
            key,
        ));
    }
}

/// Evictions stop as soon as there is room: the entries that go are the least recently used ones,
/// any fewer would leave too little room, and what is left fits together with the incoming bytes
/// if these fit under the capacity at all.
pub proof fn law_eviction_makes_room(model: DiskIndexModel, incoming: nat)
    ensures
        ({
            let n = model.num_victims(incoming);
            let left = model.evicted_to_fit(incoming);
            &&& n <= model.entries.len()
            &&& left.entries == model.entries.skip(n as int)
            &&& left.capacity_in_bytes == model.capacity_in_bytes
            &&& incoming <= model.capacity_in_bytes ==> total_bytes(left.entries) + incoming
                <= model.capacity_in_bytes
            &&& forall|m: int|
                0 <= m < n ==> total_bytes(#[trigger] model.entries.skip(m)) + incoming
                    > model.capacity_in_bytes
        }),
    decreases model.entries.len(),
{
    let n = model.num_victims(incoming);
    let left = model.evicted_to_fit(incoming);
    assert(model.entries.skip(0) =~= model.entries);
    if n > 0 {
        let once = DiskIndexModel {
            entries: model.entries.skip(1),
            cache_counters: model.cache_counters.evicted(1, model.entries[0].1.num_bytes),
            ..model
        };
        law_eviction_makes_room(once, incoming);
        assert(n == 1 + once.num_victims(incoming));
        assert(left == once.evicted_to_fit(incoming));
        assert(model.entries.skip(1).skip(n - 1) =~= model.entries.skip(n as int));
        assert forall|m: int| 0 <= m < n implies total_bytes(#[trigger] model.entries.skip(m))
            + incoming > model.capacity_in_bytes by {
            if m > 0 {
                assert(once.entries.skip(m - 1) =~= model.entries.skip(m));
            }
        }
    }
}

/// The most recently used entry survives an eviction, as long as it fits together with the
/// incoming bytes.
pub proof fn law_most_recent_entry_survives(model: DiskIndexModel, incoming: nat)
    requires
        model.entries.len() > 0,
        model.entries.last().1.num_bytes + incoming <= model.capacity_in_bytes,
    ensures
        model.evicted_to_fit(incoming).entries.len() > 0,
        model.evicted_to_fit(incoming).entries.last() == model.entries.last(),
{
    law_eviction_makes_room(model, incoming);
    let n = model.num_victims(incoming);
    let len = model.entries.len();
    if n == len {
        let tail = model.entries.skip(len - 1);
        assert(tail.drop_last().len() == 0);
        assert(total_bytes(tail.drop_last()) == 0);
        assert(total_bytes(tail) == tail.last().1.num_bytes);
        assert(total_bytes(model.entries.skip(len - 1)) + incoming > model.capacity_in_bytes);
    }
}

/// An access, whether it read the file or was served by a higher tier, makes an entry the most
/// recently used one, and changes neither the other entries nor their order.
pub proof fn law_access_makes_most_recent(
    model: DiskIndexModel,
    key: Seq<char>,
    force: bool,
    now: u64,
)
    requires
        lru_map::has_key(model.entries, key),
    ensures
        ({
            let accessed = model.accessed(key, force, now).entries;
            &&& accessed.len() == model.entries.len()
            &&& accessed.last().0 == key
            &&& accessed.last().1.num_bytes == lru_map::value_of(model.entries, key).num_bytes
            &&& accessed.last().1.generation == lru_map::value_of(model.entries, key).generation
            &&& accessed.drop_last() == model.entries.remove(lru_map::key_index(model.entries, key))
        }),
{
    let i = lru_map::key_index(model.entries, key);
    assert(lru_map::key_at(model.entries, i, key));
    let accessed = model.accessed(key, force, now).entries;
    assert(accessed.drop_last() =~= model.entries.remove(i));
}

/// Storing a payload makes it retrievable, under a generation that no earlier entry had, while at
/// most 2^64 - 1 entries have been inserted: a stale lookup cannot drop it.
pub proof fn law_put_then_get(
    model: DiskIndexModel,
    key: Seq<char>,
    num_bytes: u64,
    now: u64,
)
    requires
        !lru_map::has_key(model.entries, key),
        model.generation_counter < u64::MAX,
    ensures
        ({
            let stored = model.evicted_to_fit(num_bytes as nat).with_entry(key, num_bytes, Some(now));
            &&& lru_map::has_key(stored.entries, key)
            &&& lru_map::value_of(stored.entries, key).num_bytes == num_bytes
            &&& lru_map::value_of(stored.entries, key).generation > model.generation_counter
        }),
{
    law_eviction_makes_room(model, num_bytes as nat);
    lemma_evicted_counter(model, model.num_victims(num_bytes as nat));
    let room = model.evicted_to_fit(num_bytes as nat);
    let stored = room.with_entry(key, num_bytes, Some(now));
    let last = stored.entries.len() - 1;
    assert(lru_map::key_at(stored.entries, last, key));
    let i = lru_map::key_index(stored.entries, key);
    assert(lru_map::key_at(stored.entries, i, key));
    if i < last {
        let n = model.num_victims(num_bytes as nat);
        assert(lru_map::key_at(model.entries, i + n, key));
    }
}

proof fn lemma_evicted_counter(model: DiskIndexModel, n: nat)
    ensures
        model.evicted(n).generation_counter == model.generation_counter,
    decreases n,
{
    if n > 0 {
        let once = DiskIndexModel {
            entries: model.entries.skip(1),
            cache_counters: model.cache_counters.evicted(1, model.entries[0].1.num_bytes),
            ..model
        };
        lemma_evicted_counter(once, (n - 1) as nat);
    }
}

/// Reopening a cache keeps the most recently modified files: among files with distinct names, each
/// file evicted is at least as old as each file kept.
pub proof fn law_reopen_keeps_most_recent(
    empty: DiskIndexModel,
    files: Seq<ScannedFile>,
    evicted: int,
    kept: int,
)
    requires
        empty.entries.len() == 0,
        forall|i: int, j: int|
            0 <= i < j < files.len() ==> (#[trigger] files[i]).file_name@ != (
            #[trigger] files[j]).file_name@,
        ({
            let ordered = crate::sort::sorted(files);
            0 <= evicted < empty.loaded(ordered).num_victims(0) <= kept < files.len()
        }),
    ensures
        ({
            let ordered = crate::sort::sorted(files);
            let entries = empty.loaded(ordered).entries;
            &&& entries.len() == files.len()
            &&& forall|i: int|
                0 <= i < entries.len() ==> (#[trigger] entries[i]).0 == ordered[i].file_name@
            &&& ordered[evicted].modified <= ordered[kept].modified
        }),
{
    let ordered = crate::sort::sorted(files);
    crate::sort::lemma_sorted(files);
    lemma_names_stay_distinct(files);
    lemma_loaded(empty, ordered);
    assert(!ordered[kept].ranks_before(ordered[evicted]));
}

proof fn lemma_names_stay_distinct(files: Seq<ScannedFile>)
    requires
        forall|i: int, j: int|
            0 <= i < j < files.len() ==> (#[trigger] files[i]).file_name@ != (
            #[trigger] files[j]).file_name@,
    ensures
        ({
            let ordered = crate::sort::sorted(files);
            forall|i: int, j: int|
                0 <= i < j < ordered.len() ==> (#[trigger] ordered[i]).file_name@ != (
                #[trigger] ordered[j]).file_name@
        }),
{
    broadcast use vstd::seq_lib::group_to_multiset_ensures;

    let ordered = crate::sort::sorted(files);
    crate::sort::lemma_sorted(files);
    assert(files.no_duplicates());
    files.lemma_multiset_has_no_duplicates();
    assert(forall|f: ScannedFile| ordered.to_multiset().contains(f) ==> ordered.to_multiset().count(f) == 1);
    ordered.lemma_multiset_has_no_duplicates_conv();
    assert forall|i: int, j: int| 0 <= i < j < ordered.len() implies (#[trigger] ordered[i]).file_name@
        != (#[trigger] ordered[j]).file_name@ by {
        assert(ordered.contains(ordered[i]) && ordered.contains(ordered[j]));
        assert(files.to_multiset().contains(ordered[i]));
        assert(files.to_multiset().contains(ordered[j]));
        assert(files.contains(ordered[i]) && files.contains(ordered[j]));
        let a = choose|a: int| 0 <= a < files.len() && files[a] == ordered[i];
        let b = choose|b: int| 0 <= b < files.len() && files[b] == ordered[j];
        assert(ordered[i] != ordered[j]);
        if a < b {
            assert(files[a].file_name@ != files[b].file_name@);
        } else {
            assert(files[b].file_name@ != files[a].file_name@);
        }
    }
}

proof fn lemma_loaded(empty: DiskIndexModel, files: Seq<ScannedFile>)
    requires
        empty.entries.len() == 0,
        forall|i: int, j: int|
            0 <= i < j < files.len() ==> (#[trigger] files[i]).file_name@ != (
            #[trigger] files[j]).file_name@,
    ensures
        ({
            let entries = empty.loaded(files).entries;
            &&& entries.len() == files.len()
            &&& forall|i: int|
                0 <= i < entries.len() ==> (#[trigger] entries[i]).0 == files[i].file_name@
        }),
    decreases files.len(),
{
    if files.len() > 0 {
        let front = files.drop_last();
        lemma_loaded(empty, front);
        let before = empty.loaded(front);
        let name = files.last().file_name@;
        if lru_map::has_key(before.entries, name) {
            let i = lru_map::key_index(before.entries, name);
            assert(lru_map::key_at(before.entries, i, name));
            assert(files[i].file_name@ != files[files.len() - 1].file_name@);
        }
    }
}

/// A leftover of an interrupted write is recognised as such when the cache is opened again.
pub proof fn law_temp_files_are_recognised(file_name: Seq<char>, counter: u64)
    ensures
        text::occurs_in(temp_name(file_name, counter), TEMP_MARKER@),
{
    let name = temp_name(file_name, counter);
    let at = file_name.len() as int;
    assert(name.subrange(at, at + TEMP_MARKER@.len()) =~= TEMP_MARKER@);
    assert(text::occurs_at(name, TEMP_MARKER@, at));
}

/// Writes of the same entry with different counters go to different temporary files.
pub proof fn law_temp_names_are_unique(file_name: Seq<char>, a: u64, b: u64)
    requires
        temp_name(file_name, a) == temp_name(file_name, b),
    ensures
        a == b,
{
    let prefix = file_name + TEMP_MARKER@;
    assert(temp_name(file_name, a).skip(prefix.len() as int) =~= text::decimal_digits(a as nat));
    assert(temp_name(file_name, b).skip(prefix.len() as int) =~= text::decimal_digits(b as nat));
    text::lemma_decimal_injective(a as nat, b as nat);
}

/// The total size of entries is the sum of their sizes.
pub proof fn law_entry_sizes_add_up(
    a: Seq<(Seq<char>, CacheEntry)>,
    b: Seq<(Seq<char>, CacheEntry)>,
    entry: (Seq<char>, CacheEntry),
)
    ensures
        total_bytes(a + b) == total_bytes(a) + total_bytes(b),
        total_bytes(seq![entry]) == entry.1.num_bytes,
        total_bytes(Seq::empty()) == 0,
    decreases b.len(),
{
    reveal_with_fuel(total_bytes, 2);
    assert(seq![entry].drop_last() =~= Seq::empty());
    if b.len() == 0 {
        assert(a + b =~= a);
    } else {
        law_entry_sizes_add_up(a, b.drop_last(), entry);
        assert((a + b).drop_last() =~= a + b.drop_last());
    }
}

/// A new entry comes last, with the size and the refresh time that it was given, and the next
/// generation. It is counted as held, and all else stays.
pub proof fn law_new_entry_comes_last(
    model: DiskIndexModel,
    file_name: Seq<char>,
    num_bytes: u64,
    last_mtime_refresh: Option<u64>,
)
    requires
        model.generation_counter < u64::MAX,
    ensures
        ({
            let after = model.with_entry(file_name, num_bytes, last_mtime_refresh);
            &&& after.entries.drop_last() == model.entries
            &&& after.entries.last().0 == file_name
            &&& after.entries.last().1.num_bytes == num_bytes
            &&& after.entries.last().1.last_mtime_refresh == last_mtime_refresh
            &&& after.entries.last().1.generation == model.generation_counter + 1
            &&& after.generation_counter == model.generation_counter + 1
            &&& after.capacity_in_bytes == model.capacity_in_bytes
            &&& after.mtime_refresh_interval == model.mtime_refresh_interval
            &&& after.cache_counters == model.cache_counters.stored(num_bytes)
        }),
{
    let after = model.with_entry(file_name, num_bytes, last_mtime_refresh);
    assert(after.entries.drop_last() =~= model.entries);
}

/// An entry whose file is gone goes alone, and is no longer counted as held, nor as evicted.
pub proof fn law_vanished_entry_goes_alone(model: DiskIndexModel, file_name: Seq<char>, i: int)
    requires
        lru_map::distinct_keys(model.entries),
    ensures
        ({
            let after = model.without_entry(file_name);
            &&& after.generation_counter == model.generation_counter
            &&& after.capacity_in_bytes == model.capacity_in_bytes
            &&& after.mtime_refresh_interval == model.mtime_refresh_interval
            &&& 0 <= i < model.entries.len() && model.entries[i].0 == file_name ==> after.entries
                == model.entries.remove(i) && after.cache_counters == model.cache_counters.removed(
                1,
                model.entries[i].1.num_bytes,
            )
            &&& (forall|k: int|
                0 <= k < model.entries.len() ==> (#[trigger] model.entries[k]).0 != file_name)
                ==> after == model
        }),
{
    lru_map::law_access_and_removal(model.entries, file_name, i);
}

/// An access makes an entry the most recent one. It keeps its size and its generation. Its mtime is
/// refreshed, unless it was less than the interval ago and the refresh is not forced. Nothing else
/// changes.
pub proof fn law_access_refreshes_now_and_then(
    model: DiskIndexModel,
    key: Seq<char>,
    force: bool,
    now: u64,
    i: int,
)
    requires
        lru_map::distinct_keys(model.entries),
        0 <= i < model.entries.len(),
        model.entries[i].0 == key,
    ensures
        ({
            let entry = model.entries[i].1;
            let after = model.accessed(key, force, now);
            let recent = entry.last_mtime_refresh is Some && now < entry.last_mtime_refresh->0
                + model.mtime_refresh_interval && model.mtime_refresh_interval > 0;
            &&& after.entries == model.entries.remove(i) + seq![
                (
                    key,
                    CacheEntry {
                        num_bytes: entry.num_bytes,
                        generation: entry.generation,
                        last_mtime_refresh: if recent && !force {
                            entry.last_mtime_refresh
                        } else {
                            Some(now)
                        },
                    },
                ),
            ]
            &&& refresh_due(entry, model.mtime_refresh_interval, force, now) <==> force || !recent
            &&& after.generation_counter == model.generation_counter
            &&& after.capacity_in_bytes == model.capacity_in_bytes
            &&& after.mtime_refresh_interval == model.mtime_refresh_interval
            &&& after.cache_counters == model.cache_counters
        }),
{
    lru_map::law_access_and_removal(model.entries, key, i);
    let entry = model.entries[i].1;
    let refreshed = if refresh_due(entry, model.mtime_refresh_interval, force, now) {
        CacheEntry { last_mtime_refresh: Some(now), ..entry }
    } else {
        entry
    };
    assert(model.accessed(key, force, now).entries =~= model.entries.remove(i) + seq![
        (key, refreshed),
    ]);
}

/// Each entry that makes room is counted as evicted, with its size, and no longer as held. Nothing
/// else is counted. (Counters that wrap around are left out.)
pub proof fn law_evictions_are_counted(model: DiskIndexModel, n: nat)
    requires
        n <= model.entries.len(),
        model.cache_counters.in_cache_count == model.entries.len(),
        model.cache_counters.in_cache_num_bytes == total_bytes(model.entries),
        model.cache_counters.evict_num_items + n <= u64::MAX,
        model.cache_counters.evict_num_bytes + total_bytes(model.entries) <= u64::MAX,
    ensures
        ({
            let after = model.evicted(n);
            &&& after.entries == model.entries.skip(n as int)
            &&& after.generation_counter == model.generation_counter
            &&& after.capacity_in_bytes == model.capacity_in_bytes
            &&& after.mtime_refresh_interval == model.mtime_refresh_interval
            &&& after.cache_counters.in_cache_count == after.entries.len()
            &&& after.cache_counters.in_cache_num_bytes == total_bytes(after.entries)
            &&& after.cache_counters.evict_num_items == model.cache_counters.evict_num_items + n
            &&& after.cache_counters.evict_num_bytes == model.cache_counters.evict_num_bytes
                + total_bytes(model.entries) - total_bytes(after.entries)
            &&& total_bytes(after.entries) <= total_bytes(model.entries)
            &&& after.cache_counters.hits_num_items == model.cache_counters.hits_num_items
            &&& after.cache_counters.hits_num_bytes == model.cache_counters.hits_num_bytes
            &&& after.cache_counters.misses_num_items == model.cache_counters.misses_num_items
        }),
    decreases n,
{
    assert(model.entries.skip(0) =~= model.entries);
    if n > 0 {
        let once = DiskIndexModel {
            entries: model.entries.skip(1),
            cache_counters: model.cache_counters.evicted(1, model.entries[0].1.num_bytes),
            ..model
        };
        lemma_total_remove(model.entries, 0);
        assert(model.entries.remove(0) =~= model.entries.skip(1));
        law_evictions_are_counted(once, (n - 1) as nat);
        assert(once.entries.skip(n - 1) =~= model.entries.skip(n as int));
    }
}

/// Opening a cache over files with distinct names makes an entry of each of them, the oldest file
/// first, with its size, and a mtime that has not been refreshed yet. Generations go up.
pub proof fn law_each_file_becomes_an_entry(
    empty: DiskIndexModel,
    files: Seq<ScannedFile>,
    i: int,
)
    requires
        empty.entries.len() == 0,
        empty.generation_counter + files.len() <= u64::MAX,
        0 <= i < files.len(),
        forall|i: int, j: int|
            0 <= i < j < files.len() ==> (#[trigger] files[i]).file_name@ != (
            #[trigger] files[j]).file_name@,
    ensures
        ({
            let loaded = empty.loaded(files);
            &&& loaded.entries.len() == files.len()
            &&& loaded.entries[i].0 == files[i].file_name@
            &&& loaded.entries[i].1.num_bytes == files[i].num_bytes
            &&& loaded.entries[i].1.last_mtime_refresh is None
            &&& loaded.entries[i].1.generation == empty.generation_counter + i + 1
            &&& loaded.capacity_in_bytes == empty.capacity_in_bytes
            &&& loaded.mtime_refresh_interval == empty.mtime_refresh_interval
            &&& loaded.generation_counter == empty.generation_counter + files.len()
        }),
    decreases files.len(),
{
    let front = files.drop_last();
    lemma_loaded(empty, front);
    let before = empty.loaded(front);
    let name = files.last().file_name@;
    if lru_map::has_key(before.entries, name) {
        let k = lru_map::key_index(before.entries, name);
        assert(lru_map::key_at(before.entries, k, name));
        assert(files[k].file_name@ != files[files.len() - 1].file_name@);
    }
    if front.len() > 0 {
        let k = if i < front.len() {
            i
        } else {
            0
        };
        law_each_file_becomes_an_entry(empty, front, k);
    }
}

/// A file that is loaded after another one of the same name replaces its entry, and comes last.
pub proof fn law_last_file_of_a_name_counts(model: DiskIndexModel, files: Seq<ScannedFile>, i: int)
    requires
        files.len() > 0,
        lru_map::distinct_keys(model.loaded(files.drop_last()).entries),
        0 <= i < model.loaded(files).entries.len() - 1,
    ensures
        model.loaded(files).entries.last().0 == files.last().file_name@,
        model.loaded(files).entries.last().1.num_bytes == files.last().num_bytes,
        model.loaded(files).entries[i].0 != files.last().file_name@,
{
    let name = files.last().file_name@;
    let before = model.loaded(files.drop_last());
    if lru_map::has_key(before.entries, name) {
        let k = lru_map::key_index(before.entries, name);
        assert(lru_map::key_at(before.entries, k, name));
        let j = if i < k {
            i
        } else {
            i + 1
        };
        assert(model.loaded(files).entries[i] == before.entries[j]);
        if j < k {
            assert(before.entries[j].0 != before.entries[k].0);
        } else {
            assert(before.entries[k].0 != before.entries[j].0);
        }
    } else {
        assert(model.loaded(files).entries[i] == before.entries[i]);
        assert(!lru_map::key_at(before.entries, i, name));
    }
}

/// The shard of a file is the lowest byte of the hash of its name, in hexadecimal. The name of a
/// temporary file starts with that of the entry.
pub proof fn law_shard_is_the_lowest_byte(file_name: Seq<char>, counter: u64)
    ensures
        shard_name(file_name).len() == 2,
        16 * text::hex_value(shard_name(file_name)[0]) + text::hex_value(shard_name(file_name)[1])
            == fnv1a(vstd::utf8::encode_utf8(file_name)) % 256,
        file_name.is_prefix_of(temp_name(file_name, counter)),
        temp_name(file_name, counter).skip(file_name.len() as int) == seq!['.', 't', 'm', 'p']
            + text::decimal_digits(counter as nat),
{
    reveal_strlit(".tmp");
    assert(TEMP_MARKER@ =~= seq!['.', 't', 'm', 'p']);
    text::law_hex_digits_write_the_byte(
        (fnv1a(vstd::utf8::encode_utf8(file_name)) % NUM_SHARDS) as u8,
    );
    assert(temp_name(file_name, counter).skip(file_name.len() as int) =~= TEMP_MARKER@
        + text::decimal_digits(counter as nat));
    assert(file_name =~= temp_name(file_name, counter).subrange(0, file_name.len() as int));
}

/// Counting changes the counters only. The files to delete are those of the first entries, as many as
/// have to go.
pub proof fn law_counting_and_victims(
    model: DiskIndexModel,
    counters: CacheMetricCounters,
    names: Seq<String>,
    n: nat,
    i: int,
)
    ensures
        model.counting(counters).entries == model.entries,
        model.counting(counters).generation_counter == model.generation_counter,
        model.counting(counters).capacity_in_bytes == model.capacity_in_bytes,
        model.counting(counters).mtime_refresh_interval == model.mtime_refresh_interval,
        model.counting(counters).cache_counters == counters,
        are_first_names(names, model.entries, n) ==> names.len() == n && (0 <= i < n
            ==> names[i]@ == model.entries[i].0),
{
}

} // verus!
