//! A two-tier cache: memory in front of an optional disk tier.
//!
//! The cache decides what to read from and write to disk; the caller does it, and reports back.
use super::base_cache;
use super::base_cache::{AnyCache, CacheValue, ValueModel};
use super::counters::CacheMetricCounters;
use super::disk_sized_cache;
use super::disk_sized_cache::{DiskSizedCache, PutDecision, ReadOutcome};
use super::lru_map;
use crate::stable_deref_bytes::OwnedBytes;
use vstd::prelude::*;

verus! {

/// How a lookup goes on.
pub enum LookupStep {
    /// The payload was found in memory. The mtime of its file is to be refreshed if the flag is
    /// set.
    Found(OwnedBytes, bool),
    /// The file of the entry with this generation is to be read.
    ReadFile(u64),
    /// Neither tier has the payload.
    Missing,
}

/// A two-tier, size-bounded cache combining a fast in-memory tier (L1) with an optional
/// disk-backed tier (L2).
///
/// Lookups check memory first, then disk; a disk hit is promoted back into memory. Writes populate
/// both tiers. Without a disk tier this behaves exactly like the in-memory tier.
pub struct TieredSizedCache {
    memory: AnyCache,
    disk: Option<DiskSizedCache>,
}

impl TieredSizedCache {
    /// The in-memory tier.
    pub closed spec fn memory(self) -> AnyCache {
        self.memory
    }

    /// The disk tier.
    pub closed spec fn disk(self) -> Option<DiskSizedCache> {
        self.disk
    }

    /// Both tiers are well-formed.
    pub open spec fn wf(self) -> bool {
        &&& self.memory().wf()
        &&& self.disk() is Some ==> self.disk()->0.wf()
    }

    /// Creates a tiered cache from an in-memory tier and an optional disk tier.
    pub fn new(memory: AnyCache, disk: Option<DiskSizedCache>) -> (cache: TieredSizedCache)
        ensures
            cache.memory() == memory,
            cache.disk() == disk,
    {
        TieredSizedCache { memory, disk }
    }

    /// Whether the memory tier can account for a payload of `len` bytes together with those it
    /// holds.
    pub fn accounts_for(&self, len: usize) -> (possible: bool)
        requires
            self.wf(),
        ensures
            possible == self.memory().can_account(len as nat),
    {
        self.memory.accounts_for(len)
    }

    /// Starts a lookup at time `now`, checking memory first, then disk.
    ///
    /// An in-memory hit is propagated down to keep the disk tier in sync.
    pub fn get(&mut self, key: &str, now: u64) -> (step: LookupStep)
        requires
            old(self).wf(),
        ensures
            final(self).wf(),
            old(self).memory().may_get(key@, final(self).memory()),
            final(self).disk() is Some == old(self).disk() is Some,
            match old(self).memory().held(key@) {
                Some(ValueModel::Payload(payload)) => {
                    &&& step matches LookupStep::Found(bytes, refresh_mtime)
                    &&& bytes@ == payload
                    &&& match old(self).disk() {
                        Some(disk) => {
                            &&& final(self).disk()->0@ == disk@.accessed(key@, false, now)
                            &&& refresh_mtime == (lru_map::has_key(disk@.entries, key@)
                                && disk_sized_cache::refresh_due(
                                lru_map::value_of(disk@.entries, key@),
                                disk@.mtime_refresh_interval,
                                false,
                                now,
                            ))
                        },
                        None => !refresh_mtime,
                    }
                },
                _ => match old(self).disk() {
                    Some(disk) => if lru_map::has_key(disk@.entries, key@) {
                        &&& step matches LookupStep::ReadFile(generation)
                        &&& generation == lru_map::value_of(disk@.entries, key@).generation
                        &&& final(self).disk()->0@ == disk@.accessed(key@, true, now)
                    } else {
                        &&& step is Missing
                        &&& final(self).disk()->0@ == disk@.counting(disk@.cache_counters.miss())
                    },
                    None => step is Missing,
                },
            },
    {
        if let Some(CacheValue::Payload(bytes)) = self.memory.get(key) {
            let refresh_mtime = match &mut self.disk {
                Some(disk) => disk.touch(key, now),
                None => false,
            };
            return LookupStep::Found(bytes, refresh_mtime);
        }
        match &mut self.disk {
            None => LookupStep::Missing,
            Some(disk) => match disk.begin_get(key, now) {
                Some(generation) => LookupStep::ReadFile(generation),
                None => LookupStep::Missing,
            },
        }
    }

    /// Ends a lookup that had to read the file of the entry with generation `generation`. A payload
    /// that was read is promoted into the memory tier before being returned.
    pub fn finish_get(&mut self, key: &str, generation: u64, outcome: ReadOutcome) -> (payload: Option<
        OwnedBytes,
    >)
        requires
            old(self).wf(),
            old(self).disk() is Some,
            outcome matches ReadOutcome::Read(buffer) ==> old(self).memory().can_account(
                buffer@.len(),
            ),
        ensures
            final(self).wf(),
            final(self).disk() is Some,
            match outcome {
                ReadOutcome::Read(buffer) => {
                    &&& payload matches Some(bytes)
                    &&& bytes@ == buffer@
                    &&& exists|value: CacheValue|
                        value@ == ValueModel::Payload(buffer@)
                            && #[trigger] old(self).memory().may_put(
                            key@,
                            value,
                            final(self).memory(),
                        )
                    &&& final(self).disk()->0@ == old(self).disk()->0@.counting(
                        old(self).disk()->0@.cache_counters.hit(buffer@.len() as u64),
                    )
                },
                ReadOutcome::Failed => {
                    let disk = old(self).disk()->0@;
                    let dropped = if lru_map::has_key(disk.entries, key@) && lru_map::value_of(
                        disk.entries,
                        key@,
                    ).generation == generation {
                        disk.without_entry(key@)
                    } else {
                        disk
                    };
                    &&& payload is None
                    &&& final(self).memory() == old(self).memory()
                    &&& final(self).disk()->0@ == dropped.counting(dropped.cache_counters.miss())
                },
                ReadOutcome::Interrupted => {
                    let disk = old(self).disk()->0@;
                    &&& payload is None
                    &&& final(self).memory() == old(self).memory()
                    &&& final(self).disk()->0@ == disk.counting(disk.cache_counters.miss())
                },
            },
    {
        match &mut self.disk {
            None => None,
            Some(disk) => match disk.finish_get(key, generation, outcome) {
                None => None,
                Some(buffer) => {
                    let bytes = OwnedBytes::new(buffer);
                    let value = CacheValue::Payload(bytes.clone());
                    self.memory.put(key.to_owned(), value);
                    Some(bytes)
                },
            },
        }
    }

    /// Starts storing a payload in both tiers. The memory tier comes first, so that callers benefit
    /// immediately even if the disk tier is slow. Returns what to do on disk, if there is a disk
    /// tier.
    pub fn put(&mut self, key: &str, bytes: &OwnedBytes) -> (decision: Option<PutDecision>)
        requires
            old(self).wf(),
            old(self).memory().can_account(bytes@.len()),
        ensures
            final(self).wf(),
            exists|value: CacheValue|
                value@ == ValueModel::Payload(bytes@) && #[trigger] old(self).memory().may_put(
                    key@,
                    value,
                    final(self).memory(),
                ),
            final(self).disk() is Some == old(self).disk() is Some,
            match old(self).disk() {
                None => decision is None,
                Some(disk) => {
                    &&& decision == Some(
                        if disk@.capacity_in_bytes < bytes@.len() {
                            PutDecision::TooLarge
                        } else if lru_map::has_key(disk@.entries, key@) {
                            PutDecision::AlreadyCached
                        } else {
                            PutDecision::Write
                        },
                    )
                    &&& final(self).disk()->0@ == if decision == Some(PutDecision::AlreadyCached) {
                        (disk_sized_cache::DiskIndexModel {
                            entries: lru_map::touched(disk@.entries, key@),
                            ..disk@
                        })
                    } else {
                        disk@
                    }
                },
            },
    {
        let value = CacheValue::Payload(bytes.clone());
        self.memory.put(key.to_owned(), value);
        match &mut self.disk {
            None => None,
            Some(disk) => Some(disk.begin_put(key, bytes.len() as u64)),
        }
    }

    /// Ends storing a payload of `num_bytes` bytes, once its file has been written at time `now`,
    /// or the write has failed. Returns the names of the files to delete.
    pub fn finish_put(&mut self, key: &str, num_bytes: u64, written: bool, now: u64) -> (victims: Vec<
        String,
    >)
        requires
            old(self).wf(),
            old(self).disk() is Some,
            num_bytes <= old(self).disk()->0@.capacity_in_bytes,
        ensures
            final(self).wf(),
            final(self).memory() == old(self).memory(),
            final(self).disk() is Some,
            ({
                let disk = old(self).disk()->0@;
                let after = final(self).disk()->0@;
                if !written {
                    &&& victims@.len() == 0
                    &&& after == disk
                } else if lru_map::has_key(disk.entries, key@) {
                    &&& victims@.len() == 0
                    &&& after == (disk_sized_cache::DiskIndexModel {
                        entries: lru_map::touched(disk.entries, key@),
                        ..disk
                    })
                } else {
                    &&& disk_sized_cache::are_first_names(
                        victims@,
                        disk.entries,
                        disk.num_victims(num_bytes as nat),
                    )
                    &&& after == disk.evicted_to_fit(num_bytes as nat).with_entry(
                        key@,
                        num_bytes,
                        Some(now),
                    )
                }
            }),
    {
        match &mut self.disk {
            None => Vec::new(),
            Some(disk) => disk.finish_put(key, num_bytes, written, now),
        }
    }

    /// The counters of the memory tier, and those of the disk tier.
    pub fn counters(&self) -> (counters: (CacheMetricCounters, Option<CacheMetricCounters>))
        ensures
            counters.0 == self.memory().cache_metrics(),
            counters.1 == match self.disk() {
                Some(disk) => Some(disk@.cache_counters),
                None => None,
            },
    {
        (
            self.memory.counters(),
            match &self.disk {
                Some(disk) => Some(disk.counters()),
                None => None,
            },
        )
    }

    /// Ends both tiers, and returns their counters. What they held is subtracted from the gauges,
    /// and not counted as evicted.
    pub fn close(self) -> (counters: (CacheMetricCounters, Option<CacheMetricCounters>))
        requires
            self.wf(),
        ensures
            self.memory().may_close(counters.0),
            counters.1 == match self.disk() {
                Some(disk) => Some(
                    disk@.cache_counters.removed(
                        disk@.entries.len() as u64,
                        disk_sized_cache::total_bytes(disk@.entries) as u64,
                    ),
                ),
                None => None,
            },
    {
        (
            self.memory.close(),
            match self.disk {
                Some(disk) => Some(disk.close()),
                None => None,
            },
        )
    }
}

/// A payload that was read from disk, or written, is in memory from then on, if the memory tier is
/// sure to store it: the next lookup does not need its file.
pub proof fn law_payload_is_promoted_to_memory(
    before: TieredSizedCache,
    key: Seq<char>,
    value: CacheValue,
    now: u64,
    after: TieredSizedCache,
)
    requires
        before.wf(),
        before.memory().may_put_at(key, value, now, after.memory()),
        before.memory().stores_at(key, value@, now),
    ensures
        after.memory().held(key) == Some(value@),
{
    base_cache::law_stored_value_is_found(before.memory(), key, value, now, after.memory());
}

} // verus!
