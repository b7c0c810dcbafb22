//! In-memory caches with a choice of eviction policies.
//!
//! Times are nanoseconds of a monotonic clock.
use super::counters::CacheMetricCounters;
use super::lru_map;
use super::lru_map::LruMap;
use super::s3_fifo;
use super::s3_fifo::S3Fifo;
use super::tiny_lfu::TinyLfu;
use crate::clock::Clock;
use crate::stable_deref_bytes::OwnedBytes;
use vstd::prelude::*;

verus! {

/// We do not evict anything that has been accessed in the last 60s.
///
/// The goal is to behave better on scan access patterns, without being as aggressive as using a
/// MRU strategy: if two items have been accessed in the last 60s, it is not really worth
/// considering the latter to be more recent than the former and do an eviction.
pub const LRU_MIN_TIME_SINCE_LAST_ACCESS: u64 = 60_000_000_000;

/// Average size that the number of entries of a [`S3Fifo`] cache is estimated from.
pub const ESTIMATED_ITEM_NUM_BYTES: u64 = 131_072;

/// A fake entry inside a cache, which the cache believes to be of the given size, used to run
/// "virtual" (probe) caches that only track hit/miss metrics without actually storing data.
#[derive(Clone, Copy, Debug, PartialEq, Eq, Structural)]
pub struct FakeCacheEntry(pub usize);

/// A value that a cache holds.
pub enum CacheValue {
    /// Some bytes.
    Payload(OwnedBytes),
    /// A fake entry.
    Fake(FakeCacheEntry),
}

/// Mathematical content of a [`CacheValue`].
pub enum ValueModel {
    Payload(Seq<u8>),
    Fake(usize),
}

impl ValueModel {
    /// Size that the value counts for.
    pub open spec fn len(self) -> nat {
        match self {
            ValueModel::Payload(bytes) => bytes.len(),
            ValueModel::Fake(len) => len as nat,
        }
    }
}

impl View for CacheValue {
    type V = ValueModel;

    open spec fn view(&self) -> ValueModel {
        match self {
            CacheValue::Payload(bytes) => ValueModel::Payload(bytes@),
            CacheValue::Fake(entry) => ValueModel::Fake(entry.0),
        }
    }
}

impl CacheValue {
    /// Size that the value counts for.
    pub fn len(&self) -> (len: usize)
        ensures
            len == self@.len(),
    {
        match self {
            CacheValue::Payload(bytes) => bytes.len(),
            CacheValue::Fake(entry) => entry.0,
        }
    }

    /// Size that the value counts for, capped to what 32 bits can hold.
    pub(crate) fn capped_len(&self) -> (len: u32)
        ensures
            len == if self@.len() <= u32::MAX {
                self@.len()
            } else {
                u32::MAX as nat
            },
    {
        let len: usize = self.len();
        if len <= u32::MAX as usize {
            len as u32
        } else {
            u32::MAX
        }
    }
}

impl Clone for CacheValue {
    fn clone(&self) -> (copy: CacheValue)
        ensures
            copy@ == self@,
    {
        match self {
            CacheValue::Payload(bytes) => CacheValue::Payload(bytes.clone()),
            CacheValue::Fake(entry) => CacheValue::Fake(*entry),
        }
    }
}

/// The contents of an empty cache.
pub open spec fn no_values() -> Map<Seq<char>, ValueModel> {
    Map::empty()
}

/// How much a cache may hold.
#[derive(Clone, Copy, Debug, PartialEq, Eq, Structural)]
pub enum Capacity {
    /// Everything.
    Unlimited,
    /// This many bytes.
    InBytes(usize),
}

impl Capacity {
    /// Whether `num_bytes` bytes are too much.
    pub open spec fn is_exceeded_by(self, num_bytes: nat) -> bool {
        match self {
            Capacity::Unlimited => false,
            Capacity::InBytes(capacity_in_bytes) => num_bytes > capacity_in_bytes,
        }
    }

    /// Whether `num_bytes` bytes are too much.
    pub fn exceeds_capacity(&self, num_bytes: usize) -> (exceeded: bool)
        ensures
            exceeded == self.is_exceeded_by(num_bytes as nat),
    {
        match *self {
            Capacity::Unlimited => false,
            Capacity::InBytes(capacity_in_bytes) => num_bytes > capacity_in_bytes,
        }
    }
}

/// A value in a [`Lru`] cache, with the time of its last access.
pub struct StoredItem {
    pub payload: CacheValue,
    pub last_access_time: u64,
}

/// Total size of some items.
pub open spec fn total_len(entries: Seq<(Seq<char>, StoredItem)>) -> nat
    decreases entries.len(),
{
    if entries.len() == 0 {
        0
    } else {
        total_len(entries.drop_last()) + entries.last().1.payload@.len()
    }
}

proof fn lemma_total_remove(entries: Seq<(Seq<char>, StoredItem)>, i: int)
    requires
        0 <= i < entries.len(),
    ensures
        total_len(entries) == total_len(entries.remove(i)) + entries[i].1.payload@.len(),
    decreases entries.len(),
{
    if i == entries.len() - 1 {
        assert(entries.remove(i) =~= entries.drop_last());
    } else {
        lemma_total_remove(entries.drop_last(), i);
        assert(entries.remove(i).drop_last() =~= entries.drop_last().remove(i));
    }
}

/// Mathematical content of a [`Lru`] cache.
#[verifier::ext_equal]
pub struct LruModel {
    /// The items by key, the least recently used first.
    pub entries: Seq<(Seq<char>, StoredItem)>,
    pub capacity: Capacity,
    pub cache_metrics: CacheMetricCounters,
}

impl LruModel {
    /// The model without the item at position `i`, which counts as evicted.
    pub open spec fn evicted(self, i: int) -> LruModel {
        LruModel {
            entries: self.entries.remove(i),
            cache_metrics: self.cache_metrics.evicted(
                1,
                self.entries[i].1.payload@.len() as u64,
            ),
            ..self
        }
    }

    /// The model without the item of `key`, which counts as evicted.
    pub open spec fn replaced(self, key: Seq<char>) -> LruModel {
        if lru_map::has_key(self.entries, key) {
            self.evicted(lru_map::key_index(self.entries, key))
        } else {
            self
        }
    }

    /// Whether the least recently used item was accessed less than 60s before `now`.
    pub open spec fn is_fresh(self, now: u64) -> bool {
        &&& self.entries.len() > 0
        &&& now - self.entries[0].1.last_access_time < LRU_MIN_TIME_SINCE_LAST_ACCESS
    }

    /// Makes room for `incoming` bytes at time `now`, by evicting the least recently used items
    /// for as long as the capacity is exceeded. Stops at an item accessed too recently. Returns
    /// the model, and whether there is room.
    pub open spec fn make_room(self, incoming: nat, now: u64) -> (LruModel, bool)
        decreases self.entries.len(),
    {
        if !self.capacity.is_exceeded_by(total_len(self.entries) + incoming) {
            (self, true)
        } else if self.entries.len() == 0 || self.is_fresh(now) {
            (self, false)
        } else {
            self.evicted(0).make_room(incoming, now)
        }
    }

    /// The model after an insertion of `value` at time `now`.
    pub open spec fn put(self, key: Seq<char>, value: CacheValue, now: u64) -> LruModel {
        if self.capacity.is_exceeded_by(value@.len()) {
            self
        } else {
            let (room, admitted) = self.replaced(key).make_room(value@.len(), now);
            if admitted {
                LruModel {
                    entries: room.entries.push(
                        (key, StoredItem { payload: value, last_access_time: now }),
                    ),
                    cache_metrics: room.cache_metrics.stored(value@.len() as u64),
                    ..room
                }
            } else {
                room
            }
        }
    }

    /// The model after a lookup at time `now`.
    pub open spec fn get(self, key: Seq<char>, now: u64) -> LruModel {
        if lru_map::has_key(self.entries, key) {
            let item = lru_map::value_of(self.entries, key);
            LruModel {
                entries: lru_map::without(self.entries, key).push(
                    (key, StoredItem { payload: item.payload, last_access_time: now }),
                ),
                cache_metrics: self.cache_metrics.hit(item.payload@.len() as u64),
                ..self
            }
        } else {
            LruModel { cache_metrics: self.cache_metrics.miss(), ..self }
        }
    }
}

/// A cache that evicts the least recently used items first.
pub struct Lru {
    lru_cache: LruMap<StoredItem>,
    num_bytes: u64,
    capacity: Capacity,
    cache_metrics: CacheMetricCounters,
    clock: Clock,
}

impl View for Lru {
    type V = LruModel;

    closed spec fn view(&self) -> LruModel {
        LruModel {
            entries: self.lru_cache@,
            capacity: self.capacity,
            cache_metrics: self.cache_metrics,
        }
    }
}

impl Lru {
    /// The tracked number of bytes is the total size of the items, which the capacity admits.
    pub closed spec fn wf(&self) -> bool {
        &&& self.lru_cache.wf()
        &&& self.num_bytes == total_len(self.lru_cache@)
        &&& !self.capacity.is_exceeded_by(total_len(self.lru_cache@))
    }

    /// Creates an empty cache with the given capacity.
    pub fn with_capacity(capacity: Capacity, cache_metrics: CacheMetricCounters) -> (cache: Lru)
        ensures
            cache.wf(),
            cache@ == (LruModel { entries: Seq::empty(), capacity, cache_metrics }),
    {
        Lru { lru_cache: LruMap::new(), num_bytes: 0, capacity, cache_metrics, clock: Clock::new() }
    }

    /// Counts an item of `num_bytes` bytes that has just left as evicted.
    fn drop_item(&mut self, num_bytes: u64)
        requires
            old(self).num_bytes >= num_bytes,
        ensures
            *final(self) == (Lru {
                num_bytes: (old(self).num_bytes - num_bytes) as u64,
                cache_metrics: old(self).cache_metrics.evicted(1, num_bytes),
                ..*old(self)
            }),
    {
        self.num_bytes = self.num_bytes - num_bytes;
        self.cache_metrics.record_evicted(1, num_bytes);
    }

    /// Returns the value of `key`, whose item becomes the most recently used one.
    pub fn get(&mut self, key: &str) -> (value: Option<CacheValue>)
        requires
            old(self).wf(),
        ensures
            final(self).wf(),
            exists|now: u64| final(self)@ == #[trigger] old(self)@.get(key@, now),
            match value {
                Some(value) => lru_map::has_key(old(self)@.entries, key@) && value@
                    == lru_map::value_of(old(self)@.entries, key@).payload@,
                None => !lru_map::has_key(old(self)@.entries, key@),
            },
    {
        let now: u64 = self.clock.now();
        self.get_at(key, now)
    }

    /// Returns the value of `key` at time `now`. Its item becomes the most recently used one.
    pub fn get_at(&mut self, key: &str, now: u64) -> (value: Option<CacheValue>)
        requires
            old(self).wf(),
        ensures
            final(self).wf(),
            final(self)@ == old(self)@.get(key@, now),
            match value {
                Some(value) => lru_map::has_key(old(self)@.entries, key@) && value@
                    == lru_map::value_of(old(self)@.entries, key@).payload@,
                None => !lru_map::has_key(old(self)@.entries, key@),
            },
    {
        let ghost before = self.lru_cache@;
        proof {
            lru_map::lemma_distinct_keys(self.lru_cache);
            if lru_map::has_key(before, key@) {
                let i = lru_map::key_index(before, key@);
                assert(lru_map::key_at(before, i, key@));
                lemma_total_remove(before, i);
            }
        }
        let found = match self.lru_cache.get_mut(key) {
            Some(item) => {
                item.last_access_time = now;
                Some(item.payload.clone())
            },
            None => None,
        };
        match found {
            Some(value) => {
                self.cache_metrics.record_hit(value.len() as u64);
                proof {
                    assert(self.lru_cache@.drop_last() =~= lru_map::without(before, key@));
                    assert(self.lru_cache@.last().1.payload == lru_map::value_of(
                        before,
                        key@,
                    ).payload);
                }
                Some(value)
            },
            None => {
                self.cache_metrics.record_miss();
                None
            },
        }
    }

    /// Attempts to put the given value in the cache.
    ///
    /// This fails silently if the value is larger than the cache capacity, or if it would take the
    /// eviction of an item that was accessed recently.
    pub fn put(&mut self, key: String, value: CacheValue)
        requires
            old(self).wf(),
            old(self)@.capacity is Unlimited ==> total_len(old(self)@.entries) + value@.len()
                <= u64::MAX,
        ensures
            final(self).wf(),
            exists|now: u64| final(self)@ == #[trigger] old(self)@.put(key@, value, now),
    {
        let now: u64 = self.clock.now();
        self.put_at(key, value, now)
    }

    /// Attempts to put the given value in the cache at time `now`.
    pub fn put_at(&mut self, key: String, value: CacheValue, now: u64)
        requires
            old(self).wf(),
            old(self)@.capacity is Unlimited ==> total_len(old(self)@.entries) + value@.len()
                <= u64::MAX,
        ensures
            final(self).wf(),
            final(self)@ == old(self)@.put(key@, value, now),
    {
        let ghost before = self@;
        let len: usize = value.len();
        if self.capacity.exceeds_capacity(len) {
            return ;
        }
        proof {
            lru_map::lemma_distinct_keys(self.lru_cache);
            if lru_map::has_key(before.entries, key@) {
                let i = lru_map::key_index(before.entries, key@);
                assert(lru_map::key_at(before.entries, i, key@));
                lemma_total_remove(before.entries, i);
            }
        }
        if let Some(previous) = self.lru_cache.pop(key.as_str()) {
            self.drop_item(previous.payload.len() as u64);
        }
        let ghost start = before.replaced(key@);
        proof {
            assert(self@ =~= start);
            lemma_replaced_key(before, key@);
        }
        loop
            invariant
                before == old(self)@,
                self.wf(),
                self@.capacity == before.capacity,
                len == value@.len(),
                !before.capacity.is_exceeded_by(value@.len()),
                before.capacity is Unlimited ==> total_len(before.entries) + value@.len()
                    <= u64::MAX,
                before.capacity is Unlimited ==> total_len(self@.entries) <= total_len(
                    before.entries,
                ),
                start.make_room(value@.len(), now) == self@.make_room(value@.len(), now),
                !lru_map::has_key(self@.entries, key@),
                before.put(key@, value, now) == {
                    let (room, admitted) = start.make_room(value@.len(), now);
                    if admitted {
                        LruModel {
                            entries: room.entries.push(
                                (key@, StoredItem { payload: value, last_access_time: now }),
                            ),
                            cache_metrics: room.cache_metrics.stored(value@.len() as u64),
                            ..room
                        }
                    } else {
                        room
                    }
                },
            ensures
                self@.make_room(value@.len(), now) == (self@, true),
                !self@.capacity.is_exceeded_by(total_len(self@.entries) + value@.len()),
            decreases self.lru_cache@.len(),
        {
            let exceeded = match self.capacity {
                Capacity::Unlimited => false,
                Capacity::InBytes(capacity_in_bytes) => self.num_bytes as usize
                    > capacity_in_bytes - len,
            };
            if !exceeded {
                break ;
            }
            if let Some(candidate) = self.lru_cache.peek_lru() {
                if now.saturating_sub(candidate.last_access_time) < LRU_MIN_TIME_SINCE_LAST_ACCESS {
                    // It is not worth doing an eviction.
                    return ;
                }
            }
            let ghost here = self@;
            match self.lru_cache.pop_lru() {
                Some((_key, item)) => {
                    proof {
                        lemma_total_remove(here.entries, 0);
                        assert(here.entries.remove(0) =~= here.entries.skip(1));
                    }
                    self.drop_item(item.payload.len() as u64);
                    proof {
                        assert(self@ =~= here.evicted(0));
                        if lru_map::has_key(self@.entries, key@) {
                            let i = lru_map::key_index(self@.entries, key@);
                            assert(lru_map::key_at(self@.entries, i, key@));
                            assert(lru_map::key_at(here.entries, i + 1, key@));
                        }
                    }
                },
                None => {
                    return ;
                },
            }
        }
        let ghost room = self.lru_cache@;
        self.num_bytes = self.num_bytes + len as u64;
        self.cache_metrics.record_stored(len as u64);
        self.lru_cache.insert(key, StoredItem { payload: value, last_access_time: now });
        proof {
            assert(self.lru_cache@.drop_last() =~= room);
        }
    }

    /// Total size of the items.
    pub fn num_bytes(&self) -> (num_bytes: u64)
        requires
            self.wf(),
        ensures
            num_bytes == total_len(self@.entries),
    {
        self.num_bytes
    }

    /// The counters of the cache.
    pub fn counters(&self) -> (counters: CacheMetricCounters)
        ensures
            counters == self@.cache_metrics,
    {
        self.cache_metrics
    }

    /// Ends the cache, and returns its counters. What it held is subtracted from the gauges, and
    /// not counted as evicted, since the whole cache goes.
    pub fn close(self) -> (counters: CacheMetricCounters)
        requires
            self.wf(),
        ensures
            counters == self@.cache_metrics.removed(
                self@.entries.len() as u64,
                total_len(self@.entries) as u64,
            ),
    {
        let mut counters = self.cache_metrics;
        counters.record_removed(self.lru_cache.len() as u64, self.num_bytes);
        counters
    }
}

/// Replacing the item of a key leaves no item for it, and no more bytes.
proof fn lemma_replaced_key(model: LruModel, key: Seq<char>)
    requires
        lru_map::distinct_keys(model.entries),
    ensures
        !lru_map::has_key(model.replaced(key).entries, key),
        total_len(model.replaced(key).entries) <= total_len(model.entries),
{
    if lru_map::has_key(model.entries, key) {
        let k = lru_map::key_index(model.entries, key);
        assert(lru_map::key_at(model.entries, k, key));
        lemma_total_remove(model.entries, k);
        let after = model.entries.remove(k);
        if lru_map::has_key(after, key) {
            let i = lru_map::key_index(after, key);
            assert(lru_map::key_at(after, i, key));
            if i < k {
                assert(model.entries[i].0 != model.entries[k].0);
            } else {
                assert(model.entries[k].0 != model.entries[i + 1].0);
            }
        }
    }
}

/// A lookup right after an insertion that was admitted finds the value.
pub proof fn law_lru_put_then_get(model: LruModel, key: Seq<char>, value: CacheValue, now: u64)
    requires
        lru_map::distinct_keys(model.entries),
        !model.capacity.is_exceeded_by(value@.len()),
        model.replaced(key).make_room(value@.len(), now).1,
    ensures
        lru_map::has_key(model.put(key, value, now).entries, key),
        lru_map::value_of(model.put(key, value, now).entries, key).payload == value,
{
    lemma_replaced_key(model, key);
    let start = model.replaced(key);
    lemma_make_room_keeps(start, value@.len(), now, key);
    let after = model.put(key, value, now);
    let last = after.entries.len() - 1;
    assert(lru_map::key_at(after.entries, last, key));
    let i = lru_map::key_index(after.entries, key);
    assert(lru_map::key_at(after.entries, i, key));
    if i < last {
        let room = start.make_room(value@.len(), now).0;
        assert(lru_map::key_at(room.entries, i, key));
    }
}

/// Making room only takes items away, from the least recently used one on.
proof fn lemma_make_room_keeps(model: LruModel, incoming: nat, now: u64, key: Seq<char>)
    ensures
        ({
            let (room, admitted) = model.make_room(incoming, now);
            &&& room.capacity == model.capacity
            &&& room.entries.len() <= model.entries.len()
            &&& room.entries == model.entries.skip(model.entries.len() - room.entries.len())
            &&& !lru_map::has_key(model.entries, key) ==> !lru_map::has_key(room.entries, key)
            &&& total_len(room.entries) <= total_len(model.entries)
            &&& admitted ==> !model.capacity.is_exceeded_by(total_len(room.entries) + incoming)
        }),
    decreases model.entries.len(),
{
    let (room, admitted) = model.make_room(incoming, now);
    if model.capacity.is_exceeded_by(total_len(model.entries) + incoming) && model.entries.len() > 0
        && !model.is_fresh(now) {
        let next = model.evicted(0);
        lemma_total_remove(model.entries, 0);
        if lru_map::has_key(next.entries, key) {
            let i = lru_map::key_index(next.entries, key);
            assert(lru_map::key_at(next.entries, i, key));
            assert(lru_map::key_at(model.entries, i + 1, key));
        }
        lemma_make_room_keeps(next, incoming, now, key);
        assert(room.entries =~= model.entries.skip(model.entries.len() - room.entries.len()));
    } else {
        assert(model.entries.skip(0) =~= model.entries);
    }
}

/// An insertion never makes a cache exceed its capacity, and an oversized value changes nothing.
pub proof fn law_lru_capacity(model: LruModel, key: Seq<char>, value: CacheValue, now: u64)
    requires
        lru_map::distinct_keys(model.entries),
        !model.capacity.is_exceeded_by(total_len(model.entries)),
    ensures
        !model.capacity.is_exceeded_by(total_len(model.put(key, value, now).entries)),
        model.capacity.is_exceeded_by(value@.len()) ==> model.put(key, value, now) == model,
{
    lemma_replaced_key(model, key);
    let start = model.replaced(key);
    lemma_make_room_keeps(start, value@.len(), now, key);
    let (room, admitted) = start.make_room(value@.len(), now);
    if !model.capacity.is_exceeded_by(value@.len()) && admitted {
        assert(model.put(key, value, now).entries.drop_last() =~= room.entries);
    }
}

/// Items accessed in the last 60s are never evicted to make room: each item that goes was last
/// accessed at least 60s before.
pub proof fn law_lru_spares_recent_items(model: LruModel, incoming: nat, now: u64, i: int)
    requires
        0 <= i < model.entries.len() - model.make_room(incoming, now).0.entries.len(),
    ensures
        now - model.entries[i].1.last_access_time >= LRU_MIN_TIME_SINCE_LAST_ACCESS,
    decreases model.entries.len(),
{
    if model.capacity.is_exceeded_by(total_len(model.entries) + incoming) && model.entries.len() > 0
        && !model.is_fresh(now) {
        let next = model.evicted(0);
        if i > 0 {
            law_lru_spares_recent_items(next, incoming, now, i - 1);
            assert(next.entries[i - 1] == model.entries[i]);
        }
    }
}

/// The eviction policy of a cache.
#[derive(Clone, Copy, Debug, PartialEq, Eq, Structural)]
pub enum CachePolicy {
    Lru,
    S3Fifo,
    TinyLfu,
}

/// A cache with any of the eviction policies.
pub enum AnyCache {
    Lru(Lru),
    S3Fifo(S3Fifo),
    TinyLfu(TinyLfu),
}

impl AnyCache {
    /// The cache is well-formed.
    pub open spec fn wf(&self) -> bool {
        match self {
            AnyCache::Lru(lru) => lru.wf(),
            AnyCache::S3Fifo(s3fifo) => s3fifo.wf(),
            AnyCache::TinyLfu(tiny_lfu) => tiny_lfu.wf(),
        }
    }

    /// The value held for `key`, if any.
    pub open spec fn held(self, key: Seq<char>) -> Option<ValueModel> {
        match self {
            AnyCache::Lru(lru) => if lru_map::has_key(lru@.entries, key) {
                Some(lru_map::value_of(lru@.entries, key).payload@)
            } else {
                None
            },
            AnyCache::S3Fifo(s3fifo) => if s3fifo@.contents.contains_key(key) {
                Some(s3fifo@.contents[key])
            } else {
                None
            },
            AnyCache::TinyLfu(tiny_lfu) => if tiny_lfu@.contents.contains_key(key) {
                Some(tiny_lfu@.contents[key])
            } else {
                None
            },
        }
    }

    /// Whether a value of `len` bytes can be accounted for together with those held: the sums of
    /// sizes fit in 64 bits, and the entries can be numbered.
    pub open spec fn can_account(self, len: nat) -> bool {
        match self {
            AnyCache::Lru(lru) => lru@.capacity is Unlimited ==> total_len(lru@.entries) + len
                <= u64::MAX,
            AnyCache::S3Fifo(s3fifo) => s3fifo@.can_account(len),
            AnyCache::TinyLfu(tiny_lfu) => tiny_lfu@.can_account(len),
        }
    }

    /// Whether a lookup may lead from this cache to `after`.
    pub open spec fn may_get(self, key: Seq<char>, after: AnyCache) -> bool {
        match (self, after) {
            (AnyCache::Lru(a), AnyCache::Lru(b)) => exists|now: u64|
                b@ == #[trigger] a@.get(key, now),
            (AnyCache::S3Fifo(a), AnyCache::S3Fifo(b)) => b@ == a@.get(key),
            (AnyCache::TinyLfu(a), AnyCache::TinyLfu(b)) => a@.may_get(key, b@),
            _ => false,
        }
    }

    /// Whether an insertion at time `now` may lead from this cache to `after`.
    pub open spec fn may_put_at(
        self,
        key: Seq<char>,
        value: CacheValue,
        now: u64,
        after: AnyCache,
    ) -> bool {
        match (self, after) {
            (AnyCache::Lru(a), AnyCache::Lru(b)) => b@ == a@.put(key, value, now),
            (AnyCache::S3Fifo(a), AnyCache::S3Fifo(b)) => a@.may_put(key, value@, b@),
            (AnyCache::TinyLfu(a), AnyCache::TinyLfu(b)) => a@.may_put(key, value@, b@),
            _ => false,
        }
    }

    /// Whether an insertion may lead from this cache to `after`.
    pub open spec fn may_put(self, key: Seq<char>, value: CacheValue, after: AnyCache) -> bool {
        exists|now: u64| #[trigger] self.may_put_at(key, value, now, after)
    }

    /// Whether an insertion at time `now` is sure to store a value.
    pub open spec fn stores_at(self, key: Seq<char>, value: ValueModel, now: u64) -> bool {
        match self {
            AnyCache::Lru(lru) => !lru@.capacity.is_exceeded_by(value.len()) && lru@.replaced(
                key,
            ).make_room(value.len(), now).1,
            AnyCache::S3Fifo(s3fifo) => s3fifo@.fits(key, value.len()) || s3fifo@.is_new(
                key,
                value.len(),
            ),
            AnyCache::TinyLfu(tiny_lfu) => tiny_lfu@.fits(key, value.len()),
        }
    }

    /// Whether both caches have the same policy and the same content.
    pub open spec fn same_as(self, other: AnyCache) -> bool {
        match (self, other) {
            (AnyCache::Lru(a), AnyCache::Lru(b)) => a@ == b@,
            (AnyCache::S3Fifo(a), AnyCache::S3Fifo(b)) => a@ == b@,
            (AnyCache::TinyLfu(a), AnyCache::TinyLfu(b)) => a@ == b@,
            _ => false,
        }
    }

    /// The counters of the cache.
    pub open spec fn cache_metrics(self) -> CacheMetricCounters {
        match self {
            AnyCache::Lru(lru) => lru@.cache_metrics,
            AnyCache::S3Fifo(s3fifo) => s3fifo@.cache_metrics,
            AnyCache::TinyLfu(tiny_lfu) => tiny_lfu@.cache_metrics,
        }
    }

    /// Whether settling may lead from this cache to `after`.
    pub open spec fn may_settle(self, after: AnyCache) -> bool {
        match (self, after) {
            (AnyCache::TinyLfu(a), AnyCache::TinyLfu(b)) => a@.may_settle(b@),
            (AnyCache::TinyLfu(_), _) => false,
            (a, b) => a == b,
        }
    }

    /// Whether these may be the counters once the cache has ended.
    pub open spec fn may_close(self, counters: CacheMetricCounters) -> bool {
        match self {
            AnyCache::Lru(lru) => counters == lru@.cache_metrics.removed(
                lru@.entries.len() as u64,
                total_len(lru@.entries) as u64,
            ),
            AnyCache::S3Fifo(s3fifo) => counters == s3fifo@.cache_metrics.removed(
                s3fifo@.contents.dom().len() as u64,
                s3_fifo::map_len(s3fifo@.contents) as u64,
            ),
            AnyCache::TinyLfu(tiny_lfu) => exists|settled: super::tiny_lfu::TinyLfuModel| #[trigger]
                tiny_lfu@.may_settle(settled) && counters == settled.cache_metrics.removed(
                    settled.contents.dom().len() as u64,
                    s3_fifo::map_len(settled.contents) as u64,
                ),
        }
    }

    /// An empty cache with the given policy and capacity in bytes.
    pub fn from_policy_and_capacity(
        policy: CachePolicy,
        capacity: u64,
        cache_metrics: CacheMetricCounters,
    ) -> (cache: AnyCache)
        ensures
            cache.wf(),
            match policy {
                CachePolicy::Lru => cache matches AnyCache::Lru(lru) && lru@ == (LruModel {
                    entries: Seq::empty(),
                    capacity: Capacity::InBytes(
                        if capacity <= usize::MAX {
                            capacity as usize
                        } else {
                            usize::MAX
                        },
                    ),
                    cache_metrics,
                }),
                CachePolicy::S3Fifo => cache matches AnyCache::S3Fifo(s3fifo) && s3fifo@ == (
                s3_fifo::S3FifoModel {
                    contents: no_values(),
                    remembered: s3_fifo::no_keys(),
                    capacity,
                    cache_metrics,
                }),
                CachePolicy::TinyLfu => cache matches AnyCache::TinyLfu(tiny_lfu) && tiny_lfu@ == (
                super::tiny_lfu::TinyLfuModel {
                    contents: no_values(),
                    capacity,
                    cache_metrics,
                }),
            },
    {
        match policy {
            CachePolicy::Lru => {
                let in_bytes: usize = if capacity <= usize::MAX as u64 {
                    capacity as usize
                } else {
                    usize::MAX
                };
                AnyCache::Lru(Lru::with_capacity(Capacity::InBytes(in_bytes), cache_metrics))
            },
            CachePolicy::S3Fifo => AnyCache::S3Fifo(S3Fifo::with_capacity(capacity, cache_metrics)),
            CachePolicy::TinyLfu => AnyCache::TinyLfu(
                TinyLfu::with_capacity(capacity, cache_metrics),
            ),
        }
    }

    /// An empty cache that never evicts.
    pub fn unbounded(cache_metrics: CacheMetricCounters) -> (cache: AnyCache)
        ensures
            cache.wf(),
            cache matches AnyCache::Lru(lru) && lru@ == (LruModel {
                entries: Seq::empty(),
                capacity: Capacity::Unlimited,
                cache_metrics,
            }),
    {
        AnyCache::Lru(Lru::with_capacity(Capacity::Unlimited, cache_metrics))
    }

    /// Returns the value of `key`.
    pub fn get(&mut self, key: &str) -> (value: Option<CacheValue>)
        requires
            old(self).wf(),
        ensures
            final(self).wf(),
            old(self).may_get(key@, *final(self)),
            match value {
                Some(value) => old(self).held(key@) == Some(value@),
                None => old(self).held(key@) is None,
            },
    {
        match self {
            AnyCache::Lru(lru) => lru.get(key),
            AnyCache::S3Fifo(s3fifo) => s3fifo.get(key),
            AnyCache::TinyLfu(tiny_lfu) => tiny_lfu.get(key),
        }
    }

    /// Attempts to put the given value in the cache. It fails silently where the policy or the
    /// capacity does not admit the value.
    pub fn put(&mut self, key: String, value: CacheValue)
        requires
            old(self).wf(),
            old(self).can_account(value@.len()),
        ensures
            final(self).wf(),
            old(self).may_put(key@, value, *final(self)),
    {
        let ghost before = *self;
        let ghost model = key@;
        match self {
            AnyCache::Lru(lru) => {
                lru.put(key, value);
                proof {
                    let now = choose|now: u64|
                        lru@ == #[trigger] before->Lru_0@.put(model, value, now);
                    assert(before.may_put_at(model, value, now, AnyCache::Lru(*lru)));
                }
            },
            AnyCache::S3Fifo(s3fifo) => {
                s3fifo.put(key, value);
                proof {
                    assert(before.may_put_at(model, value, 0, AnyCache::S3Fifo(*s3fifo)));
                }
            },
            AnyCache::TinyLfu(tiny_lfu) => {
                tiny_lfu.put(key, value);
                proof {
                    assert(before.may_put_at(model, value, 0, AnyCache::TinyLfu(*tiny_lfu)));
                }
            },
        }
    }

    /// Whether a value of `len` bytes can be accounted for together with those held.
    pub fn accounts_for(&self, len: usize) -> (possible: bool)
        requires
            self.wf(),
        ensures
            possible == self.can_account(len as nat),
    {
        match self {
            AnyCache::Lru(lru) => match lru.capacity {
                Capacity::Unlimited => lru.num_bytes() <= u64::MAX - len as u64,
                Capacity::InBytes(_) => true,
            },
            AnyCache::S3Fifo(s3fifo) => s3fifo.accounts_for(len),
            AnyCache::TinyLfu(tiny_lfu) => tiny_lfu.accounts_for(len),
        }
    }

    /// The counters of the cache.
    pub fn counters(&self) -> (counters: CacheMetricCounters)
        ensures
            counters == self.cache_metrics(),
    {
        match self {
            AnyCache::Lru(lru) => lru.counters(),
            AnyCache::S3Fifo(s3fifo) => s3fifo.counters(),
            AnyCache::TinyLfu(tiny_lfu) => tiny_lfu.counters(),
        }
    }

    /// Drops values, if they exceed the capacity, and counts them as evicted. Only the frequency
    /// policy lets them exceed it, where it would take too long to drop them all at once.
    pub fn settle(&mut self)
        requires
            old(self).wf(),
        ensures
            final(self).wf(),
            old(self).may_settle(*final(self)),
    {
        match self {
            AnyCache::TinyLfu(tiny_lfu) => tiny_lfu.settle(),
            _ => {},
        }
    }

    /// Ends the cache, and returns its counters. What it held is subtracted from the gauges, and
    /// not counted as evicted, since the whole cache goes.
    pub fn close(self) -> (counters: CacheMetricCounters)
        requires
            self.wf(),
        ensures
            self.may_close(counters),
    {
        match self {
            AnyCache::Lru(lru) => lru.close(),
            AnyCache::S3Fifo(s3fifo) => s3fifo.close(),
            AnyCache::TinyLfu(tiny_lfu) => tiny_lfu.close(),
        }
    }
}

/// Whatever the policy, a value larger than the capacity is not stored: the insertion changes
/// nothing.
pub proof fn law_oversized_value_is_not_stored(
    before: AnyCache,
    key: Seq<char>,
    value: CacheValue,
    after: AnyCache,
)
    requires
        before.may_put(key, value, after),
        match before {
            AnyCache::Lru(lru) => lru@.capacity.is_exceeded_by(value@.len()),
            AnyCache::S3Fifo(s3fifo) => value@.len() > s3fifo@.capacity,
            AnyCache::TinyLfu(tiny_lfu) => value@.len() > tiny_lfu@.capacity,
        },
    ensures
        after.same_as(before),
{
}

/// Whatever the policy, a value is found again right after an insertion that is sure to store it:
/// with the policies that weigh accesses, because it fits next to the other values, or because room
/// is made for a key that is not remembered; with the other one, because items that have not been
/// accessed lately make room.
pub proof fn law_stored_value_is_found(
    before: AnyCache,
    key: Seq<char>,
    value: CacheValue,
    now: u64,
    after: AnyCache,
)
    requires
        before.wf(),
        before.may_put_at(key, value, now, after),
        before.stores_at(key, value@, now),
    ensures
        after.held(key) == Some(value@),
{
    match (before, after) {
        (AnyCache::Lru(a), AnyCache::Lru(_)) => {
            lru_map::lemma_distinct_keys(a.lru_cache);
            law_lru_put_then_get(a@, key, value, now);
        },
        _ => {},
    }
}

/// The total size of items is the sum of their sizes.
pub proof fn law_sizes_add_up(
    a: Seq<(Seq<char>, StoredItem)>,
    b: Seq<(Seq<char>, StoredItem)>,
    item: (Seq<char>, StoredItem),
)
    ensures
        total_len(a + b) == total_len(a) + total_len(b),
        total_len(seq![item]) == match item.1.payload {
            CacheValue::Payload(bytes) => bytes@.len(),
            CacheValue::Fake(entry) => entry.0 as nat,
        },
        total_len(Seq::empty()) == 0,
    decreases b.len(),
{
    reveal_with_fuel(total_len, 2);
    assert(seq![item].drop_last() =~= Seq::empty());
    if b.len() == 0 {
        assert(a + b =~= a);
    } else {
        law_sizes_add_up(a, b.drop_last(), item);
        assert((a + b).drop_last() =~= a + b.drop_last());
    }
}

/// A lookup is an access: the item that it finds becomes the most recent one, with the time of the
/// lookup and the same value. All other items stay as they are, in their order. A lookup that finds
/// nothing changes no item.
pub proof fn law_lookup_is_an_access(model: LruModel, key: Seq<char>, now: u64, i: int)
    requires
        lru_map::distinct_keys(model.entries),
    ensures
        ({
            let after = model.get(key, now);
            &&& after.capacity == model.capacity
            &&& 0 <= i < model.entries.len() && model.entries[i].0 == key ==> after.entries
                == model.entries.remove(i) + seq![
                (key, StoredItem { payload: model.entries[i].1.payload, last_access_time: now }),
            ] && after.cache_metrics == model.cache_metrics.hit(
                model.entries[i].1.payload@.len() as u64,
            )
            &&& (forall|k: int| 0 <= k < model.entries.len() ==> (#[trigger] model.entries[k]).0 != key)
                ==> after.entries == model.entries && after.cache_metrics
                == model.cache_metrics.miss()
        }),
{
    if 0 <= i < model.entries.len() && model.entries[i].0 == key {
        lru_map::lemma_key_index(model.entries, i, key);
        assert(model.get(key, now).entries =~= model.entries.remove(i) + seq![
            (key, StoredItem { payload: model.entries[i].1.payload, last_access_time: now }),
        ]);
    }
    if lru_map::has_key(model.entries, key) {
        let k = lru_map::key_index(model.entries, key);
        assert(lru_map::key_at(model.entries, k, key));
    }
}

/// Room is made by the items at the front: either none leaves, or the least recently used one does,
/// and then room is made without it.
proof fn lemma_make_room_step(model: LruModel, incoming: nat, now: u64)
    ensures
        ({
            let (room, admitted) = model.make_room(incoming, now);
            let exceeded = model.capacity.is_exceeded_by(total_len(model.entries) + incoming);
            let stuck = model.entries.len() == 0 || now - model.entries[0].1.last_access_time
                < 60_000_000_000;
            &&& !exceeded ==> room == model && admitted
            &&& exceeded && stuck ==> room == model && !admitted
            &&& exceeded && !stuck ==> {
                let next = model.evicted(0);
                &&& (room, admitted) == next.make_room(incoming, now)
                &&& next.entries == model.entries.skip(1)
                &&& next.capacity == model.capacity
            }
        }),
{
    if model.entries.len() > 0 {
        assert(model.evicted(0).entries =~= model.entries.skip(1));
    }
}

/// How far room is made: items leave from the least recently used one on, each of them last accessed
/// 60s before or more, for as long as the capacity is exceeded, and no longer.
#[verifier::spinoff_prover]
proof fn lemma_make_room_exact(model: LruModel, incoming: nat, now: u64)
    ensures
        ({
            let (room, admitted) = model.make_room(incoming, now);
            let gone = model.entries.len() - room.entries.len();
            &&& 0 <= gone
            &&& room.capacity == model.capacity
            &&& room.entries == model.entries.skip(gone)
            &&& gone > 0 ==> model.capacity.is_exceeded_by(
                total_len(model.entries.skip(gone - 1)) + incoming,
            )
            &&& forall|k: int|
                0 <= k < gone ==> now - (#[trigger] model.entries[k]).1.last_access_time
                    >= 60_000_000_000
            &&& admitted <==> !model.capacity.is_exceeded_by(total_len(room.entries) + incoming)
            &&& !admitted ==> gone == model.entries.len() || now
                - model.entries[gone].1.last_access_time < 60_000_000_000
        }),
    decreases model.entries.len(),
{
    let (room, admitted) = model.make_room(incoming, now);
    let exceeded = model.capacity.is_exceeded_by(total_len(model.entries) + incoming);
    let stuck = model.entries.len() == 0 || now - model.entries[0].1.last_access_time
        < 60_000_000_000;
    lemma_make_room_step(model, incoming, now);
    assert(model.entries.skip(0) =~= model.entries);
    if exceeded && !stuck {
        let next = model.evicted(0);
        lemma_make_room_exact(next, incoming, now);
        let gone = model.entries.len() - room.entries.len();
        assert(next.entries.skip(gone - 1) =~= model.entries.skip(gone));
        if gone > 1 {
            assert(next.entries.skip(gone - 2) =~= model.entries.skip(gone - 1));
        }
        assert forall|k: int| 0 <= k < gone implies now - (
        #[trigger] model.entries[k]).1.last_access_time >= 60_000_000_000 by {
            if k > 0 {
                assert(next.entries[k - 1] == model.entries[k]);
            }
        }
        if gone < model.entries.len() {
            assert(next.entries[gone - 1] == model.entries[gone]);
        }
    }
}

/// An insertion at time `now` first takes the value of its key away, then items from the least
/// recently used one on, for as long as the capacity is exceeded, and no longer. It stops at an item
/// accessed in the last 60s. The new value comes last, with that time, if there is room for it, and
/// is not stored otherwise.
pub proof fn law_put_makes_just_enough_room(
    model: LruModel,
    key: Seq<char>,
    value: CacheValue,
    now: u64,
    others: Seq<(Seq<char>, StoredItem)>,
    i: int,
)
    requires
        lru_map::distinct_keys(model.entries),
        !model.capacity.is_exceeded_by(value@.len()),
        if 0 <= i < model.entries.len() {
            model.entries[i].0 == key && others == model.entries.remove(i)
        } else {
            others == model.entries && forall|k: int|
                0 <= k < model.entries.len() ==> (#[trigger] model.entries[k]).0 != key
        },
    ensures
        exists|gone: int|
            {
                let after = model.put(key, value, now).entries;
                let left = #[trigger] others.skip(gone);
                &&& 0 <= gone <= others.len()
                &&& gone > 0 ==> model.capacity.is_exceeded_by(
                    total_len(others.skip(gone - 1)) + value@.len(),
                )
                &&& forall|k: int|
                    0 <= k < gone ==> now - (#[trigger] others[k]).1.last_access_time
                        >= 60_000_000_000
                &&& !model.capacity.is_exceeded_by(total_len(left) + value@.len()) ==> after == left
                    + seq![(key, StoredItem { payload: value, last_access_time: now })]
                &&& model.capacity.is_exceeded_by(total_len(left) + value@.len()) ==> after == left
                    && gone < others.len() && now - others[gone].1.last_access_time
                    < 60_000_000_000
            },
        model.put(key, value, now).capacity == model.capacity,
{
    let start = model.replaced(key);
    if 0 <= i < model.entries.len() {
        lru_map::lemma_key_index(model.entries, i, key);
    } else if lru_map::has_key(model.entries, key) {
        let k = lru_map::key_index(model.entries, key);
        assert(lru_map::key_at(model.entries, k, key));
    }
    assert(start.entries == others);
    lemma_make_room_exact(start, value@.len(), now);
    let (room, admitted) = start.make_room(value@.len(), now);
    let gone = others.len() - room.entries.len();
    let left = others.skip(gone);
    assert(left == room.entries);
    if admitted {
        assert(model.put(key, value, now).entries =~= left + seq![
            (key, StoredItem { payload: value, last_access_time: now }),
        ]);
    } else if gone == others.len() {
        assert(left =~= Seq::empty());
        assert(total_len(left) == 0);
    }
}

/// Nothing accessed in the last 60s goes to make room: after an insertion for another key, the item
/// is still there, as it was.
pub proof fn law_recent_items_survive(
    model: LruModel,
    key: Seq<char>,
    value: CacheValue,
    now: u64,
    i: int,
)
    requires
        lru_map::distinct_keys(model.entries),
        0 <= i < model.entries.len(),
        model.entries[i].0 != key,
        now - model.entries[i].1.last_access_time < 60_000_000_000,
    ensures
        model.put(key, value, now).entries.contains(model.entries[i]),
{
    let after = model.put(key, value, now).entries;
    if model.capacity.is_exceeded_by(value@.len()) {
        assert(after[i] == model.entries[i]);
    } else {
        let start = model.replaced(key);
        lemma_make_room_exact(start, value@.len(), now);
        let room = start.make_room(value@.len(), now).0;
        let gone = start.entries.len() - room.entries.len();
        let k = if lru_map::has_key(model.entries, key) {
            let j = lru_map::key_index(model.entries, key);
            assert(lru_map::key_at(model.entries, j, key));
            if i < j {
                i
            } else {
                i - 1
            }
        } else {
            i
        };
        assert(start.entries[k] == model.entries[i]);
        assert(room.entries[k - gone] == model.entries[i]);
        assert(after[k - gone] == model.entries[i]);
    }
}

/// What was looked up less than 60s ago is still found, with the same value, after an insertion for
/// another key.
pub proof fn law_looked_up_value_survives(
    model: LruModel,
    looked_up: Seq<char>,
    looked_up_at: u64,
    key: Seq<char>,
    value: CacheValue,
    now: u64,
    i: int,
)
    requires
        lru_map::distinct_keys(model.entries),
        0 <= i < model.entries.len(),
        model.entries[i].0 == looked_up,
        looked_up != key,
        now - looked_up_at < 60_000_000_000,
    ensures
        model.get(looked_up, looked_up_at).put(key, value, now).entries.contains(
            (
                looked_up,
                StoredItem { payload: model.entries[i].1.payload, last_access_time: looked_up_at },
            ),
        ),
{
    law_lookup_is_an_access(model, looked_up, looked_up_at, i);
    let accessed = model.get(looked_up, looked_up_at);
    let last = accessed.entries.len() - 1;
    assert(accessed.entries[last].0 == looked_up);
    assert forall|a: int, b: int| 0 <= a < b < accessed.entries.len() implies (
    #[trigger] accessed.entries[a]).0 != (#[trigger] accessed.entries[b]).0 by {
        let x = if a < i {
            a
        } else {
            a + 1
        };
        assert(accessed.entries[a] == model.entries[x]);
        if b < last {
            let y = if b < i {
                b
            } else {
                b + 1
            };
            assert(accessed.entries[b] == model.entries[y]);
        } else if x < i {
            assert(model.entries[x].0 != model.entries[i].0);
        } else {
            assert(model.entries[i].0 != model.entries[x].0);
        }
    }
    law_recent_items_survive(accessed, key, value, now, last);
}

/// Whether the gauges tell how many items there are, and how many bytes.
pub open spec fn gauges_tell(model: LruModel) -> bool {
    &&& model.cache_metrics.in_cache_count == model.entries.len()
    &&& model.cache_metrics.in_cache_num_bytes == total_len(model.entries)
}

proof fn lemma_make_room_counts(model: LruModel, incoming: nat, now: u64)
    requires
        gauges_tell(model),
        model.cache_metrics.evict_num_items + model.entries.len() <= u64::MAX,
        model.cache_metrics.evict_num_bytes + total_len(model.entries) <= u64::MAX,
    ensures
        ({
            let room = model.make_room(incoming, now).0;
            &&& gauges_tell(room)
            &&& room.entries.len() <= model.entries.len()
            &&& total_len(room.entries) <= total_len(model.entries)
            &&& room.cache_metrics.evict_num_items == model.cache_metrics.evict_num_items
                + model.entries.len() - room.entries.len()
            &&& room.cache_metrics.evict_num_bytes == model.cache_metrics.evict_num_bytes
                + total_len(model.entries) - total_len(room.entries)
            &&& room.cache_metrics.hits_num_items == model.cache_metrics.hits_num_items
            &&& room.cache_metrics.hits_num_bytes == model.cache_metrics.hits_num_bytes
            &&& room.cache_metrics.misses_num_items == model.cache_metrics.misses_num_items
        }),
    decreases model.entries.len(),
{
    if model.capacity.is_exceeded_by(total_len(model.entries) + incoming) && model.entries.len() > 0
        && !model.is_fresh(now) {
        lemma_total_remove(model.entries, 0);
        lemma_make_room_counts(model.evicted(0), incoming, now);
    }
}

/// The gauges tell what the cache holds, after insertions and lookups as before. An insertion counts
/// each value that goes, the one of its key too, as evicted: those before and the new one, if it is
/// stored, without those after. It counts neither as a hit nor as a miss.
pub proof fn law_counters_tell_what_happened(
    model: LruModel,
    key: Seq<char>,
    value: CacheValue,
    now: u64,
)
    requires
        lru_map::distinct_keys(model.entries),
        gauges_tell(model),
        model.entries.len() < i64::MAX,
        total_len(model.entries) + value@.len() <= i64::MAX,
        model.cache_metrics.evict_num_items + model.entries.len() <= u64::MAX,
        model.cache_metrics.evict_num_bytes + total_len(model.entries) <= u64::MAX,
    ensures
        gauges_tell(model.put(key, value, now)),
        gauges_tell(model.get(key, now)),
        ({
            let after = model.put(key, value, now);
            let stored = after.entries.len() > 0 && after.entries.last() == (
                key,
                StoredItem { payload: value, last_access_time: now },
            ) && !model.capacity.is_exceeded_by(value@.len());
            let new_items: int = if stored {
                1
            } else {
                0
            };
            let new_bytes: int = if stored {
                value@.len() as int
            } else {
                0
            };
            &&& after.cache_metrics.hits_num_items == model.cache_metrics.hits_num_items
            &&& after.cache_metrics.hits_num_bytes == model.cache_metrics.hits_num_bytes
            &&& after.cache_metrics.misses_num_items == model.cache_metrics.misses_num_items
            &&& after.cache_metrics.evict_num_items == model.cache_metrics.evict_num_items
                + model.entries.len() + new_items - after.entries.len()
            &&& after.cache_metrics.evict_num_bytes == model.cache_metrics.evict_num_bytes
                + total_len(model.entries) + new_bytes - total_len(after.entries)
        }),
{
    let start = model.replaced(key);
    if lru_map::has_key(model.entries, key) {
        let k = lru_map::key_index(model.entries, key);
        assert(lru_map::key_at(model.entries, k, key));
        lemma_total_remove(model.entries, k);
        let found = model.get(key, now).entries;
        assert(found.drop_last() =~= model.entries.remove(k));
    }
    lemma_replaced_key(model, key);
    lemma_make_room_counts(start, value@.len(), now);
    lemma_make_room_keeps(start, value@.len(), now, key);
    let (room, admitted) = start.make_room(value@.len(), now);
    let after = model.put(key, value, now);
    if !model.capacity.is_exceeded_by(value@.len()) {
        if admitted {
            assert(after.entries.drop_last() =~= room.entries);
        } else if after.entries.len() > 0 && after.entries.last().0 == key {
            assert(lru_map::key_at(room.entries, room.entries.len() - 1, key));
        }
    }
}

/// A value with more bytes than the capacity is too large, and no other, unless the capacity is
/// unlimited.
pub proof fn law_capacity_is_in_bytes(capacity: usize, num_bytes: nat)
    ensures
        Capacity::InBytes(capacity).is_exceeded_by(num_bytes) <==> num_bytes > capacity,
        !Capacity::Unlimited.is_exceeded_by(num_bytes),
{
}

/// Each policy keeps its own cache: an insertion or a lookup is one of that cache, and what is held
/// for a key is what that cache holds.
pub proof fn law_policies_keep_their_caches(
    before: AnyCache,
    key: Seq<char>,
    value: CacheValue,
    now: u64,
    stored: AnyCache,
    looked_up: AnyCache,
)
    requires
        before.may_put_at(key, value, now, stored),
        before.may_get(key, looked_up),
    ensures
        match before {
            AnyCache::Lru(lru) => {
                &&& stored matches AnyCache::Lru(after) && after@ == lru@.put(key, value, now)
                &&& looked_up matches AnyCache::Lru(after) && exists|at: u64|
                    after@ == #[trigger] lru@.get(key, at)
                &&& before.held(key) is Some <==> exists|i: int|
                    0 <= i < lru@.entries.len() && (#[trigger] lru@.entries[i]).0 == key
                &&& before.held(key) is Some ==> exists|i: int|
                    0 <= i < lru@.entries.len() && (#[trigger] lru@.entries[i]).0 == key
                        && before.held(key) == Some(lru@.entries[i].1.payload@)
            },
            AnyCache::S3Fifo(s3fifo) => {
                &&& stored matches AnyCache::S3Fifo(after) && s3fifo@.may_put(key, value@, after@)
                &&& looked_up matches AnyCache::S3Fifo(after) && after@ == s3fifo@.get(key)
                &&& s3fifo@.contents.contains_key(key) ==> before.held(key) == Some(
                    s3fifo@.contents[key],
                )
                &&& !s3fifo@.contents.contains_key(key) ==> before.held(key) is None
            },
            AnyCache::TinyLfu(tiny_lfu) => {
                &&& stored matches AnyCache::TinyLfu(after) && tiny_lfu@.may_put(
                    key,
                    value@,
                    after@,
                )
                &&& looked_up matches AnyCache::TinyLfu(after) && tiny_lfu@.may_get(key, after@)
                &&& tiny_lfu@.contents.contains_key(key) ==> before.held(key) == Some(
                    tiny_lfu@.contents[key],
                )
                &&& !tiny_lfu@.contents.contains_key(key) ==> before.held(key) is None
            },
        },
{
    if let AnyCache::Lru(lru) = before {
        if lru_map::has_key(lru@.entries, key) {
            let i = lru_map::key_index(lru@.entries, key);
            assert(lru_map::key_at(lru@.entries, i, key));
            assert(lru@.entries[i].0 == key);
        }
        if exists|i: int| 0 <= i < lru@.entries.len() && (#[trigger] lru@.entries[i]).0 == key {
            let i = choose|i: int| 0 <= i < lru@.entries.len() && (#[trigger] lru@.entries[i]).0 == key;
            assert(lru_map::key_at(lru@.entries, i, key));
        }
    }
}

/// An insertion is sure to store a value that fits next to those held. The policy that remembers keys
/// also makes room for one that takes at most 96% of the capacity, if its key is not remembered.
pub proof fn law_value_that_fits_is_stored(
    cache: AnyCache,
    key: Seq<char>,
    value: ValueModel,
    now: u64,
)
    requires
        cache.wf(),
    ensures
        match cache {
            AnyCache::Lru(lru) => !lru@.capacity.is_exceeded_by(
                total_len(lru@.entries) + value.len(),
            ) ==> cache.stores_at(key, value, now),
            AnyCache::S3Fifo(s3fifo) => 25 * value.len() <= 24 * s3fifo@.capacity && (
            !s3fifo@.remembered.contains(key) || s3_fifo::map_len(s3fifo@.contents.remove(key))
                + value.len() <= s3fifo@.capacity) ==> cache.stores_at(key, value, now),
            AnyCache::TinyLfu(tiny_lfu) => value.len() <= u32::MAX && s3_fifo::map_len(
                tiny_lfu@.contents,
            ) <= tiny_lfu@.capacity && s3_fifo::map_len(tiny_lfu@.contents.remove(key))
                + value.len() <= tiny_lfu@.capacity ==> cache.stores_at(key, value, now),
        },
{
    if let AnyCache::Lru(lru) = cache {
        lru_map::lemma_distinct_keys(lru.lru_cache);
        lemma_replaced_key(lru@, key);
        lemma_make_room_step(lru@.replaced(key), value.len(), now);
    }
}

/// Only the policy that evicts in batches has anything to settle. Once a cache has ended, what it
/// still held is no longer counted. Caches are the same if they have the same policy and content.
pub proof fn law_settling_and_closing(
    before: AnyCache,
    settled: AnyCache,
    counters: CacheMetricCounters,
    other: AnyCache,
)
    requires
        before.may_settle(settled),
        before.may_close(counters),
    ensures
        match before {
            AnyCache::Lru(lru) => {
                &&& settled == before
                &&& counters == lru@.cache_metrics.removed(
                    lru@.entries.len() as u64,
                    total_len(lru@.entries) as u64,
                )
                &&& before.cache_metrics() == lru@.cache_metrics
                &&& before.same_as(other) <==> (other matches AnyCache::Lru(same) && same@ == lru@)
            },
            AnyCache::S3Fifo(s3fifo) => {
                &&& settled == before
                &&& counters == s3fifo@.cache_metrics.removed(
                    s3fifo@.contents.dom().len() as u64,
                    s3_fifo::map_len(s3fifo@.contents) as u64,
                )
                &&& before.cache_metrics() == s3fifo@.cache_metrics
                &&& before.same_as(other) <==> (other matches AnyCache::S3Fifo(same) && same@
                    == s3fifo@)
            },
            AnyCache::TinyLfu(tiny_lfu) => {
                &&& settled matches AnyCache::TinyLfu(after) && tiny_lfu@.may_settle(after@)
                &&& exists|last: super::tiny_lfu::TinyLfuModel| #[trigger]
                    tiny_lfu@.may_settle(last) && counters == last.cache_metrics.removed(
                        last.contents.dom().len() as u64,
                        s3_fifo::map_len(last.contents) as u64,
                    )
                &&& before.cache_metrics() == tiny_lfu@.cache_metrics
                &&& before.same_as(other) <==> (other matches AnyCache::TinyLfu(same) && same@
                    == tiny_lfu@)
            },
        },
{
}

} // verus!
