//! A cache backed by the `mini_moka` crate.
use super::base_cache::CacheValue;
use super::base_cache;
use super::counters::CacheMetricCounters;
use super::s3_fifo;
use mini_moka::sync::ConcurrentCacheExt;
use vstd::prelude::*;

verus! {

/// The concurrent cache of `mini_moka`.
#[verifier::external_type_specification]
#[verifier::external_body]
#[verifier::reject_recursive_types(K)]
#[verifier::reject_recursive_types(V)]
#[verifier::reject_recursive_types(S)]
pub struct ExMokaCache<K, V, S>(mini_moka::sync::Cache<K, V, S>);

/// The outside cache, as it is used here.
pub type MokaCache = mini_moka::sync::Cache<String, CacheValue>;

/// The values that a [`MokaCache`] holds, by key.
pub uninterp spec fn moka_contents(cache: MokaCache) -> Map<Seq<char>, base_cache::ValueModel>;

/// The capacity that a [`MokaCache`] was made with, in bytes.
pub uninterp spec fn moka_capacity(cache: MokaCache) -> u64;

/// Whether a [`MokaCache`] has settled all past insertions, and counts what it holds.
pub uninterp spec fn moka_settled(cache: MokaCache) -> bool;

/// Whether a [`MokaCache`] counts what it holds, once past insertions are settled. It may lose count
/// if a value is replaced while another insertion is not settled yet.
pub uninterp spec fn moka_consistent(cache: MokaCache) -> bool;

/// Whether the settled values of a [`MokaCache`] exceed its capacity, or an insertion that is not
/// settled yet replaced a value.
pub uninterp spec fn moka_overfilled(cache: MokaCache) -> bool;

/// The number of values that are dropped at most, in order to get back to the capacity, each time
/// insertions are settled.
pub const EVICTION_BATCH_SIZE: usize = 500;

/// Whether some values stay within a capacity.
pub open spec fn is_within(
    values: Map<Seq<char>, base_cache::ValueModel>,
    capacity: u64,
) -> bool {
    s3_fifo::map_len(values) <= capacity
}

/// A [`mini_moka::sync::CacheBuilder`] with a maximum capacity, and each value weighed by its
/// size: an empty cache.
#[verifier::external_body]
fn moka_build(capacity: u64) -> (cache: MokaCache)
    ensures
        moka_contents(cache) == base_cache::no_values(),
        moka_capacity(cache) == capacity,
        moka_settled(cache),
        moka_consistent(cache),
{
    mini_moka::sync::Cache::builder()
        .max_capacity(capacity)
        .weigher(|_key: &String, value: &CacheValue| value.capped_len())
        .build()
}

/// [`mini_moka::sync::Cache::get`]: the value of a key.
///
/// Values may be dropped afterwards, but only if they exceed the capacity. Which ones are dropped
/// then, and when, is not stated: it depends on past accesses and on the time.
#[verifier::external_body]
fn moka_get(cache: &mut MokaCache, key: &String) -> (value: Option<CacheValue>)
    requires
        moka_settled(*old(cache)),
    ensures
        moka_capacity(*final(cache)) == moka_capacity(*old(cache)),
        moka_settled(*final(cache)),
        moka_consistent(*final(cache)),
        moka_contents(*final(cache)).submap_of(moka_contents(*old(cache))),
        is_within(moka_contents(*old(cache)), moka_capacity(*old(cache))) ==> moka_contents(
            *final(cache),
        ) == moka_contents(*old(cache)),
        match value {
            Some(value) => moka_contents(*old(cache)).contains_key(key@) && moka_contents(
                *old(cache),
            )[key@] == value@,
            None => !moka_contents(*old(cache)).contains_key(key@),
        },
{
    cache.get(key)
}

/// [`mini_moka::sync::Cache::insert`]: sets the value of a key, which 32 bits can weigh.
///
/// The insertion is left to be settled. Other values may be dropped meanwhile, but only if those
/// held before exceed the capacity. Which ones is not stated, as for [`moka_get`].
#[verifier::external_body]
fn moka_insert(cache: &mut MokaCache, key: String, value: CacheValue)
    requires
        moka_settled(*old(cache)),
        value@.len() <= u32::MAX,
        s3_fifo::map_len(moka_contents(*old(cache))) + value@.len() <= u64::MAX,
    ensures
        moka_capacity(*final(cache)) == moka_capacity(*old(cache)),
        moka_consistent(*final(cache)),
        moka_overfilled(*final(cache)) ==> moka_contents(*old(cache)).contains_key(key@)
            || !is_within(moka_contents(*old(cache)), moka_capacity(*old(cache))),
        moka_contents(*final(cache)).submap_of(moka_contents(*old(cache)).insert(key@, value@)),
        is_within(moka_contents(*old(cache)), moka_capacity(*old(cache))) ==> moka_contents(
            *final(cache),
        ) == moka_contents(*old(cache)).insert(key@, value@),
{
    cache.insert(key, value)
}

/// [`mini_moka::sync::ConcurrentCacheExt::sync`]: settles all past insertions.
///
/// That drops nothing if the values fit together. Otherwise new values are admitted only in the
/// place of others that weigh as much, and if a value was replaced by a larger one, the least
/// recently used values are dropped, up to [`EVICTION_BATCH_SIZE`] of them. Which of the new and old
/// values stay is not stated: it depends on past accesses.
#[verifier::external_body]
fn moka_sync(cache: &mut MokaCache)
    requires
        moka_consistent(*old(cache)),
    ensures
        moka_capacity(*final(cache)) == moka_capacity(*old(cache)),
        moka_settled(*final(cache)),
        moka_consistent(*final(cache)),
        moka_contents(*final(cache)).submap_of(moka_contents(*old(cache))),
        is_within(moka_contents(*old(cache)), moka_capacity(*old(cache))) ==> moka_contents(
            *final(cache),
        ) == moka_contents(*old(cache)),
        !moka_overfilled(*old(cache)) || moka_contents(*old(cache)).dom().len()
            <= EVICTION_BATCH_SIZE ==> is_within(
            moka_contents(*final(cache)),
            moka_capacity(*final(cache)),
        ),
{
    cache.sync()
}

/// [`mini_moka::sync::Cache::entry_count`]: the number of values, once past insertions are settled.
#[verifier::external_body]
fn moka_entry_count(cache: &MokaCache) -> (count: u64)
    requires
        moka_settled(*cache),
    ensures
        count == moka_contents(*cache).dom().len(),
{
    cache.entry_count()
}

/// [`mini_moka::sync::Cache::weighted_size`]: the total size of the values, once past insertions
/// are settled.
#[verifier::external_body]
fn moka_weighted_size(cache: &MokaCache) -> (size: u64)
    requires
        moka_settled(*cache),
    ensures
        size == s3_fifo::map_len(moka_contents(*cache)),
{
    cache.weighted_size()
}

/// Mathematical content of a [`TinyLfu`] cache.
#[verifier::ext_equal]
pub struct TinyLfuModel {
    pub contents: Map<Seq<char>, base_cache::ValueModel>,
    pub capacity: u64,
    pub cache_metrics: CacheMetricCounters,
}

impl TinyLfuModel {
    /// Whether the cache accepts a value of `len` bytes: within its capacity, and weighable with
    /// 32 bits. Beyond that a value would be silently underweighted.
    pub open spec fn accepts(self, len: nat) -> bool {
        len <= self.capacity && len <= u32::MAX
    }

    /// Whether a value of `len` bytes can be accounted for together with those held: the number of
    /// values and the sum of their sizes fit in 64 bits.
    pub open spec fn can_account(self, len: nat) -> bool {
        &&& self.contents.dom().len() < u64::MAX
        &&& s3_fifo::map_len(self.contents) + len <= u64::MAX
    }

    /// Whether the values stay within the capacity.
    pub open spec fn is_within_capacity(self) -> bool {
        is_within(self.contents, self.capacity)
    }

    /// Whether a value of `len` bytes for `key` is accepted, and fits next to the other values.
    pub open spec fn fits(self, key: Seq<char>, len: nat) -> bool {
        &&& self.accepts(len)
        &&& self.is_within_capacity()
        &&& s3_fifo::map_len(self.contents.remove(key)) + len <= self.capacity
    }

    /// The model with these values. The others, with which there would be `num_items` values with
    /// `num_bytes` bytes, are counted as evicted.
    pub open spec fn left_with(
        self,
        contents: Map<Seq<char>, base_cache::ValueModel>,
        num_items: nat,
        num_bytes: nat,
    ) -> TinyLfuModel {
        TinyLfuModel {
            contents,
            cache_metrics: self.cache_metrics.evicted(
                (num_items - contents.dom().len()) as u64,
                (num_bytes - s3_fifo::map_len(contents)) as u64,
            ),
            ..self
        }
    }

    /// Whether an insertion may lead from this model to `after`.
    ///
    /// A value that is not accepted changes nothing. Otherwise the new value may take the place of
    /// others, or not be stored, and whatever left is counted as evicted. While all values fit, it
    /// is stored, and replaces only the value of its key. The values do not come to exceed the
    /// capacity, unless a larger value replaces another one among many.
    pub open spec fn may_put(
        self,
        key: Seq<char>,
        value: base_cache::ValueModel,
        after: TinyLfuModel,
    ) -> bool {
        if !self.accepts(value.len()) {
            after == self
        } else {
            let stored = TinyLfuModel {
                cache_metrics: self.cache_metrics.stored(value.len() as u64),
                ..self
            };
            &&& after == stored.left_with(
                after.contents,
                self.contents.dom().len() + 1,
                s3_fifo::map_len(self.contents) + value.len(),
            )
            &&& after.contents.submap_of(self.contents.insert(key, value))
            &&& self.fits(key, value.len()) ==> after.contents == self.contents.insert(key, value)
            &&& self.is_within_capacity() && !self.contents.contains_key(key)
                ==> after.is_within_capacity()
            &&& self.contents.dom().len() < EVICTION_BATCH_SIZE ==> after.is_within_capacity()
        }
    }

    /// Whether values may be dropped, to get back to the capacity, so that `after` is left. Those
    /// are counted as evicted.
    pub open spec fn may_settle(self, after: TinyLfuModel) -> bool {
        &&& after == self.left_with(
            after.contents,
            self.contents.dom().len(),
            s3_fifo::map_len(self.contents),
        )
        &&& after.contents.submap_of(self.contents)
        &&& self.is_within_capacity() ==> after.contents == self.contents
    }

    /// Whether a lookup may lead from this model to `after`.
    pub open spec fn may_get(self, key: Seq<char>, after: TinyLfuModel) -> bool {
        let looked_up = TinyLfuModel {
            cache_metrics: if self.contents.contains_key(key) {
                self.cache_metrics.hit(self.contents[key].len() as u64)
            } else {
                self.cache_metrics.miss()
            },
            ..self
        };
        looked_up.may_settle(after)
    }
}

/// A cache that prefers the values that are accessed often.
pub struct TinyLfu {
    cache: MokaCache,
    capacity: u64,
    cache_metrics: CacheMetricCounters,
}

impl View for TinyLfu {
    type V = TinyLfuModel;

    closed spec fn view(&self) -> TinyLfuModel {
        TinyLfuModel {
            contents: moka_contents(self.cache),
            capacity: self.capacity,
            cache_metrics: self.cache_metrics,
        }
    }
}

impl TinyLfu {
    /// The cache was made with the capacity on record, and has settled all insertions.
    pub closed spec fn wf(&self) -> bool {
        &&& moka_capacity(self.cache) == self.capacity
        &&& moka_settled(self.cache)
        &&& moka_consistent(self.cache)
        &&& moka_contents(self.cache).dom().finite()
    }

    /// Creates an empty cache with the given capacity.
    pub fn with_capacity(capacity: u64, cache_metrics: CacheMetricCounters) -> (cache: TinyLfu)
        ensures
            cache.wf(),
            cache@ == (TinyLfuModel { contents: Map::empty(), capacity, cache_metrics }),
    {
        TinyLfu { cache: moka_build(capacity), capacity, cache_metrics }
    }

    /// Counts the values that have left as evicted, given how many values with how many bytes
    /// there would be with them.
    fn record_left(&mut self, num_items: u64, num_bytes: u64)
        requires
            old(self).wf(),
            old(self)@.contents.dom().len() <= num_items,
            s3_fifo::map_len(old(self)@.contents) <= num_bytes,
        ensures
            final(self).wf(),
            final(self)@ == old(self)@.left_with(
                old(self)@.contents,
                num_items as nat,
                num_bytes as nat,
            ),
    {
        let evicted_items: u64 = num_items - moka_entry_count(&self.cache);
        let evicted_bytes: u64 = num_bytes - moka_weighted_size(&self.cache);
        self.cache_metrics.record_evicted(evicted_items, evicted_bytes);
    }

    /// Returns the value of `key`.
    pub fn get(&mut self, key: &str) -> (value: Option<CacheValue>)
        requires
            old(self).wf(),
        ensures
            final(self).wf(),
            old(self)@.may_get(key@, final(self)@),
            match value {
                Some(value) => old(self)@.contents.contains_key(key@) && old(self)@.contents[key@]
                    == value@,
                None => !old(self)@.contents.contains_key(key@),
            },
    {
        let num_items: u64 = moka_entry_count(&self.cache);
        let num_bytes: u64 = moka_weighted_size(&self.cache);
        let value_opt = moka_get(&mut self.cache, &key.to_owned());
        match &value_opt {
            Some(value) => self.cache_metrics.record_hit(value.len() as u64),
            None => self.cache_metrics.record_miss(),
        }
        proof {
            s3_fifo::lemma_map_len_submap(self@.contents, old(self)@.contents);
        }
        self.record_left(num_items, num_bytes);
        value_opt
    }

    /// Attempts to put the given value in the cache.
    ///
    /// This fails silently if the value is larger than the cache capacity, or than what 32 bits
    /// can hold.
    pub fn put(&mut self, key: String, value: CacheValue)
        requires
            old(self).wf(),
            old(self)@.can_account(value@.len()),
        ensures
            final(self).wf(),
            old(self)@.may_put(key@, value@, final(self)@),
    {
        let len: u64 = value.len() as u64;
        if self.capacity < len {
            return ;
        }
        if len > u32::MAX as u64 {
            return ;
        }
        let num_items: u64 = moka_entry_count(&self.cache);
        let num_bytes: u64 = moka_weighted_size(&self.cache);
        self.cache_metrics.record_stored(len);
        let ghost before = self@.contents;
        let ghost inserted = before.insert(key@, value@);
        proof {
            assert(inserted.remove(key@) =~= before.remove(key@));
            s3_fifo::lemma_map_len_remove(inserted, key@);
            if before.contains_key(key@) {
                s3_fifo::lemma_map_len_remove(before, key@);
            } else {
                assert(before.remove(key@) =~= before);
            }
        }
        moka_insert(&mut self.cache, key, value);
        let ghost pending = self@.contents;
        proof {
            s3_fifo::lemma_map_len_submap(pending, inserted);
        }
        moka_sync(&mut self.cache);
        proof {
            assert forall|k: Seq<char>| #[trigger] self@.contents.contains_key(k) implies
                inserted.contains_key(k) && self@.contents[k] == inserted[k] by {
                assert(pending.contains_key(k));
            }
            s3_fifo::lemma_map_len_submap(self@.contents, inserted);
        }
        self.record_left(num_items + 1, num_bytes + len);
    }

    /// Drops values, if they exceed the capacity, and counts them as evicted.
    pub fn settle(&mut self)
        requires
            old(self).wf(),
        ensures
            final(self).wf(),
            old(self)@.may_settle(final(self)@),
            old(self)@.contents.dom().len() <= EVICTION_BATCH_SIZE
                ==> final(self)@.is_within_capacity(),
    {
        let num_items: u64 = moka_entry_count(&self.cache);
        let num_bytes: u64 = moka_weighted_size(&self.cache);
        moka_sync(&mut self.cache);
        proof {
            s3_fifo::lemma_map_len_submap(self@.contents, old(self)@.contents);
        }
        self.record_left(num_items, num_bytes);
    }

    /// Whether a value of `len` bytes can be accounted for together with those held.
    pub fn accounts_for(&self, len: usize) -> (possible: bool)
        requires
            self.wf(),
        ensures
            possible == self@.can_account(len as nat),
    {
        moka_entry_count(&self.cache) < u64::MAX && moka_weighted_size(&self.cache) <= u64::MAX
            - len as u64
    }

    /// The counters of the cache.
    pub fn counters(&self) -> (counters: CacheMetricCounters)
        ensures
            counters == self@.cache_metrics,
    {
        self.cache_metrics
    }

    /// Ends the cache, and returns its counters. Insertions are settled first. What the cache then
    /// holds is subtracted from the gauges, and not counted as evicted.
    pub fn close(self) -> (counters: CacheMetricCounters)
        requires
            self.wf(),
        ensures
            exists|settled: TinyLfuModel| #[trigger]
                self@.may_settle(settled) && counters == settled.cache_metrics.removed(
                    settled.contents.dom().len() as u64,
                    s3_fifo::map_len(settled.contents) as u64,
                ),
    {
        let mut cache = self;
        cache.settle();
        let mut counters = cache.cache_metrics;
        counters.record_removed(moka_entry_count(&cache.cache), moka_weighted_size(&cache.cache));
        proof {
            assert(self@.may_settle(cache@));
        }
        counters
    }
}

/// A lookup right after an insertion finds the value, if all the values fit under the capacity. A
/// value that the cache does not accept changes nothing.
pub proof fn law_tiny_lfu_put_then_get(
    before: TinyLfuModel,
    key: Seq<char>,
    value: base_cache::ValueModel,
    after: TinyLfuModel,
)
    requires
        before.may_put(key, value, after),
    ensures
        before.fits(key, value.len()) ==> after.contents.contains_key(key) && after.contents[key]
            == value,
        !before.accepts(value.len()) ==> after == before,
{
}

/// Values within the capacity stay so by the insertion of a new key, by a lookup, and by any
/// insertion into a cache with few values.
pub proof fn law_tiny_lfu_capacity(
    before: TinyLfuModel,
    key: Seq<char>,
    value: base_cache::ValueModel,
    after_put: TinyLfuModel,
    after_get: TinyLfuModel,
)
    requires
        before.is_within_capacity(),
        before.may_put(key, value, after_put),
        before.may_get(key, after_get),
    ensures
        !before.contents.contains_key(key) || before.contents.dom().len() < EVICTION_BATCH_SIZE
            ==> after_put.is_within_capacity(),
        after_get.is_within_capacity(),
{
}

/// An insertion leaves no other values than those before, as they were, and the new one. The new one
/// is stored, and all others stay, if it fits next to them. What goes is counted as evicted, and the
/// gauges tell what is held. A value larger than the capacity, or than 32 bits can weigh, changes
/// nothing. (Counters that wrap around are left out.)
pub proof fn law_tiny_lfu_insertion(
    before: TinyLfuModel,
    key: Seq<char>,
    value: base_cache::ValueModel,
    after: TinyLfuModel,
    other: Seq<char>,
)
    requires
        before.may_put(key, value, after),
        before.contents.dom().finite(),
        before.cache_metrics.in_cache_count == before.contents.dom().len(),
        before.cache_metrics.in_cache_num_bytes == s3_fifo::map_len(before.contents),
        before.contents.dom().len() < i64::MAX,
        s3_fifo::map_len(before.contents) + value.len() <= i64::MAX,
        before.cache_metrics.evict_num_items + before.contents.dom().len() < u64::MAX,
        before.cache_metrics.evict_num_bytes + s3_fifo::map_len(before.contents) + value.len()
            <= u64::MAX,
    ensures
        value.len() > before.capacity || value.len() > u32::MAX ==> after == before,
        value.len() <= before.capacity && value.len() <= u32::MAX ==> {
            &&& after.capacity == before.capacity
            &&& after.contents.contains_key(key) ==> after.contents[key] == value
            &&& other != key && after.contents.contains_key(other) ==> before.contents.contains_key(
                other,
            ) && after.contents[other] == before.contents[other]
            &&& s3_fifo::map_len(before.contents) <= before.capacity && s3_fifo::map_len(
                before.contents.remove(key),
            ) + value.len() <= before.capacity ==> after.contents.contains_key(key) && (
            before.contents.contains_key(other) ==> after.contents.contains_key(other))
            &&& s3_fifo::map_len(before.contents) <= before.capacity && (
            !before.contents.contains_key(key) || before.contents.dom().len() < 500)
                ==> s3_fifo::map_len(after.contents) <= after.capacity
            &&& after.cache_metrics.in_cache_count == after.contents.dom().len()
            &&& after.cache_metrics.in_cache_num_bytes == s3_fifo::map_len(after.contents)
            &&& after.cache_metrics.evict_num_items == before.cache_metrics.evict_num_items
                + before.contents.dom().len() + 1 - after.contents.dom().len()
            &&& after.cache_metrics.evict_num_bytes == before.cache_metrics.evict_num_bytes
                + s3_fifo::map_len(before.contents) + value.len() - s3_fifo::map_len(after.contents)
            &&& after.cache_metrics.hits_num_items == before.cache_metrics.hits_num_items
            &&& after.cache_metrics.hits_num_bytes == before.cache_metrics.hits_num_bytes
            &&& after.cache_metrics.misses_num_items == before.cache_metrics.misses_num_items
        },
{
    if value.len() <= before.capacity && value.len() <= u32::MAX {
        let inserted = before.contents.insert(key, value);
        assert(inserted.remove(key) =~= before.contents.remove(key));
        s3_fifo::lemma_map_len_remove(inserted, key);
        if before.contents.contains_key(key) {
            s3_fifo::lemma_map_len_remove(before.contents, key);
        } else {
            assert(before.contents.remove(key) =~= before.contents);
        }
        s3_fifo::lemma_map_len_submap(after.contents, inserted);
        if other != key && after.contents.contains_key(other) {
            assert(after.contents.dom().contains(other) && inserted.dom().contains(other));
        }
        if after.contents.contains_key(key) {
            assert(after.contents.dom().contains(key) && inserted.dom().contains(key));
        }
    }
}

/// A lookup changes no value while the values are within the capacity, and only takes values away
/// otherwise. It counts as a hit, with the size of the value, if there is one, and as a miss
/// otherwise.
pub proof fn law_tiny_lfu_lookup(
    before: TinyLfuModel,
    key: Seq<char>,
    after: TinyLfuModel,
    other: Seq<char>,
)
    requires
        before.may_get(key, after),
        before.contents.dom().finite(),
        before.cache_metrics.hits_num_items < u64::MAX,
        before.cache_metrics.misses_num_items < u64::MAX,
    ensures
        after.capacity == before.capacity,
        after.contents.contains_key(other) ==> before.contents.contains_key(other)
            && after.contents[other] == before.contents[other],
        s3_fifo::map_len(before.contents) <= before.capacity ==> after.contents == before.contents
            && after.cache_metrics.evict_num_items == before.cache_metrics.evict_num_items
            && after.cache_metrics.evict_num_bytes == before.cache_metrics.evict_num_bytes
            && after.cache_metrics.in_cache_count == before.cache_metrics.in_cache_count
            && after.cache_metrics.in_cache_num_bytes == before.cache_metrics.in_cache_num_bytes,
        before.contents.contains_key(key) ==> after.cache_metrics.hits_num_items
            == before.cache_metrics.hits_num_items + 1 && after.cache_metrics.hits_num_bytes
            == before.cache_metrics.hits_num_bytes.wrapping_add(
            before.contents[key].len() as u64,
        ) && after.cache_metrics.misses_num_items == before.cache_metrics.misses_num_items,
        !before.contents.contains_key(key) ==> after.cache_metrics.misses_num_items
            == before.cache_metrics.misses_num_items + 1 && after.cache_metrics.hits_num_items
            == before.cache_metrics.hits_num_items && after.cache_metrics.hits_num_bytes
            == before.cache_metrics.hits_num_bytes,
{
    if after.contents.contains_key(other) {
        assert(before.contents.contains_key(other));
    }
}

} // verus!
