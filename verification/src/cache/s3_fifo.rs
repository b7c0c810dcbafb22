//! A cache backed by the `quick_cache` crate.
use super::base_cache::{CacheValue, ESTIMATED_ITEM_NUM_BYTES};
use super::base_cache;
use super::counters::CacheMetricCounters;
use vstd::prelude::*;

verus! {

/// Weighs the values of a [`S3Fifo`] cache: each one counts for its size.
pub struct QuickCacheWeighter;

impl quick_cache::Weighter<String, CacheValue> for QuickCacheWeighter {
    fn weight(&self, _key: &String, value: &CacheValue) -> (weight: u64)
        ensures
            weight == value@.len(),
    {
        value.len() as u64
    }
}

/// Counts what leaves a [`S3Fifo`] cache.
pub struct QuickCacheLifecycle;

/// What left a [`S3Fifo`] cache during one insertion.
pub struct QuickCacheQueryEffect {
    pub count: u64,
    pub bytes: u64,
}

impl quick_cache::Lifecycle<String, CacheValue> for QuickCacheLifecycle {
    type RequestState = QuickCacheQueryEffect;

    fn begin_request(&self) -> (state: QuickCacheQueryEffect)
        ensures
            state.count == 0,
            state.bytes == 0,
    {
        QuickCacheQueryEffect { count: 0, bytes: 0 }
    }

    fn on_evict(&self, state: &mut QuickCacheQueryEffect, _key: String, value: CacheValue)
        ensures
            final(state).count == old(state).count.wrapping_add(1),
            final(state).bytes == old(state).bytes.wrapping_add(value@.len() as u64),
    {
        state.count = state.count.wrapping_add(1);
        state.bytes = state.bytes.wrapping_add(value.len() as u64);
    }
}

/// The hash builder of `quick_cache`.
#[verifier::external_type_specification]
#[verifier::external_body]
pub struct ExQuickHashBuilder(quick_cache::DefaultHashBuilder);

/// The single-threaded cache of `quick_cache`.
#[verifier::external_type_specification]
#[verifier::external_body]
#[verifier::reject_recursive_types(Key)]
#[verifier::reject_recursive_types(Val)]
#[verifier::reject_recursive_types(We)]
#[verifier::reject_recursive_types(B)]
#[verifier::reject_recursive_types(L)]
pub struct ExQuickCache<Key, Val, We, B, L>(quick_cache::unsync::Cache<Key, Val, We, B, L>);

/// The outside cache, as it is used here.
pub type QuickCache = quick_cache::unsync::Cache<
    String,
    CacheValue,
    QuickCacheWeighter,
    quick_cache::DefaultHashBuilder,
    QuickCacheLifecycle,
>;

/// The values that a [`QuickCache`] holds, by key.
pub uninterp spec fn quick_contents(cache: QuickCache) -> Map<Seq<char>, base_cache::ValueModel>;

/// The capacity that a [`QuickCache`] was made with, in bytes.
pub uninterp spec fn quick_capacity(cache: QuickCache) -> u64;

/// The number of items that a [`QuickCache`] was made for.
pub uninterp spec fn quick_estimated_items(cache: QuickCache) -> usize;

/// The keys that a [`QuickCache`] finds an entry for: those that it holds a value for, and those
/// whose hash is that of a key that has left, as long as it is kept.
pub uninterp spec fn quick_remembered(cache: QuickCache) -> Set<Seq<char>>;

/// Total size of the values of a map.
pub open spec fn map_len(values: Map<Seq<char>, base_cache::ValueModel>) -> nat
    decreases values.dom().len(),
{
    if values.dom().finite() && values.dom().len() > 0 {
        let key = values.dom().choose();
        values[key].len() + map_len(values.remove(key))
    } else {
        0
    }
}

/// The total of a map, with the value of one key counted apart.
pub proof fn lemma_map_len_remove(values: Map<Seq<char>, base_cache::ValueModel>, key: Seq<char>)
    requires
        values.dom().finite(),
        values.contains_key(key),
    ensures
        map_len(values) == values[key].len() + map_len(values.remove(key)),
    decreases values.dom().len(),
{
    let first = values.dom().choose();
    if first != key {
        let rest = values.remove(first);
        lemma_map_len_remove(rest, key);
        assert(rest.remove(key) =~= values.remove(key).remove(first));
        lemma_map_len_remove(values.remove(key), first);
    }
}

/// What a map holds of another one does not exceed it.
pub proof fn lemma_map_len_submap(
    part: Map<Seq<char>, base_cache::ValueModel>,
    whole: Map<Seq<char>, base_cache::ValueModel>,
)
    requires
        whole.dom().finite(),
        part.submap_of(whole),
    ensures
        part.dom().finite(),
        part.dom().len() <= whole.dom().len(),
        map_len(part) <= map_len(whole),
    decreases whole.dom().len(),
{
    assert(part.dom().subset_of(whole.dom()));
    vstd::set_lib::lemma_len_subset(part.dom(), whole.dom());
    if part.dom().len() > 0 {
        let key = part.dom().choose();
        assert(part.dom().contains(key));
        lemma_map_len_remove(part, key);
        lemma_map_len_remove(whole, key);
        lemma_map_len_submap(part.remove(key), whole.remove(key));
    }
}

/// No keys.
pub open spec fn no_keys() -> Set<Seq<char>> {
    Set::empty()
}

/// Whether a value of `len` bytes is small enough to be admitted: it takes at most 96% of the
/// capacity.
pub open spec fn is_admissible(len: nat, capacity: u64) -> bool {
    25 * len <= 24 * capacity
}

/// Whether a value of `len` bytes is too large to be admitted, although it does not exceed the
/// capacity: it takes more than 98% of it. (A capacity of a single byte admits a value of one
/// byte.)
pub open spec fn is_inadmissible(len: nat, capacity: u64) -> bool {
    capacity >= 2 && 50 * len > 49 * capacity
}

/// [`quick_cache::unsync::Cache::with`]: an empty cache for about `estimated_items_capacity` items
/// with `capacity` bytes in total.
#[verifier::external_body]
fn quick_with(estimated_items_capacity: usize, capacity: u64) -> (cache: QuickCache)
    ensures
        quick_contents(cache) == base_cache::no_values(),
        quick_capacity(cache) == capacity,
        quick_estimated_items(cache) == estimated_items_capacity,
        quick_remembered(cache) == no_keys(),
{
    quick_cache::unsync::Cache::with(
        estimated_items_capacity,
        capacity,
        QuickCacheWeighter,
        quick_cache::DefaultHashBuilder::new(),
        QuickCacheLifecycle,
    )
}

/// [`quick_cache::unsync::Cache::get`]: the value of a key. It counts as an access, which the
/// contents do not show.
#[verifier::external_body]
fn quick_get<'a>(cache: &'a QuickCache, key: &str) -> (value: Option<&'a CacheValue>)
    ensures
        match value {
            Some(value) => quick_contents(*cache).contains_key(key@) && quick_contents(
                *cache,
            )[key@] == value@,
            None => !quick_contents(*cache).contains_key(key@),
        },
{
    cache.get(key)
}

/// [`quick_cache::unsync::Cache::insert_with_lifecycle`]: sets the value of a key.
///
/// The cache may drop values, but adds nothing else than the new one. Every value that leaves it is
/// handed to the life cycle, the value replaced and the new value too: these are counted in the
/// result. The contents stay within the capacity.
///
/// A value that takes more than 97% of the capacity is not admitted: it only takes the place of the
/// value of its key. As 97% is computed with floating point numbers, this is stated above 98%, and
/// what follows up to 96%. While the values fit together, nothing but the value replaced leaves. For
/// a key that the cache finds no entry for, room is made first, and the new value then stored. For
/// one that it does find an entry for, room is made afterwards: which values leave then is not
/// stated, nor which other values make room, as this depends on past accesses.
///
/// A key is remembered from its insertion on. Another one can come to be remembered only by the
/// hash of a value that has left, and none does where the cache was made for less than two items.
///
/// There can be at most `u32::MAX - 1` entries. Besides the values, keys that have left keep an
/// entry, up to half of the number of items that the cache was made for.
#[verifier::external_body]
fn quick_insert(cache: &mut QuickCache, key: String, value: CacheValue) -> (effect:
    QuickCacheQueryEffect)
    requires
        value@.len() <= quick_capacity(*old(cache)),
        map_len(quick_contents(*old(cache))) <= quick_capacity(*old(cache)),
        map_len(quick_contents(*old(cache))) + value@.len() <= u64::MAX,
        quick_contents(*old(cache)).dom().len() + quick_estimated_items(*old(cache)) / 2
            <= u32::MAX - 2,
    ensures
        quick_estimated_items(*final(cache)) == quick_estimated_items(*old(cache)),
        quick_capacity(*final(cache)) == quick_capacity(*old(cache)),
        quick_contents(*final(cache)).submap_of(quick_contents(*old(cache)).insert(key@, value@)),
        map_len(quick_contents(*final(cache))) <= quick_capacity(*old(cache)),
        effect.count == quick_contents(*old(cache)).dom().len() + 1 - quick_contents(
            *final(cache),
        ).dom().len(),
        effect.bytes == map_len(quick_contents(*old(cache))) + value@.len() - map_len(
            quick_contents(*final(cache)),
        ),
        is_admissible(value@.len(), quick_capacity(*old(cache))) && map_len(
            quick_contents(*old(cache)).remove(key@),
        ) + value@.len() <= quick_capacity(*old(cache)) ==> quick_contents(*final(cache))
            == quick_contents(*old(cache)).insert(key@, value@),
        is_admissible(value@.len(), quick_capacity(*old(cache))) && !quick_remembered(
            *old(cache),
        ).contains(key@) ==> quick_contents(*final(cache)).contains_key(key@) && quick_contents(
            *final(cache),
        )[key@] == value@,
        is_inadmissible(value@.len(), quick_capacity(*old(cache))) ==> quick_contents(*final(cache))
            == quick_contents(*old(cache)).remove(key@) && quick_remembered(
            *final(cache),
        ).subset_of(quick_remembered(*old(cache))),
        quick_contents(*final(cache)).dom().subset_of(quick_remembered(*final(cache))),
        quick_contents(*final(cache)) == quick_contents(*old(cache)).insert(key@, value@)
            || quick_estimated_items(*old(cache)) < 2 ==> quick_remembered(
            *final(cache),
        ).subset_of(quick_remembered(*old(cache)).insert(key@)),
{
    cache.insert_with_lifecycle(key, value)
}

/// [`quick_cache::unsync::Cache::len`]: the number of values.
#[verifier::external_body]
fn quick_len(cache: &QuickCache) -> (len: usize)
    ensures
        len == quick_contents(*cache).dom().len(),
{
    cache.len()
}

/// [`quick_cache::unsync::Cache::weight`]: the total size of the values.
#[verifier::external_body]
fn quick_weight(cache: &QuickCache) -> (weight: u64)
    requires
        map_len(quick_contents(*cache)) <= u64::MAX,
    ensures
        weight == map_len(quick_contents(*cache)),
{
    cache.weight()
}

/// How many items a cache with this capacity is made for.
pub open spec fn estimated_items(capacity: u64) -> usize {
    (capacity / ESTIMATED_ITEM_NUM_BYTES) as usize
}

/// Mathematical content of a [`S3Fifo`] cache.
#[verifier::ext_equal]
pub struct S3FifoModel {
    pub contents: Map<Seq<char>, base_cache::ValueModel>,
    /// Keys that the cache finds an entry for: those of its values, and some that have left.
    pub remembered: Set<Seq<char>>,
    pub capacity: u64,
    pub cache_metrics: CacheMetricCounters,
}

impl S3FifoModel {
    /// Whether a value of `len` bytes can be accounted for together with those held: the sum of
    /// the sizes fits in 64 bits, and one more entry can be numbered, besides those of the keys that
    /// have left.
    pub open spec fn can_account(self, len: nat) -> bool {
        &&& map_len(self.contents) + len <= u64::MAX
        &&& self.contents.dom().len() + estimated_items(self.capacity) / 2 <= u32::MAX - 2
    }

    /// Whether a value of `len` bytes for `key` is small enough, and fits next to the other values.
    pub open spec fn fits(self, key: Seq<char>, len: nat) -> bool {
        is_admissible(len, self.capacity) && map_len(self.contents.remove(key)) + len
            <= self.capacity
    }

    /// Whether a value of `len` bytes for `key` is small enough, and the key not remembered.
    pub open spec fn is_new(self, key: Seq<char>, len: nat) -> bool {
        is_admissible(len, self.capacity) && !self.remembered.contains(key)
    }

    /// Whether an insertion may lead from this model to `after`.
    ///
    /// A value larger than the capacity changes nothing, and one that almost takes all of it only
    /// takes the value of its key away. A value that is small enough is stored if its key is not
    /// remembered, and other values make room. It is also stored, and replaces only the value of
    /// its key, while all values fit. Whatever leaves is counted as evicted. A key comes to be
    /// remembered by its insertion, or when values leave.
    pub open spec fn may_put(
        self,
        key: Seq<char>,
        value: base_cache::ValueModel,
        after: S3FifoModel,
    ) -> bool {
        if self.capacity < value.len() {
            after == self
        } else {
            &&& after.capacity == self.capacity
            &&& after.contents.submap_of(self.contents.insert(key, value))
            &&& map_len(after.contents) <= self.capacity
            &&& after.cache_metrics == self.cache_metrics.stored(value.len() as u64).evicted(
                (self.contents.dom().len() + 1 - after.contents.dom().len()) as u64,
                (map_len(self.contents) + value.len() - map_len(after.contents)) as u64,
            )
            &&& self.fits(key, value.len()) ==> after.contents == self.contents.insert(key, value)
            &&& self.is_new(key, value.len()) ==> after.contents.contains_key(key)
                && after.contents[key] == value
            &&& is_inadmissible(value.len(), self.capacity) ==> after.contents
                == self.contents.remove(key) && after.remembered.subset_of(self.remembered)
            &&& after.contents.dom().subset_of(after.remembered)
            &&& after.contents == self.contents.insert(key, value) || estimated_items(self.capacity)
                < 2 ==> after.remembered.subset_of(self.remembered.insert(key))
        }
    }

    /// The model after a lookup.
    pub open spec fn get(self, key: Seq<char>) -> S3FifoModel {
        S3FifoModel {
            cache_metrics: if self.contents.contains_key(key) {
                self.cache_metrics.hit(self.contents[key].len() as u64)
            } else {
                self.cache_metrics.miss()
            },
            ..self
        }
    }
}

/// A cache that weighs past accesses, not only the last one.
pub struct S3Fifo {
    cache: QuickCache,
    capacity: u64,
    cache_metrics: CacheMetricCounters,
}

impl View for S3Fifo {
    type V = S3FifoModel;

    closed spec fn view(&self) -> S3FifoModel {
        S3FifoModel {
            contents: quick_contents(self.cache),
            remembered: quick_remembered(self.cache),
            capacity: self.capacity,
            cache_metrics: self.cache_metrics,
        }
    }
}

impl S3Fifo {
    /// The contents stay within the capacity.
    pub closed spec fn wf(&self) -> bool {
        &&& quick_capacity(self.cache) == self.capacity
        &&& quick_estimated_items(self.cache) == estimated_items(self.capacity)
        &&& map_len(quick_contents(self.cache)) <= self.capacity
    }

    /// Creates an empty cache with the given capacity.
    pub fn with_capacity(capacity: u64, cache_metrics: CacheMetricCounters) -> (cache: S3Fifo)
        ensures
            cache.wf(),
            cache@ == (S3FifoModel {
                contents: Map::empty(),
                remembered: Set::empty(),
                capacity,
                cache_metrics,
            }),
    {
        let estimated_items_capacity: u64 = capacity / ESTIMATED_ITEM_NUM_BYTES;
        S3Fifo {
            cache: quick_with(estimated_items_capacity as usize, capacity),
            capacity,
            cache_metrics,
        }
    }

    /// Returns the value of `key`.
    pub fn get(&mut self, key: &str) -> (value: Option<CacheValue>)
        requires
            old(self).wf(),
        ensures
            final(self).wf(),
            final(self)@ == old(self)@.get(key@),
            match value {
                Some(value) => old(self)@.contents.contains_key(key@) && old(self)@.contents[key@]
                    == value@,
                None => !old(self)@.contents.contains_key(key@),
            },
    {
        match quick_get(&self.cache, key) {
            Some(item) => {
                let value = item.clone();
                self.cache_metrics.record_hit(value.len() as u64);
                Some(value)
            },
            None => {
                self.cache_metrics.record_miss();
                None
            },
        }
    }

    /// Attempts to put the given value in the cache.
    ///
    /// This fails silently if the value is larger than the cache capacity, or takes almost all of
    /// it.
    pub fn put(&mut self, key: String, value: CacheValue)
        requires
            old(self).wf(),
            old(self)@.can_account(value@.len()),
        ensures
            final(self).wf(),
            old(self)@.may_put(key@, value@, final(self)@),
    {
        let len: u64 = value.len() as u64;
        if self.capacity < len {
            return ;
        }
        self.cache_metrics.record_stored(len);
        let evicted = quick_insert(&mut self.cache, key, value);
        self.cache_metrics.record_evicted(evicted.count, evicted.bytes);
    }

    /// Total size of the values.
    pub fn num_bytes(&self) -> (num_bytes: u64)
        requires
            self.wf(),
        ensures
            num_bytes == map_len(self@.contents),
    {
        quick_weight(&self.cache)
    }

    /// Whether a value of `len` bytes can be accounted for together with those held.
    pub fn accounts_for(&self, len: usize) -> (possible: bool)
        requires
            self.wf(),
        ensures
            possible == self@.can_account(len as nat),
    {
        let num_ghosts: u64 = (self.capacity / ESTIMATED_ITEM_NUM_BYTES) as usize as u64 / 2;
        let max_entries: u64 = u32::MAX as u64 - 2;
        self.num_bytes() <= u64::MAX - len as u64 && num_ghosts <= max_entries && quick_len(
            &self.cache,
        ) as u64 <= max_entries - num_ghosts
    }

    /// The counters of the cache.
    pub fn counters(&self) -> (counters: CacheMetricCounters)
        ensures
            counters == self@.cache_metrics,
    {
        self.cache_metrics
    }

    /// Ends the cache, and returns its counters, without what it held.
    pub fn close(self) -> (counters: CacheMetricCounters)
        requires
            self.wf(),
        ensures
            counters == self@.cache_metrics.removed(
                self@.contents.dom().len() as u64,
                map_len(self@.contents) as u64,
            ),
    {
        let mut counters = self.cache_metrics;
        counters.record_removed(quick_len(&self.cache) as u64, quick_weight(&self.cache));
        counters
    }
}

/// The contents of a well-formed cache stay within its capacity.
pub proof fn law_s3_fifo_capacity(cache: S3Fifo)
    requires
        cache.wf(),
    ensures
        map_len(cache@.contents) <= cache@.capacity,
{
}

/// A lookup right after an insertion finds the value, if it is small enough, and either all the
/// values fit under the capacity or the key is not remembered. An oversized value changes nothing.
pub proof fn law_s3_fifo_put_then_get(
    before: S3FifoModel,
    key: Seq<char>,
    value: base_cache::ValueModel,
    after: S3FifoModel,
)
    requires
        before.may_put(key, value, after),
    ensures
        before.fits(key, value.len()) || before.is_new(key, value.len())
            ==> after.contents.contains_key(key) && after.contents[key] == value,
        value.len() > before.capacity ==> after == before,
{
}

/// An insertion leaves no other values than those before, as they were, and the new one, all of them
/// within the capacity. A value of at most 96% of the capacity is stored if its key is not
/// remembered. It is stored, and all others stay, if it fits next to them. One of more than 98% only
/// takes the value of its key away. What goes is counted as evicted, and the gauges tell what is
/// held. (Counters that wrap around are left out.)
pub proof fn law_s3_fifo_insertion(
    before: S3FifoModel,
    key: Seq<char>,
    value: base_cache::ValueModel,
    after: S3FifoModel,
    other: Seq<char>,
)
    requires
        before.may_put(key, value, after),
        value.len() <= before.capacity,
        before.contents.dom().finite(),
        before.cache_metrics.in_cache_count == before.contents.dom().len(),
        before.cache_metrics.in_cache_num_bytes == map_len(before.contents),
        before.contents.dom().len() < i64::MAX,
        map_len(before.contents) + value.len() <= i64::MAX,
        before.cache_metrics.evict_num_items + before.contents.dom().len() < u64::MAX,
        before.cache_metrics.evict_num_bytes + map_len(before.contents) + value.len() <= u64::MAX,
    ensures
        after.capacity == before.capacity,
        map_len(after.contents) <= after.capacity,
        after.contents.contains_key(key) ==> after.contents[key] == value,
        other != key && after.contents.contains_key(other) ==> before.contents.contains_key(other)
            && after.contents[other] == before.contents[other],
        25 * value.len() <= 24 * before.capacity && !before.remembered.contains(key)
            ==> after.contents.contains_key(key),
        before.capacity >= 2 && 50 * value.len() > 49 * before.capacity ==> after.contents
            == before.contents.remove(key) && (after.remembered.contains(other)
            ==> before.remembered.contains(other)),
        after.contents.contains_key(other) ==> after.remembered.contains(other),
        25 * value.len() <= 24 * before.capacity && map_len(before.contents.remove(key))
            + value.len() <= before.capacity ==> after.contents.contains_key(key) && (
        before.contents.contains_key(other) ==> after.contents.contains_key(other)),
        after.cache_metrics.in_cache_count == after.contents.dom().len(),
        after.cache_metrics.in_cache_num_bytes == map_len(after.contents),
        after.cache_metrics.evict_num_items == before.cache_metrics.evict_num_items
            + before.contents.dom().len() + 1 - after.contents.dom().len(),
        after.cache_metrics.evict_num_bytes == before.cache_metrics.evict_num_bytes + map_len(
            before.contents,
        ) + value.len() - map_len(after.contents),
        after.cache_metrics.hits_num_items == before.cache_metrics.hits_num_items,
        after.cache_metrics.hits_num_bytes == before.cache_metrics.hits_num_bytes,
        after.cache_metrics.misses_num_items == before.cache_metrics.misses_num_items,
{
    let inserted = before.contents.insert(key, value);
    assert(inserted.remove(key) =~= before.contents.remove(key));
    lemma_map_len_remove(inserted, key);
    if before.contents.contains_key(key) {
        lemma_map_len_remove(before.contents, key);
    } else {
        assert(before.contents.remove(key) =~= before.contents);
    }
    lemma_map_len_submap(after.contents, inserted);
    if other != key && after.contents.contains_key(other) {
        assert(after.contents.dom().contains(other) && inserted.dom().contains(other));
    }
    if after.contents.contains_key(key) {
        assert(after.contents.dom().contains(key) && inserted.dom().contains(key));
    }
}

/// A lookup changes no value. It counts as a hit, with the size of the value, if there is one, and as
/// a miss otherwise.
pub proof fn law_s3_fifo_lookup(model: S3FifoModel, key: Seq<char>)
    ensures
        model.get(key).contents == model.contents,
        model.get(key).capacity == model.capacity,
        model.get(key).remembered == model.remembered,
        model.contents.contains_key(key) ==> model.get(key).cache_metrics
            == model.cache_metrics.hit(model.contents[key].len() as u64),
        !model.contents.contains_key(key) ==> model.get(key).cache_metrics
            == model.cache_metrics.miss(),
{
}

/// A cache is made for one item per 128 KiB of its capacity.
pub proof fn law_items_are_estimated(capacity: u64)
    requires
        capacity <= usize::MAX,
    ensures
        estimated_items(capacity) * 131_072 <= capacity,
        capacity < (estimated_items(capacity) + 1) * 131_072,
{
}

} // verus!
