//! Counters that caches keep about themselves.
use vstd::prelude::*;

verus! {

/// What a cache reports: counters that only grow, and gauges of what it holds. All of them wrap
/// around.
#[derive(Clone, Copy, Debug, PartialEq, Eq, Structural)]
pub struct CacheMetricCounters {
    /// Lookups that found a value.
    pub hits_num_items: u64,
    /// Bytes of the values found.
    pub hits_num_bytes: u64,
    /// Lookups that found nothing.
    pub misses_num_items: u64,
    /// Gauge of the values held.
    pub in_cache_count: i64,
    /// Gauge of the bytes held.
    pub in_cache_num_bytes: i64,
    /// Values evicted.
    pub evict_num_items: u64,
    /// Bytes of the values evicted.
    pub evict_num_bytes: u64,
}

impl CacheMetricCounters {
    /// After a lookup that found `num_bytes` bytes.
    pub open spec fn hit(self, num_bytes: u64) -> CacheMetricCounters {
        CacheMetricCounters {
            hits_num_items: self.hits_num_items.wrapping_add(1),
            hits_num_bytes: self.hits_num_bytes.wrapping_add(num_bytes),
            ..self
        }
    }

    /// After a lookup that found nothing.
    pub open spec fn miss(self) -> CacheMetricCounters {
        CacheMetricCounters { misses_num_items: self.misses_num_items.wrapping_add(1), ..self }
    }

    /// After storing a value of `num_bytes` bytes.
    pub open spec fn stored(self, num_bytes: u64) -> CacheMetricCounters {
        CacheMetricCounters {
            in_cache_count: self.in_cache_count.wrapping_add(1),
            in_cache_num_bytes: self.in_cache_num_bytes.wrapping_add(num_bytes as i64),
            ..self
        }
    }

    /// After `num_items` values with `num_bytes` bytes in total are gone, without an eviction.
    pub open spec fn removed(self, num_items: u64, num_bytes: u64) -> CacheMetricCounters {
        CacheMetricCounters {
            in_cache_count: self.in_cache_count.wrapping_sub(num_items as i64),
            in_cache_num_bytes: self.in_cache_num_bytes.wrapping_sub(num_bytes as i64),
            ..self
        }
    }

    /// After the eviction of `num_items` values with `num_bytes` bytes in total.
    pub open spec fn evicted(self, num_items: u64, num_bytes: u64) -> CacheMetricCounters {
        CacheMetricCounters {
            in_cache_count: self.in_cache_count.wrapping_sub(num_items as i64),
            in_cache_num_bytes: self.in_cache_num_bytes.wrapping_sub(num_bytes as i64),
            evict_num_items: self.evict_num_items.wrapping_add(num_items),
            evict_num_bytes: self.evict_num_bytes.wrapping_add(num_bytes),
            ..self
        }
    }

    /// Counters that all stand at zero.
    pub fn new() -> (counters: CacheMetricCounters)
        ensures
            counters == (CacheMetricCounters {
                hits_num_items: 0,
                hits_num_bytes: 0,
                misses_num_items: 0,
                in_cache_count: 0,
                in_cache_num_bytes: 0,
                evict_num_items: 0,
                evict_num_bytes: 0,
            }),
    {
        CacheMetricCounters {
            hits_num_items: 0,
            hits_num_bytes: 0,
            misses_num_items: 0,
            in_cache_count: 0,
            in_cache_num_bytes: 0,
            evict_num_items: 0,
            evict_num_bytes: 0,
        }
    }

    /// Counts a lookup that found `num_bytes` bytes.
    pub fn record_hit(&mut self, num_bytes: u64)
        ensures
            *final(self) == old(self).hit(num_bytes),
    {
        self.hits_num_items = self.hits_num_items.wrapping_add(1);
        self.hits_num_bytes = self.hits_num_bytes.wrapping_add(num_bytes);
    }

    /// Counts a lookup that found nothing.
    pub fn record_miss(&mut self)
        ensures
            *final(self) == old(self).miss(),
    {
        self.misses_num_items = self.misses_num_items.wrapping_add(1);
    }

    /// Counts a value of `num_bytes` bytes as held.
    pub fn record_stored(&mut self, num_bytes: u64)
        ensures
            *final(self) == old(self).stored(num_bytes),
    {
        self.in_cache_count = self.in_cache_count.wrapping_add(1);
        self.in_cache_num_bytes = self.in_cache_num_bytes.wrapping_add(num_bytes as i64);
    }

    /// Counts values as no longer held, without counting an eviction.
    pub fn record_removed(&mut self, num_items: u64, num_bytes: u64)
        ensures
            *final(self) == old(self).removed(num_items, num_bytes),
    {
        self.in_cache_count = self.in_cache_count.wrapping_sub(num_items as i64);
        self.in_cache_num_bytes = self.in_cache_num_bytes.wrapping_sub(num_bytes as i64);
    }

    /// Counts values as evicted.
    pub fn record_evicted(&mut self, num_items: u64, num_bytes: u64)
        ensures
            *final(self) == old(self).evicted(num_items, num_bytes),
    {
        self.record_removed(num_items, num_bytes);
        self.evict_num_items = self.evict_num_items.wrapping_add(num_items);
        self.evict_num_bytes = self.evict_num_bytes.wrapping_add(num_bytes);
    }
}

/// Each event changes the counters that it is about, and no others: a lookup those of hits or misses,
/// a stored value the gauges, a value that goes the gauges, and an eviction those of evictions too.
/// (Counters that wrap around are left out.)
pub proof fn law_events_change_their_counters(
    counters: CacheMetricCounters,
    num_items: u64,
    num_bytes: u64,
)
    requires
        0 <= counters.in_cache_count < i64::MAX,
        0 <= counters.in_cache_num_bytes,
        num_items <= i64::MAX,
        counters.in_cache_num_bytes + num_bytes <= i64::MAX,
        counters.hits_num_items < u64::MAX,
        counters.hits_num_bytes + num_bytes <= u64::MAX,
        counters.misses_num_items < u64::MAX,
        counters.evict_num_items + num_items <= u64::MAX,
        counters.evict_num_bytes + num_bytes <= u64::MAX,
    ensures
        ({
            let hit = counters.hit(num_bytes);
            let miss = counters.miss();
            let stored = counters.stored(num_bytes);
            let removed = counters.removed(num_items, num_bytes);
            let evicted = counters.evicted(num_items, num_bytes);
            &&& hit.hits_num_items == counters.hits_num_items + 1
            &&& hit.hits_num_bytes == counters.hits_num_bytes + num_bytes
            &&& hit.misses_num_items == counters.misses_num_items
            &&& hit.in_cache_count == counters.in_cache_count
            &&& hit.in_cache_num_bytes == counters.in_cache_num_bytes
            &&& hit.evict_num_items == counters.evict_num_items
            &&& hit.evict_num_bytes == counters.evict_num_bytes
            &&& miss.hits_num_items == counters.hits_num_items
            &&& miss.hits_num_bytes == counters.hits_num_bytes
            &&& miss.misses_num_items == counters.misses_num_items + 1
            &&& miss.in_cache_count == counters.in_cache_count
            &&& miss.in_cache_num_bytes == counters.in_cache_num_bytes
            &&& miss.evict_num_items == counters.evict_num_items
            &&& miss.evict_num_bytes == counters.evict_num_bytes
            &&& stored.hits_num_items == counters.hits_num_items
            &&& stored.hits_num_bytes == counters.hits_num_bytes
            &&& stored.misses_num_items == counters.misses_num_items
            &&& stored.in_cache_count == counters.in_cache_count + 1
            &&& stored.in_cache_num_bytes == counters.in_cache_num_bytes + num_bytes
            &&& stored.evict_num_items == counters.evict_num_items
            &&& stored.evict_num_bytes == counters.evict_num_bytes
            &&& removed.hits_num_items == counters.hits_num_items
            &&& removed.hits_num_bytes == counters.hits_num_bytes
            &&& removed.misses_num_items == counters.misses_num_items
            &&& removed.in_cache_count == counters.in_cache_count - num_items
            &&& removed.in_cache_num_bytes == counters.in_cache_num_bytes - num_bytes
            &&& removed.evict_num_items == counters.evict_num_items
            &&& removed.evict_num_bytes == counters.evict_num_bytes
            &&& evicted.hits_num_items == counters.hits_num_items
            &&& evicted.hits_num_bytes == counters.hits_num_bytes
            &&& evicted.misses_num_items == counters.misses_num_items
            &&& evicted.in_cache_count == counters.in_cache_count - num_items
            &&& evicted.in_cache_num_bytes == counters.in_cache_num_bytes - num_bytes
            &&& evicted.evict_num_items == counters.evict_num_items + num_items
            &&& evicted.evict_num_bytes == counters.evict_num_bytes + num_bytes
        }),
{
}

} // verus!
