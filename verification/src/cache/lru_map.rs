//! A map from strings to values that remembers the order of accesses.
//!
//! The recency order is kept by [`lru::LruCache`], which maps each key to the number of a slot.
//! The values live in the slots.
use vstd::prelude::*;

verus! {

/// The hasher of [`lru::LruCache`].
#[verifier::external_type_specification]
#[verifier::external_body]
pub struct ExLruHasher(lru::DefaultHasher);

/// The cache of the `lru` crate.
#[verifier::external_type_specification]
#[verifier::external_body]
#[verifier::reject_recursive_types(K)]
#[verifier::reject_recursive_types(V)]
#[verifier::reject_recursive_types(S)]
pub struct ExLruCache<K, V, S>(lru::LruCache<K, V, S>);

/// The keys and values of an [`lru::LruCache`], the least recently used first.
pub uninterp spec fn lru_order(cache: lru::LruCache<String, u64>) -> Seq<(Seq<char>, u64)>;

/// Whether `key` stands at position `i`.
pub open spec fn key_at<T>(entries: Seq<(Seq<char>, T)>, i: int, key: Seq<char>) -> bool {
    0 <= i < entries.len() && entries[i].0 == key
}

/// Whether `key` occurs.
pub open spec fn has_key<T>(entries: Seq<(Seq<char>, T)>, key: Seq<char>) -> bool {
    exists|i: int| key_at(entries, i, key)
}

/// A position of `key`, where it occurs.
pub open spec fn key_index<T>(entries: Seq<(Seq<char>, T)>, key: Seq<char>) -> int {
    choose|i: int| key_at(entries, i, key)
}

/// Whether no key occurs twice.
pub open spec fn distinct_keys<T>(entries: Seq<(Seq<char>, T)>) -> bool {
    forall|i: int, j: int|
        0 <= i < j < entries.len() ==> (#[trigger] entries[i]).0 != (#[trigger] entries[j]).0
}

/// The value of `key`, where it occurs.
pub open spec fn value_of<T>(entries: Seq<(Seq<char>, T)>, key: Seq<char>) -> T {
    entries[key_index(entries, key)].1
}

/// The entries without that of `key`.
pub open spec fn without<T>(entries: Seq<(Seq<char>, T)>, key: Seq<char>) -> Seq<(Seq<char>, T)> {
    if has_key(entries, key) {
        entries.remove(key_index(entries, key))
    } else {
        entries
    }
}

/// The entries once `key` has been accessed: its entry becomes the most recent one.
pub open spec fn touched<T>(entries: Seq<(Seq<char>, T)>, key: Seq<char>) -> Seq<(Seq<char>, T)> {
    if has_key(entries, key) {
        without(entries, key).push((key, value_of(entries, key)))
    } else {
        entries
    }
}

/// [`lru::LruCache::unbounded`]: an empty cache that never evicts by itself.
#[verifier::external_body]
fn lru_unbounded() -> (cache: lru::LruCache<String, u64>)
    ensures
        lru_order(cache) == Seq::<(Seq<char>, u64)>::empty(),
{
    lru::LruCache::unbounded()
}

/// [`lru::LruCache::len`]: the number of entries.
#[verifier::external_body]
fn lru_len(cache: &lru::LruCache<String, u64>) -> (len: usize)
    ensures
        len == lru_order(*cache).len(),
{
    cache.len()
}

/// [`lru::LruCache::peek`]: the value of a key, without any effect on the order.
#[verifier::external_body]
fn lru_peek(cache: &lru::LruCache<String, u64>, key: &str) -> (value: Option<u64>)
    ensures
        match value {
            Some(value) => exists|i: int|
                #![trigger key_at(lru_order(*cache), i, key@)]
                key_at(lru_order(*cache), i, key@) && value == lru_order(*cache)[i].1,
            None => !has_key(lru_order(*cache), key@),
        },
{
    cache.peek(key).copied()
}

/// [`lru::LruCache::get`]: the value of a key, whose entry becomes the most recently used one.
#[verifier::external_body]
fn lru_get(cache: &mut lru::LruCache<String, u64>, key: &str) -> (value: Option<u64>)
    ensures
        match value {
            Some(value) => exists|i: int|
                #![trigger key_at(lru_order(*old(cache)), i, key@)]
                key_at(lru_order(*old(cache)), i, key@) && value == lru_order(*old(cache))[i].1
                    && lru_order(*final(cache)) == lru_order(*old(cache)).remove(i).push(
                    lru_order(*old(cache))[i],
                ),
            None => !has_key(lru_order(*old(cache)), key@) && lru_order(*final(cache))
                == lru_order(*old(cache)),
        },
{
    cache.get(key).copied()
}

/// [`lru::LruCache::put`]: sets the value of a key, whose entry becomes the most recently used
/// one, and returns the value that it had before.
#[verifier::external_body]
fn lru_put(cache: &mut lru::LruCache<String, u64>, key: String, value: u64) -> (previous: Option<
    u64,
>)
    ensures
        match previous {
            Some(previous) => exists|i: int|
                #![trigger key_at(lru_order(*old(cache)), i, key@)]
                key_at(lru_order(*old(cache)), i, key@) && previous == lru_order(*old(cache))[i].1
                    && lru_order(*final(cache)) == lru_order(*old(cache)).remove(i).push(
                    (key@, value),
                ),
            None => !has_key(lru_order(*old(cache)), key@) && lru_order(*final(cache))
                == lru_order(*old(cache)).push((key@, value)),
        },
{
    cache.put(key, value)
}

/// [`lru::LruCache::pop`]: removes a key and returns its value.
#[verifier::external_body]
fn lru_pop(cache: &mut lru::LruCache<String, u64>, key: &str) -> (value: Option<u64>)
    ensures
        match value {
            Some(value) => exists|i: int|
                #![trigger key_at(lru_order(*old(cache)), i, key@)]
                key_at(lru_order(*old(cache)), i, key@) && value == lru_order(*old(cache))[i].1
                    && lru_order(*final(cache)) == lru_order(*old(cache)).remove(i),
            None => !has_key(lru_order(*old(cache)), key@) && lru_order(*final(cache))
                == lru_order(*old(cache)),
        },
{
    cache.pop(key)
}

/// [`lru::LruCache::peek_lru`]: the value of the least recently used entry, without any effect on
/// the order.
#[verifier::external_body]
fn lru_peek_lru(cache: &lru::LruCache<String, u64>) -> (value: Option<u64>)
    ensures
        match value {
            Some(value) => lru_order(*cache).len() > 0 && lru_order(*cache)[0].1 == value,
            None => lru_order(*cache).len() == 0,
        },
{
    cache.peek_lru().map(|entry| *entry.1)
}

/// [`lru::LruCache::pop_lru`]: removes the least recently used entry and returns it.
#[verifier::external_body]
fn lru_pop_lru(cache: &mut lru::LruCache<String, u64>) -> (entry: Option<(String, u64)>)
    ensures
        match entry {
            Some((key, value)) => lru_order(*old(cache)).len() > 0 && lru_order(*old(cache))[0] == (
                key@,
                value,
            ) && lru_order(*final(cache)) == lru_order(*old(cache)).remove(0),
            None => lru_order(*old(cache)).len() == 0 && lru_order(*final(cache)) == lru_order(
                *old(cache),
            ),
        },
{
    cache.pop_lru()
}

/// A map from strings to values, ordered from the least to the most recently used entry.
pub struct LruMap<T> {
    order: lru::LruCache<String, u64>,
    slots: Vec<Option<T>>,
    /// Slots that hold no value.
    free: Vec<u64>,
}

/// The entries that an order and slots stand for.
spec fn entries_of<T>(order: Seq<(Seq<char>, u64)>, slots: Seq<Option<T>>) -> Seq<(Seq<char>, T)> {
    Seq::new(order.len(), |i: int| (order[i].0, slots[order[i].1 as int]->0))
}

/// Each key has a slot of its own that holds a value, and no slot in use is free.
spec fn slots_agree<T>(
    order: Seq<(Seq<char>, u64)>,
    slots: Seq<Option<T>>,
    free: Seq<u64>,
) -> bool {
    &&& distinct_keys(order)
    &&& forall|i: int|
        0 <= i < order.len() ==> {
            &&& (#[trigger] order[i]).1 < slots.len()
            &&& slots[order[i].1 as int] is Some
        }
    &&& forall|i: int, j: int|
        0 <= i < j < order.len() ==> (#[trigger] order[i]).1 != (#[trigger] order[j]).1
    &&& forall|i: int| 0 <= i < free.len() ==> (#[trigger] free[i]) < slots.len()
    &&& forall|i: int, j: int|
        0 <= i < j < free.len() ==> (#[trigger] free[i]) != (#[trigger] free[j])
    &&& forall|i: int, j: int|
        0 <= i < order.len() && 0 <= j < free.len() ==> (#[trigger] order[i]).1 != (
        #[trigger] free[j])
}

impl<T> View for LruMap<T> {
    type V = Seq<(Seq<char>, T)>;

    closed spec fn view(&self) -> Seq<(Seq<char>, T)> {
        entries_of(lru_order(self.order), self.slots@)
    }
}

impl<T> LruMap<T> {
    /// The recency order and the slots agree. Every constructor establishes this, and every
    /// method keeps it.
    pub closed spec fn wf(&self) -> bool {
        slots_agree(lru_order(self.order), self.slots@, self.free@)
    }

    /// An empty map.
    pub fn new() -> (map: LruMap<T>)
        ensures
            map.wf(),
            map@ == Seq::<(Seq<char>, T)>::empty(),
    {
        let map = LruMap { order: lru_unbounded(), slots: Vec::new(), free: Vec::new() };
        assert(map@ =~= Seq::<(Seq<char>, T)>::empty());
        map
    }

    /// Number of entries.
    pub fn len(&self) -> (len: usize)
        ensures
            len == self@.len(),
    {
        lru_len(&self.order)
    }

    /// Whether `key` has an entry, without any effect on the order.
    pub fn contains(&self, key: &str) -> (contained: bool)
        requires
            self.wf(),
        ensures
            contained == has_key(self@, key@),
    {
        let slot = lru_peek(&self.order, key);
        proof {
            lemma_same_keys(lru_order(self.order), self.slots@, key@);
        }
        slot.is_some()
    }

    /// The value of `key`, without any effect on the order.
    pub fn peek(&self, key: &str) -> (value: Option<&T>)
        requires
            self.wf(),
        ensures
            match value {
                Some(value) => has_key(self@, key@) && *value == value_of(self@, key@),
                None => !has_key(self@, key@),
            },
    {
        proof {
            lemma_same_keys(lru_order(self.order), self.slots@, key@);
        }
        match lru_peek(&self.order, key) {
            None => None,
            Some(slot) => {
                proof {
                    let i = choose|i: int|
                        #![trigger key_at(lru_order(self.order), i, key@)]
                        key_at(lru_order(self.order), i, key@) && slot == lru_order(self.order)[i].1;
                    lemma_key_index(lru_order(self.order), i, key@);
                    assert(slot < self.slots.len());
                }
                match &self.slots[slot as usize] {
                    Some(value) => Some(value),
                    None => None,
                }
            },
        }
    }

    /// The value of `key`, for update in place. The entry becomes the most recently used one.
    pub fn get_mut(&mut self, key: &str) -> (value: Option<&mut T>)
        requires
            old(self).wf(),
        ensures
            final(self).wf(),
            match value {
                Some(value) => has_key(old(self)@, key@) && *value == value_of(old(self)@, key@)
                    && final(self)@ == without(old(self)@, key@).push((key@, *final(value))),
                None => !has_key(old(self)@, key@) && final(self)@ == old(self)@,
            },
    {
        let ghost order = lru_order(self.order);
        let ghost slots = self.slots@;
        proof {
            lemma_same_keys(order, slots, key@);
        }
        match lru_get(&mut self.order, key) {
            None => None,
            Some(slot) => {
                proof {
                    let i = choose|i: int|
                        #![trigger key_at(order, i, key@)]
                        key_at(order, i, key@) && slot == order[i].1 && lru_order(self.order)
                            == order.remove(i).push(order[i]);
                    lemma_key_index(order, i, key@);
                    lemma_promote(order, slots, self.free@, i);
                    assert(slot < self.slots.len());
                }
                match &mut self.slots[slot as usize] {
                    Some(value) => Some(value),
                    None => None,
                }
            },
        }
    }

    /// Makes the entry of `key` the most recently used one, and tells whether there is one.
    pub fn promote(&mut self, key: &str) -> (found: bool)
        requires
            old(self).wf(),
        ensures
            final(self).wf(),
            found == has_key(old(self)@, key@),
            final(self)@ == touched(old(self)@, key@),
    {
        match self.get_mut(key) {
            Some(_) => true,
            None => false,
        }
    }

    /// Adds an entry for a key without one. It becomes the most recently used entry.
    pub fn insert(&mut self, key: String, value: T)
        requires
            old(self).wf(),
            !has_key(old(self)@, key@),
        ensures
            final(self).wf(),
            final(self)@ == old(self)@.push((key@, value)),
    {
        let ghost order = lru_order(self.order);
        let ghost slots = self.slots@;
        let ghost free = self.free@;
        let ghost name = key@;
        proof {
            lemma_same_keys(order, slots, name);
        }
        let slot: u64 = match self.free.pop() {
            Some(slot) => {
                proof {
                    assert(slot == free[free.len() - 1]);
                    assert(slot < self.slots.len());
                    assert(forall|i: int| 0 <= i < free.len() - 1 ==> self.free@[i] == free[i]);
                }
                self.slots.set(slot as usize, Some(value));
                slot
            },
            None => {
                let slot: u64 = self.slots.len() as u64;
                self.slots.push(Some(value));
                slot
            },
        };
        lru_put(&mut self.order, key, slot);
        proof {
            let after = lru_order(self.order);
            assert(after == order.push((name, slot)));
            assert forall|i: int, j: int| 0 <= i < j < after.len() implies (#[trigger] after[i]).0 != (
            #[trigger] after[j]).0 by {
                if j == order.len() {
                    if after[i].0 == name {
                        assert(key_at(order, i, name));
                    }
                }
            }
            assert forall|i: int| 0 <= i < order.len() implies self.slots@[(#[trigger] order[i]).1 as int]
                == slots[order[i].1 as int] && order[i].1 != slot by {
                if free.len() > 0 {
                    assert(order[i].1 != free[free.len() - 1]);
                }
            }
            assert forall|i: int| 0 <= i < order.len() implies #[trigger] after[i] == order[i] by {}
            assert(slots_agree(after, self.slots@, self.free@));
            assert(self@ =~= entries_of(order, slots).push((name, value)));
        }
    }

    /// Empties the slot of an entry that has just left position `i` of `order`.
    fn release(&mut self, slot: u64, Ghost(order): Ghost<Seq<(Seq<char>, u64)>>, Ghost(i): Ghost<int>) -> (value:
        Option<T>)
        requires
            slots_agree(order, old(self).slots@, old(self).free@),
            0 <= i < order.len(),
            order[i].1 == slot,
            lru_order(old(self).order) == order.remove(i),
        ensures
            final(self).wf(),
            value == Some(entries_of(order, old(self).slots@)[i].1),
            final(self)@ == entries_of(order, old(self).slots@).remove(i),
    {
        let ghost slots = self.slots@;
        let ghost free = self.free@;
        proof {
            assert(slot < self.slots.len());
        }
        let mut value: Option<T> = None;
        std::mem::swap(&mut self.slots[slot as usize], &mut value);
        self.free.push(slot);
        proof {
            let after = order.remove(i);
            assert forall|k: int| 0 <= k < after.len() implies {
                let source = if k < i {
                    k
                } else {
                    k + 1
                };
                &&& #[trigger] after[k] == order[source]
                &&& order[source].1 != slot
            } by {
                if k < i {
                    assert(order[k].1 != order[i].1);
                } else {
                    assert(order[i].1 != order[k + 1].1);
                }
            }
            assert(self.slots@ =~= slots.update(slot as int, None));
            assert(slots_agree(after, self.slots@, self.free@));
            assert(self@ =~= entries_of(order, slots).remove(i));
        }
        value
    }

    /// Removes the entry of `key`, and returns its value.
    pub fn pop(&mut self, key: &str) -> (value: Option<T>)
        requires
            old(self).wf(),
        ensures
            final(self).wf(),
            final(self)@ == without(old(self)@, key@),
            value == if has_key(old(self)@, key@) {
                Some(value_of(old(self)@, key@))
            } else {
                None
            },
    {
        let ghost order = lru_order(self.order);
        proof {
            lemma_same_keys(order, self.slots@, key@);
        }
        match lru_pop(&mut self.order, key) {
            None => None,
            Some(slot) => {
                let ghost i = choose|i: int|
                    #![trigger key_at(order, i, key@)]
                    key_at(order, i, key@) && slot == order[i].1 && lru_order(self.order)
                        == order.remove(i);
                proof {
                    lemma_key_index(order, i, key@);
                }
                self.release(slot, Ghost(order), Ghost(i))
            },
        }
    }

    /// The value of the least recently used entry, without any effect on the order.
    pub fn peek_lru(&self) -> (value: Option<&T>)
        requires
            self.wf(),
        ensures
            match value {
                Some(value) => self@.len() > 0 && *value == self@[0].1,
                None => self@.len() == 0,
            },
    {
        match lru_peek_lru(&self.order) {
            None => None,
            Some(slot) => {
                proof {
                    assert(slot < self.slots.len());
                }
                match &self.slots[slot as usize] {
                    Some(value) => Some(value),
                    None => None,
                }
            },
        }
    }

    /// Removes the least recently used entry, and returns it.
    pub fn pop_lru(&mut self) -> (entry: Option<(String, T)>)
        requires
            old(self).wf(),
        ensures
            final(self).wf(),
            match entry {
                Some((key, value)) => old(self)@.len() > 0 && old(self)@[0] == (key@, value)
                    && final(self)@ == old(self)@.skip(1),
                None => old(self)@.len() == 0 && final(self)@ == old(self)@,
            },
    {
        let ghost order = lru_order(self.order);
        match lru_pop_lru(&mut self.order) {
            None => None,
            Some((key, slot)) => {
                let ghost before = entries_of(order, self.slots@);
                let value = self.release(slot, Ghost(order), Ghost(0int));
                proof {
                    assert(before.remove(0) =~= before.skip(1));
                }
                match value {
                    Some(value) => Some((key, value)),
                    None => None,
                }
            },
        }
    }
}

/// A key occurs in an order exactly where it occurs in the entries.
proof fn lemma_same_keys<T>(order: Seq<(Seq<char>, u64)>, slots: Seq<Option<T>>, key: Seq<char>)
    ensures
        has_key(entries_of(order, slots), key) == has_key(order, key),
        distinct_keys(order) ==> distinct_keys(entries_of(order, slots)),
        distinct_keys(order) && has_key(order, key) ==> key_index(entries_of(order, slots), key)
            == key_index(order, key),
{
    let entries = entries_of(order, slots);
    if has_key(order, key) {
        let i = key_index(order, key);
        assert(key_at(order, i, key));
        assert(key_at(entries, i, key));
        if distinct_keys(order) {
            lemma_key_index(entries, i, key);
        }
    }
    if has_key(entries, key) {
        let i = key_index(entries, key);
        assert(key_at(entries, i, key));
        assert(key_at(order, i, key));
    }
}

/// Among distinct keys, the position of a key is unique.
pub proof fn lemma_key_index<T>(entries: Seq<(Seq<char>, T)>, i: int, key: Seq<char>)
    requires
        key_at(entries, i, key),
        distinct_keys(entries),
    ensures
        has_key(entries, key),
        key_index(entries, key) == i,
{
    let k = key_index(entries, key);
    assert(key_at(entries, k, key));
    if k < i {
        assert(entries[k].0 != entries[i].0);
    }
    if i < k {
        assert(entries[i].0 != entries[k].0);
    }
}

/// Moving an entry to the end keeps the agreement, whatever its slot then holds.
proof fn lemma_promote<T>(
    order: Seq<(Seq<char>, u64)>,
    slots: Seq<Option<T>>,
    free: Seq<u64>,
    i: int,
)
    requires
        slots_agree(order, slots, free),
        0 <= i < order.len(),
    ensures
        ({
            let promoted = order.remove(i).push(order[i]);
            let slot = order[i].1 as int;
            &&& slots_agree(promoted, slots, free)
            &&& forall|value: Option<T>|
                #![trigger slots.update(slot, value)]
                value is Some ==> {
                    &&& slots_agree(promoted, slots.update(slot, value), free)
                    &&& entries_of(promoted, slots.update(slot, value)) == entries_of(
                        order,
                        slots,
                    ).remove(i).push((order[i].0, value->0))
                }
        }),
{
    let promoted = order.remove(i).push(order[i]);
    let slot = order[i].1 as int;
    assert forall|k: int| 0 <= k < promoted.len() implies {
        let source = if k < i {
            k
        } else if k < order.len() - 1 {
            k + 1
        } else {
            i
        };
        #[trigger] promoted[k] == order[source]
    } by {}
    assert(slots_agree(promoted, slots, free));
    assert forall|value: Option<T>|
        #![trigger slots.update(slot, value)]
        value is Some implies {
        &&& slots_agree(promoted, slots.update(slot, value), free)
        &&& entries_of(promoted, slots.update(slot, value)) == entries_of(order, slots).remove(
            i,
        ).push((order[i].0, value->0))
    } by {
        let left = entries_of(promoted, slots.update(slot, value));
        let right = entries_of(order, slots).remove(i).push((order[i].0, value->0));
        assert forall|k: int| 0 <= k < left.len() implies left[k] == right[k] by {
            if k < i {
                assert(promoted[k] == order[k]);
                assert(order[k].1 != order[i].1);
            } else if k < order.len() - 1 {
                assert(promoted[k] == order[k + 1]);
                assert(order[i].1 != order[k + 1].1);
            }
        }
        assert(left =~= right);
    }
}

/// The keys of a well-formed map are distinct.
pub proof fn lemma_distinct_keys<T>(map: LruMap<T>)
    requires
        map.wf(),
    ensures
        distinct_keys(map@),
{
    lemma_same_keys(lru_order(map.order), map.slots@, Seq::empty());
}

/// An access moves an entry to the end, as it is, and a removal takes it out. The others keep their
/// order. A key that does not occur makes no difference.
pub proof fn law_access_and_removal<T>(entries: Seq<(Seq<char>, T)>, key: Seq<char>, i: int)
    requires
        distinct_keys(entries),
    ensures
        0 <= i < entries.len() && entries[i].0 == key ==> {
            &&& has_key(entries, key)
            &&& value_of(entries, key) == entries[i].1
            &&& touched(entries, key) == entries.remove(i) + seq![entries[i]]
            &&& without(entries, key) == entries.remove(i)
        },
        (forall|k: int| 0 <= k < entries.len() ==> (#[trigger] entries[k]).0 != key) ==> {
            &&& !has_key(entries, key)
            &&& touched(entries, key) == entries
            &&& without(entries, key) == entries
        },
{
    if 0 <= i < entries.len() && entries[i].0 == key {
        lemma_key_index(entries, i, key);
        assert(touched(entries, key) =~= entries.remove(i) + seq![entries[i]]);
    }
    if has_key(entries, key) {
        let k = key_index(entries, key);
        assert(key_at(entries, k, key));
    }
}

} // verus!
