//! Least-recently-used eviction, on the recency list of the `lru` crate.
use vstd::prelude::*;
use crate::Key;
use super::EvictPolicy;
use super::weights::{total_weight, lemma_total_weight_concat, lemma_total_weight_one,
    lemma_total_weight_remove};

verus! {

#[verifier::external_type_specification]
#[verifier::external_body]
#[verifier::reject_recursive_types(K)]
#[verifier::reject_recursive_types(V)]
#[verifier::reject_recursive_types(S)]
pub struct ExLruCache<K, V, S>(lru::LruCache<K, V, S>);

#[verifier::external_type_specification]
#[verifier::external_body]
pub struct ExDefaultHashBuilder(hashbrown::DefaultHashBuilder);

/// The entries of a recency cache, each a key with its value, the most
/// recently used first.
pub uninterp spec fn lru_entries(cache: lru::LruCache<Key, u64>) -> Seq<(Key, u64)>;

/// The number of entries that a recency cache was made to hold.
pub uninterp spec fn lru_limit(cache: lru::LruCache<Key, u64>) -> nat;

/// Whether some entry has the key `key`.
pub open spec fn has_key(entries: Seq<(Key, u64)>, key: Key) -> bool {
    exists|i: int| 0 <= i < entries.len() && (#[trigger] entries[i]).0 == key
}

/// The place of an entry with the key `key`.
pub open spec fn position(entries: Seq<(Key, u64)>, key: Key) -> int {
    choose|i: int| 0 <= i < entries.len() && (#[trigger] entries[i]).0 == key
}

/// No key occurs twice.
pub open spec fn distinct_keys(entries: Seq<(Key, u64)>) -> bool {
    forall|i: int, j: int|
        #![trigger entries[i], entries[j]]
        0 <= i < j < entries.len() ==> entries[i].0 != entries[j].0
}

/// `LruCache::sparse`: an empty cache that holds at most `cap` entries and
/// allocates nothing for them up front.
#[verifier::external_body]
fn lru_sparse(cap: usize) -> (cache: lru::LruCache<Key, u64>)
    requires
        cap > 0,
    ensures
        lru_entries(cache) == Seq::<(Key, u64)>::empty(),
        lru_limit(cache) == cap,
{
    lru::LruCache::sparse(std::num::NonZeroUsize::new(cap).unwrap())
}

/// `LruCache::len`: the number of entries.
#[verifier::external_body]
fn lru_len(cache: &lru::LruCache<Key, u64>) -> (n: usize)
    ensures
        n == lru_entries(*cache).len(),
{
    cache.len()
}

/// `LruCache::contains`: whether the key has an entry; the order stays.
#[verifier::external_body]
fn lru_contains(cache: &lru::LruCache<Key, u64>, key: Key) -> (found: bool)
    ensures
        found == has_key(lru_entries(*cache), key),
{
    cache.contains(&key)
}

/// `LruCache::get`: the value of the key's entry, which moves to the front;
/// without such an entry nothing changes.
#[verifier::external_body]
fn lru_get(cache: &mut lru::LruCache<Key, u64>, key: Key) -> (found: Option<u64>)
    ensures
        lru_limit(*final(cache)) == lru_limit(*old(cache)),
        match found {
            Some(w) => exists|i: int|
                0 <= i < lru_entries(*old(cache)).len() && #[trigger] lru_entries(*old(cache))[i]
                    == (key, w) && lru_entries(*final(cache)) == seq![(key, w)] + lru_entries(
                    *old(cache),
                ).remove(i),
            None => !has_key(lru_entries(*old(cache)), key) && lru_entries(*final(cache))
                == lru_entries(*old(cache)),
        },
{
    cache.get(&key).copied()
}

/// `LruCache::put`, for a key without an entry and a cache that is not full:
/// the new entry goes to the front and nothing leaves.
#[verifier::external_body]
fn lru_put(cache: &mut lru::LruCache<Key, u64>, key: Key, weight: u64)
    requires
        !has_key(lru_entries(*old(cache)), key),
        lru_entries(*old(cache)).len() < lru_limit(*old(cache)),
    ensures
        lru_limit(*final(cache)) == lru_limit(*old(cache)),
        lru_entries(*final(cache)) == seq![(key, weight)] + lru_entries(*old(cache)),
{
    cache.put(key, weight);
}

/// `LruCache::pop_lru`: takes out the last entry, the least recently used,
/// and returns it; `None` on an empty cache.
#[verifier::external_body]
fn lru_pop_lru(cache: &mut lru::LruCache<Key, u64>) -> (popped: Option<(Key, u64)>)
    ensures
        lru_limit(*final(cache)) == lru_limit(*old(cache)),
        match popped {
            Some(e) => lru_entries(*old(cache)).len() > 0 && e == lru_entries(*old(cache)).last()
                && lru_entries(*final(cache)) == lru_entries(*old(cache)).drop_last(),
            None => lru_entries(*old(cache)).len() == 0 && lru_entries(*final(cache))
                == lru_entries(*old(cache)),
        },
{
    cache.pop_lru()
}

/// The state of an LRU engine.
pub struct LruModel {
    /// The capacity: a bound on the sum of the weights and on the number of
    /// entries.
    pub capacity: u64,
    /// The resident keys with their weights, the most recently used first.
    pub entries: Seq<(Key, u64)>,
}

/// The entries after a hit on `key`: its entry has moved to the front.
pub open spec fn refreshed(entries: Seq<(Key, u64)>, key: Key) -> Seq<(Key, u64)> {
    let i = position(entries, key);
    seq![entries[i]] + entries.remove(i)
}

/// Whether one more entry of weight `size` can join `entries`.
pub open spec fn fits(entries: Seq<(Key, u64)>, capacity: u64, size: u64) -> bool {
    total_weight(entries) + size <= capacity && entries.len() < capacity
}

/// The entries that stay when room is made for weight `size`: the least
/// recently used leave, one by one, until the new entry fits.
pub open spec fn evicted(entries: Seq<(Key, u64)>, capacity: u64, size: u64) -> Seq<(Key, u64)>
    decreases entries.len(),
{
    if entries.len() == 0 || fits(entries, capacity, size) {
        entries
    } else {
        evicted(entries.drop_last(), capacity, size)
    }
}

/// What stays after an eviction is a prefix of what was there, and the new
/// entry fits beside it.
pub proof fn lemma_evicted(entries: Seq<(Key, u64)>, capacity: u64, size: u64)
    requires
        size <= capacity,
        capacity > 0,
    ensures
        evicted(entries, capacity, size).len() <= entries.len(),
        evicted(entries, capacity, size) == entries.take(
            evicted(entries, capacity, size).len() as int,
        ),
        fits(evicted(entries, capacity, size), capacity, size),
    decreases entries.len(),
{
    if entries.len() == 0 {
        assert(entries.take(0) =~= entries);
    } else if fits(entries, capacity, size) {
        assert(entries.take(entries.len() as int) =~= entries);
    } else {
        lemma_evicted(entries.drop_last(), capacity, size);
        let e = evicted(entries, capacity, size);
        assert(entries.drop_last().take(e.len() as int) =~= entries.take(e.len() as int));
    }
}

/// Among distinct keys a key has one place.
pub proof fn lemma_has_key_position(entries: Seq<(Key, u64)>, key: Key, i: int)
    requires
        distinct_keys(entries),
        0 <= i < entries.len(),
        entries[i].0 == key,
    ensures
        has_key(entries, key),
        position(entries, key) == i,
{
    let p = position(entries, key);
    assert(0 <= p < entries.len() && entries[p].0 == key);
    if p < i {
        assert(entries[p].0 != entries[i].0);
    } else if i < p {
        assert(entries[i].0 != entries[p].0);
    }
}

/// A hit permutes the entries.
pub proof fn lemma_refreshed(entries: Seq<(Key, u64)>, key: Key)
    requires
        distinct_keys(entries),
        has_key(entries, key),
    ensures
        distinct_keys(refreshed(entries, key)),
        refreshed(entries, key).len() == entries.len(),
        total_weight(refreshed(entries, key)) == total_weight(entries),
        forall|k: Key| has_key(refreshed(entries, key), k) == has_key(entries, k),
        refreshed(entries, key)[0].0 == key,
{
    let i = position(entries, key);
    let r = refreshed(entries, key);
    let rest = entries.remove(i);
    assert(0 <= i < entries.len() && entries[i].0 == key);
    lemma_total_weight_remove(entries, i);
    lemma_total_weight_concat(seq![entries[i]], rest);
    lemma_total_weight_one(entries[i]);
    // where each entry of `r` comes from
    assert forall|a: int| 0 <= a < r.len() implies #[trigger] r[a] == entries[if a == 0 {
        i
    } else if a - 1 < i {
        a - 1
    } else {
        a
    }] by {
        if a > 0 {
            assert(r[a] == rest[a - 1]);
        }
    }
    assert forall|a: int, b: int| 0 <= a < b < r.len() implies r[a].0 != r[b].0 by {
        let sa = if a == 0 { i } else if a - 1 < i { a - 1 } else { a };
        let sb = if b - 1 < i { b - 1 } else { b };
        assert(r[a] == entries[sa]);
        assert(r[b] == entries[sb]);
        if sa < sb {
            assert(entries[sa].0 != entries[sb].0);
        } else {
            assert(entries[sb].0 != entries[sa].0);
        }
    }
    assert forall|k: Key| has_key(r, k) == has_key(entries, k) by {
        if has_key(r, k) {
            let a = choose|a: int| 0 <= a < r.len() && (#[trigger] r[a]).0 == k;
            let sa = if a == 0 { i } else if a - 1 < i { a - 1 } else { a };
            assert(r[a] == entries[sa]);
            assert(entries[sa].0 == k);
        }
        if has_key(entries, k) {
            let s = choose|s: int| 0 <= s < entries.len() && (#[trigger] entries[s]).0 == k;
            let a = if s == i { 0 } else if s < i { s + 1 } else { s };
            assert(r[a] == entries[s]);
            assert(r[a].0 == k);
        }
    }
}

/// A cache that evicts the least recently used key first. A hit, by `get` or
/// by `put`, makes the key the most recently used.
pub struct LruPolicy {
    capacity: u64,
    size: u64,
    cache: lru::LruCache<Key, u64>,
}

impl View for LruPolicy {
    type V = LruModel;

    closed spec fn view(&self) -> LruModel {
        LruModel { capacity: self.capacity, entries: lru_entries(self.cache) }
    }
}

impl EvictPolicy for LruPolicy {
    closed spec fn inv(&self) -> bool {
        &&& Self::model_wf(self@)
        &&& self.size == total_weight(lru_entries(self.cache))
        &&& lru_limit(self.cache) == self.capacity
    }

    /// The recency list is made for `capacity` entries, so the capacity is
    /// positive and a number of entries.
    open spec fn valid_capacity(capacity: u64) -> bool {
        0 < capacity <= usize::MAX
    }

    open spec fn model_wf(m: LruModel) -> bool {
        &&& m.capacity > 0
        &&& distinct_keys(m.entries)
        &&& total_weight(m.entries) <= m.capacity
        &&& m.entries.len() <= m.capacity
    }

    open spec fn model_new(capacity: u64) -> LruModel {
        LruModel { capacity, entries: Seq::empty() }
    }

    open spec fn model_capacity(m: LruModel) -> u64 {
        m.capacity
    }

    open spec fn model_used(m: LruModel) -> nat {
        total_weight(m.entries)
    }

    open spec fn model_contains(m: LruModel, key: Key) -> bool {
        has_key(m.entries, key)
    }

    open spec fn model_get(m: LruModel, key: Key) -> LruModel {
        LruModel { capacity: m.capacity, entries: refreshed(m.entries, key) }
    }

    /// A key heavier than the capacity is skipped. A resident key is a hit.
    /// For any other key the least recently used entries leave until the sum
    /// of the weights has room for `size` and the list has room for one more
    /// entry; then the key enters at the front.
    open spec fn model_put(m: LruModel, key: Key, size: u64) -> LruModel {
        if size > m.capacity {
            m
        } else if has_key(m.entries, key) {
            Self::model_get(m, key)
        } else {
            LruModel {
                capacity: m.capacity,
                entries: seq![(key, size)] + evicted(m.entries, m.capacity, size),
            }
        }
    }

    proof fn lemma_model_new(capacity: u64) {
    }

    proof fn lemma_model_bounded(m: LruModel) {
    }

    proof fn lemma_model_get(m: LruModel, key: Key) {
        lemma_refreshed(m.entries, key);
    }

    proof fn lemma_model_put(m: LruModel, key: Key, size: u64) {
        if size > m.capacity {
        } else if has_key(m.entries, key) {
            lemma_refreshed(m.entries, key);
            let r = refreshed(m.entries, key);
            assert(r[0].0 == key);
        } else {
            lemma_evicted(m.entries, m.capacity, size);
            let kept = evicted(m.entries, m.capacity, size);
            let after = seq![(key, size)] + kept;
            lemma_total_weight_concat(seq![(key, size)], kept);
            lemma_total_weight_one((key, size));
            assert(total_weight(kept) <= total_weight(m.entries)) by {
                super::weights::lemma_total_weight_take(m.entries, kept.len() as int);
            }
            assert(after[0].0 == key);
            assert forall|a: int, b: int| 0 <= a < b < after.len() implies after[a].0
                != after[b].0 by {
                assert(after[b] == m.entries[b - 1]);
                if a == 0 {
                } else {
                    assert(after[a] == m.entries[a - 1]);
                    assert(m.entries[a - 1].0 != m.entries[b - 1].0);
                }
            }
        }
    }

    proof fn lemma_inv_wf(&self) {
    }

    fn accepts_capacity(capacity: u64) -> (ok: bool) {
        capacity > 0 && capacity <= usize::MAX as u64
    }

    fn new(capacity: u64) -> (engine: Self) {
        LruPolicy { capacity, size: 0, cache: lru_sparse(capacity as usize) }
    }

    fn get(&mut self, key: Key) -> (hit: Option<()>) {
        let ghost before = lru_entries(self.cache);
        match lru_get(&mut self.cache, key) {
            Some(w) => {
                proof {
                    let i = choose|i: int|
                        0 <= i < before.len() && #[trigger] before[i] == (key, w) && lru_entries(
                            self.cache,
                        ) == seq![(key, w)] + before.remove(i);
                    lemma_has_key_position(before, key, i);
                    lemma_refreshed(before, key);
                }
                Some(())
            },
            None => None,
        }
    }

    fn put(&mut self, key: Key, size: u64) {
        if size > self.capacity {
            return ;
        }
        if self.get(key).is_some() {
            return ;
        }
        let ghost before = lru_entries(self.cache);
        let room = self.capacity - size;
        while self.size > room || lru_len(&self.cache) as u64 >= self.capacity
            invariant
                self.inv(),
                self.capacity == old(self).capacity,
                room == self.capacity - size,
                size <= self.capacity,
                !has_key(lru_entries(self.cache), key),
                evicted(lru_entries(self.cache), self.capacity, size) == evicted(
                    before,
                    self.capacity,
                    size,
                ),
            decreases lru_entries(self.cache).len(),
        {
            let ghost current = lru_entries(self.cache);
            assert(current.len() > 0) by {
                if current.len() == 0 {
                    assert(total_weight(current) == 0);
                }
            }
            match lru_pop_lru(&mut self.cache) {
                Some(e) => {
                    proof {
                        lemma_total_weight_remove(current, current.len() - 1);
                        assert(current.remove(current.len() - 1) =~= current.drop_last());
                        assert(!fits(current, self.capacity, size));
                        assert forall|i: int| 0 <= i < current.drop_last().len() implies (
                        #[trigger] current.drop_last()[i]).0 != key by {
                            assert(current[i].0 != key);
                        }
                    }
                    self.size = self.size - e.1;
                },
                None => {},
            }
        }
        proof {
            let current = lru_entries(self.cache);
            assert(fits(current, self.capacity, size));
            lemma_total_weight_concat(seq![(key, size)], current);
            lemma_total_weight_one((key, size));
            Self::lemma_model_put(old(self)@, key, size);
        }
        lru_put(&mut self.cache, key, size);
        self.size = self.size + size;
    }
}

impl LruPolicy {
    /// The capacity the engine was made with.
    pub fn capacity(&self) -> (c: u64)
        requires
            self.inv(),
        ensures
            c == Self::model_capacity(self@),
    {
        self.capacity
    }

    /// The occupied size.
    pub fn size(&self) -> (s: u64)
        requires
            self.inv(),
        ensures
            s == Self::model_used(self@),
    {
        self.size
    }

    /// Whether `key` is resident; the recency order stays as it is.
    pub fn contains(&self, key: Key) -> (found: bool)
        requires
            self.inv(),
        ensures
            found == Self::model_contains(self@, key),
    {
        lru_contains(&self.cache, key)
    }
}

} // verus!
