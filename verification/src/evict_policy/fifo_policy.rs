//! First-in-first-out eviction: a queue of keys in order of admission, and a
//! `hashbrown` table from each resident key to its weight.
use std::collections::VecDeque;
use vstd::prelude::*;
use crate::Key;
use super::EvictPolicy;
use super::weights::{lemma_listing_insert, lemma_listing_remove, lists_keys, weight_sum};

verus! {

/// A table from keys to weights, kept in a `hashbrown::HashMap`.
#[verifier::external_body]
pub struct WeightTable {
    inner: hashbrown::HashMap<Key, u64>,
}

/// What a table holds: the weight of each key that has one.
pub uninterp spec fn table_entries(table: WeightTable) -> Map<Key, u64>;

/// `HashMap::new`: an empty table.
#[verifier::external_body]
fn table_new() -> (table: WeightTable)
    ensures
        (table_entries(table) == Map::<Key, u64>::empty()),
{
    WeightTable { inner: hashbrown::HashMap::new() }
}

/// `HashMap::get`: the weight that the table holds for the key, if any.
#[verifier::external_body]
fn table_get(table: &WeightTable, key: Key) -> (found: Option<u64>)
    ensures
        match found {
            Some(w) => table_entries(*table).contains_key(key) && table_entries(*table)[key] == w,
            None => !table_entries(*table).contains_key(key),
        },
{
    table.inner.get(&key).copied()
}

/// `HashMap::insert`: the key now has the given weight, whether or not it
/// had one before; the weights of the other keys stay.
#[verifier::external_body]
fn table_insert(table: &mut WeightTable, key: Key, weight: u64)
    ensures
        table_entries(*final(table)) == table_entries(*old(table)).insert(key, weight),
{
    table.inner.insert(key, weight);
}

/// `HashMap::remove`: the key has no weight any more, and the one it had is
/// returned; the weights of the other keys stay.
#[verifier::external_body]
fn table_remove(table: &mut WeightTable, key: Key) -> (removed: Option<u64>)
    ensures
        table_entries(*final(table)) == table_entries(*old(table)).remove(key),
        match removed {
            Some(w) => table_entries(*old(table)).contains_key(key) && table_entries(
                *old(table),
            )[key] == w,
            None => !table_entries(*old(table)).contains_key(key),
        },
{
    table.inner.remove(&key)
}

/// The state of a FIFO engine.
pub struct FifoModel {
    /// The capacity: a bound on the sum of the weights.
    pub capacity: u64,
    /// The resident keys in order of admission, the oldest first.
    pub queue: Seq<Key>,
    /// The weight of each resident key.
    pub weights: Map<Key, u64>,
}

/// The state after the oldest key has left.
pub open spec fn without_oldest(m: FifoModel) -> FifoModel {
    FifoModel {
        capacity: m.capacity,
        queue: m.queue.drop_first(),
        weights: m.weights.remove(m.queue[0]),
    }
}

/// The state after room was made for weight `size`: the oldest keys leave,
/// one by one, until the sum of the weights has room for it.
pub open spec fn fifo_evicted(m: FifoModel, size: u64) -> FifoModel
    decreases m.queue.len(),
{
    if m.queue.len() == 0 || weight_sum(m.queue, m.weights) + size <= m.capacity {
        m
    } else {
        fifo_evicted(without_oldest(m), size)
    }
}

/// The oldest key leaves with its weight.
pub proof fn lemma_without_oldest(m: FifoModel)
    requires
        lists_keys(m.queue, m.weights),
        m.queue.len() > 0,
    ensures
        lists_keys(without_oldest(m).queue, without_oldest(m).weights),
        weight_sum(without_oldest(m).queue, without_oldest(m).weights) + m.weights[m.queue[0]]
            == weight_sum(m.queue, m.weights),
        forall|k: Key|
            without_oldest(m).weights.contains_key(k) ==> #[trigger] m.weights.contains_key(k),
{
    assert(m.queue.remove(0) =~= m.queue.drop_first());
    lemma_listing_remove(m.queue, m.weights, 0);
}

/// What stays after an eviction lists its table, leaves room for the new
/// weight, and holds no key that was not there before.
pub proof fn lemma_fifo_evicted(m: FifoModel, size: u64)
    requires
        lists_keys(m.queue, m.weights),
        size <= m.capacity,
    ensures
        fifo_evicted(m, size).capacity == m.capacity,
        lists_keys(fifo_evicted(m, size).queue, fifo_evicted(m, size).weights),
        weight_sum(fifo_evicted(m, size).queue, fifo_evicted(m, size).weights) + size
            <= m.capacity,
        weight_sum(fifo_evicted(m, size).queue, fifo_evicted(m, size).weights) <= weight_sum(
            m.queue,
            m.weights,
        ),
        forall|k: Key|
            fifo_evicted(m, size).weights.contains_key(k) ==> #[trigger] m.weights.contains_key(k),
    decreases m.queue.len(),
{
    if m.queue.len() == 0 || weight_sum(m.queue, m.weights) + size <= m.capacity {
    } else {
        lemma_without_oldest(m);
        lemma_fifo_evicted(without_oldest(m), size);
    }
}

/// A key that the queue does not hold can join it with any weight.
pub proof fn lemma_admit(queue: Seq<Key>, weights: Map<Key, u64>, key: Key, size: u64)
    requires
        lists_keys(queue, weights),
        !weights.contains_key(key),
    ensures
        lists_keys(queue.push(key), weights.insert(key, size)),
        weight_sum(queue.push(key), weights.insert(key, size)) == weight_sum(queue, weights)
            + size,
{
    assert(queue.insert(queue.len() as int, key) =~= queue.push(key));
    lemma_listing_insert(queue, weights, queue.len() as int, key, size);
}

/// A cache that evicts in order of admission. A hit changes nothing.
pub struct FifoPolicy {
    capacity: u64,
    size: u64,
    cache: WeightTable,
    queue: VecDeque<Key>,
}

impl View for FifoPolicy {
    type V = FifoModel;

    closed spec fn view(&self) -> FifoModel {
        FifoModel {
            capacity: self.capacity,
            queue: self.queue@,
            weights: table_entries(self.cache),
        }
    }
}

impl EvictPolicy for FifoPolicy {
    closed spec fn inv(&self) -> bool {
        &&& Self::model_wf(self@)
        &&& self.size == weight_sum(self.queue@, table_entries(self.cache))
    }

    open spec fn valid_capacity(capacity: u64) -> bool {
        capacity > 0
    }

    open spec fn model_wf(m: FifoModel) -> bool {
        &&& m.capacity > 0
        &&& lists_keys(m.queue, m.weights)
        &&& weight_sum(m.queue, m.weights) <= m.capacity
    }

    open spec fn model_new(capacity: u64) -> FifoModel {
        FifoModel { capacity, queue: Seq::empty(), weights: Map::empty() }
    }

    open spec fn model_capacity(m: FifoModel) -> u64 {
        m.capacity
    }

    open spec fn model_used(m: FifoModel) -> nat {
        weight_sum(m.queue, m.weights)
    }

    open spec fn model_contains(m: FifoModel, key: Key) -> bool {
        m.weights.contains_key(key)
    }

    /// A hit never reorders the queue.
    open spec fn model_get(m: FifoModel, key: Key) -> FifoModel {
        m
    }

    /// A key heavier than the capacity is skipped. A resident key is a hit.
    /// For any other key the oldest keys leave until the sum of the weights
    /// has room for `size`; then the key joins the end of the queue.
    open spec fn model_put(m: FifoModel, key: Key, size: u64) -> FifoModel {
        if size > m.capacity {
            m
        } else if m.weights.contains_key(key) {
            m
        } else {
            let kept = fifo_evicted(m, size);
            FifoModel {
                capacity: m.capacity,
                queue: kept.queue.push(key),
                weights: kept.weights.insert(key, size),
            }
        }
    }

    proof fn lemma_model_new(capacity: u64) {
    }

    proof fn lemma_model_bounded(m: FifoModel) {
    }

    proof fn lemma_model_get(m: FifoModel, key: Key) {
    }

    proof fn lemma_model_put(m: FifoModel, key: Key, size: u64) {
        if size <= m.capacity && !m.weights.contains_key(key) {
            lemma_fifo_evicted(m, size);
            let kept = fifo_evicted(m, size);
            lemma_admit(kept.queue, kept.weights, key, size);
        }
    }

    proof fn lemma_inv_wf(&self) {
    }

    fn accepts_capacity(capacity: u64) -> (ok: bool) {
        capacity > 0
    }

    fn new(capacity: u64) -> (engine: Self) {
        FifoPolicy { capacity, size: 0, cache: table_new(), queue: VecDeque::new() }
    }

    fn get(&mut self, key: Key) -> (hit: Option<()>) {
        match table_get(&self.cache, key) {
            Some(_) => Some(()),
            None => None,
        }
    }

    fn put(&mut self, key: Key, size: u64) {
        if size > self.capacity {
            return ;
        }
        if self.get(key).is_some() {
            return ;
        }
        let room = self.capacity - size;
        while self.size > room
            invariant
                self.inv(),
                self.capacity == old(self).capacity,
                room == self.capacity - size,
                size <= self.capacity,
                !table_entries(self.cache).contains_key(key),
                fifo_evicted(self@, size) == fifo_evicted(old(self)@, size),
            decreases self.queue@.len(),
        {
            let ghost current = self@;
            proof {
                if current.queue.len() == 0 {
                    assert(weight_sum(current.queue, current.weights) == 0);
                }
                lemma_without_oldest(current);
            }
            match self.queue.pop_front() {
                Some(oldest) => {
                    assert(current.queue.contains(oldest));
                    match table_remove(&mut self.cache, oldest) {
                        Some(w) => {
                            self.size = self.size - w;
                        },
                        None => {},
                    }
                    assert(self@ == without_oldest(current));
                },
                None => {},
            }
        }
        proof {
            lemma_admit(self.queue@, table_entries(self.cache), key, size);
        }
        table_insert(&mut self.cache, key, size);
        self.queue.push_back(key);
        self.size = self.size + size;
    }
}

impl FifoPolicy {
    /// The capacity the engine was made with.
    pub fn capacity(&self) -> (c: u64)
        requires
            self.inv(),
        ensures
            c == Self::model_capacity(self@),
    {
        self.capacity
    }

    /// The occupied size.
    pub fn size(&self) -> (s: u64)
        requires
            self.inv(),
        ensures
            s == Self::model_used(self@),
    {
        self.size
    }

    /// Whether `key` is resident.
    pub fn contains(&self, key: Key) -> (found: bool)
        requires
            self.inv(),
        ensures
            found == Self::model_contains(self@, key),
    {
        table_get(&self.cache, key).is_some()
    }
}

} // verus!
