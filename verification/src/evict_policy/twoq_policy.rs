//! Two-queue eviction: new keys wait in a cold queue, keys that were hit live
//! in a hot queue.
use std::collections::{HashMap, VecDeque};
use vstd::prelude::*;
use crate::Key;
use super::EvictPolicy;
use super::weights::{lemma_listing_insert, lemma_listing_remove, lemma_listing_to_front,
    lists_keys, weight_sum};

verus! {

/// The state of a 2Q engine. Both queues have their head at index 0 and their
/// tail at the end.
pub struct TwoQModel {
    /// The capacity: a bound on the sum of the weights; half of it bounds the
    /// length of the cold queue.
    pub capacity: u64,
    /// The keys that were hit, the most recently hit first.
    pub hot: Seq<Key>,
    /// The keys that were admitted and not hit since, the newest first.
    pub cold: Seq<Key>,
    /// The weight of each resident key.
    pub weights: Map<Key, u64>,
}

/// The resident keys: the hot queue, then the cold queue.
pub open spec fn listing(m: TwoQModel) -> Seq<Key> {
    m.hot + m.cold
}

/// The state after a hit on `key`: the key is at the head of the hot queue,
/// whichever queue it was in.
pub open spec fn promoted(m: TwoQModel, key: Key) -> TwoQModel {
    if m.cold.contains(key) {
        TwoQModel {
            capacity: m.capacity,
            hot: seq![key] + m.hot,
            cold: m.cold.remove(m.cold.index_of(key)),
            weights: m.weights,
        }
    } else {
        TwoQModel {
            capacity: m.capacity,
            hot: seq![key] + m.hot.remove(m.hot.index_of(key)),
            cold: m.cold,
            weights: m.weights,
        }
    }
}

/// The key that leaves next: the tail of the hot queue, or, with no hot key,
/// the tail of the cold queue.
pub open spec fn victim(m: TwoQModel) -> Key {
    if m.hot.len() > 0 {
        m.hot.last()
    } else {
        m.cold.last()
    }
}

/// The state after the victim has left.
pub open spec fn without_victim(m: TwoQModel) -> TwoQModel {
    if m.hot.len() > 0 {
        TwoQModel {
            capacity: m.capacity,
            hot: m.hot.drop_last(),
            cold: m.cold,
            weights: m.weights.remove(m.hot.last()),
        }
    } else {
        TwoQModel {
            capacity: m.capacity,
            hot: m.hot,
            cold: m.cold.drop_last(),
            weights: m.weights.remove(m.cold.last()),
        }
    }
}

/// The state after room was made for weight `size`: victims leave, one by
/// one, until the sum of the weights has room for it.
pub open spec fn twoq_evicted(m: TwoQModel, size: u64) -> TwoQModel
    decreases m.hot.len() + m.cold.len(),
{
    if m.hot.len() + m.cold.len() == 0 || weight_sum(listing(m), m.weights) + size
        <= m.capacity {
        m
    } else {
        twoq_evicted(without_victim(m), size)
    }
}

/// The state after a key that was not resident has entered: it is the head of
/// the cold queue, and where that makes the cold queue longer than half the
/// capacity, the oldest cold key moves to the head of the hot queue.
pub open spec fn admitted(m: TwoQModel, key: Key, size: u64) -> TwoQModel {
    let cold = seq![key] + m.cold;
    let weights = m.weights.insert(key, size);
    if cold.len() > m.capacity / 2 {
        TwoQModel {
            capacity: m.capacity,
            hot: seq![cold.last()] + m.hot,
            cold: cold.drop_last(),
            weights,
        }
    } else {
        TwoQModel { capacity: m.capacity, hot: m.hot, cold, weights }
    }
}

/// The place of a key in a sequence that holds it once.
pub proof fn lemma_index_of(keys: Seq<Key>, i: int)
    requires
        keys.no_duplicates(),
        0 <= i < keys.len(),
    ensures
        keys.contains(keys[i]),
        keys.index_of(keys[i]) == i,
{
    let c = keys.index_of(keys[i]);
    assert(0 <= c < keys.len() && keys[c] == keys[i]);
}

/// Where the two queues together list the table, each queue holds its keys
/// once, no key is in both, and the table holds the keys of both.
pub proof fn lemma_listing_parts(m: TwoQModel)
    requires
        lists_keys(listing(m), m.weights),
    ensures
        m.hot.no_duplicates(),
        m.cold.no_duplicates(),
        forall|k: Key|
            m.weights.contains_key(k) <==> (#[trigger] m.hot.contains(k) || m.cold.contains(k)),
        forall|k: Key| !(#[trigger] m.hot.contains(k) && m.cold.contains(k)),
{
    let l = listing(m);
    let h = m.hot.len() as int;
    assert forall|i: int, j: int| 0 <= i < m.hot.len() && 0 <= j < m.hot.len() && i != j implies m.hot[i]
        != m.hot[j] by {
        assert(l[i] == m.hot[i] && l[j] == m.hot[j]);
    }
    assert forall|i: int, j: int| 0 <= i < m.cold.len() && 0 <= j < m.cold.len() && i
        != j implies m.cold[i] != m.cold[j] by {
        assert(l[h + i] == m.cold[i] && l[h + j] == m.cold[j]);
    }
    assert forall|k: Key| m.weights.contains_key(k) <==> (#[trigger] m.hot.contains(k)
        || m.cold.contains(k)) by {
        if m.weights.contains_key(k) {
            assert(l.contains(k));
            let i = choose|i: int| 0 <= i < l.len() && l[i] == k;
            if i < h {
                assert(m.hot[i] == k);
            } else {
                assert(m.cold[i - h] == k);
            }
        }
        if m.hot.contains(k) {
            let i = choose|i: int| 0 <= i < m.hot.len() && m.hot[i] == k;
            assert(l[i] == k);
            assert(l.contains(k));
        }
        if m.cold.contains(k) {
            let i = choose|i: int| 0 <= i < m.cold.len() && m.cold[i] == k;
            assert(l[h + i] == k);
            assert(l.contains(k));
        }
    }
    assert forall|k: Key| !(#[trigger] m.hot.contains(k) && m.cold.contains(k)) by {
        if m.hot.contains(k) && m.cold.contains(k) {
            let i = choose|i: int| 0 <= i < m.hot.len() && m.hot[i] == k;
            let j = choose|j: int| 0 <= j < m.cold.len() && m.cold[j] == k;
            assert(l[i] == k && l[h + j] == k);
        }
    }
}

/// A hit permutes the resident keys and makes the cold queue no longer.
pub proof fn lemma_promoted(m: TwoQModel, key: Key)
    requires
        lists_keys(listing(m), m.weights),
        m.weights.contains_key(key),
    ensures
        lists_keys(listing(promoted(m, key)), m.weights),
        weight_sum(listing(promoted(m, key)), m.weights) == weight_sum(listing(m), m.weights),
        promoted(m, key).cold.len() <= m.cold.len(),
{
    let l = listing(m);
    let h = m.hot.len() as int;
    lemma_listing_parts(m);
    if m.cold.contains(key) {
        let i = m.cold.index_of(key);
        assert(0 <= i < m.cold.len() && m.cold[i] == key);
        assert(l[h + i] == key);
        assert(l.remove(h + i) =~= m.hot + m.cold.remove(i));
        assert(listing(promoted(m, key)) =~= seq![l[h + i]] + l.remove(h + i));
        lemma_listing_to_front(l, m.weights, h + i);
    } else {
        assert(m.hot.contains(key));
        let j = m.hot.index_of(key);
        assert(0 <= j < m.hot.len() && m.hot[j] == key);
        assert(l[j] == key);
        assert(l.remove(j) =~= m.hot.remove(j) + m.cold);
        assert(listing(promoted(m, key)) =~= seq![l[j]] + l.remove(j));
        lemma_listing_to_front(l, m.weights, j);
    }
}

/// The victim leaves with its weight.
pub proof fn lemma_without_victim(m: TwoQModel)
    requires
        lists_keys(listing(m), m.weights),
        m.hot.len() + m.cold.len() > 0,
    ensures
        m.weights.contains_key(victim(m)),
        lists_keys(listing(without_victim(m)), without_victim(m).weights),
        weight_sum(listing(without_victim(m)), without_victim(m).weights) + m.weights[victim(m)]
            == weight_sum(listing(m), m.weights),
        without_victim(m).cold.len() <= m.cold.len(),
        without_victim(m).weights == m.weights.remove(victim(m)),
{
    let l = listing(m);
    let p = if m.hot.len() > 0 {
        m.hot.len() - 1
    } else {
        m.cold.len() - 1
    };
    assert(l[p] == victim(m));
    assert(l.contains(victim(m)));
    assert(l.remove(p) =~= listing(without_victim(m)));
    lemma_listing_remove(l, m.weights, p);
}

/// What stays after an eviction leaves room for the new weight, and holds no
/// key that was not there before.
pub proof fn lemma_twoq_evicted(m: TwoQModel, size: u64)
    requires
        lists_keys(listing(m), m.weights),
        size <= m.capacity,
    ensures
        twoq_evicted(m, size).capacity == m.capacity,
        lists_keys(listing(twoq_evicted(m, size)), twoq_evicted(m, size).weights),
        weight_sum(listing(twoq_evicted(m, size)), twoq_evicted(m, size).weights) + size
            <= m.capacity,
        weight_sum(listing(twoq_evicted(m, size)), twoq_evicted(m, size).weights) <= weight_sum(
            listing(m),
            m.weights,
        ),
        twoq_evicted(m, size).cold.len() <= m.cold.len(),
        forall|k: Key|
            twoq_evicted(m, size).weights.contains_key(k) ==> #[trigger] m.weights.contains_key(k),
    decreases m.hot.len() + m.cold.len(),
{
    if m.hot.len() + m.cold.len() == 0 {
        assert(listing(m) =~= Seq::<Key>::empty());
    } else if weight_sum(listing(m), m.weights) + size <= m.capacity {
    } else {
        lemma_without_victim(m);
        lemma_twoq_evicted(without_victim(m), size);
        assert forall|k: Key| twoq_evicted(m, size).weights.contains_key(k) implies #[trigger]
            m.weights.contains_key(k) by {
            assert(without_victim(m).weights.contains_key(k));
        }
    }
}

/// A key that was not resident enters, and the cold queue keeps its bound.
pub proof fn lemma_admitted(m: TwoQModel, key: Key, size: u64)
    requires
        lists_keys(listing(m), m.weights),
        !m.weights.contains_key(key),
        m.cold.len() <= m.capacity / 2,
    ensures
        lists_keys(listing(admitted(m, key, size)), admitted(m, key, size).weights),
        weight_sum(listing(admitted(m, key, size)), admitted(m, key, size).weights) == weight_sum(
            listing(m),
            m.weights,
        ) + size,
        admitted(m, key, size).cold.len() <= m.capacity / 2,
        admitted(m, key, size).weights == m.weights.insert(key, size),
{
    let l = listing(m);
    let h = m.hot.len() as int;
    let cold = seq![key] + m.cold;
    let weights = m.weights.insert(key, size);
    let l1 = m.hot + cold;
    assert(l.insert(h, key) =~= l1);
    lemma_listing_insert(l, m.weights, h, key, size);
    if cold.len() > m.capacity / 2 {
        let p = l1.len() - 1;
        assert(l1[p] == cold.last());
        assert(l1.remove(p) =~= m.hot + cold.drop_last());
        assert(listing(admitted(m, key, size)) =~= seq![l1[p]] + l1.remove(p));
        lemma_listing_to_front(l1, weights, p);
    }
}

/// A cache with a cold queue for new keys and a hot queue for keys that were
/// hit. Victims are taken from the tail of the hot queue, and from the tail
/// of the cold queue once the hot queue is empty.
pub struct TwoQPolicy {
    hot: VecDeque<Key>,
    cold: VecDeque<Key>,
    cold_map: HashMap<Key, usize>,
    capacity: u64,
    size: u64,
    key_to_size: HashMap<Key, u64>,
}

impl View for TwoQPolicy {
    type V = TwoQModel;

    closed spec fn view(&self) -> TwoQModel {
        TwoQModel {
            capacity: self.capacity,
            hot: self.hot@,
            cold: self.cold@,
            weights: self.key_to_size@,
        }
    }
}

/// The place of `key` in `queue`, if it is there.
fn position_of(queue: &VecDeque<Key>, key: Key) -> (pos: Option<usize>)
    ensures
        match pos {
            Some(p) => p < queue@.len() && queue@[p as int] == key,
            None => !queue@.contains(key),
        },
{
    let n = queue.len();
    let mut i: usize = 0;
    while i < n
        invariant
            n == queue@.len(),
            i <= n,
            forall|j: int| 0 <= j < i ==> queue@[j] != key,
        decreases n - i,
    {
        if queue[i] == key {
            return Some(i);
        }
        i = i + 1;
    }
    None
}

impl TwoQPolicy {
    /// The index table knows no key but those of the cold queue.
    spec fn index_within_cold(&self) -> bool {
        forall|k: Key| #[trigger] self.cold_map@.contains_key(k) ==> self.cold@.contains(k)
    }

    /// The index table gives each key of the cold queue its place there, and
    /// knows no other key.
    spec fn indexed(&self) -> bool {
        &&& forall|k: Key| #[trigger] self.cold_map@.contains_key(k) <==> self.cold@.contains(k)
        &&& forall|k: Key| #[trigger]
            self.cold_map@.contains_key(k) ==> self.cold_map@[k] < self.cold@.len()
                && self.cold@[self.cold_map@[k] as int] == k
    }

    /// Writes into the index table, for each key of the cold queue, the place
    /// it has there.
    fn update_cold_indices(&mut self)
        requires
            old(self).cold@.no_duplicates(),
            old(self).index_within_cold(),
        ensures
            final(self).indexed(),
            final(self).hot == old(self).hot,
            final(self).cold == old(self).cold,
            final(self).capacity == old(self).capacity,
            final(self).size == old(self).size,
            final(self).key_to_size == old(self).key_to_size,
    {
        let n = self.cold.len();
        let mut i: usize = 0;
        while i < n
            invariant
                n == self.cold@.len(),
                i <= n,
                self.cold@.no_duplicates(),
                self.index_within_cold(),
                self.hot == old(self).hot,
                self.cold == old(self).cold,
                self.capacity == old(self).capacity,
                self.size == old(self).size,
                self.key_to_size == old(self).key_to_size,
                forall|j: int|
                    0 <= j < i ==> self.cold_map@.contains_key(#[trigger] self.cold@[j])
                        && self.cold_map@[self.cold@[j]] == j,
            decreases n - i,
        {
            let key = self.cold[i];
            self.cold_map.insert(key, i);
            proof {
                assert(self.cold@.contains(key));
                assert forall|j: int| 0 <= j < i + 1 implies self.cold_map@.contains_key(
                    #[trigger] self.cold@[j],
                ) && self.cold_map@[self.cold@[j]] == j by {
                    if j < i {
                        assert(self.cold@[j] != self.cold@[i as int]);
                    }
                }
            }
            i = i + 1;
        }
        proof {
            assert forall|k: Key| #[trigger] self.cold_map@.contains_key(k) <==> self.cold@.contains(
                k,
            ) by {
                if self.cold@.contains(k) {
                    let j = choose|j: int| 0 <= j < self.cold@.len() && self.cold@[j] == k;
                    assert(self.cold_map@.contains_key(self.cold@[j]));
                }
            }
            assert forall|k: Key| #[trigger] self.cold_map@.contains_key(k) implies self.cold_map@[k]
                < self.cold@.len() && self.cold@[self.cold_map@[k] as int] == k by {
                assert(self.cold@.contains(k));
                let j = choose|j: int| 0 <= j < self.cold@.len() && self.cold@[j] == k;
                assert(self.cold_map@[self.cold@[j]] == j);
            }
        }
    }

    /// Takes the victim out of its queue and returns it; its weight stays in
    /// the table of weights, for the caller to take out. `None` when both
    /// queues are empty.
    fn evict_one(&mut self) -> (evicted: Option<Key>)
        requires
            old(self).inv(),
        ensures
            final(self).indexed(),
            final(self).capacity == old(self).capacity,
            final(self).size == old(self).size,
            final(self).key_to_size == old(self).key_to_size,
            match evicted {
                Some(k) => old(self)@.hot.len() + old(self)@.cold.len() > 0 && k == victim(
                    old(self)@,
                ) && final(self).hot@ == without_victim(old(self)@).hot && final(self).cold@
                    == without_victim(old(self)@).cold,
                None => old(self)@.hot.len() + old(self)@.cold.len() == 0 && final(self).hot@
                    == old(self).hot@ && final(self).cold@ == old(self).cold@,
            },
    {
        if let Some(key) = self.hot.pop_back() {
            Some(key)
        } else if let Some(key) = self.cold.pop_back() {
            let ghost before = old(self).cold@;
            self.cold_map.remove(&key);
            proof {
                lemma_listing_parts(old(self)@);
                let last = before.len() - 1;
                assert(before[last] == key);
                assert forall|k: Key| #[trigger]
                    self.cold_map@.contains_key(k) <==> self.cold@.contains(k) by {
                    if self.cold_map@.contains_key(k) {
                        assert(old(self).cold_map@.contains_key(k));
                        let j = old(self).cold_map@[k] as int;
                        assert(before[j] == k);
                        assert(j != last);
                        assert(self.cold@[j] == k);
                    }
                    if self.cold@.contains(k) {
                        let j = choose|j: int| 0 <= j < self.cold@.len() && self.cold@[j] == k;
                        assert(before[j] == k);
                        assert(before.contains(k));
                    }
                }
                assert forall|k: Key| #[trigger] self.cold_map@.contains_key(k) implies self.cold_map@[k]
                    < self.cold@.len() && self.cold@[self.cold_map@[k] as int] == k by {
                    assert(old(self).cold_map@.contains_key(k));
                    let j = old(self).cold_map@[k] as int;
                    assert(before[j] == k);
                    assert(j != last);
                }
            }
            Some(key)
        } else {
            None
        }
    }

    /// The capacity the engine was made with.
    pub fn capacity(&self) -> (c: u64)
        requires
            self.inv(),
        ensures
            c == Self::model_capacity(self@),
    {
        self.capacity
    }

    /// The occupied size.
    pub fn size(&self) -> (s: u64)
        requires
            self.inv(),
        ensures
            s == Self::model_used(self@),
    {
        self.size
    }

    /// Whether `key` is resident; the queues stay as they are.
    pub fn contains(&self, key: Key) -> (found: bool)
        requires
            self.inv(),
        ensures
            found == Self::model_contains(self@, key),
    {
        self.key_to_size.contains_key(&key)
    }
}

impl EvictPolicy for TwoQPolicy {
    closed spec fn inv(&self) -> bool {
        &&& Self::model_wf(self@)
        &&& self.size == weight_sum(listing(self@), self.key_to_size@)
        &&& self.indexed()
    }

    open spec fn valid_capacity(capacity: u64) -> bool {
        capacity > 0
    }

    open spec fn model_wf(m: TwoQModel) -> bool {
        &&& m.capacity > 0
        &&& lists_keys(listing(m), m.weights)
        &&& weight_sum(listing(m), m.weights) <= m.capacity
        &&& m.cold.len() <= m.capacity / 2
    }

    open spec fn model_new(capacity: u64) -> TwoQModel {
        TwoQModel { capacity, hot: Seq::empty(), cold: Seq::empty(), weights: Map::empty() }
    }

    open spec fn model_capacity(m: TwoQModel) -> u64 {
        m.capacity
    }

    open spec fn model_used(m: TwoQModel) -> nat {
        weight_sum(listing(m), m.weights)
    }

    open spec fn model_contains(m: TwoQModel, key: Key) -> bool {
        m.weights.contains_key(key)
    }

    open spec fn model_get(m: TwoQModel, key: Key) -> TwoQModel {
        promoted(m, key)
    }

    /// A key heavier than the capacity is skipped. A resident key is a hit.
    /// For any other key victims leave until the sum of the weights has room
    /// for `size`; then the key enters the cold queue.
    open spec fn model_put(m: TwoQModel, key: Key, size: u64) -> TwoQModel {
        if size > m.capacity {
            m
        } else if m.weights.contains_key(key) {
            promoted(m, key)
        } else {
            admitted(twoq_evicted(m, size), key, size)
        }
    }

    proof fn lemma_model_new(capacity: u64) {
        assert(listing(Self::model_new(capacity)) =~= Seq::<Key>::empty());
    }

    proof fn lemma_model_bounded(m: TwoQModel) {
    }

    proof fn lemma_model_get(m: TwoQModel, key: Key) {
        lemma_promoted(m, key);
    }

    proof fn lemma_model_put(m: TwoQModel, key: Key, size: u64) {
        if size > m.capacity {
        } else if m.weights.contains_key(key) {
            lemma_promoted(m, key);
        } else {
            lemma_twoq_evicted(m, size);
            lemma_admitted(twoq_evicted(m, size), key, size);
        }
    }

    proof fn lemma_inv_wf(&self) {
    }

    fn accepts_capacity(capacity: u64) -> (ok: bool) {
        capacity > 0
    }

    fn new(capacity: u64) -> (engine: Self) {
        let engine = TwoQPolicy {
            hot: VecDeque::new(),
            cold: VecDeque::new(),
            cold_map: HashMap::new(),
            capacity,
            size: 0,
            key_to_size: HashMap::new(),
        };
        proof {
            assert(listing(engine@) =~= Seq::<Key>::empty());
        }
        engine
    }

    fn get(&mut self, key: Key) -> (hit: Option<()>) {
        proof {
            lemma_listing_parts(old(self)@);
            assert(self.key_to_size@.contains_key(key) <==> (self.hot@.contains(key)
                || self.cold@.contains(key)));
            assert(self.cold_map@.contains_key(key) <==> self.cold@.contains(key));
            if self.key_to_size@.contains_key(key) {
                lemma_promoted(old(self)@, key);
            }
        }
        let found = match self.cold_map.get(&key) {
            Some(idx) => Some(*idx),
            None => None,
        };
        if let Some(idx) = found {
            proof {
                lemma_index_of(old(self).cold@, idx as int);
            }
            self.cold.remove(idx);
            self.cold_map.remove(&key);
            self.hot.push_front(key);
            proof {
                lemma_listing_parts(self@);
                assert forall|k: Key| #[trigger] self.cold_map@.contains_key(k) implies self.cold@.contains(
                    k,
                ) by {
                    let j = old(self).cold_map@[k] as int;
                    assert(old(self).cold@[j] == k);
                    assert(j != idx);
                    let r = if j < idx { j } else { j - 1 };
                    assert(self.cold@[r] == k);
                }
            }
            self.update_cold_indices();
            Some(())
        } else {
            match position_of(&self.hot, key) {
                Some(pos) => {
                    proof {
                        lemma_index_of(old(self).hot@, pos as int);
                    }
                    self.hot.remove(pos);
                    self.hot.push_front(key);
                    Some(())
                },
                None => None,
            }
        }
    }

    fn put(&mut self, key: Key, size: u64) {
        if size > self.capacity {
            return ;
        }
        if self.get(key).is_some() {
            return ;
        }
        let room = self.capacity - size;
        while self.size > room
            invariant
                self.inv(),
                self.capacity == old(self).capacity,
                room == self.capacity - size,
                size <= self.capacity,
                !self.key_to_size@.contains_key(key),
                twoq_evicted(self@, size) == twoq_evicted(old(self)@, size),
            decreases self.hot@.len() + self.cold@.len(),
        {
            let ghost current = self@;
            proof {
                if current.hot.len() + current.cold.len() == 0 {
                    assert(listing(current) =~= Seq::<Key>::empty());
                }
                lemma_without_victim(current);
            }
            match self.evict_one() {
                Some(evicted_key) => {
                    match self.key_to_size.remove(&evicted_key) {
                        Some(evicted_size) => {
                            self.size = self.size - evicted_size;
                        },
                        None => {},
                    }
                    assert(self@ == without_victim(current));
                },
                None => {},
            }
        }
        let ghost kept = self@;
        proof {
            lemma_listing_parts(kept);
            lemma_admitted(kept, key, size);
            assert(!kept.hot.contains(key));
            assert(!kept.cold.contains(key));
        }
        self.size = self.size + size;
        self.key_to_size.insert(key, size);
        self.cold.push_front(key);
        proof {
            let cold = seq![key] + kept.cold;
            assert(self.cold@ == cold);
            assert forall|i: int, j: int| 0 <= i < cold.len() && 0 <= j < cold.len() && i
                != j implies cold[i] != cold[j] by {
                if i > 0 {
                    assert(cold[i] == kept.cold[i - 1]);
                    assert(kept.cold.contains(cold[i]));
                }
                if j > 0 {
                    assert(cold[j] == kept.cold[j - 1]);
                    assert(kept.cold.contains(cold[j]));
                }
            }
            assert forall|k: Key| #[trigger] self.cold_map@.contains_key(k) implies self.cold@.contains(
                k,
            ) by {
                let j = self.cold_map@[k] as int;
                assert(kept.cold[j] == k);
                assert(cold[j + 1] == k);
            }
        }
        self.update_cold_indices();
        if self.cold.len() as u64 > self.capacity / 2 {
            let ghost cold = self.cold@;
            if let Some(old_key) = self.cold.pop_back() {
                self.cold_map.remove(&old_key);
                self.hot.push_front(old_key);
                proof {
                    let last = cold.len() - 1;
                    assert forall|k: Key| #[trigger]
                        self.cold_map@.contains_key(k) <==> self.cold@.contains(k) by {
                        if self.cold_map@.contains_key(k) {
                            let j = self.cold_map@[k] as int;
                            assert(cold[j] == k);
                            assert(j != last);
                            assert(self.cold@[j] == k);
                        }
                        if self.cold@.contains(k) {
                            let j = choose|j: int| 0 <= j < self.cold@.len() && self.cold@[j] == k;
                            assert(cold[j] == k);
                            assert(cold.contains(k));
                        }
                    }
                    assert forall|k: Key| #[trigger] self.cold_map@.contains_key(k) implies self.cold_map@[k]
                        < self.cold@.len() && self.cold@[self.cold_map@[k] as int] == k by {
                        let j = self.cold_map@[k] as int;
                        assert(cold[j] == k);
                        assert(j != last);
                    }
                }
            }
        }
        assert(self@ == admitted(kept, key, size));
    }
}

} // verus!
