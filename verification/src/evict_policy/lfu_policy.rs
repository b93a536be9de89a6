//! Least-frequently-used eviction: a table from each resident key to its
//! frequency and weight, and the keys of each frequency in a bucket.
use std::collections::{BTreeMap, HashMap};
use vstd::prelude::*;
use crate::Key;
use super::EvictPolicy;
use super::weights::{lemma_listing_insert, lemma_listing_remove, lists_keys, weight_sum};

verus! {

/// The state of an LFU engine.
pub struct LfuModel {
    /// The capacity: a bound on the sum of the weights.
    pub capacity: u64,
    /// The frequency and the weight of each resident key.
    pub entries: Map<Key, (u64, u64)>,
    /// For each frequency that some resident key has, the keys that have it,
    /// in the order in which they reached it.
    pub buckets: Map<u64, Seq<Key>>,
    /// The resident keys in order of admission.
    pub roster: Seq<Key>,
}

/// The weight of each key, without its frequency.
pub open spec fn weights_of(entries: Map<Key, (u64, u64)>) -> Map<Key, u64> {
    Map::new(|k: Key| entries.contains_key(k), |k: Key| entries[k].1)
}

/// The buckets hold the keys of `entries`, each in the bucket of its frequency
/// and nowhere else, and no bucket is empty.
pub open spec fn buckets_wf(entries: Map<Key, (u64, u64)>, buckets: Map<u64, Seq<Key>>) -> bool {
    &&& forall|f: u64| #[trigger]
        buckets.contains_key(f) ==> buckets[f].len() > 0 && buckets[f].no_duplicates()
    &&& forall|f: u64, i: int|
        buckets.contains_key(f) && 0 <= i < buckets[f].len() ==> entries.contains_key(
            #[trigger] buckets[f][i],
        ) && entries[buckets[f][i]].0 == f
    &&& forall|k: Key| #[trigger]
        entries.contains_key(k) ==> buckets.contains_key(entries[k].0)
            && buckets[entries[k].0].contains(k)
}

/// The buckets after `key` has left the bucket of frequency `f`; a bucket
/// that it leaves empty is gone.
pub open spec fn bucket_without(buckets: Map<u64, Seq<Key>>, f: u64, key: Key) -> Map<
    u64,
    Seq<Key>,
> {
    let rest = buckets[f].remove(buckets[f].index_of(key));
    if rest.len() == 0 {
        buckets.remove(f)
    } else {
        buckets.insert(f, rest)
    }
}

/// The buckets after `key` has joined the end of the bucket of frequency `f`.
pub open spec fn bucket_with(buckets: Map<u64, Seq<Key>>, f: u64, key: Key) -> Map<u64, Seq<Key>> {
    if buckets.contains_key(f) {
        buckets.insert(f, buckets[f].push(key))
    } else {
        buckets.insert(f, seq![key])
    }
}

/// Whether `f` is the lowest frequency that has a bucket.
pub open spec fn is_lowest(buckets: Map<u64, Seq<Key>>, f: u64) -> bool {
    buckets.contains_key(f) && forall|g: u64| #[trigger] buckets.contains_key(g) ==> f <= g
}

/// The lowest frequency that has a bucket.
pub open spec fn lowest(buckets: Map<u64, Seq<Key>>) -> u64 {
    choose|f: u64| is_lowest(buckets, f)
}

/// The key that leaves next: of the keys with the lowest frequency, the one
/// that reached it first.
pub open spec fn lfu_victim(m: LfuModel) -> Key {
    m.buckets[lowest(m.buckets)][0]
}

/// The state after the victim has left.
pub open spec fn without_victim(m: LfuModel) -> LfuModel {
    let v = lfu_victim(m);
    LfuModel {
        capacity: m.capacity,
        entries: m.entries.remove(v),
        buckets: bucket_without(m.buckets, lowest(m.buckets), v),
        roster: m.roster.remove(m.roster.index_of(v)),
    }
}

/// The state after room was made for weight `size`: victims leave, one by
/// one, until the sum of the weights has room for it.
pub open spec fn lfu_evicted(m: LfuModel, size: u64) -> LfuModel
    decreases m.roster.len(),
{
    if m.roster.len() == 0 || weight_sum(m.roster, weights_of(m.entries)) + size <= m.capacity {
        m
    } else if m.roster.contains(lfu_victim(m)) {
        lfu_evicted(without_victim(m), size)
    } else {
        m
    }
}

/// The state after a hit on `key`: the key has left the bucket of its
/// frequency for the end of the next one. A frequency that has reached the
/// largest number stays.
pub open spec fn bumped(m: LfuModel, key: Key) -> LfuModel {
    let (f, w) = m.entries[key];
    if f == u64::MAX {
        m
    } else {
        let next = (f + 1) as u64;
        LfuModel {
            capacity: m.capacity,
            entries: m.entries.insert(key, (next, w)),
            buckets: bucket_with(bucket_without(m.buckets, f, key), next, key),
            roster: m.roster,
        }
    }
}

/// The state after a key that was not resident has entered, with frequency 1.
pub open spec fn admitted(m: LfuModel, key: Key, size: u64) -> LfuModel {
    LfuModel {
        capacity: m.capacity,
        entries: m.entries.insert(key, (1, size)),
        buckets: bucket_with(m.buckets, 1, key),
        roster: m.roster.push(key),
    }
}

/// Among the frequencies that have a bucket there is a lowest.
pub proof fn lemma_lowest_exists(buckets: Map<u64, Seq<Key>>, f: u64)
    requires
        buckets.contains_key(f),
    ensures
        is_lowest(buckets, lowest(buckets)),
    decreases f,
{
    if is_lowest(buckets, f) {
    } else {
        let g = choose|g: u64| #[trigger] buckets.contains_key(g) && !(f <= g);
        lemma_lowest_exists(buckets, g);
    }
}

/// The lowest frequency is the only one that is lowest.
pub proof fn lemma_lowest_unique(buckets: Map<u64, Seq<Key>>, f: u64)
    requires
        is_lowest(buckets, f),
    ensures
        lowest(buckets) == f,
{
    let l = lowest(buckets);
    assert(is_lowest(buckets, l));
    assert(buckets.contains_key(l) && buckets.contains_key(f));
}

/// A key leaves its bucket and the table.
pub proof fn lemma_bucket_drop(entries: Map<Key, (u64, u64)>, buckets: Map<u64, Seq<Key>>, key: Key)
    requires
        buckets_wf(entries, buckets),
        entries.contains_key(key),
    ensures
        buckets_wf(entries.remove(key), bucket_without(buckets, entries[key].0, key)),
{
    let f = entries[key].0;
    let b = buckets[f];
    assert(buckets.contains_key(f) && b.contains(key));
    let i = b.index_of(key);
    assert(0 <= i < b.len() && b[i] == key);
    let rest = b.remove(i);
    let e2 = entries.remove(key);
    let b2 = bucket_without(buckets, f, key);
    assert forall|j: int| 0 <= j < rest.len() implies #[trigger] rest[j] == b[if j < i {
        j
    } else {
        j + 1
    }] && rest[j] != key by {
        let s = if j < i { j } else { j + 1 };
        assert(rest[j] == b[s]);
        assert(b[s] != b[i]);
    }
    assert forall|g: u64| #[trigger] b2.contains_key(g) implies b2[g].len() > 0
        && b2[g].no_duplicates() by {
        if g == f {
            assert forall|x: int, y: int| 0 <= x < rest.len() && 0 <= y < rest.len() && x
                != y implies rest[x] != rest[y] by {
                let sx = if x < i { x } else { x + 1 };
                let sy = if y < i { y } else { y + 1 };
                assert(rest[x] == b[sx] && rest[y] == b[sy]);
            }
        } else {
            assert(buckets.contains_key(g));
        }
    }
    assert forall|g: u64, j: int| b2.contains_key(g) && 0 <= j < b2[g].len() implies e2.contains_key(
        #[trigger] b2[g][j],
    ) && e2[b2[g][j]].0 == g by {
        if g == f {
            let s = if j < i { j } else { j + 1 };
            assert(rest[j] == b[s] && rest[j] != key);
            assert(entries.contains_key(buckets[f][s]));
        } else {
            assert(entries.contains_key(buckets[g][j]));
        }
    }
    assert forall|k: Key| #[trigger] e2.contains_key(k) implies b2.contains_key(e2[k].0)
        && b2[e2[k].0].contains(k) by {
        assert(entries.contains_key(k));
        let g = entries[k].0;
        if g == f {
            let s = choose|s: int| 0 <= s < b.len() && b[s] == k;
            assert(s != i);
            let j = if s < i { s } else { s - 1 };
            assert(rest[j] == k);
        }
    }
}

/// A key that the table does not hold joins it, and a bucket.
pub proof fn lemma_bucket_add(
    entries: Map<Key, (u64, u64)>,
    buckets: Map<u64, Seq<Key>>,
    key: Key,
    f: u64,
    w: u64,
)
    requires
        buckets_wf(entries, buckets),
        !entries.contains_key(key),
    ensures
        buckets_wf(entries.insert(key, (f, w)), bucket_with(buckets, f, key)),
{
    let e2 = entries.insert(key, (f, w));
    let b2 = bucket_with(buckets, f, key);
    let nb = b2[f];
    assert(b2.contains_key(f));
    if buckets.contains_key(f) {
        let b = buckets[f];
        assert forall|j: int| 0 <= j < b.len() implies #[trigger] b[j] != key by {
            assert(entries.contains_key(buckets[f][j]));
        }
    }
    assert forall|g: u64| #[trigger] b2.contains_key(g) implies b2[g].len() > 0
        && b2[g].no_duplicates() by {
        if g == f {
            if buckets.contains_key(f) {
                let b = buckets[f];
                assert forall|x: int, y: int| 0 <= x < nb.len() && 0 <= y < nb.len() && x
                    != y implies nb[x] != nb[y] by {
                    if x < b.len() {
                        assert(nb[x] == b[x]);
                    }
                    if y < b.len() {
                        assert(nb[y] == b[y]);
                    }
                }
            }
        } else {
            assert(buckets.contains_key(g));
        }
    }
    assert forall|g: u64, j: int| b2.contains_key(g) && 0 <= j < b2[g].len() implies e2.contains_key(
        #[trigger] b2[g][j],
    ) && e2[b2[g][j]].0 == g by {
        if g == f {
            if buckets.contains_key(f) && j < buckets[f].len() {
                assert(nb[j] == buckets[f][j]);
                assert(entries.contains_key(buckets[f][j]));
            }
        } else {
            assert(entries.contains_key(buckets[g][j]));
        }
    }
    assert forall|k: Key| #[trigger] e2.contains_key(k) implies b2.contains_key(e2[k].0)
        && b2[e2[k].0].contains(k) by {
        if k == key {
            assert(nb[nb.len() - 1] == key);
        } else {
            assert(entries.contains_key(k));
            let g = entries[k].0;
            if g == f {
                let b = buckets[f];
                let s = choose|s: int| 0 <= s < b.len() && b[s] == k;
                assert(nb[s] == k);
            }
        }
    }
}

/// The structure of a state: the roster lists the table, and the buckets
/// hold it.
pub open spec fn structured(m: LfuModel) -> bool {
    &&& lists_keys(m.roster, weights_of(m.entries))
    &&& buckets_wf(m.entries, m.buckets)
}

/// With a resident key there is a victim, and it is resident.
pub proof fn lemma_victim(m: LfuModel)
    requires
        structured(m),
        m.roster.len() > 0,
    ensures
        is_lowest(m.buckets, lowest(m.buckets)),
        m.entries.contains_key(lfu_victim(m)),
        m.entries[lfu_victim(m)].0 == lowest(m.buckets),
        m.roster.contains(lfu_victim(m)),
        m.buckets[lowest(m.buckets)].index_of(lfu_victim(m)) == 0,
{
    let k = m.roster[0];
    assert(m.roster.contains(k));
    assert(weights_of(m.entries).contains_key(k));
    assert(m.entries.contains_key(k));
    lemma_lowest_exists(m.buckets, m.entries[k].0);
    let low = lowest(m.buckets);
    let b = m.buckets[low];
    assert(m.buckets.contains_key(low));
    assert(m.entries.contains_key(m.buckets[low][0]));
    assert(weights_of(m.entries).contains_key(lfu_victim(m)));
    let i = b.index_of(b[0]);
    assert(0 <= i < b.len() && b[i] == b[0]);
}

/// The victim leaves with its weight.
pub proof fn lemma_without_victim(m: LfuModel)
    requires
        structured(m),
        m.roster.len() > 0,
    ensures
        structured(without_victim(m)),
        without_victim(m).roster.len() + 1 == m.roster.len(),
        weight_sum(without_victim(m).roster, weights_of(without_victim(m).entries))
            + m.entries[lfu_victim(m)].1 == weight_sum(m.roster, weights_of(m.entries)),
{
    lemma_victim(m);
    let v = lfu_victim(m);
    let p = m.roster.index_of(v);
    assert(0 <= p < m.roster.len() && m.roster[p] == v);
    lemma_listing_remove(m.roster, weights_of(m.entries), p);
    assert(weights_of(m.entries).remove(v) =~= weights_of(m.entries.remove(v)));
    lemma_bucket_drop(m.entries, m.buckets, v);
}

/// What stays after an eviction leaves room for the new weight, and holds no
/// key that was not there before.
pub proof fn lemma_lfu_evicted(m: LfuModel, size: u64)
    requires
        structured(m),
        size <= m.capacity,
    ensures
        lfu_evicted(m, size).capacity == m.capacity,
        structured(lfu_evicted(m, size)),
        weight_sum(lfu_evicted(m, size).roster, weights_of(lfu_evicted(m, size).entries)) + size
            <= m.capacity,
        weight_sum(lfu_evicted(m, size).roster, weights_of(lfu_evicted(m, size).entries))
            <= weight_sum(m.roster, weights_of(m.entries)),
        forall|k: Key|
            lfu_evicted(m, size).entries.contains_key(k) ==> #[trigger] m.entries.contains_key(k),
    decreases m.roster.len(),
{
    if m.roster.len() == 0 || weight_sum(m.roster, weights_of(m.entries)) + size <= m.capacity {
    } else {
        lemma_victim(m);
        lemma_without_victim(m);
        lemma_lfu_evicted(without_victim(m), size);
        assert forall|k: Key| lfu_evicted(m, size).entries.contains_key(k) implies #[trigger]
            m.entries.contains_key(k) by {
            assert(without_victim(m).entries.contains_key(k));
        }
    }
}

/// A hit keeps the resident keys and their weights.
pub proof fn lemma_bumped(m: LfuModel, key: Key)
    requires
        structured(m),
        m.entries.contains_key(key),
    ensures
        structured(bumped(m, key)),
        weights_of(bumped(m, key).entries) == weights_of(m.entries),
        bumped(m, key).roster == m.roster,
{
    let (f, w) = m.entries[key];
    if f != u64::MAX {
        let next = (f + 1) as u64;
        lemma_bucket_drop(m.entries, m.buckets, key);
        lemma_bucket_add(m.entries.remove(key), bucket_without(m.buckets, f, key), key, next, w);
        assert(m.entries.remove(key).insert(key, (next, w)) =~= m.entries.insert(key, (next, w)));
        assert(weights_of(m.entries.insert(key, (next, w))) =~= weights_of(m.entries));
    }
}

/// A key that was not resident enters.
pub proof fn lemma_admitted(m: LfuModel, key: Key, size: u64)
    requires
        structured(m),
        !m.entries.contains_key(key),
    ensures
        structured(admitted(m, key, size)),
        weight_sum(admitted(m, key, size).roster, weights_of(admitted(m, key, size).entries))
            == weight_sum(m.roster, weights_of(m.entries)) + size,
{
    assert(m.roster.insert(m.roster.len() as int, key) =~= m.roster.push(key));
    lemma_listing_insert(m.roster, weights_of(m.entries), m.roster.len() as int, key, size);
    assert(weights_of(m.entries).insert(key, size) =~= weights_of(m.entries.insert(key, (1, size))));
    lemma_bucket_add(m.entries, m.buckets, key, 1, size);
}

/// What the buckets of an engine hold, as sequences.
pub open spec fn bucket_views(buckets: Map<u64, Vec<Key>>) -> Map<u64, Seq<Key>> {
    buckets.map_values(|keys: Vec<Key>| keys@)
}

/// `BTreeMap::first_key_value`: the least key of the map, if it has one.
#[verifier::external_body]
fn first_frequency(buckets: &BTreeMap<u64, Vec<Key>>) -> (first: Option<u64>)
    ensures
        match first {
            Some(f) => buckets@.contains_key(f) && forall|g: u64| #[trigger]
                buckets@.contains_key(g) ==> f <= g,
            None => forall|g: u64| !#[trigger] buckets@.contains_key(g),
        },
{
    match buckets.first_key_value() {
        Some((f, _)) => Some(*f),
        None => None,
    }
}

/// The place of `key` in `keys`, if it is there.
fn place_of(keys: &Vec<Key>, key: Key) -> (pos: Option<usize>)
    ensures
        match pos {
            Some(p) => p < keys@.len() && keys@[p as int] == key,
            None => !keys@.contains(key),
        },
{
    let n = keys.len();
    let mut i: usize = 0;
    while i < n
        invariant
            n == keys@.len(),
            i <= n,
            forall|j: int| 0 <= j < i ==> keys@[j] != key,
        decreases n - i,
    {
        if keys[i] == key {
            return Some(i);
        }
        i = i + 1;
    }
    None
}

/// Takes `key` out of the bucket of frequency `freq`.
fn take_from_bucket(buckets: &mut BTreeMap<u64, Vec<Key>>, freq: u64, key: Key)
    requires
        old(buckets)@.contains_key(freq),
        old(buckets)@[freq]@.contains(key),
        old(buckets)@[freq]@.no_duplicates(),
    ensures
        bucket_views(final(buckets)@) == bucket_without(bucket_views(old(buckets)@), freq, key),
{
    broadcast use vstd::std_specs::btree::group_btree_axioms;

    let ghost before = bucket_views(buckets@);
    match buckets.remove(&freq) {
        Some(keys) => {
            let mut keys = keys;
            let ghost b = keys@;
            match place_of(&keys, key) {
                Some(pos) => {
                    proof {
                        let c = b.index_of(key);
                        assert(0 <= c < b.len() && b[c] == key);
                        assert(c == pos);
                    }
                    keys.remove(pos);
                    if keys.len() > 0 {
                        buckets.insert(freq, keys);
                        assert(bucket_views(buckets@) =~= bucket_without(before, freq, key));
                    } else {
                        assert(bucket_views(buckets@) =~= bucket_without(before, freq, key));
                    }
                },
                None => {},
            }
        },
        None => {},
    }
}

/// Puts `key` at the end of the bucket of frequency `freq`.
fn add_to_bucket(buckets: &mut BTreeMap<u64, Vec<Key>>, freq: u64, key: Key)
    ensures
        bucket_views(final(buckets)@) == bucket_with(bucket_views(old(buckets)@), freq, key),
{
    broadcast use vstd::std_specs::btree::group_btree_axioms;

    let ghost before = bucket_views(buckets@);
    let mut keys = match buckets.remove(&freq) {
        Some(keys) => keys,
        None => Vec::new(),
    };
    keys.push(key);
    buckets.insert(freq, keys);
    assert(bucket_views(buckets@) =~= bucket_with(before, freq, key));
}

/// A cache that evicts the least frequently used key first; of several keys
/// with the lowest frequency, the one that reached it first.
pub struct LfuPolicy {
    capacity: u64,
    size: u64,
    key_to_freq_and_size: HashMap<Key, (u64, u64)>,
    freq_to_keys: BTreeMap<u64, Vec<Key>>,
    roster: Ghost<Seq<Key>>,
}

impl View for LfuPolicy {
    type V = LfuModel;

    closed spec fn view(&self) -> LfuModel {
        LfuModel {
            capacity: self.capacity,
            entries: self.key_to_freq_and_size@,
            buckets: bucket_views(self.freq_to_keys@),
            roster: self.roster@,
        }
    }
}

impl EvictPolicy for LfuPolicy {
    closed spec fn inv(&self) -> bool {
        &&& Self::model_wf(self@)
        &&& self.size == weight_sum(self.roster@, weights_of(self.key_to_freq_and_size@))
    }

    /// An engine can have any capacity; one of capacity 0 admits nothing.
    open spec fn valid_capacity(capacity: u64) -> bool {
        true
    }

    open spec fn model_wf(m: LfuModel) -> bool {
        &&& structured(m)
        &&& weight_sum(m.roster, weights_of(m.entries)) <= m.capacity
    }

    open spec fn model_new(capacity: u64) -> LfuModel {
        LfuModel { capacity, entries: Map::empty(), buckets: Map::empty(), roster: Seq::empty() }
    }

    open spec fn model_capacity(m: LfuModel) -> u64 {
        m.capacity
    }

    open spec fn model_used(m: LfuModel) -> nat {
        weight_sum(m.roster, weights_of(m.entries))
    }

    open spec fn model_contains(m: LfuModel, key: Key) -> bool {
        m.entries.contains_key(key)
    }

    open spec fn model_get(m: LfuModel, key: Key) -> LfuModel {
        bumped(m, key)
    }

    /// With capacity 0, or for a key heavier than the capacity, nothing
    /// happens. A resident key is a hit. For any other key victims leave
    /// until the sum of the weights has room for `size`; then the key enters
    /// with frequency 1.
    open spec fn model_put(m: LfuModel, key: Key, size: u64) -> LfuModel {
        if m.capacity == 0 || size > m.capacity {
            m
        } else if m.entries.contains_key(key) {
            bumped(m, key)
        } else {
            admitted(lfu_evicted(m, size), key, size)
        }
    }

    proof fn lemma_model_new(capacity: u64) {
    }

    proof fn lemma_model_bounded(m: LfuModel) {
    }

    proof fn lemma_model_get(m: LfuModel, key: Key) {
        lemma_bumped(m, key);
    }

    proof fn lemma_model_put(m: LfuModel, key: Key, size: u64) {
        if m.capacity == 0 || size > m.capacity {
        } else if m.entries.contains_key(key) {
            lemma_bumped(m, key);
        } else {
            lemma_lfu_evicted(m, size);
            lemma_admitted(lfu_evicted(m, size), key, size);
        }
    }

    proof fn lemma_inv_wf(&self) {
    }

    fn accepts_capacity(capacity: u64) -> (ok: bool) {
        true
    }

    fn new(capacity: u64) -> (engine: Self) {
        broadcast use vstd::std_specs::btree::group_btree_axioms;

        let engine = LfuPolicy {
            capacity,
            size: 0,
            key_to_freq_and_size: HashMap::new(),
            freq_to_keys: BTreeMap::new(),
            roster: Ghost(Seq::empty()),
        };
        assert(engine@.buckets =~= Map::<u64, Seq<Key>>::empty());
        engine
    }

    fn get(&mut self, key: Key) -> (hit: Option<()>) {
        let found = match self.key_to_freq_and_size.get(&key) {
            Some(entry) => Some(*entry),
            None => None,
        };
        match found {
            Some((freq, weight)) => {
                proof {
                    lemma_bumped(old(self)@, key);
                }
                if freq < u64::MAX {
                    assert(old(self)@.buckets.contains_key(freq));
                    assert(old(self)@.buckets[freq].contains(key));
                    take_from_bucket(&mut self.freq_to_keys, freq, key);
                    add_to_bucket(&mut self.freq_to_keys, freq + 1, key);
                    self.key_to_freq_and_size.insert(key, (freq + 1, weight));
                }
                Some(())
            },
            None => None,
        }
    }

    fn put(&mut self, key: Key, size: u64) {
        if self.capacity == 0 || size > self.capacity {
            return ;
        }
        if self.key_to_freq_and_size.contains_key(&key) {
            self.get(key);
            return ;
        }
        let room = self.capacity - size;
        while self.size > room
            invariant
                self.inv(),
                self.capacity == old(self).capacity,
                room == self.capacity - size,
                size <= self.capacity,
                !self.key_to_freq_and_size@.contains_key(key),
                lfu_evicted(self@, size) == lfu_evicted(old(self)@, size),
            decreases self.roster@.len(),
        {
            let ghost current = self@;
            proof {
                lemma_victim(current);
                lemma_without_victim(current);
            }
            match first_frequency(&self.freq_to_keys) {
                Some(least_freq) => {
                    proof {
                        assert(current.buckets.contains_key(least_freq));
                        assert forall|g: u64| #[trigger]
                            current.buckets.contains_key(g) implies least_freq <= g by {
                            assert(self.freq_to_keys@.contains_key(g));
                        }
                        lemma_lowest_unique(current.buckets, least_freq);
                    }
                    let evicted_key = self.first_of_bucket(least_freq);
                    take_from_bucket(&mut self.freq_to_keys, least_freq, evicted_key);
                    match self.key_to_freq_and_size.remove(&evicted_key) {
                        Some(entry) => {
                            self.size = self.size - entry.1;
                        },
                        None => {},
                    }
                    proof {
                        self.roster@ = current.roster.remove(current.roster.index_of(evicted_key));
                    }
                    assert(self@ == without_victim(current));
                },
                None => {
                    assert(false);
                },
            }
        }
        proof {
            lemma_admitted(self@, key, size);
        }
        self.key_to_freq_and_size.insert(key, (1, size));
        add_to_bucket(&mut self.freq_to_keys, 1, key);
        self.size = self.size + size;
        proof {
            self.roster@ = self.roster@.push(key);
        }
    }
}

impl LfuPolicy {
    /// The first key of the bucket of frequency `freq`.
    fn first_of_bucket(&self, freq: u64) -> (key: Key)
        requires
            self.freq_to_keys@.contains_key(freq),
            self.freq_to_keys@[freq]@.len() > 0,
        ensures
            key == self.freq_to_keys@[freq]@[0],
    {
        broadcast use vstd::std_specs::btree::group_btree_axioms;

        match self.freq_to_keys.get(&freq) {
            Some(keys) => keys[0],
            None => 0,
        }
    }

    /// The capacity the engine was made with.
    pub fn capacity(&self) -> (c: u64)
        requires
            self.inv(),
        ensures
            c == Self::model_capacity(self@),
    {
        self.capacity
    }

    /// The occupied size.
    pub fn size(&self) -> (s: u64)
        requires
            self.inv(),
        ensures
            s == Self::model_used(self@),
    {
        self.size
    }

    /// Whether `key` is resident; its frequency stays as it is.
    pub fn contains(&self, key: Key) -> (found: bool)
        requires
            self.inv(),
        ensures
            found == Self::model_contains(self@, key),
    {
        self.key_to_freq_and_size.contains_key(&key)
    }
}

} // verus!
