//! Sums of weights over sequences, and how they change with the sequence.
use vstd::prelude::*;
use crate::Key;

verus! {

/// The sum of the weights of a sequence of entries, each a key with its weight.
pub open spec fn total_weight(entries: Seq<(Key, u64)>) -> nat
    decreases entries.len(),
{
    if entries.len() == 0 {
        0
    } else {
        total_weight(entries.drop_last()) + entries.last().1 as nat
    }
}

/// The sum, over a sequence of keys, of the weight that `weights` gives each.
pub open spec fn weight_sum(keys: Seq<Key>, weights: Map<Key, u64>) -> nat
    decreases keys.len(),
{
    if keys.len() == 0 {
        0
    } else {
        weight_sum(keys.drop_last(), weights) + weights[keys.last()] as nat
    }
}

/// The weight of two sequences joined is the sum of their weights.
pub proof fn lemma_total_weight_concat(a: Seq<(Key, u64)>, b: Seq<(Key, u64)>)
    ensures
        total_weight(a + b) == total_weight(a) + total_weight(b),
    decreases b.len(),
{
    if b.len() == 0 {
        assert(a + b =~= a);
    } else {
        assert((a + b).drop_last() =~= a + b.drop_last());
        lemma_total_weight_concat(a, b.drop_last());
    }
}

/// One entry weighs what it weighs.
pub proof fn lemma_total_weight_one(e: (Key, u64))
    ensures
        total_weight(seq![e]) == e.1,
{
    assert(seq![e].drop_last() =~= Seq::<(Key, u64)>::empty());
    assert(seq![e].last() == e);
    assert(total_weight(Seq::<(Key, u64)>::empty()) == 0);
}

/// Taking the entry at `i` out takes its weight out of the sum.
pub proof fn lemma_total_weight_remove(entries: Seq<(Key, u64)>, i: int)
    requires
        0 <= i < entries.len(),
    ensures
        total_weight(entries.remove(i)) + entries[i].1 == total_weight(entries),
{
    let front = entries.take(i);
    let back = entries.skip(i + 1);
    assert(entries =~= front + seq![entries[i]] + back);
    assert(entries.remove(i) =~= front + back);
    lemma_total_weight_concat(front, seq![entries[i]]);
    lemma_total_weight_concat(front + seq![entries[i]], back);
    lemma_total_weight_concat(front, back);
    lemma_total_weight_one(entries[i]);
}

/// A prefix weighs no more than the whole.
pub proof fn lemma_total_weight_take(entries: Seq<(Key, u64)>, n: int)
    requires
        0 <= n <= entries.len(),
    ensures
        total_weight(entries.take(n)) <= total_weight(entries),
{
    assert(entries =~= entries.take(n) + entries.skip(n));
    lemma_total_weight_concat(entries.take(n), entries.skip(n));
}

/// The sum over two sequences joined is the sum of their sums.
pub proof fn lemma_weight_sum_concat(a: Seq<Key>, b: Seq<Key>, weights: Map<Key, u64>)
    ensures
        weight_sum(a + b, weights) == weight_sum(a, weights) + weight_sum(b, weights),
    decreases b.len(),
{
    if b.len() == 0 {
        assert(a + b =~= a);
    } else {
        assert((a + b).drop_last() =~= a + b.drop_last());
        lemma_weight_sum_concat(a, b.drop_last(), weights);
    }
}

/// The sum over one key is its weight.
pub proof fn lemma_weight_sum_one(k: Key, weights: Map<Key, u64>)
    ensures
        weight_sum(seq![k], weights) == weights[k],
{
    assert(seq![k].drop_last() =~= Seq::<Key>::empty());
    assert(seq![k].last() == k);
    assert(weight_sum(Seq::<Key>::empty(), weights) == 0);
}

/// Taking the key at `i` out takes its weight out of the sum.
pub proof fn lemma_weight_sum_remove(keys: Seq<Key>, weights: Map<Key, u64>, i: int)
    requires
        0 <= i < keys.len(),
    ensures
        weight_sum(keys.remove(i), weights) + weights[keys[i]] == weight_sum(keys, weights),
{
    let front = keys.take(i);
    let back = keys.skip(i + 1);
    assert(keys =~= front + seq![keys[i]] + back);
    assert(keys.remove(i) =~= front + back);
    lemma_weight_sum_concat(front, seq![keys[i]], weights);
    lemma_weight_sum_concat(front + seq![keys[i]], back, weights);
    lemma_weight_sum_concat(front, back, weights);
    lemma_weight_sum_one(keys[i], weights);
}

/// The sum depends only on the weights of the keys that occur.
pub proof fn lemma_weight_sum_agree(keys: Seq<Key>, w1: Map<Key, u64>, w2: Map<Key, u64>)
    requires
        forall|i: int| 0 <= i < keys.len() ==> w1[#[trigger] keys[i]] == w2[keys[i]],
    ensures
        weight_sum(keys, w1) == weight_sum(keys, w2),
    decreases keys.len(),
{
    if keys.len() > 0 {
        assert forall|i: int| 0 <= i < keys.drop_last().len() implies w1[#[trigger] keys.drop_last()[i]]
            == w2[keys.drop_last()[i]] by {
            assert(keys.drop_last()[i] == keys[i]);
        }
        lemma_weight_sum_agree(keys.drop_last(), w1, w2);
    }
}

/// The sequence lists the keys that have a weight, each once.
pub open spec fn lists_keys(keys: Seq<Key>, weights: Map<Key, u64>) -> bool {
    &&& keys.no_duplicates()
    &&& forall|k: Key| weights.contains_key(k) <==> keys.contains(k)
}

/// Taking the key at `p` out of the listing, and its weight out of the map.
pub proof fn lemma_listing_remove(keys: Seq<Key>, weights: Map<Key, u64>, p: int)
    requires
        lists_keys(keys, weights),
        0 <= p < keys.len(),
    ensures
        lists_keys(keys.remove(p), weights.remove(keys[p])),
        weight_sum(keys.remove(p), weights.remove(keys[p])) + weights[keys[p]] == weight_sum(
            keys,
            weights,
        ),
{
    let rest = keys.remove(p);
    let w = weights.remove(keys[p]);
    lemma_weight_sum_remove(keys, weights, p);
    assert forall|i: int| 0 <= i < rest.len() implies weights[#[trigger] rest[i]] == w[rest[i]] by {
        let s = if i < p { i } else { i + 1 };
        assert(rest[i] == keys[s]);
        assert(keys[s] != keys[p]);
    }
    lemma_weight_sum_agree(rest, weights, w);
    assert forall|k: Key| w.contains_key(k) <==> rest.contains(k) by {
        if w.contains_key(k) {
            assert(keys.contains(k));
            let i = choose|i: int| 0 <= i < keys.len() && keys[i] == k;
            assert(i != p);
            let r = if i < p { i } else { i - 1 };
            assert(rest[r] == k);
        }
        if rest.contains(k) {
            let i = choose|i: int| 0 <= i < rest.len() && rest[i] == k;
            let s = if i < p { i } else { i + 1 };
            assert(keys[s] == k);
            assert(keys[s] != keys[p]);
            assert(keys.contains(k));
        }
    }
    assert forall|i: int, j: int| 0 <= i < rest.len() && 0 <= j < rest.len() && i != j implies rest[i]
        != rest[j] by {
        let si = if i < p { i } else { i + 1 };
        let sj = if j < p { j } else { j + 1 };
        assert(rest[i] == keys[si] && rest[j] == keys[sj]);
    }
}

/// Putting a key that has no weight yet into the listing at `p`, with a weight.
pub proof fn lemma_listing_insert(
    keys: Seq<Key>,
    weights: Map<Key, u64>,
    p: int,
    key: Key,
    size: u64,
)
    requires
        lists_keys(keys, weights),
        0 <= p <= keys.len(),
        !weights.contains_key(key),
    ensures
        lists_keys(keys.insert(p, key), weights.insert(key, size)),
        weight_sum(keys.insert(p, key), weights.insert(key, size)) == weight_sum(keys, weights)
            + size,
{
    let q = keys.insert(p, key);
    let w = weights.insert(key, size);
    assert(q.remove(p) =~= keys);
    lemma_weight_sum_remove(q, w, p);
    assert forall|i: int| 0 <= i < keys.len() implies weights[#[trigger] keys[i]] == w[keys[i]] by {
        assert(keys.contains(keys[i]));
    }
    lemma_weight_sum_agree(keys, weights, w);
    assert forall|k: Key| w.contains_key(k) <==> q.contains(k) by {
        if w.contains_key(k) {
            if k == key {
                assert(q[p] == k);
            } else {
                assert(weights.contains_key(k));
                assert(keys.contains(k));
                let i = choose|i: int| 0 <= i < keys.len() && keys[i] == k;
                let t = if i < p { i } else { i + 1 };
                assert(q[t] == k);
            }
        }
        if q.contains(k) {
            let i = choose|i: int| 0 <= i < q.len() && q[i] == k;
            if i != p {
                let s = if i < p { i } else { i - 1 };
                assert(keys[s] == k);
                assert(keys.contains(k));
            }
        }
    }
    assert forall|i: int, j: int| 0 <= i < q.len() && 0 <= j < q.len() && i != j implies q[i]
        != q[j] by {
        let si = if i < p { i } else { i - 1 };
        let sj = if j < p { j } else { j - 1 };
        if i != p {
            assert(q[i] == keys[si]);
            assert(keys.contains(q[i]));
        }
        if j != p {
            assert(q[j] == keys[sj]);
            assert(keys.contains(q[j]));
        }
    }
}

/// Moving the key at `p` to the front of the listing.
pub proof fn lemma_listing_to_front(keys: Seq<Key>, weights: Map<Key, u64>, p: int)
    requires
        lists_keys(keys, weights),
        0 <= p < keys.len(),
    ensures
        lists_keys(seq![keys[p]] + keys.remove(p), weights),
        weight_sum(seq![keys[p]] + keys.remove(p), weights) == weight_sum(keys, weights),
{
    let rest = keys.remove(p);
    let q = seq![keys[p]] + rest;
    lemma_weight_sum_remove(keys, weights, p);
    lemma_weight_sum_concat(seq![keys[p]], rest, weights);
    lemma_weight_sum_one(keys[p], weights);
    assert forall|a: int| 0 <= a < q.len() implies #[trigger] q[a] == keys[if a == 0 {
        p
    } else if a - 1 < p {
        a - 1
    } else {
        a
    }] by {
        if a > 0 {
            assert(q[a] == rest[a - 1]);
        }
    }
    assert forall|k: Key| weights.contains_key(k) <==> q.contains(k) by {
        if weights.contains_key(k) {
            assert(keys.contains(k));
            let s = choose|s: int| 0 <= s < keys.len() && keys[s] == k;
            let a = if s == p { 0 } else if s < p { s + 1 } else { s };
            assert(q[a] == keys[s]);
        }
        if q.contains(k) {
            let a = choose|a: int| 0 <= a < q.len() && q[a] == k;
            let s = if a == 0 { p } else if a - 1 < p { a - 1 } else { a };
            assert(q[a] == keys[s]);
            assert(keys.contains(k));
        }
    }
    assert forall|a: int, b: int| 0 <= a < q.len() && 0 <= b < q.len() && a != b implies q[a]
        != q[b] by {
        let sa = if a == 0 { p } else if a - 1 < p { a - 1 } else { a };
        let sb = if b == 0 { p } else if b - 1 < p { b - 1 } else { b };
        assert(q[a] == keys[sa]);
        assert(q[b] == keys[sb]);
    }
}

} // verus!
