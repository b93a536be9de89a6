//! Inclusion for LRU: on one trace, what a smaller LRU cache holds is the
//! most recently used part of what a larger one holds, so the larger one hits
//! wherever the smaller one does.
use vstd::prelude::*;
use crate::Key;
use super::{access_step, hits_in, state_after, Access, EvictPolicy};
use super::lru_policy::{distinct_keys, evicted, fits, has_key, lemma_evicted,
    lemma_has_key_position, lemma_refreshed, position, refreshed, LruModel, LruPolicy};
use super::weights::{total_weight, lemma_total_weight_remove};

verus! {

/// Every key has one size: two accesses to a key give the same weight.
pub open spec fn consistent_sizes(trace: Seq<Access>) -> bool {
    forall|i: int, j: int|
        #![trigger trace[i], trace[j]]
        0 <= i < trace.len() && 0 <= j < trace.len() && trace[i].0 == trace[j].0 ==> trace[i].1
            == trace[j].1
}

/// No object of the trace is too heavy for the smaller capacity and light
/// enough for the larger.
pub open spec fn no_size_between(trace: Seq<Access>, c1: u64, c2: u64) -> bool {
    forall|i: int| 0 <= i < trace.len() ==> !(c1 < (#[trigger] trace[i]).1 <= c2)
}

/// The entries carry, for each key, the weight that the trace gives it.
pub open spec fn agrees(entries: Seq<(Key, u64)>, trace: Seq<Access>) -> bool {
    forall|x: int, j: int|
        #![trigger entries[x], trace[j]]
        0 <= x < entries.len() && 0 <= j < trace.len() && entries[x].0 == trace[j].0
            ==> entries[x].1 == trace[j].1
}

/// `a` is the beginning of `b`.
pub open spec fn is_prefix(a: Seq<(Key, u64)>, b: Seq<(Key, u64)>) -> bool {
    a.len() <= b.len() && a == b.take(a.len() as int)
}

/// The smaller cache holds the most recently used part of the larger.
pub open spec fn included(small: LruModel, large: LruModel) -> bool {
    &&& LruPolicy::model_wf(small)
    &&& LruPolicy::model_wf(large)
    &&& small.capacity <= large.capacity
    &&& is_prefix(small.entries, large.entries)
}

/// No entry weighs more than all together.
pub proof fn lemma_weight_bounded(entries: Seq<(Key, u64)>, i: int)
    requires
        0 <= i < entries.len(),
    ensures
        entries[i].1 <= total_weight(entries),
{
    lemma_total_weight_remove(entries, i);
}

/// Making room in the smaller cache keeps a part of what making room in the
/// larger cache keeps.
pub proof fn lemma_evicted_included(
    e1: Seq<(Key, u64)>,
    e2: Seq<(Key, u64)>,
    c1: u64,
    c2: u64,
    size: u64,
)
    requires
        is_prefix(e1, e2),
        size <= c1 <= c2,
        c1 > 0,
    ensures
        is_prefix(evicted(e1, c1, size), evicted(e2, c2, size)),
    decreases e2.len(),
{
    lemma_evicted(e1, c1, size);
    lemma_evicted(e2, c2, size);
    let k1 = evicted(e1, c1, size).len() as int;
    if e2.len() == 0 || fits(e2, c2, size) {
        assert(e2.take(e1.len() as int).take(k1) =~= e2.take(k1));
    } else if e1.len() == e2.len() {
        assert(e2.take(e2.len() as int) =~= e2);
        assert(e1 == e2);
        assert(!fits(e1, c1, size));
        assert(is_prefix(e1.drop_last(), e2.drop_last())) by {
            assert(e2.drop_last().take(e1.len() - 1) =~= e1.drop_last());
        }
        lemma_evicted_included(e1.drop_last(), e2.drop_last(), c1, c2, size);
    } else {
        assert(is_prefix(e1, e2.drop_last())) by {
            assert(e2.drop_last().take(e1.len() as int) =~= e2.take(e1.len() as int));
        }
        lemma_evicted_included(e1, e2.drop_last(), c1, c2, size);
    }
}

/// One access keeps the inclusion, and the larger cache hits where the
/// smaller one does.
pub proof fn lemma_step_included(small: LruModel, large: LruModel, a: Access, trace: Seq<Access>)
    requires
        included(small, large),
        agrees(large.entries, trace),
        consistent_sizes(trace),
        exists|i: int| 0 <= i < trace.len() && trace[i] == a,
        !(small.capacity < a.1 <= large.capacity),
    ensures
        included(access_step::<LruPolicy>(small, a), access_step::<LruPolicy>(large, a)),
        agrees(access_step::<LruPolicy>(large, a).entries, trace),
        has_key(small.entries, a.0) ==> has_key(large.entries, a.0),
{
    let (key, size) = a;
    let at = choose|i: int| 0 <= i < trace.len() && trace[i] == a;
    let e1 = small.entries;
    let e2 = large.entries;
    let n1 = e1.len() as int;
    let next1 = access_step::<LruPolicy>(small, a);
    let next2 = access_step::<LruPolicy>(large, a);
    assert forall|x: int| 0 <= x < n1 implies e1[x] == e2[x] by {
        assert(e2.take(n1)[x] == e2[x]);
    }
    if has_key(e1, key) {
        let i = position(e1, key);
        assert(0 <= i < n1 && e1[i].0 == key);
        assert(e2[i].0 == key);
        lemma_has_key_position(e2, key, i);
        LruPolicy::lemma_model_get(small, key);
        LruPolicy::lemma_model_get(large, key);
        let r1 = refreshed(e1, key);
        let r2 = refreshed(e2, key);
        assert(r2.take(n1) =~= r1);
        assert forall|x: int, j: int|
            #![trigger r2[x], trace[j]]
            0 <= x < r2.len() && 0 <= j < trace.len() && r2[x].0 == trace[j].0 implies r2[x].1
                == trace[j].1 by {
            let s = if x == 0 { i } else if x - 1 < i { x - 1 } else { x };
            assert(r2[x] == e2[s]);
            assert(e2[s].0 == trace[j].0 ==> e2[s].1 == trace[j].1);
        }
    } else if has_key(e2, key) {
        let j = position(e2, key);
        assert(0 <= j < e2.len() && e2[j].0 == key);
        assert(j >= n1) by {
            if j < n1 {
                assert(e1[j].0 == key);
            }
        }
        assert(e2[j].1 == size) by {
            assert(e2[j].0 == trace[at].0 ==> e2[j].1 == trace[at].1);
        }
        lemma_weight_bounded(e2, j);
        assert(size <= small.capacity);
        LruPolicy::lemma_model_put(small, key, size);
        LruPolicy::lemma_model_get(large, key);
        lemma_evicted(e1, small.capacity, size);
        let kept = evicted(e1, small.capacity, size);
        let r2 = refreshed(e2, key);
        assert(r2.take(kept.len() as int + 1) =~= seq![(key, size)] + kept) by {
            assert forall|x: int| 0 <= x < kept.len() implies kept[x] == e2[x] by {
                assert(e1.take(kept.len() as int)[x] == e1[x]);
            }
        }
        assert forall|x: int, t: int|
            #![trigger r2[x], trace[t]]
            0 <= x < r2.len() && 0 <= t < trace.len() && r2[x].0 == trace[t].0 implies r2[x].1
                == trace[t].1 by {
            let s = if x == 0 { j } else if x - 1 < j { x - 1 } else { x };
            assert(r2[x] == e2[s]);
            assert(e2[s].0 == trace[t].0 ==> e2[s].1 == trace[t].1);
        }
    } else if size > large.capacity {
    } else {
        assert(size <= small.capacity);
        LruPolicy::lemma_model_put(small, key, size);
        LruPolicy::lemma_model_put(large, key, size);
        lemma_evicted_included(e1, e2, small.capacity, large.capacity, size);
        lemma_evicted(e2, large.capacity, size);
        let k1 = evicted(e1, small.capacity, size);
        let k2 = evicted(e2, large.capacity, size);
        let n2 = seq![(key, size)] + k2;
        assert(n2.take(k1.len() as int + 1) =~= seq![(key, size)] + k1) by {
            assert forall|x: int| 0 <= x < k1.len() implies k1[x] == k2[x] by {
                assert(k2.take(k1.len() as int)[x] == k2[x]);
            }
        }
        assert forall|x: int, t: int|
            #![trigger n2[x], trace[t]]
            0 <= x < n2.len() && 0 <= t < trace.len() && n2[x].0 == trace[t].0 implies n2[x].1
                == trace[t].1 by {
            if x == 0 {
                assert(trace[at].0 == trace[t].0 ==> trace[at].1 == trace[t].1);
            } else {
                assert(n2[x] == k2[x - 1]);
                assert(e2.take(k2.len() as int)[x - 1] == e2[x - 1]);
                assert(e2[x - 1].0 == trace[t].0 ==> e2[x - 1].1 == trace[t].1);
            }
        }
    }
}

/// After any beginning of the trace the smaller cache is included in the
/// larger, and has hit no more often.
pub proof fn lemma_inclusion(c1: u64, c2: u64, trace: Seq<Access>, n: int)
    requires
        0 < c1 <= c2,
        consistent_sizes(trace),
        no_size_between(trace, c1, c2),
        0 <= n <= trace.len(),
    ensures
        included(
            state_after::<LruPolicy>(LruPolicy::model_new(c1), trace.take(n)),
            state_after::<LruPolicy>(LruPolicy::model_new(c2), trace.take(n)),
        ),
        agrees(state_after::<LruPolicy>(LruPolicy::model_new(c2), trace.take(n)).entries, trace),
        hits_in::<LruPolicy>(LruPolicy::model_new(c1), trace.take(n)) <= hits_in::<LruPolicy>(
            LruPolicy::model_new(c2),
            trace.take(n),
        ),
    decreases n,
{
    let m1 = LruPolicy::model_new(c1);
    let m2 = LruPolicy::model_new(c2);
    if n == 0 {
        assert(m1.entries.take(0) =~= m1.entries);
        assert(m2.entries.take(0) =~= m1.entries);
    } else {
        lemma_inclusion(c1, c2, trace, n - 1);
        let t = trace.take(n);
        assert(t.drop_last() =~= trace.take(n - 1));
        assert(t.last() == trace[n - 1]);
        let s1 = state_after::<LruPolicy>(m1, trace.take(n - 1));
        let s2 = state_after::<LruPolicy>(m2, trace.take(n - 1));
        super::lemma_state_after_wf::<LruPolicy>(m1, trace.take(n - 1));
        super::lemma_state_after_wf::<LruPolicy>(m2, trace.take(n - 1));
        lemma_step_included(s1, s2, trace[n - 1], trace);
    }
}

/// On a trace in which every key has one size, and no object is too heavy
/// for the smaller capacity while light enough for the larger, an LRU cache
/// hits no more often than a larger LRU cache.
pub proof fn lemma_lru_hits_monotone(c1: u64, c2: u64, trace: Seq<Access>)
    requires
        0 < c1 <= c2,
        consistent_sizes(trace),
        no_size_between(trace, c1, c2),
    ensures
        hits_in::<LruPolicy>(LruPolicy::model_new(c1), trace) <= hits_in::<LruPolicy>(
            LruPolicy::model_new(c2),
            trace,
        ),
{
    lemma_inclusion(c1, c2, trace, trace.len() as int);
    assert(trace.take(trace.len() as int) =~= trace);
}

} // verus!
