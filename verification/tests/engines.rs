use minisim::{EvictPolicy, FifoPolicy, LfuPolicy, LruPolicy, TwoQPolicy};

const A: u64 = 1;
const B: u64 = 2;
const C: u64 = 3;
const D: u64 = 4;

fn access<P: EvictPolicy>(engine: &mut P, key: u64, size: u64) -> bool {
    if engine.get(key).is_some() {
        true
    } else {
        engine.put(key, size);
        false
    }
}

fn count_hits<P: EvictPolicy>(capacity: u64, trace: &[u64]) -> u64 {
    let mut engine = P::new(capacity);
    let mut hits = 0;
    for key in trace {
        if access(&mut engine, *key, 1) {
            hits += 1;
        }
    }
    hits
}

#[test]
fn fifo_evicts_in_order_of_admission() {
    let mut fifo = FifoPolicy::new(2);
    fifo.put(A, 1);
    fifo.put(B, 1);
    fifo.put(C, 1);
    assert!(!fifo.contains(A));
    assert!(fifo.contains(B));
    assert!(fifo.contains(C));
    assert_eq!(fifo.size(), 2);
}

#[test]
fn fifo_hit_does_not_reorder() {
    let mut fifo = FifoPolicy::new(2);
    fifo.put(A, 1);
    fifo.put(B, 1);
    assert_eq!(fifo.get(A), Some(()));
    fifo.put(C, 1);
    assert!(!fifo.contains(A));
    assert!(fifo.contains(B));
    assert!(fifo.contains(C));
}

#[test]
fn fifo_miss_changes_nothing() {
    let mut fifo = FifoPolicy::new(2);
    fifo.put(A, 1);
    assert_eq!(fifo.get(B), None);
    assert!(fifo.contains(A));
    assert!(!fifo.contains(B));
    assert_eq!(fifo.size(), 1);
}

#[test]
fn fifo_evicts_until_the_weight_fits() {
    let mut fifo = FifoPolicy::new(5);
    fifo.put(A, 2);
    fifo.put(B, 2);
    fifo.put(C, 1);
    assert_eq!(fifo.size(), 5);
    fifo.put(D, 3);
    assert!(!fifo.contains(A));
    assert!(!fifo.contains(B));
    assert!(fifo.contains(C));
    assert!(fifo.contains(D));
    assert_eq!(fifo.size(), 4);
}

#[test]
fn fifo_larger_cache_can_hit_less() {
    let trace = [1, 2, 3, 4, 1, 2, 5, 1, 2, 3, 4, 5];
    assert_eq!(count_hits::<FifoPolicy>(3, &trace), 3);
    assert_eq!(count_hits::<FifoPolicy>(4, &trace), 2);
}

#[test]
fn lru_hit_refreshes_recency() {
    let mut lru = LruPolicy::new(2);
    lru.put(A, 1);
    lru.put(B, 1);
    assert_eq!(lru.get(A), Some(()));
    lru.put(C, 1);
    assert!(lru.contains(A));
    assert!(!lru.contains(B));
    assert!(lru.contains(C));
    assert_eq!(lru.size(), 2);
}

#[test]
fn lru_evicts_least_recently_used_first() {
    let mut lru = LruPolicy::new(2);
    lru.put(A, 1);
    lru.put(B, 1);
    lru.put(C, 1);
    assert!(!lru.contains(A));
    assert!(lru.contains(B));
    assert!(lru.contains(C));
}

#[test]
fn lru_put_of_resident_key_refreshes_it() {
    let mut lru = LruPolicy::new(2);
    lru.put(A, 1);
    lru.put(B, 1);
    lru.put(A, 1);
    lru.put(C, 1);
    assert!(lru.contains(A));
    assert!(!lru.contains(B));
    assert!(lru.contains(C));
}

#[test]
fn lru_evicts_until_the_weight_fits() {
    let mut lru = LruPolicy::new(3);
    lru.put(A, 1);
    lru.put(B, 2);
    assert_eq!(lru.size(), 3);
    lru.put(C, 2);
    assert!(!lru.contains(A));
    assert!(!lru.contains(B));
    assert!(lru.contains(C));
    assert_eq!(lru.size(), 2);
}

#[test]
fn lru_miss_changes_nothing() {
    let mut lru = LruPolicy::new(2);
    lru.put(A, 1);
    lru.put(B, 1);
    assert_eq!(lru.get(C), None);
    lru.put(C, 1);
    assert!(!lru.contains(A));
    assert!(lru.contains(B));
}

#[test]
fn lru_holds_no_more_entries_than_its_capacity() {
    let mut lru = LruPolicy::new(2);
    lru.put(A, 0);
    lru.put(B, 0);
    lru.put(C, 0);
    assert!(!lru.contains(A));
    assert!(lru.contains(B));
    assert!(lru.contains(C));
    assert_eq!(lru.size(), 0);
}

#[test]
fn lru_larger_cache_hits_no_less() {
    let trace = [1, 2, 3, 4, 1, 2, 5, 1, 2, 3, 4, 5, 3, 3, 1, 6, 2, 1];
    let mut last = 0;
    for capacity in 1..=7 {
        let hits = count_hits::<LruPolicy>(capacity, &trace);
        assert!(hits >= last);
        last = hits;
    }
    assert_eq!(count_hits::<LruPolicy>(1, &trace), 1);
    assert_eq!(count_hits::<LruPolicy>(6, &trace), 12);
}

#[test]
fn lfu_evicts_lowest_frequency_first() {
    let mut lfu = LfuPolicy::new(2);
    lfu.put(A, 1);
    lfu.put(B, 1);
    assert_eq!(lfu.get(A), Some(()));
    assert_eq!(lfu.get(A), Some(()));
    lfu.put(C, 1);
    assert!(lfu.contains(A));
    assert!(!lfu.contains(B));
    assert!(lfu.contains(C));
    assert_eq!(lfu.size(), 2);
}

#[test]
fn lfu_breaks_ties_by_order_of_arrival_in_the_bucket() {
    let mut lfu = LfuPolicy::new(3);
    lfu.put(A, 1);
    lfu.put(B, 1);
    lfu.put(C, 1);
    lfu.put(D, 1);
    assert!(!lfu.contains(A));
    assert!(lfu.contains(B));
    assert!(lfu.contains(C));
    assert!(lfu.contains(D));
    assert_eq!(lfu.size(), 3);
}

#[test]
fn lfu_bucket_order_follows_the_hits() {
    let mut lfu = LfuPolicy::new(3);
    lfu.put(A, 1);
    lfu.put(B, 1);
    lfu.put(C, 1);
    assert_eq!(lfu.get(B), Some(()));
    assert_eq!(lfu.get(A), Some(()));
    // C alone has frequency 1; B reached frequency 2 before A
    lfu.put(D, 1);
    assert!(!lfu.contains(C));
    assert_eq!(lfu.get(D), Some(()));
    // frequency 2 now holds B, A, D, in this order, and is the lowest
    lfu.put(C, 1);
    assert!(!lfu.contains(B));
    assert!(lfu.contains(A));
    assert!(lfu.contains(D));
    // C has frequency 1 and leaves before A
    lfu.put(5, 1);
    assert!(!lfu.contains(C));
    assert!(lfu.contains(A));
    assert_eq!(lfu.get(5), Some(()));
    // frequency 2 holds A, D, 5
    lfu.put(6, 1);
    assert!(!lfu.contains(A));
    assert!(lfu.contains(D));
    assert!(lfu.contains(5));
    assert!(lfu.contains(6));
    assert_eq!(lfu.size(), 3);
}

#[test]
fn lfu_put_of_resident_key_counts_as_a_hit() {
    let mut lfu = LfuPolicy::new(2);
    lfu.put(A, 1);
    lfu.put(B, 1);
    lfu.put(A, 1);
    lfu.put(C, 1);
    assert!(lfu.contains(A));
    assert!(!lfu.contains(B));
    assert_eq!(lfu.size(), 2);
}

#[test]
fn lfu_with_capacity_zero_admits_nothing() {
    let mut lfu = LfuPolicy::new(0);
    lfu.put(A, 0);
    lfu.put(B, 1);
    assert!(!lfu.contains(A));
    assert!(!lfu.contains(B));
    assert_eq!(lfu.get(A), None);
    assert_eq!(lfu.size(), 0);
}

#[test]
fn lfu_evicts_until_the_weight_fits() {
    let mut lfu = LfuPolicy::new(4);
    lfu.put(A, 2);
    lfu.put(B, 1);
    lfu.put(C, 1);
    assert_eq!(lfu.get(B), Some(()));
    lfu.put(D, 3);
    assert!(!lfu.contains(A));
    assert!(!lfu.contains(C));
    assert!(lfu.contains(B));
    assert!(lfu.contains(D));
    assert_eq!(lfu.size(), 4);
}

#[test]
fn twoq_new_keys_enter_cold_and_hits_promote() {
    let mut twoq = TwoQPolicy::new(4);
    twoq.put(A, 1);
    twoq.put(B, 1);
    // cold holds B, A; nothing is hot
    assert_eq!(twoq.get(A), Some(()));
    // hot holds A; cold holds B
    twoq.put(C, 1);
    twoq.put(D, 1);
    // cold would hold D, C, B: longer than half the capacity, so B moves to hot
    assert_eq!(twoq.size(), 4);
    twoq.put(5, 1);
    // the victim is the tail of hot, which is A
    assert!(!twoq.contains(A));
    assert!(twoq.contains(B));
    assert!(twoq.contains(C));
    assert!(twoq.contains(D));
    assert!(twoq.contains(5));
}

#[test]
fn twoq_evicts_hot_tail_before_cold() {
    let mut twoq = TwoQPolicy::new(4);
    twoq.put(A, 1);
    twoq.put(B, 1);
    assert_eq!(twoq.get(A), Some(()));
    assert_eq!(twoq.get(B), Some(()));
    // hot holds B, A
    twoq.put(C, 1);
    twoq.put(D, 1);
    // cold holds D, C
    twoq.put(5, 1);
    assert!(!twoq.contains(A));
    assert!(twoq.contains(B));
    twoq.put(6, 1);
    // before 6 came, 5 made cold too long and C moved to the head of hot:
    // hot held C, B, and B was its tail
    assert!(!twoq.contains(B));
    assert!(twoq.contains(C));
    assert!(twoq.contains(D));
    assert!(twoq.contains(5));
    assert!(twoq.contains(6));
    assert_eq!(twoq.size(), 4);
}

#[test]
fn twoq_evicts_cold_tail_when_nothing_is_hot() {
    let mut twoq = TwoQPolicy::new(5);
    twoq.put(A, 2);
    twoq.put(B, 2);
    // cold holds B, A (two keys, half of capacity 5 is 2)
    twoq.put(C, 3);
    // room is made first: A leaves, the tail of cold, then B
    assert!(!twoq.contains(A));
    assert!(twoq.contains(B));
    assert!(twoq.contains(C));
    assert_eq!(twoq.size(), 5);
}

#[test]
fn twoq_hot_hit_moves_key_to_head() {
    let mut twoq = TwoQPolicy::new(3);
    twoq.put(A, 1);
    twoq.put(B, 1);
    twoq.put(C, 1);
    // capacity 3: cold holds one key at most; hot holds B, A; cold holds C
    assert_eq!(twoq.get(A), Some(()));
    // hot holds A, B
    twoq.put(D, 1);
    assert!(!twoq.contains(B));
    assert!(twoq.contains(A));
    assert!(twoq.contains(C));
    assert!(twoq.contains(D));
}

#[test]
fn twoq_miss_changes_nothing() {
    let mut twoq = TwoQPolicy::new(3);
    twoq.put(A, 1);
    assert_eq!(twoq.get(B), None);
    assert!(twoq.contains(A));
    assert_eq!(twoq.size(), 1);
}

fn put_twice_keeps_size<P: EvictPolicy>(mut engine: P, size_of: fn(&P) -> u64) {
    engine.put(A, 2);
    engine.put(B, 1);
    engine.put(C, 3);
    let once = size_of(&engine);
    engine.put(C, 3);
    assert_eq!(size_of(&engine), once);
    engine.put(A, 2);
    let again = size_of(&engine);
    engine.put(A, 2);
    assert_eq!(size_of(&engine), again);
}

#[test]
fn put_twice_leaves_size_unchanged() {
    put_twice_keeps_size(LruPolicy::new(4), |e| e.size());
    put_twice_keeps_size(FifoPolicy::new(4), |e| e.size());
    put_twice_keeps_size(LfuPolicy::new(4), |e| e.size());
    put_twice_keeps_size(TwoQPolicy::new(4), |e| e.size());
}

#[test]
fn put_of_resident_key_keeps_its_weight() {
    let mut lru = LruPolicy::new(4);
    lru.put(A, 1);
    lru.put(A, 3);
    assert_eq!(lru.size(), 1);
    let mut fifo = FifoPolicy::new(4);
    fifo.put(A, 1);
    fifo.put(A, 3);
    assert_eq!(fifo.size(), 1);
    let mut lfu = LfuPolicy::new(4);
    lfu.put(A, 1);
    lfu.put(A, 3);
    assert_eq!(lfu.size(), 1);
    let mut twoq = TwoQPolicy::new(4);
    twoq.put(A, 1);
    twoq.put(A, 3);
    assert_eq!(twoq.size(), 1);
}

#[test]
fn oversized_item_is_skipped() {
    let mut lru = LruPolicy::new(2);
    lru.put(A, 1);
    lru.put(B, 3);
    assert!(lru.contains(A));
    assert!(!lru.contains(B));
    assert_eq!(lru.size(), 1);

    let mut fifo = FifoPolicy::new(2);
    fifo.put(A, 1);
    fifo.put(B, 3);
    assert!(fifo.contains(A));
    assert!(!fifo.contains(B));
    assert_eq!(fifo.size(), 1);

    let mut lfu = LfuPolicy::new(2);
    lfu.put(A, 1);
    lfu.put(B, 3);
    assert!(lfu.contains(A));
    assert!(!lfu.contains(B));
    assert_eq!(lfu.size(), 1);

    let mut twoq = TwoQPolicy::new(2);
    twoq.put(A, 1);
    twoq.put(B, 3);
    assert!(twoq.contains(A));
    assert!(!twoq.contains(B));
    assert_eq!(twoq.size(), 1);
}

#[test]
fn item_of_full_capacity_is_admitted() {
    let mut lru = LruPolicy::new(2);
    lru.put(A, 1);
    lru.put(B, 2);
    assert!(!lru.contains(A));
    assert!(lru.contains(B));
    assert_eq!(lru.size(), 2);

    let mut fifo = FifoPolicy::new(2);
    fifo.put(A, 1);
    fifo.put(B, 2);
    assert!(!fifo.contains(A));
    assert!(fifo.contains(B));

    let mut lfu = LfuPolicy::new(2);
    lfu.put(A, 1);
    lfu.put(B, 2);
    assert!(!lfu.contains(A));
    assert!(lfu.contains(B));

    let mut twoq = TwoQPolicy::new(2);
    twoq.put(A, 1);
    twoq.put(B, 2);
    assert!(!twoq.contains(A));
    assert!(twoq.contains(B));
    assert_eq!(twoq.size(), 2);
}

#[test]
fn occupied_size_stays_within_capacity() {
    let mut lru = LruPolicy::new(7);
    let mut fifo = FifoPolicy::new(7);
    let mut lfu = LfuPolicy::new(7);
    let mut twoq = TwoQPolicy::new(7);
    let mut x: u64 = 99;
    for _ in 0..2000 {
        x = x.wrapping_mul(6364136223846793005).wrapping_add(1442695040888963407);
        let key = (x >> 33) % 23;
        let size = (x >> 20) % 9;
        access(&mut lru, key, size);
        access(&mut fifo, key, size);
        access(&mut lfu, key, size);
        access(&mut twoq, key, size);
        assert!(lru.size() <= lru.capacity());
        assert!(fifo.size() <= fifo.capacity());
        assert!(lfu.size() <= lfu.capacity());
        assert!(twoq.size() <= twoq.capacity());
    }
    assert_eq!(lru.capacity(), 7);
}

fn count_weighted_hits<P: EvictPolicy>(capacity: u64, trace: &[(u64, u64)]) -> u64 {
    let mut engine = P::new(capacity);
    let mut hits = 0;
    for (key, size) in trace {
        if access(&mut engine, *key, *size) {
            hits += 1;
        }
    }
    hits
}

#[test]
fn lru_with_weights_larger_cache_hits_no_less() {
    let trace = [(1, 2), (2, 1), (3, 3), (1, 2), (4, 1), (2, 1), (3, 3), (5, 2), (1, 2), (2, 1)];
    let mut last = 0;
    for capacity in 3..=12 {
        let hits = count_weighted_hits::<LruPolicy>(capacity, &trace);
        assert!(hits >= last);
        last = hits;
    }
    assert_eq!(last, 5);
}

#[test]
fn lru_larger_cache_can_hit_less_around_a_skipped_object() {
    // the object of weight 4 is skipped at capacity 3 and empties capacity 4
    let trace = [(1, 1), (2, 1), (3, 1), (9, 4), (1, 1)];
    assert_eq!(count_weighted_hits::<LruPolicy>(3, &trace), 1);
    assert_eq!(count_weighted_hits::<LruPolicy>(4, &trace), 0);
}

#[test]
fn lru_larger_cache_can_hit_less_when_a_key_changes_size() {
    // key 7 comes with weight 3 and later with weight 1
    let trace = [(7, 3), (8, 1), (7, 1), (9, 1), (8, 1), (9, 1), (7, 1)];
    assert_eq!(count_weighted_hits::<LruPolicy>(3, &trace), 3);
    assert_eq!(count_weighted_hits::<LruPolicy>(4, &trace), 2);
}

#[test]
fn capacities_that_engines_accept() {
    assert!(!LruPolicy::accepts_capacity(0));
    assert!(LruPolicy::accepts_capacity(1));
    assert!(!FifoPolicy::accepts_capacity(0));
    assert!(FifoPolicy::accepts_capacity(u64::MAX));
    assert!(!TwoQPolicy::accepts_capacity(0));
    assert!(TwoQPolicy::accepts_capacity(7));
    assert!(LfuPolicy::accepts_capacity(0));
    assert!(LfuPolicy::accepts_capacity(7));
}
