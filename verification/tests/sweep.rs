use minisim::minisim::{sweep_capacity_at, NUM_CACHE_SIZE};
use minisim::{
    default_eviction_policies, simulation, AccessRecord, ConfigError, CurvePoint, EvictionPolicy,
    FifoPolicy, LfuPolicy, LruPolicy, MiniSim, Sampler, ShardsFixedRate, TwoQPolicy,
};

fn record(key: u64, size: u32) -> AccessRecord {
    AccessRecord { timestamp: 0, command: 0, key, size, ttl: 0 }
}

fn unit_trace(keys: &[u64]) -> Vec<AccessRecord> {
    keys.iter().map(|k| record(*k, 1)).collect()
}

#[test]
fn capacities_are_evenly_spaced_and_rounded_up() {
    assert_eq!(sweep_capacity_at(4_000_000, 100, 1), 40_000);
    assert_eq!(sweep_capacity_at(4_000_000, 100, 100), 4_000_000);
    assert_eq!(sweep_capacity_at(10, 4, 1), 3);
    assert_eq!(sweep_capacity_at(10, 4, 2), 5);
    assert_eq!(sweep_capacity_at(10, 4, 3), 8);
    assert_eq!(sweep_capacity_at(10, 4, 4), 10);
    assert_eq!(sweep_capacity_at(1, 100, 1), 1);
    assert_eq!(sweep_capacity_at(u64::MAX, 100, 100), u64::MAX);
    assert_eq!(sweep_capacity_at(u64::MAX, 3, 1), u64::MAX / 3);
    assert_eq!(sweep_capacity_at(7, 3, 0), 0);
}

#[test]
fn engine_capacities_follow_the_sampler() {
    let none: Option<ShardsFixedRate> = None;
    assert_eq!(MiniSim::<LruPolicy, ShardsFixedRate>::point_capacity(1000, 4, &none, 0), 250);
    assert_eq!(MiniSim::<LruPolicy, ShardsFixedRate>::point_capacity(1000, 4, &none, 3), 1000);
    let tenth = Some(ShardsFixedRate::new(100));
    assert_eq!(MiniSim::<LruPolicy, ShardsFixedRate>::point_capacity(1000, 4, &tenth, 0), 25);
    assert_eq!(MiniSim::<LruPolicy, ShardsFixedRate>::point_capacity(1000, 4, &tenth, 3), 100);
}

#[test]
fn curve_starts_at_the_empty_cache() {
    let mut sim = MiniSim::<LruPolicy, ShardsFixedRate>::new(1000, None);
    let first = sim.curve();
    assert_eq!(first.len(), NUM_CACHE_SIZE as usize + 1);
    assert_eq!(first[0].size_fraction(), (0, 100));
    assert_eq!(first[0].misses(), (1, 1));
    for key in [1u64, 2, 1, 3, 1] {
        sim.handle(&record(key, 1));
    }
    let later = sim.curve();
    assert_eq!(later[0], CurvePoint { index: 0, points: 100, hits: 0, total: 5 });
    assert_eq!(later[0].misses(), (5, 5));

    let fifo = MiniSim::<FifoPolicy, ShardsFixedRate>::new(1000, None);
    assert_eq!(fifo.curve()[0].misses(), (1, 1));
    let lfu = MiniSim::<LfuPolicy, ShardsFixedRate>::new(1000, None);
    assert_eq!(lfu.curve()[0].misses(), (1, 1));
    let twoq = MiniSim::<TwoQPolicy, ShardsFixedRate>::new(1000, None);
    assert_eq!(twoq.curve()[0].size_fraction().0, 0);
}

#[test]
fn empty_trace_gives_full_miss_ratio_everywhere() {
    let sim = MiniSim::<LruPolicy, ShardsFixedRate>::with_points(8, 4, None);
    let curve = sim.curve();
    assert_eq!(curve.len(), 5);
    for (i, point) in curve.iter().enumerate() {
        assert_eq!(point.size_fraction(), (i as u64, 4));
        assert_eq!(point.misses(), (1, 1));
    }
}

#[test]
fn every_access_dropped_gives_full_miss_ratio_everywhere() {
    let mut sim = MiniSim::<FifoPolicy, ShardsFixedRate>::with_points(
        4000,
        4,
        Some(ShardsFixedRate::with_modulus(1, 1_000_000_000)),
    );
    for key in [0u64, 1, 2, 3, 0, 1, 2, 3] {
        sim.handle(&record(key, 1));
    }
    // capacities 1000, 2000, 3000, 4000 come down to 0 at this rate
    for point in sim.curve() {
        assert_eq!(point.total, 0);
        assert_eq!(point.misses(), (1, 1));
    }
}

#[test]
fn lru_sweep_counts_hits_per_engine() {
    // capacities 1, 2, 3, 4
    let mut sim = MiniSim::<LruPolicy, ShardsFixedRate>::with_points(4, 4, None);
    for key in [1u64, 2, 3, 1, 2, 3, 4, 4, 1] {
        sim.handle(&record(key, 1));
    }
    let curve = sim.curve();
    let hits: Vec<u64> = curve.iter().map(|p| p.hits).collect();
    assert_eq!(hits, vec![0, 1, 1, 4, 5]);
    assert_eq!(curve[1].misses(), (8, 9));
    assert_eq!(curve[4].misses(), (4, 9));
    assert_eq!(curve[4].size_fraction(), (4, 4));
    for pair in curve.windows(2) {
        assert!(pair[0].hits <= pair[1].hits);
    }
}

#[test]
fn fifo_sweep_counts_hits_per_engine() {
    // capacities 3 and 4, where the larger engine hits less
    let mut sim = MiniSim::<FifoPolicy, ShardsFixedRate>::with_points(4, 4, None);
    for key in [1u64, 2, 3, 4, 1, 2, 5, 1, 2, 3, 4, 5] {
        sim.handle(&record(key, 1));
    }
    let curve = sim.curve();
    assert_eq!(curve[3].hits, 3);
    assert_eq!(curve[4].hits, 2);
    assert_eq!(curve[4].misses(), (10, 12));
}

#[test]
fn dropped_accesses_touch_nothing() {
    // the hashes of the keys 0 to 4, in the modulus 1000: 535, 465, 110, 53, 978
    let mut sim = MiniSim::<LruPolicy, ShardsFixedRate>::with_points(
        40,
        4,
        Some(ShardsFixedRate::new(100)),
    );
    // capacities 10, 20, 30, 40 come down to 1, 2, 3, 4
    for key in [0u64, 1, 2, 3, 4, 3, 0, 3] {
        sim.handle(&record(key, 1));
    }
    let curve = sim.curve();
    assert_eq!(curve.len(), 5);
    for point in &curve[1..] {
        assert_eq!(point.total, 3);
        assert_eq!(point.hits, 2);
        assert_eq!(point.misses(), (1, 3));
    }
    assert_eq!(curve[0].misses(), (3, 3));
}

#[test]
fn weights_come_from_the_record() {
    let mut sim = MiniSim::<LruPolicy, ShardsFixedRate>::with_points(4, 2, None);
    // capacities 2 and 4
    sim.handle(&record(1, 2));
    sim.handle(&record(2, 2));
    sim.handle(&record(1, 2));
    sim.handle(&record(3, 3));
    sim.handle(&record(3, 3));
    let curve = sim.curve();
    // capacity 2: 1, 2, 1 all miss; 3 is too heavy and is never admitted
    assert_eq!(curve[1].hits, 0);
    // capacity 4: the second access to 1 hits, and so does the second to 3
    assert_eq!(curve[2].hits, 2);
}

#[test]
fn simulation_runs_the_trace_in_order() {
    let trace = unit_trace(&[1, 2, 3, 1, 2, 3, 4, 4, 1]);
    let sim = MiniSim::<LruPolicy, ShardsFixedRate>::with_points(4, 4, None);
    let result = simulation(&trace, sim, "Without shards".to_string());
    assert_eq!(result.label, "Without shards");
    let hits: Vec<u64> = result.points.iter().map(|p| p.hits).collect();
    assert_eq!(hits, vec![0, 1, 1, 4, 5]);
    assert_eq!(result.points[0].misses(), (9, 9));

    let mut by_hand = MiniSim::<LruPolicy, ShardsFixedRate>::with_points(4, 4, None);
    assert!(by_hand.can_handle());
    for access in &trace {
        by_hand.handle(access);
    }
    assert_eq!(by_hand.curve(), result.points);
}

#[test]
fn simulation_of_each_policy() {
    let trace = unit_trace(&[1, 2, 1, 3, 1, 4, 2, 5, 1, 2, 3, 1]);
    let lru = simulation(
        &trace,
        MiniSim::<LruPolicy, ShardsFixedRate>::with_points(3, 3, None),
        "lru".to_string(),
    );
    let fifo = simulation(
        &trace,
        MiniSim::<FifoPolicy, ShardsFixedRate>::with_points(3, 3, None),
        "fifo".to_string(),
    );
    let lfu = simulation(
        &trace,
        MiniSim::<LfuPolicy, ShardsFixedRate>::with_points(3, 3, None),
        "lfu".to_string(),
    );
    let twoq = simulation(
        &trace,
        MiniSim::<TwoQPolicy, ShardsFixedRate>::with_points(3, 3, None),
        "2q".to_string(),
    );
    assert_eq!(lru.points.iter().map(|p| p.hits).collect::<Vec<_>>(), vec![0, 0, 2, 4]);
    assert_eq!(fifo.points.iter().map(|p| p.hits).collect::<Vec<_>>(), vec![0, 0, 1, 4]);
    assert_eq!(lfu.points.iter().map(|p| p.hits).collect::<Vec<_>>(), vec![0, 0, 4, 5]);
    assert_eq!(twoq.points.iter().map(|p| p.hits).collect::<Vec<_>>(), vec![0, 0, 1, 4]);
    for result in [&lru, &fifo, &lfu, &twoq] {
        assert_eq!(result.points.len(), 4);
        assert_eq!(result.points[0].misses(), (12, 12));
        for point in &result.points {
            assert!(point.hits <= point.total);
            assert_eq!(point.total, 12);
        }
    }
}

#[test]
fn sampled_simulation_sees_only_the_sample() {
    let keys: Vec<u64> = (0..20_000u64).map(|i| i % 5_000).collect();
    let trace = unit_trace(&keys);
    let full = simulation(
        &trace,
        MiniSim::<LruPolicy, ShardsFixedRate>::new(10_000, None),
        "Without shards".to_string(),
    );
    let sampled = simulation(
        &trace,
        MiniSim::<LruPolicy, ShardsFixedRate>::new(10_000, Some(ShardsFixedRate::new(100))),
        "10% shards".to_string(),
    );
    assert_eq!(full.points[100].total, 20_000);
    assert_eq!(full.points[100].hits, 15_000);
    let seen = sampled.points[100].total;
    assert!(seen > 1_800 && seen < 2_200);
    assert_eq!(seen % 4, 0);
    assert_eq!(sampled.points[100].hits, seen / 4 * 3);
    assert_eq!(sampled.label, "10% shards");
}

#[test]
fn miss_ratio_of_a_point() {
    assert_eq!(CurvePoint { index: 1, points: 4, hits: 3, total: 12 }.misses(), (9, 12));
    assert_eq!(CurvePoint { index: 1, points: 4, hits: 0, total: 0 }.misses(), (1, 1));
    assert_eq!(CurvePoint { index: 1, points: 4, hits: 12, total: 12 }.misses(), (0, 12));
    assert_eq!(CurvePoint { index: 3, points: 4, hits: 1, total: 2 }.size_fraction(), (3, 4));
}

#[test]
fn policy_names() {
    assert_eq!(EvictionPolicy::LRU.to_string(), "LRU");
    assert_eq!(EvictionPolicy::FIFO.to_string(), "FIFO");
    assert_eq!(EvictionPolicy::LFU.to_string(), "LFU");
    assert_eq!(EvictionPolicy::TWOQ.to_string(), "TWOQ");
    assert_eq!(default_eviction_policies(), Some(vec![EvictionPolicy::LRU]));
}

#[test]
fn sampler_counts_every_access() {
    let mut sampler = ShardsFixedRate::new(100);
    for key in 0..50u64 {
        sampler.sample(key);
    }
    assert!(sampler.has_room());
    assert_eq!(sampler.total_count(), 50);
}

#[test]
fn record_fields_are_cut_to_width() {
    let r = AccessRecord::from_fields(7, 258, u64::MAX, (1 << 32) + 5, 9);
    assert_eq!(r, AccessRecord { timestamp: 7, command: 2, key: u64::MAX, size: 5, ttl: 9 });
    let plain = AccessRecord::from_fields(1, 2, 3, 4, 5);
    assert_eq!(plain, AccessRecord { timestamp: 1, command: 2, key: 3, size: 4, ttl: 5 });
}

#[test]
fn field_columns() {
    assert_eq!(minisim::field_column(None), None);
    assert_eq!(minisim::field_column(Some(-1)), None);
    assert_eq!(minisim::field_column(Some(0)), Some(0));
    assert_eq!(minisim::field_column(Some(4)), Some(4));
}

#[test]
fn simulator_without_capacity_is_refused() {
    let refused = MiniSim::<LruPolicy, ShardsFixedRate>::try_new(0, None);
    assert_eq!(refused.err(), Some(ConfigError::Capacity { place: 0, capacity: 0 }));
    let refused = MiniSim::<FifoPolicy, ShardsFixedRate>::try_new(0, None);
    assert_eq!(refused.err(), Some(ConfigError::Capacity { place: 0, capacity: 0 }));
    let refused = MiniSim::<TwoQPolicy, ShardsFixedRate>::try_new(0, None);
    assert_eq!(refused.err(), Some(ConfigError::Capacity { place: 0, capacity: 0 }));
    let accepted = MiniSim::<LfuPolicy, ShardsFixedRate>::try_new(0, None);
    assert!(accepted.is_ok());
    assert_eq!(accepted.ok().map(|sim| sim.curve().len()), Some(101));
}

#[test]
fn simulator_whose_sample_leaves_no_capacity_is_refused() {
    // capacities 5, 10, 15, 20 come down to 0, 1, 1, 2
    let refused = MiniSim::<LruPolicy, ShardsFixedRate>::try_with_points(
        20,
        4,
        Some(ShardsFixedRate::new(100)),
    );
    assert_eq!(refused.err(), Some(ConfigError::Capacity { place: 0, capacity: 0 }));
    // capacities 10, 20, 30, 40 come down to 1, 2, 3, 4
    let accepted = MiniSim::<LruPolicy, ShardsFixedRate>::try_with_points(
        40,
        4,
        Some(ShardsFixedRate::new(100)),
    );
    assert!(accepted.is_ok());
}

#[test]
fn simulator_without_engines_is_refused() {
    let refused = MiniSim::<LruPolicy, ShardsFixedRate>::try_with_points(10, 0, None);
    assert_eq!(refused.err(), Some(ConfigError::Points { points: 0 }));
    let refused = MiniSim::<LfuPolicy, ShardsFixedRate>::try_with_points(10, u64::MAX, None);
    assert_eq!(refused.err(), Some(ConfigError::Points { points: u64::MAX }));
}

#[test]
fn checked_simulator_is_the_same_simulator() {
    let trace = unit_trace(&[1, 2, 3, 1, 2, 3, 4, 4, 1]);
    let checked = MiniSim::<LruPolicy, ShardsFixedRate>::try_with_points(4, 4, None)
        .ok()
        .map(|sim| simulation(&trace, sim, "checked".to_string()).points);
    let plain = simulation(
        &trace,
        MiniSim::<LruPolicy, ShardsFixedRate>::with_points(4, 4, None),
        "plain".to_string(),
    )
    .points;
    assert_eq!(checked, Some(plain));
}
