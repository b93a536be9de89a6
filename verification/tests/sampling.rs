use minisim::shards::{hash_key, scale_by, DEFAULT_MODULUS};
use minisim::{ConfigError, Sampler, ShardsFixedRate};

#[test]
fn hash_is_fixed() {
    assert_eq!(hash_key(0), 0xe220_a839_7b1d_cdaf);
    assert_eq!(hash_key(1), 0x910a_2dec_8902_5cc1);
    assert_eq!(hash_key(42), 13679457532755275413);
    assert_eq!(hash_key(u64::MAX), 16490336266968443936);
}

#[test]
fn sample_compares_hash_with_threshold() {
    // the hashes of the keys 0 to 4, in the modulus 1000: 535, 465, 110, 53, 978
    let mut sampler = ShardsFixedRate::new(100);
    assert!(!sampler.sample(0));
    assert!(!sampler.sample(1));
    assert!(!sampler.sample(2));
    assert!(sampler.sample(3));
    assert!(!sampler.sample(4));
    assert_eq!(sampler.total_count(), 5);
    assert_eq!(sampler.sampled_count(), 1);

    let mut wide = ShardsFixedRate::new(111);
    assert!(wide.sample(2));
    let mut edge = ShardsFixedRate::new(110);
    assert!(!edge.sample(2));
}

#[test]
fn sampling_is_deterministic() {
    let mut first = ShardsFixedRate::new(100);
    let mut second = ShardsFixedRate::new(100);
    for key in 0..10_000u64 {
        assert_eq!(first.sample(key), second.sample(key));
    }
    let mut third = ShardsFixedRate::new(100);
    for key in (0..10_000u64).rev() {
        let decision = third.sample(key);
        assert_eq!(third.sample(key), decision);
    }
    assert_eq!(third.sampled_count() * 2, first.sampled_count() * 4);
}

#[test]
fn sampling_rate_converges() {
    let total = 100_000u64;
    let mut tenth = ShardsFixedRate::new(100);
    let mut hundredth = ShardsFixedRate::new(10);
    let mut x: u64 = 12345;
    for _ in 0..total {
        x = x.wrapping_mul(6364136223846793005).wrapping_add(1442695040888963407);
        tenth.sample(x);
        hundredth.sample(x);
    }
    assert_eq!(tenth.total_count(), total);
    let tenth_rate = tenth.sampled_count() as f64 / total as f64;
    assert!((tenth_rate - 0.1).abs() <= 0.005);
    let hundredth_rate = hundredth.sampled_count() as f64 / total as f64;
    assert!((hundredth_rate - 0.01).abs() <= 0.0005);
    assert_eq!(tenth.sampled_count(), 9814);
    assert_eq!(hundredth.sampled_count(), 981);
}

#[test]
fn sampling_rate_converges_on_consecutive_keys() {
    let total = 100_000u64;
    let mut half = ShardsFixedRate::new(500);
    let mut tenth = ShardsFixedRate::with_modulus(10, 100);
    for key in 0..total {
        half.sample(key);
        tenth.sample(key);
    }
    assert_eq!(half.sampled_count(), 50079);
    assert_eq!(tenth.sampled_count(), 10083);
    assert!(half.sampled_count() <= half.total_count());
}

#[test]
fn extreme_rates() {
    let mut none = ShardsFixedRate::new(0);
    let mut all = ShardsFixedRate::new(DEFAULT_MODULUS);
    for key in 0..1000u64 {
        assert!(!none.sample(key));
        assert!(all.sample(key));
    }
    assert_eq!(none.sampled_count(), 0);
    assert_eq!(all.sampled_count(), 1000);
    assert_eq!(none.get_rate(), (0, 1000));
    assert_eq!(all.get_rate(), (1000, 1000));
}

#[test]
fn rate_must_be_a_fraction() {
    assert!(ShardsFixedRate::accepts_rate(0, 1000));
    assert!(ShardsFixedRate::accepts_rate(1000, 1000));
    assert!(!ShardsFixedRate::accepts_rate(1001, 1000));
    assert!(!ShardsFixedRate::accepts_rate(0, 0));
}

#[test]
fn scale_and_unscale() {
    let sampler = ShardsFixedRate::new(100);
    assert_eq!(sampler.get_rate(), (100, 1000));
    assert_eq!(sampler.scale(4_000_000), 400_000);
    assert_eq!(sampler.scale(19), 1);
    assert_eq!(sampler.scale(9), 0);
    assert_eq!(sampler.scale(u64::MAX), u64::MAX / 10);
    assert_eq!(sampler.unscale(400_000), 4_000_000);
    assert_eq!(sampler.unscale(1), 10);
    assert_eq!(sampler.unscale(u64::MAX), u64::MAX);

    let third = ShardsFixedRate::with_modulus(1, 3);
    assert_eq!(third.scale(10), 3);
    assert_eq!(third.unscale(3), 9);

    let none = ShardsFixedRate::new(0);
    assert_eq!(none.scale(12), 0);
    assert_eq!(none.unscale(0), 0);
    assert_eq!(none.unscale(12), u64::MAX);
}

#[test]
fn scale_by_rounds_down_and_saturates() {
    assert_eq!(scale_by(7, 1, 2), 3);
    assert_eq!(scale_by(0, 5, 2), 0);
    assert_eq!(scale_by(u64::MAX, u64::MAX, 1), u64::MAX);
    assert_eq!(scale_by(u64::MAX, 3, 3), u64::MAX);
}

#[test]
fn correction_is_expected_less_taken() {
    let mut sampler = ShardsFixedRate::new(100);
    assert_eq!(sampler.get_correction(), 0);
    for key in 0..5u64 {
        sampler.sample(key);
    }
    // 5 seen, 1 taken, 0 expected
    assert_eq!(sampler.get_correction(), -1);
    for key in 5..100_000u64 {
        sampler.sample(key);
    }
    // 100000 seen, 10091 taken, 10000 expected
    assert_eq!(sampler.sampled_count(), 10091);
    assert_eq!(sampler.get_correction(), -91);

    let mut none = ShardsFixedRate::with_modulus(1, 2);
    let mut key = 0u64;
    while none.sampled_count() == none.total_count() / 2 {
        none.sample(key);
        key += 1;
    }
    let expected = none.total_count() / 2;
    assert_eq!(none.get_correction(), expected as i64 - none.sampled_count() as i64);
}

#[test]
fn sampler_with_a_rate_out_of_range_is_refused() {
    assert_eq!(
        ShardsFixedRate::try_new(1001).err(),
        Some(ConfigError::SampleRate { threshold: 1001, modulus: 1000 })
    );
    assert_eq!(
        ShardsFixedRate::try_with_modulus(0, 0).err(),
        Some(ConfigError::SampleRate { threshold: 0, modulus: 0 })
    );
    assert_eq!(ShardsFixedRate::try_new(1000).ok().map(|s| s.get_rate()), Some((1000, 1000)));
    assert_eq!(ShardsFixedRate::try_with_modulus(1, 3).ok().map(|s| s.get_rate()), Some((1, 3)));
}
