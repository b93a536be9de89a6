//! Fixed-rate sampling of keys: a key takes part in a reduced simulation when
//! its hash, taken into a fixed modulus, lies below a threshold.
use vstd::prelude::*;
use crate::ConfigError;
use crate::Key;

verus! {

/// The modulus that a sampler has unless it is given another.
pub const DEFAULT_MODULUS: u64 = 1000;

/// The hash of a key: a fixed mixing of its 64 bits, the same in every run.
pub open spec fn mix(key: Key) -> u64 {
    let a = key.wrapping_add(0x9e37_79b9_7f4a_7c15u64);
    let b = (a ^ (a >> 30u64)).wrapping_mul(0xbf58_476d_1ce4_e5b9u64);
    let c = (b ^ (b >> 27u64)).wrapping_mul(0x94d0_49bb_1331_11ebu64);
    c ^ (c >> 31u64)
}

/// Computes the hash of a key.
pub fn hash_key(key: Key) -> (h: u64)
    ensures
        h == mix(key),
{
    let a: u64 = key.wrapping_add(0x9e37_79b9_7f4a_7c15u64);
    let b: u64 = (a ^ (a >> 30u64)).wrapping_mul(0xbf58_476d_1ce4_e5b9u64);
    let c: u64 = (b ^ (b >> 27u64)).wrapping_mul(0x94d0_49bb_1331_11ebu64);
    c ^ (c >> 31u64)
}

/// `size` times `numerator / denominator`, rounded down, and no more than the
/// largest `u64`.
pub open spec fn scaled(size: u64, numerator: u64, denominator: u64) -> u64 {
    let exact = (size as int * numerator as int) / (denominator as int);
    if exact > u64::MAX {
        u64::MAX
    } else {
        exact as u64
    }
}

/// Computes `size` times `numerator / denominator`, rounded down, and no
/// more than the largest `u64`.
pub fn scale_by(size: u64, numerator: u64, denominator: u64) -> (r: u64)
    requires
        denominator > 0,
    ensures
        r == scaled(size, numerator, denominator),
{
    assert(size as int * numerator as int <= u64::MAX as int * u64::MAX as int) by (nonlinear_arith)
        requires
            0 <= size as int <= u64::MAX as int,
            0 <= numerator as int <= u64::MAX as int,
    ;
    let product: u128 = (size as u128) * (numerator as u128);
    let exact: u128 = product / (denominator as u128);
    if exact > u64::MAX as u128 {
        u64::MAX
    } else {
        exact as u64
    }
}

/// A part of a whole is no more than the whole.
pub proof fn lemma_scaled_le(size: u64, numerator: u64, denominator: u64)
    requires
        0 < denominator,
        numerator <= denominator,
    ensures
        scaled(size, numerator, denominator) <= size,
        scaled(size, numerator, denominator) == (size as int * numerator as int) / (
        denominator as int),
{
    let s = size as int;
    let n = numerator as int;
    let d = denominator as int;
    assert((s * n) / d <= s) by (nonlinear_arith)
        requires
            0 <= s,
            0 <= n <= d,
            0 < d,
    ;
}

/// The state of a fixed-rate sampler.
pub struct ShardsModel {
    /// The threshold: a key is taken when its hash, in the modulus, is below it.
    pub threshold: u64,
    /// The modulus.
    pub modulus: u64,
    /// The number of accesses seen.
    pub total: u64,
    /// The number of accesses taken.
    pub sampled: u64,
}

/// A sampling engine: it decides for each key whether accesses to it take
/// part, counts what it saw and what it took, and converts sizes between the
/// full population and the sample.
pub trait Sampler: View + Sized {
    /// The representation invariant of a sampler.
    spec fn inv(&self) -> bool;

    /// Whether accesses to `key` take part. The decision depends on the key
    /// and on how the sampler was set up, not on what it has seen.
    spec fn model_accepts(m: Self::V, key: Key) -> bool;

    /// The state after one more access, to `key`, was seen.
    spec fn model_sample(m: Self::V, key: Key) -> Self::V;

    /// The number of accesses seen.
    spec fn model_total(m: Self::V) -> u64;

    /// The number of accesses taken.
    spec fn model_sampled(m: Self::V) -> u64;

    /// The rate, as a fraction: numerator and denominator.
    spec fn model_rate(m: Self::V) -> (u64, u64);

    /// A size of the full population, brought down to the sample.
    spec fn model_scale(m: Self::V, size: u64) -> u64;

    /// A size of the sample, brought up to the full population.
    spec fn model_unscale(m: Self::V, size: u64) -> u64;

    /// The number of accesses that the rate lets expect, less the number taken.
    spec fn model_correction(m: Self::V) -> i64;

    /// Seeing an access counts it, and counts it as taken where the key is
    /// accepted; it changes no decision and no conversion.
    proof fn lemma_model_sample(m: Self::V, key: Key)
        requires
            Self::model_total(m) < u64::MAX,
            Self::model_sampled(m) <= Self::model_total(m),
        ensures
            Self::model_total(Self::model_sample(m, key)) == Self::model_total(m) + 1,
            Self::model_sampled(Self::model_sample(m, key)) == Self::model_sampled(m)
                + if Self::model_accepts(m, key) {
                1int
            } else {
                0int
            },
            Self::model_rate(Self::model_sample(m, key)) == Self::model_rate(m),
            forall|k: Key|
                Self::model_accepts(Self::model_sample(m, key), k) == Self::model_accepts(m, k),
            forall|s: u64|
                Self::model_scale(Self::model_sample(m, key), s) == Self::model_scale(m, s),
            forall|s: u64|
                Self::model_unscale(Self::model_sample(m, key), s) == Self::model_unscale(m, s),
    ;

    /// The invariant of a sampler: it took no more than it saw.
    proof fn lemma_inv(&self)
        requires
            self.inv(),
        ensures
            Self::model_sampled(self@) <= Self::model_total(self@),
    ;

    /// Sees one access to `key` and says whether it takes part.
    fn sample(&mut self, key: Key) -> (taken: bool)
        requires
            old(self).inv(),
            Self::model_total(old(self)@) < u64::MAX,
        ensures
            final(self).inv(),
            taken == Self::model_accepts(old(self)@, key),
            final(self)@ == Self::model_sample(old(self)@, key),
    ;

    /// The expected fraction of accesses taken: numerator and denominator.
    fn get_rate(&self) -> (rate: (u64, u64))
        requires
            self.inv(),
        ensures
            rate == Self::model_rate(self@),
            rate.1 > 0,
            rate.0 <= rate.1,
    ;

    /// Brings a size of the full population down to the sample.
    fn scale(&self, size: u64) -> (r: u64)
        requires
            self.inv(),
        ensures
            r == Self::model_scale(self@, size),
    ;

    /// Brings a size of the sample up to the full population.
    fn unscale(&self, size: u64) -> (r: u64)
        requires
            self.inv(),
        ensures
            r == Self::model_unscale(self@, size),
    ;

    /// The number of accesses that the rate lets expect, less the number taken.
    fn get_correction(&self) -> (c: i64)
        requires
            self.inv(),
        ensures
            c == Self::model_correction(self@),
    ;

    /// Whether the counters have room for one more access.
    fn has_room(&self) -> (ok: bool)
        requires
            self.inv(),
        ensures
            ok == (Self::model_total(self@) < u64::MAX),
    ;
}

/// Whether a sampler of the given threshold and modulus takes `key`.
pub open spec fn takes(threshold: u64, modulus: u64, key: Key) -> bool {
    mix(key) % modulus < threshold
}

/// The size that a sample of the given rate stands for, in the full
/// population: `size` divided by the rate, rounded down; with rate 0, the
/// largest `u64` for every size but 0.
pub open spec fn unscaled(size: u64, threshold: u64, modulus: u64) -> u64 {
    if threshold == 0 {
        if size == 0 {
            0
        } else {
            u64::MAX
        }
    } else {
        scaled(size, modulus, threshold)
    }
}

/// The difference between what the rate lets expect of `total` accesses,
/// rounded down, and the number taken, kept within `i64`.
pub open spec fn correction(m: ShardsModel) -> i64 {
    let diff = scaled(m.total, m.threshold, m.modulus) - m.sampled;
    if diff > i64::MAX {
        i64::MAX
    } else if diff < i64::MIN {
        i64::MIN
    } else {
        diff as i64
    }
}

/// Two samplers of the same threshold and modulus decide alike on every key,
/// whatever each has seen: the decision is a function of the key and of the
/// configuration alone.
pub proof fn lemma_sampling_deterministic(a: ShardsModel, b: ShardsModel, key: Key)
    requires
        a.threshold == b.threshold,
        a.modulus == b.modulus,
    ensures
        ShardsFixedRate::model_accepts(a, key) == ShardsFixedRate::model_accepts(b, key),
{
}

/// A sampler that takes the keys whose hash, in the modulus, lies below the
/// threshold: the fraction `threshold / modulus` of all keys, about.
pub struct ShardsFixedRate {
    global_t: u64,
    modulus: u64,
    total_count: u64,
    sampled_count: u64,
}

impl View for ShardsFixedRate {
    type V = ShardsModel;

    closed spec fn view(&self) -> ShardsModel {
        ShardsModel {
            threshold: self.global_t,
            modulus: self.modulus,
            total: self.total_count,
            sampled: self.sampled_count,
        }
    }
}

impl ShardsFixedRate {
    /// The thresholds and moduli that a sampler can be made with: the rate
    /// is a fraction between 0 and 1.
    pub open spec fn valid_rate(global_t: u64, modulus: u64) -> bool {
        modulus > 0 && global_t <= modulus
    }

    /// Tests whether a sampler can be made with this threshold and modulus.
    pub fn accepts_rate(global_t: u64, modulus: u64) -> (ok: bool)
        ensures
            ok == Self::valid_rate(global_t, modulus),
    {
        modulus > 0 && global_t <= modulus
    }

    /// A sampler with the default modulus, which has seen nothing.
    pub fn new(global_t: u64) -> (s: Self)
        requires
            Self::valid_rate(global_t, DEFAULT_MODULUS),
        ensures
            s.inv(),
            s@ == (ShardsModel { threshold: global_t, modulus: DEFAULT_MODULUS, total: 0, sampled: 0 }),
    {
        ShardsFixedRate { global_t, modulus: DEFAULT_MODULUS, total_count: 0, sampled_count: 0 }
    }

    /// A sampler with the given modulus, which has seen nothing.
    pub fn with_modulus(global_t: u64, modulus: u64) -> (s: Self)
        requires
            Self::valid_rate(global_t, modulus),
        ensures
            s.inv(),
            s@ == (ShardsModel { threshold: global_t, modulus, total: 0, sampled: 0 }),
    {
        ShardsFixedRate { global_t, modulus, total_count: 0, sampled_count: 0 }
    }

    /// A sampler with the default modulus, or the reason why there is none:
    /// the threshold is above the modulus.
    pub fn try_new(global_t: u64) -> (made: Result<Self, ConfigError>)
        ensures
            match made {
                Ok(s) => Self::valid_rate(global_t, DEFAULT_MODULUS) && s.inv() && s@ == (
                ShardsModel {
                    threshold: global_t,
                    modulus: DEFAULT_MODULUS,
                    total: 0,
                    sampled: 0,
                }),
                Err(e) => !Self::valid_rate(global_t, DEFAULT_MODULUS) && e == (
                ConfigError::SampleRate { threshold: global_t, modulus: DEFAULT_MODULUS }),
            },
    {
        Self::try_with_modulus(global_t, DEFAULT_MODULUS)
    }

    /// A sampler with the given modulus, or the reason why there is none:
    /// the modulus is 0, or the threshold is above it.
    pub fn try_with_modulus(global_t: u64, modulus: u64) -> (made: Result<Self, ConfigError>)
        ensures
            match made {
                Ok(s) => Self::valid_rate(global_t, modulus) && s.inv() && s@ == (ShardsModel {
                    threshold: global_t,
                    modulus,
                    total: 0,
                    sampled: 0,
                }),
                Err(e) => !Self::valid_rate(global_t, modulus) && e == (ConfigError::SampleRate {
                    threshold: global_t,
                    modulus,
                }),
            },
    {
        if Self::accepts_rate(global_t, modulus) {
            Ok(Self::with_modulus(global_t, modulus))
        } else {
            Err(ConfigError::SampleRate { threshold: global_t, modulus })
        }
    }

    /// The number of accesses seen.
    pub fn total_count(&self) -> (n: u64)
        requires
            self.inv(),
        ensures
            n == self@.total,
            n >= self@.sampled,
    {
        self.total_count
    }

    /// The number of accesses taken.
    pub fn sampled_count(&self) -> (n: u64)
        requires
            self.inv(),
        ensures
            n == self@.sampled,
            n <= self@.total,
    {
        self.sampled_count
    }
}

impl Sampler for ShardsFixedRate {
    closed spec fn inv(&self) -> bool {
        &&& Self::valid_rate(self.global_t, self.modulus)
        &&& self.sampled_count <= self.total_count
    }

    open spec fn model_accepts(m: ShardsModel, key: Key) -> bool {
        takes(m.threshold, m.modulus, key)
    }

    open spec fn model_sample(m: ShardsModel, key: Key) -> ShardsModel {
        ShardsModel {
            threshold: m.threshold,
            modulus: m.modulus,
            total: (m.total + 1) as u64,
            sampled: if takes(m.threshold, m.modulus, key) {
                (m.sampled + 1) as u64
            } else {
                m.sampled
            },
        }
    }

    open spec fn model_total(m: ShardsModel) -> u64 {
        m.total
    }

    open spec fn model_sampled(m: ShardsModel) -> u64 {
        m.sampled
    }

    open spec fn model_rate(m: ShardsModel) -> (u64, u64) {
        (m.threshold, m.modulus)
    }

    open spec fn model_scale(m: ShardsModel, size: u64) -> u64 {
        scaled(size, m.threshold, m.modulus)
    }

    open spec fn model_unscale(m: ShardsModel, size: u64) -> u64 {
        unscaled(size, m.threshold, m.modulus)
    }

    open spec fn model_correction(m: ShardsModel) -> i64 {
        correction(m)
    }

    proof fn lemma_model_sample(m: ShardsModel, key: Key) {
    }

    proof fn lemma_inv(&self) {
    }

    fn sample(&mut self, key: Key) -> (taken: bool) {
        self.total_count = self.total_count + 1;
        let hashed: u64 = hash_key(key) % self.modulus;
        if hashed < self.global_t {
            self.sampled_count = self.sampled_count + 1;
            true
        } else {
            false
        }
    }

    fn get_rate(&self) -> (rate: (u64, u64)) {
        (self.global_t, self.modulus)
    }

    fn scale(&self, size: u64) -> (r: u64) {
        scale_by(size, self.global_t, self.modulus)
    }

    fn unscale(&self, size: u64) -> (r: u64) {
        if self.global_t == 0 {
            if size == 0 {
                0
            } else {
                u64::MAX
            }
        } else {
            scale_by(size, self.modulus, self.global_t)
        }
    }

    fn get_correction(&self) -> (c: i64) {
        let expected: u64 = scale_by(self.total_count, self.global_t, self.modulus);
        if expected >= self.sampled_count {
            let over: u64 = expected - self.sampled_count;
            if over > i64::MAX as u64 {
                i64::MAX
            } else {
                over as i64
            }
        } else {
            let under: u64 = self.sampled_count - expected;
            if under > i64::MAX as u64 {
                i64::MIN
            } else {
                -(under as i64)
            }
        }
    }

    fn has_room(&self) -> (ok: bool) {
        self.total_count < u64::MAX
    }
}

} // verus!
