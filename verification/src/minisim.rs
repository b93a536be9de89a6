//! The sweep simulator: one trace, run once against a bank of engines whose
//! capacities are evenly spaced up to a maximum.
use vstd::prelude::*;
use crate::Key;
use crate::AccessRecord;
use crate::ConfigError;
use crate::access_of;
use crate::accesses_of;
use crate::evict_policy::inclusion::{consistent_sizes, lemma_lru_hits_monotone, no_size_between};
use crate::evict_policy::LruPolicy;
use crate::evict_policy::{access_step, hits_in, lemma_hits_bounded, state_after, Access,
    EvictPolicy};
use crate::shards::Sampler;

verus! {

/// The number of engines in a bank, unless another is asked for.
pub const NUM_CACHE_SIZE: u64 = 100;

/// One point of a miss-ratio curve, in whole numbers: the engine of place
/// `index` among `points`, and its `hits` out of `total` accesses. Place 0
/// stands for the empty cache, which hits nothing.
#[derive(Debug, Clone, Copy, PartialEq, Eq)]
pub struct CurvePoint {
    pub index: u64,
    pub points: u64,
    pub hits: u64,
    pub total: u64,
}

impl CurvePoint {
    /// The miss ratio as a fraction, numerator and denominator: the accesses
    /// that did not hit, out of all; 1 where there was no access at all.
    pub open spec fn miss_ratio(self) -> (u64, u64) {
        if self.total == 0 {
            (1, 1)
        } else if self.hits >= self.total {
            (0, self.total)
        } else {
            ((self.total - self.hits) as u64, self.total)
        }
    }

    /// The miss ratio as a fraction, numerator and denominator.
    pub fn misses(&self) -> (r: (u64, u64))
        ensures
            r == self.miss_ratio(),
            r.1 > 0,
            r.0 <= r.1,
    {
        if self.total == 0 {
            (1, 1)
        } else if self.hits >= self.total {
            (0, self.total)
        } else {
            (self.total - self.hits, self.total)
        }
    }

    /// The cache size as a fraction of the maximum, numerator and
    /// denominator.
    pub fn size_fraction(&self) -> (r: (u64, u64))
        ensures
            r == (self.index, self.points),
    {
        (self.index, self.points)
    }
}

/// The capacity of place `i` among `points`, counted from 1: the fraction
/// `i / points` of the maximum, rounded up.
pub open spec fn sweep_capacity(max_capacity: u64, points: u64, i: u64) -> u64 {
    ((i as int * max_capacity as int + points as int - 1) / (points as int)) as u64
}

/// The evenly spaced capacities stay within the maximum.
pub proof fn lemma_sweep_capacity(max_capacity: u64, points: u64, i: u64)
    requires
        0 < points,
        i <= points,
    ensures
        sweep_capacity(max_capacity, points, i) == (i as int * max_capacity as int + points as int
            - 1) / (points as int),
        sweep_capacity(max_capacity, points, i) <= max_capacity,
        i == points ==> sweep_capacity(max_capacity, points, i) == max_capacity,
        i > 0 && max_capacity > 0 ==> sweep_capacity(max_capacity, points, i) > 0,
{
    let m = max_capacity as int;
    let n = points as int;
    let j = i as int;
    assert(0 <= (j * m + n - 1) / n <= m) by (nonlinear_arith)
        requires
            0 <= j <= n,
            0 < n,
            0 <= m,
    ;
    assert(j == n ==> (j * m + n - 1) / n == m) by (nonlinear_arith)
        requires
            0 < n,
            0 <= m,
    ;
    assert(j > 0 && m > 0 ==> (j * m + n - 1) / n > 0) by (nonlinear_arith)
        requires
            0 <= j <= n,
            0 < n,
            0 <= m,
    ;
}

/// Computes the capacity of place `i` among `points`, counted from 1.
pub fn sweep_capacity_at(max_capacity: u64, points: u64, i: u64) -> (c: u64)
    requires
        0 < points,
        i <= points,
    ensures
        c == sweep_capacity(max_capacity, points, i),
{
    proof {
        lemma_sweep_capacity(max_capacity, points, i);
    }
    assert(i as int * max_capacity as int <= u64::MAX as int * u64::MAX as int) by (nonlinear_arith)
        requires
            0 <= i as int <= u64::MAX as int,
            0 <= max_capacity as int <= u64::MAX as int,
    ;
    let sum: u128 = (i as u128) * (max_capacity as u128) + (points as u128 - 1);
    (sum / (points as u128)) as u64
}

/// The state of a sweep simulator.
pub struct SimModel<E, S> {
    /// The states of the engines, in order of capacity.
    pub engines: Seq<E>,
    /// The hits of each engine.
    pub hits: Seq<u64>,
    /// The number of accesses that passed the sampler, or of all accesses
    /// where there is none.
    pub seen: u64,
    /// The state of the sampler, if there is one.
    pub sampler: Option<S>,
}

/// The capacity of the engine at index `i`, counted from 0: the evenly spaced
/// capacity, brought down to the sample where there is a sampler.
pub open spec fn engine_capacity<S: Sampler>(
    max_capacity: u64,
    points: u64,
    sampler: Option<S::V>,
    i: int,
) -> u64 {
    let full = sweep_capacity(max_capacity, points, (i + 1) as u64);
    match sampler {
        Some(s) => S::model_scale(s, full),
        None => full,
    }
}

/// Whether a simulator can be made: there is at least one engine, the bank
/// and its curve can be indexed, and each engine accepts its capacity.
pub open spec fn config_ok<P: EvictPolicy, S: Sampler>(
    max_capacity: u64,
    points: u64,
    sampler: Option<S::V>,
) -> bool {
    &&& 0 < points < usize::MAX
    &&& forall|i: int|
        0 <= i < points ==> P::valid_capacity(
            #[trigger] engine_capacity::<S>(max_capacity, points, sampler, i),
        )
}

/// Whether `e` is the reason why no simulator can be made: the number of
/// engines, or else the first engine that does not accept its capacity.
pub open spec fn refusal<P: EvictPolicy, S: Sampler>(
    max_capacity: u64,
    points: u64,
    sampler: Option<S::V>,
    e: ConfigError,
) -> bool {
    if !(0 < points < usize::MAX) {
        e == (ConfigError::Points { points })
    } else {
        &&& e matches ConfigError::Capacity { place, capacity }
        &&& place < points
        &&& capacity == engine_capacity::<S>(max_capacity, points, sampler, place as int)
        &&& !P::valid_capacity(capacity)
        &&& forall|j: int|
            0 <= j < place ==> P::valid_capacity(
                #[trigger] engine_capacity::<S>(max_capacity, points, sampler, j),
            )
    }
}

/// The state of a new simulator.
pub open spec fn sim_new<P: EvictPolicy, S: Sampler>(
    max_capacity: u64,
    points: u64,
    sampler: Option<S::V>,
) -> SimModel<P::V, S::V> {
    SimModel {
        engines: Seq::new(
            points as nat,
            |i: int| P::model_new(engine_capacity::<S>(max_capacity, points, sampler, i)),
        ),
        hits: Seq::new(points as nat, |i: int| 0u64),
        seen: 0,
        sampler,
    }
}

/// Whether the access passes the sampler; every access does where there is
/// none.
pub open spec fn passes<S: Sampler>(sampler: Option<S::V>, key: Key) -> bool {
    match sampler {
        Some(s) => S::model_accepts(s, key),
        None => true,
    }
}

/// The sampler after it saw the access.
pub open spec fn sampler_after<S: Sampler>(sampler: Option<S::V>, key: Key) -> Option<S::V> {
    match sampler {
        Some(s) => Some(S::model_sample(s, key)),
        None => None,
    }
}

/// The hits of an engine after one access.
pub open spec fn hits_step<P: EvictPolicy>(hits: u64, engine: P::V, key: Key) -> u64 {
    if P::model_contains(engine, key) {
        (hits + 1) as u64
    } else {
        hits
    }
}

/// The state after one access. An access that the sampler drops changes
/// nothing but the sampler's count; any other goes to every engine, each of
/// which counts a hit or is asked to admit the key.
pub open spec fn sim_step<P: EvictPolicy, S: Sampler>(
    m: SimModel<P::V, S::V>,
    a: Access,
) -> SimModel<P::V, S::V> {
    if passes::<S>(m.sampler, a.0) {
        SimModel {
            engines: Seq::new(m.engines.len(), |i: int| access_step::<P>(m.engines[i], a)),
            hits: Seq::new(m.hits.len(), |i: int| hits_step::<P>(m.hits[i], m.engines[i], a.0)),
            seen: (m.seen + 1) as u64,
            sampler: sampler_after::<S>(m.sampler, a.0),
        }
    } else {
        SimModel {
            engines: m.engines,
            hits: m.hits,
            seen: m.seen,
            sampler: sampler_after::<S>(m.sampler, a.0),
        }
    }
}

/// The state after the accesses of `trace`, in order.
pub open spec fn sim_after<P: EvictPolicy, S: Sampler>(
    m: SimModel<P::V, S::V>,
    trace: Seq<Access>,
) -> SimModel<P::V, S::V>
    decreases trace.len(),
{
    if trace.len() == 0 {
        m
    } else {
        sim_step::<P, S>(sim_after::<P, S>(m, trace.drop_last()), trace.last())
    }
}

/// The curve of a state: the point of the empty cache, then one point for
/// each engine, in order of capacity.
pub open spec fn curve_points<E, S>(m: SimModel<E, S>) -> Seq<CurvePoint> {
    Seq::new(
        m.hits.len() + 1,
        |j: int|
            CurvePoint {
                index: j as u64,
                points: m.hits.len() as u64,
                hits: if j == 0 {
                    0
                } else {
                    m.hits[j - 1]
                },
                total: m.seen,
            },
    )
}

/// Whether the counters of a state have room for one more access.
pub open spec fn has_room<P: EvictPolicy, S: Sampler>(m: SimModel<P::V, S::V>) -> bool {
    &&& m.seen < u64::MAX
    &&& match m.sampler {
        Some(s) => S::model_total(s) < u64::MAX,
        None => true,
    }
}

/// The accesses of `trace` that pass the sampler, in order.
pub open spec fn taken<S: Sampler>(sampler: Option<S::V>, trace: Seq<Access>) -> Seq<Access>
    decreases trace.len(),
{
    if trace.len() == 0 {
        Seq::empty()
    } else if passes::<S>(sampler, trace.last().0) {
        taken::<S>(sampler, trace.drop_last()).push(trace.last())
    } else {
        taken::<S>(sampler, trace.drop_last())
    }
}

/// Whether the counters of a state have room for `n` more accesses.
pub open spec fn has_room_for<P: EvictPolicy, S: Sampler>(m: SimModel<P::V, S::V>, n: nat) -> bool {
    &&& m.seen + n <= u64::MAX
    &&& match m.sampler {
        Some(s) => S::model_total(s) + n <= u64::MAX,
        None => true,
    }
}

/// The counters of a state fit the engines, and none has counted more than
/// was seen.
pub open spec fn counted<P: EvictPolicy, S: Sampler>(m: SimModel<P::V, S::V>) -> bool {
    &&& m.engines.len() == m.hits.len()
    &&& forall|i: int| 0 <= i < m.hits.len() ==> #[trigger] m.hits[i] <= m.seen
    &&& match m.sampler {
        Some(s) => S::model_sampled(s) <= S::model_total(s),
        None => true,
    }
}

/// What a run of a trace comes to: the sampler decides on each key as it
/// did at the start, and counts every access; the accesses that pass are
/// counted as seen; and each engine, apart from the others, goes through
/// those accesses in order and counts its hits.
pub proof fn lemma_sim_after<P: EvictPolicy, S: Sampler>(m: SimModel<P::V, S::V>, trace: Seq<Access>)
    requires
        counted::<P, S>(m),
        has_room_for::<P, S>(m, trace.len()),
    ensures
        counted::<P, S>(sim_after::<P, S>(m, trace)),
        sim_after::<P, S>(m, trace).engines.len() == m.engines.len(),
        sim_after::<P, S>(m, trace).seen == m.seen + taken::<S>(m.sampler, trace).len(),
        taken::<S>(m.sampler, trace).len() <= trace.len(),
        forall|i: int|
            0 <= i < m.engines.len() ==> #[trigger] sim_after::<P, S>(m, trace).engines[i]
                == state_after::<P>(m.engines[i], taken::<S>(m.sampler, trace)),
        forall|i: int|
            0 <= i < m.engines.len() ==> #[trigger] sim_after::<P, S>(m, trace).hits[i]
                == m.hits[i] + hits_in::<P>(m.engines[i], taken::<S>(m.sampler, trace)),
        forall|k: Key|
            passes::<S>(sim_after::<P, S>(m, trace).sampler, k) == passes::<S>(m.sampler, k),
        m.sampler is Some == sim_after::<P, S>(m, trace).sampler is Some,
        m.sampler matches Some(s) ==> S::model_total(sim_after::<P, S>(m, trace).sampler->0)
            == S::model_total(s) + trace.len() && S::model_sampled(
            sim_after::<P, S>(m, trace).sampler->0,
        ) == S::model_sampled(s) + taken::<S>(m.sampler, trace).len() && S::model_rate(
            sim_after::<P, S>(m, trace).sampler->0,
        ) == S::model_rate(s),
    decreases trace.len(),
{
    if trace.len() > 0 {
        let before = sim_after::<P, S>(m, trace.drop_last());
        let a = trace.last();
        let t0 = taken::<S>(m.sampler, trace.drop_last());
        let t = taken::<S>(m.sampler, trace);
        lemma_sim_after::<P, S>(m, trace.drop_last());
        match before.sampler {
            Some(s) => {
                S::lemma_model_sample(s, a.0);
            },
            None => {},
        }
        assert(passes::<S>(before.sampler, a.0) == passes::<S>(m.sampler, a.0));
        let after = sim_step::<P, S>(before, a);
        if passes::<S>(m.sampler, a.0) {
            assert(t.drop_last() =~= t0);
            assert(t.last() == a);
            assert forall|i: int| 0 <= i < m.engines.len() implies #[trigger] after.hits[i]
                == m.hits[i] + hits_in::<P>(m.engines[i], t) && after.hits[i] <= after.seen by {
                lemma_hits_bounded::<P>(m.engines[i], t0);
                assert(before.hits[i] <= before.seen);
            }
        }
    }
}

/// The state of a sampler that may be there.
pub open spec fn sampler_view<S: Sampler>(sampler: &Option<S>) -> Option<S::V> {
    match sampler {
        Some(s) => Some(s@),
        None => None,
    }
}

/// The invariant of a sampler that may be there.
pub open spec fn sampler_inv<S: Sampler>(sampler: &Option<S>) -> bool {
    match sampler {
        Some(s) => s.inv(),
        None => true,
    }
}

/// A simulator that runs a trace against a bank of engines of one policy,
/// behind a sampler where one is given.
pub struct MiniSim<P: EvictPolicy, S: Sampler> {
    engines: Vec<P>,
    hits: Vec<u64>,
    seen: u64,
    sampler: Option<S>,
}

impl<P: EvictPolicy, S: Sampler> View for MiniSim<P, S> {
    type V = SimModel<P::V, S::V>;

    closed spec fn view(&self) -> SimModel<P::V, S::V> {
        SimModel {
            engines: Seq::new(self.engines@.len(), |i: int| self.engines@[i]@),
            hits: self.hits@,
            seen: self.seen,
            sampler: sampler_view(&self.sampler),
        }
    }
}

impl<P: EvictPolicy, S: Sampler> MiniSim<P, S> {
    /// The representation invariant: one counter for each engine, none above
    /// the number of accesses seen, and every part in order.
    pub closed spec fn inv(&self) -> bool {
        &&& self.engines@.len() == self.hits@.len()
        &&& 0 < self.engines@.len() < usize::MAX
        &&& forall|i: int| 0 <= i < self.engines@.len() ==> (#[trigger] self.engines@[i]).inv()
        &&& forall|i: int| 0 <= i < self.hits@.len() ==> #[trigger] self.hits@[i] <= self.seen
        &&& sampler_inv(&self.sampler)
    }

    /// The invariant of a simulator makes its counters fit.
    pub proof fn lemma_inv_counted(&self)
        requires
            self.inv(),
        ensures
            counted::<P, S>(self@),
    {
        match self.sampler {
            Some(s) => {
                s.lemma_inv();
            },
            None => {},
        }
    }

    /// Every engine of a simulator is well-formed, and none holds more than
    /// its capacity.
    pub proof fn lemma_inv_engines(&self)
        requires
            self.inv(),
        ensures
            forall|i: int|
                0 <= i < self@.engines.len() ==> P::model_wf(#[trigger] self@.engines[i])
                    && P::model_used(self@.engines[i]) <= P::model_capacity(self@.engines[i]),
    {
        assert forall|i: int| 0 <= i < self@.engines.len() implies P::model_wf(
            #[trigger] self@.engines[i],
        ) && P::model_used(self@.engines[i]) <= P::model_capacity(self@.engines[i]) by {
            self.engines@[i].lemma_inv_wf();
            P::lemma_model_bounded(self@.engines[i]);
        }
    }

    /// Computes the capacity of the engine at index `i`, counted from 0.
    pub fn point_capacity(max_capacity: u64, points: u64, sampler: &Option<S>, i: u64) -> (c: u64)
        requires
            i < points,
            sampler_inv(&sampler),
        ensures
            c == engine_capacity::<S>(
                max_capacity,
                points,
                sampler_view(&sampler),
                i as int,
            ),
    {
        let full = sweep_capacity_at(max_capacity, points, i + 1);
        match sampler {
            Some(s) => s.scale(full),
            None => full,
        }
    }

    /// A simulator with the usual number of engines.
    pub fn new(max_capacity: u64, sampler: Option<S>) -> (sim: Self)
        requires
            sampler_inv(&sampler),
            config_ok::<P, S>(
                max_capacity,
                NUM_CACHE_SIZE,
                sampler_view(&sampler),
            ),
        ensures
            sim.inv(),
            sim@ == sim_new::<P, S>(
                max_capacity,
                NUM_CACHE_SIZE,
                sampler_view(&sampler),
            ),
    {
        Self::with_points(max_capacity, NUM_CACHE_SIZE, sampler)
    }

    /// A simulator with `points` engines, of capacities evenly spaced up to
    /// `max_capacity`, each brought down to the sample where there is a
    /// sampler.
    pub fn with_points(max_capacity: u64, points: u64, sampler: Option<S>) -> (sim: Self)
        requires
            sampler_inv(&sampler),
            config_ok::<P, S>(
                max_capacity,
                points,
                sampler_view(&sampler),
            ),
        ensures
            sim.inv(),
            sim@ == sim_new::<P, S>(
                max_capacity,
                points,
                sampler_view(&sampler),
            ),
    {
        let ghost sampler_model = sampler_view(&sampler);
        let mut engines: Vec<P> = Vec::new();
        let mut hits: Vec<u64> = Vec::new();
        let mut i: u64 = 0;
        while i < points
            invariant
                i <= points,
                0 < points < usize::MAX,
                engines@.len() == i,
                hits@.len() == i,
                sampler_inv(&sampler),
                sampler_model == sampler_view(&sampler),
                config_ok::<P, S>(max_capacity, points, sampler_model),
                forall|j: int| 0 <= j < i ==> (#[trigger] engines@[j]).inv(),
                forall|j: int|
                    0 <= j < i ==> (#[trigger] engines@[j])@ == P::model_new(
                        engine_capacity::<S>(max_capacity, points, sampler_model, j),
                    ),
                forall|j: int| 0 <= j < i ==> #[trigger] hits@[j] == 0,
            decreases points - i,
        {
            let capacity = Self::point_capacity(max_capacity, points, &sampler, i);
            assert(P::valid_capacity(
                engine_capacity::<S>(max_capacity, points, sampler_model, i as int),
            ));
            engines.push(P::new(capacity));
            hits.push(0);
            i = i + 1;
        }
        let sim = MiniSim { engines, hits, seen: 0, sampler };
        assert(sim@.engines =~= sim_new::<P, S>(max_capacity, points, sampler_model).engines);
        assert(sim@.hits =~= sim_new::<P, S>(max_capacity, points, sampler_model).hits);
        sim
    }

    /// A simulator with the usual number of engines, or the reason why
    /// there is none.
    pub fn try_new(max_capacity: u64, sampler: Option<S>) -> (made: Result<Self, ConfigError>)
        requires
            sampler_inv(&sampler),
        ensures
            match made {
                Ok(sim) => config_ok::<P, S>(max_capacity, NUM_CACHE_SIZE, sampler_view(&sampler))
                    && sim.inv() && sim@ == sim_new::<P, S>(
                    max_capacity,
                    NUM_CACHE_SIZE,
                    sampler_view(&sampler),
                ),
                Err(e) => !config_ok::<P, S>(max_capacity, NUM_CACHE_SIZE, sampler_view(&sampler))
                    && refusal::<P, S>(max_capacity, NUM_CACHE_SIZE, sampler_view(&sampler), e),
            },
    {
        Self::try_with_points(max_capacity, NUM_CACHE_SIZE, sampler)
    }

    /// A simulator with `points` engines, or the reason why there is none:
    /// the number of engines, or the first engine, in order of capacity,
    /// that cannot have the capacity that falls to it.
    pub fn try_with_points(max_capacity: u64, points: u64, sampler: Option<S>) -> (made: Result<
        Self,
        ConfigError,
    >)
        requires
            sampler_inv(&sampler),
        ensures
            match made {
                Ok(sim) => config_ok::<P, S>(max_capacity, points, sampler_view(&sampler))
                    && sim.inv() && sim@ == sim_new::<P, S>(
                    max_capacity,
                    points,
                    sampler_view(&sampler),
                ),
                Err(e) => !config_ok::<P, S>(max_capacity, points, sampler_view(&sampler))
                    && refusal::<P, S>(max_capacity, points, sampler_view(&sampler), e),
            },
    {
        if points == 0 || points >= usize::MAX as u64 {
            return Err(ConfigError::Points { points });
        }
        let mut i: u64 = 0;
        while i < points
            invariant
                i <= points,
                0 < points < usize::MAX,
                sampler_inv(&sampler),
                forall|j: int|
                    0 <= j < i ==> P::valid_capacity(
                        #[trigger] engine_capacity::<S>(
                            max_capacity,
                            points,
                            sampler_view(&sampler),
                            j,
                        ),
                    ),
            decreases points - i,
        {
            let capacity = Self::point_capacity(max_capacity, points, &sampler, i);
            if !P::accepts_capacity(capacity) {
                return Err(ConfigError::Capacity { place: i, capacity });
            }
            i = i + 1;
        }
        Ok(Self::with_points(max_capacity, points, sampler))
    }

    /// Whether the counters have room for one more access.
    pub fn can_handle(&self) -> (ok: bool)
        requires
            self.inv(),
        ensures
            ok == has_room::<P, S>(self@),
    {
        self.seen < u64::MAX && match &self.sampler {
            Some(s) => s.has_room(),
            None => true,
        }
    }

    /// Handles one access of the trace.
    pub fn handle(&mut self, access: &AccessRecord)
        requires
            old(self).inv(),
            has_room::<P, S>(old(self)@),
        ensures
            final(self).inv(),
            final(self)@ == sim_step::<P, S>(old(self)@, access_of(*access)),
    {
        let key = access.key;
        let size = access.size as u64;
        let taken = match &mut self.sampler {
            Some(s) => s.sample(key),
            None => true,
        };
        if !taken {
            assert(self@.engines =~= old(self)@.engines);
            return ;
        }
        self.seen = self.seen + 1;
        let ghost final_sampler = self.sampler;
        let n = self.engines.len();
        let mut i: usize = 0;
        while i < n
            invariant
                n == self.engines@.len(),
                n == old(self).engines@.len(),
                self.hits@.len() == n,
                0 < n < usize::MAX,
                i <= n,
                self.seen == old(self).seen + 1,
                self.sampler == final_sampler,
                forall|j: int| 0 <= j < n ==> (#[trigger] self.engines@[j]).inv(),
                forall|j: int|
                    0 <= j < i ==> (#[trigger] self.engines@[j])@ == access_step::<P>(
                        old(self).engines@[j]@,
                        (key, size),
                    ),
                forall|j: int| i <= j < n ==> #[trigger] self.engines@[j] == old(self).engines@[j],
                forall|j: int|
                    0 <= j < i ==> #[trigger] self.hits@[j] == hits_step::<P>(
                        old(self).hits@[j],
                        old(self).engines@[j]@,
                        key,
                    ),
                forall|j: int| i <= j < n ==> #[trigger] self.hits@[j] == old(self).hits@[j],
                forall|j: int| 0 <= j < n ==> #[trigger] old(self).hits@[j] <= old(self).seen,
            decreases n - i,
        {
            if self.engines[i].get(key).is_some() {
                let count = self.hits[i];
                self.hits.set(i, count + 1);
            } else {
                self.engines[i].put(key, size);
            }
            i = i + 1;
        }
        assert(self@.engines =~= sim_step::<P, S>(old(self)@, access_of(*access)).engines);
        assert(self@.hits =~= sim_step::<P, S>(old(self)@, access_of(*access)).hits);
    }

    /// The miss-ratio curve: the point of the empty cache, then one point for
    /// each engine, in order of capacity.
    pub fn curve(&self) -> (points: Vec<CurvePoint>)
        requires
            self.inv(),
        ensures
            points@ == curve_points(self@),
            points@.len() >= 2,
            points@[0].index == 0,
            points@[0].miss_ratio().0 == points@[0].miss_ratio().1,
    {
        let n = self.hits.len();
        let mut points: Vec<CurvePoint> = Vec::new();
        points.push(CurvePoint { index: 0, points: n as u64, hits: 0, total: self.seen });
        let mut i: usize = 0;
        while i < n
            invariant
                n == self.hits@.len(),
                n < usize::MAX,
                i <= n,
                points@.len() == i + 1,
                forall|j: int| 0 <= j <= i ==> #[trigger] points@[j] == curve_points(self@)[j],
            decreases n - i,
        {
            points.push(
                CurvePoint {
                    index: (i + 1) as u64,
                    points: n as u64,
                    hits: self.hits[i],
                    total: self.seen,
                },
            );
            i = i + 1;
        }
        assert(points@ =~= curve_points(self@));
        points
    }
}

/// What one run of a simulator gave: its curve, under the label of the
/// configuration.
pub struct SimulationResult {
    pub points: Vec<CurvePoint>,
    pub label: String,
}

/// Runs the trace through the simulator, in order, and returns the curve
/// under the given label.
pub fn simulation<P: EvictPolicy, S: Sampler>(
    access_records: &Vec<AccessRecord>,
    sim: MiniSim<P, S>,
    label: String,
) -> (result: SimulationResult)
    requires
        sim.inv(),
        has_room_for::<P, S>(sim@, access_records@.len()),
    ensures
        result.label == label,
        result.points@ == curve_points(
            sim_after::<P, S>(sim@, accesses_of(access_records@)),
        ),
        result.points@.len() >= 2,
        result.points@[0].index == 0,
        result.points@[0].miss_ratio().0 == result.points@[0].miss_ratio().1,
{
    let ghost start = sim@;
    let ghost trace = accesses_of(access_records@);
    let mut sim = sim;
    let n = access_records.len();
    let mut i: usize = 0;
    proof {
        sim.lemma_inv_counted();
        assert(trace.take(0) =~= Seq::<Access>::empty());
    }
    while i < n
        invariant
            n == access_records@.len(),
            i <= n,
            trace == accesses_of(access_records@),
            sim.inv(),
            counted::<P, S>(start),
            has_room_for::<P, S>(start, n as nat),
            sim@ == sim_after::<P, S>(start, trace.take(i as int)),
        decreases n - i,
    {
        proof {
            lemma_sim_after::<P, S>(start, trace.take(i as int));
            assert(trace.take(i + 1).drop_last() =~= trace.take(i as int));
            assert(trace.take(i + 1).last() == access_of(access_records@[i as int]));
        }
        sim.handle(&access_records[i]);
        i = i + 1;
    }
    assert(trace.take(n as int) =~= trace);
    SimulationResult { points: sim.curve(), label }
}

/// Without a sampler every access passes.
pub proof fn lemma_taken_all<S: Sampler>(trace: Seq<Access>)
    ensures
        taken::<S>(None, trace) == trace,
    decreases trace.len(),
{
    if trace.len() > 0 {
        lemma_taken_all::<S>(trace.drop_last());
        assert(trace.drop_last().push(trace.last()) =~= trace);
    } else {
        assert(trace =~= Seq::<Access>::empty());
    }
}

/// The evenly spaced capacities grow with the place.
pub proof fn lemma_sweep_capacity_grows(max_capacity: u64, points: u64, i: u64, j: u64)
    requires
        0 < points,
        i <= j <= points,
    ensures
        sweep_capacity(max_capacity, points, i) <= sweep_capacity(max_capacity, points, j),
{
    lemma_sweep_capacity(max_capacity, points, i);
    lemma_sweep_capacity(max_capacity, points, j);
    let m = max_capacity as int;
    let n = points as int;
    let a = i as int;
    let b = j as int;
    assert((a * m + n - 1) / n <= (b * m + n - 1) / n) by (nonlinear_arith)
        requires
            0 <= a <= b,
            0 < n,
            0 <= m,
    ;
}

/// In a bank of LRU engines without a sampler, run from the start over a
/// trace in which every key has one size, an engine has hit no more often
/// than an engine of a later place, as long as no object of the trace is too
/// heavy for the one and light enough for the other.
pub proof fn lemma_lru_sweep_monotone<S: Sampler>(
    max_capacity: u64,
    points: u64,
    trace: Seq<Access>,
    i: int,
    j: int,
)
    requires
        0 < max_capacity,
        0 <= i <= j < points,
        trace.len() <= u64::MAX,
        consistent_sizes(trace),
        no_size_between(
            trace,
            engine_capacity::<S>(max_capacity, points, None, i),
            engine_capacity::<S>(max_capacity, points, None, j),
        ),
    ensures
        sim_after::<LruPolicy, S>(sim_new::<LruPolicy, S>(max_capacity, points, None), trace).hits[i]
            <= sim_after::<LruPolicy, S>(
            sim_new::<LruPolicy, S>(max_capacity, points, None),
            trace,
        ).hits[j],
{
    let start = sim_new::<LruPolicy, S>(max_capacity, points, None);
    lemma_sim_after::<LruPolicy, S>(start, trace);
    lemma_taken_all::<S>(trace);
    lemma_sweep_capacity(max_capacity, points, (i + 1) as u64);
    lemma_sweep_capacity_grows(max_capacity, points, (i + 1) as u64, (j + 1) as u64);
    lemma_lru_hits_monotone(
        engine_capacity::<S>(max_capacity, points, None, i),
        engine_capacity::<S>(max_capacity, points, None, j),
        trace,
    );
}

} // verus!
