//! Eviction engines: one cache of a fixed capacity each, answering hit or miss
//! for a key and admitting it on request.
use vstd::prelude::*;
use crate::Key;

pub mod weights;
pub mod lru_policy;
pub mod fifo_policy;
pub mod twoq_policy;
pub mod lfu_policy;
pub mod inclusion;

pub use lru_policy::LruPolicy;
pub use fifo_policy::FifoPolicy;
pub use twoq_policy::TwoQPolicy;
pub use lfu_policy::LfuPolicy;

verus! {

/// Whether an engine of the given capacity can take an object of weight
/// `size` at all: the engine has a capacity, and the object is no heavier.
pub open spec fn admissible(capacity: u64, size: u64) -> bool {
    capacity > 0 && size <= capacity
}

/// An eviction engine.
///
/// Every engine is described by a mathematical state, its view, and by
/// functions on that state: what a hit does to it (`model_get`) and what an
/// admission does to it (`model_put`). The executable operations are held to
/// those functions, and the proof functions of the trait state what every
/// engine's state functions have in common.
pub trait EvictPolicy: View + Sized {
    /// The representation invariant of an engine.
    spec fn inv(&self) -> bool;

    /// The capacities an engine of this kind can be made with.
    spec fn valid_capacity(capacity: u64) -> bool;

    /// Well-formedness of a state.
    spec fn model_wf(m: Self::V) -> bool;

    /// The state of a new engine.
    spec fn model_new(capacity: u64) -> Self::V;

    /// The capacity a state was made with.
    spec fn model_capacity(m: Self::V) -> u64;

    /// The occupied size: the sum of the weights of the resident keys.
    spec fn model_used(m: Self::V) -> nat;

    /// Whether `key` is resident.
    spec fn model_contains(m: Self::V, key: Key) -> bool;

    /// The state after a hit on the resident key `key`.
    spec fn model_get(m: Self::V, key: Key) -> Self::V;

    /// The state after a request to admit `key` with weight `size`.
    spec fn model_put(m: Self::V, key: Key, size: u64) -> Self::V;

    /// A new engine is well-formed and empty.
    proof fn lemma_model_new(capacity: u64)
        requires
            Self::valid_capacity(capacity),
        ensures
            Self::model_wf(Self::model_new(capacity)),
            Self::model_capacity(Self::model_new(capacity)) == capacity,
            Self::model_used(Self::model_new(capacity)) == 0,
            forall|k: Key| !Self::model_contains(Self::model_new(capacity), k),
    ;

    /// A well-formed state never holds more than its capacity.
    proof fn lemma_model_bounded(m: Self::V)
        requires
            Self::model_wf(m),
        ensures
            Self::model_used(m) <= Self::model_capacity(m),
    ;

    /// A hit changes neither the resident set nor the occupied size.
    proof fn lemma_model_get(m: Self::V, key: Key)
        requires
            Self::model_wf(m),
            Self::model_contains(m, key),
        ensures
            Self::model_wf(Self::model_get(m, key)),
            Self::model_capacity(Self::model_get(m, key)) == Self::model_capacity(m),
            Self::model_used(Self::model_get(m, key)) == Self::model_used(m),
            forall|k: Key|
                Self::model_contains(Self::model_get(m, key), k) == Self::model_contains(m, k),
    ;

    /// What an admission does, whatever the policy: a request that is not
    /// admissible is skipped and leaves the state as it was; a resident key
    /// is a hit, with its weight kept; any other key is resident afterwards,
    /// with the weight that was asked for accounted once.
    proof fn lemma_model_put(m: Self::V, key: Key, size: u64)
        requires
            Self::model_wf(m),
        ensures
            Self::model_wf(Self::model_put(m, key, size)),
            Self::model_capacity(Self::model_put(m, key, size)) == Self::model_capacity(m),
            !admissible(Self::model_capacity(m), size) ==> Self::model_put(m, key, size) == m,
            admissible(Self::model_capacity(m), size) && Self::model_contains(m, key)
                ==> Self::model_put(m, key, size) == Self::model_get(m, key),
            admissible(Self::model_capacity(m), size) ==> Self::model_contains(
                Self::model_put(m, key, size),
                key,
            ),
            admissible(Self::model_capacity(m), size) && !Self::model_contains(m, key) ==> size
                <= Self::model_used(Self::model_put(m, key, size)) <= Self::model_used(m) + size,
    ;

    /// Tests whether an engine can be made with this capacity.
    fn accepts_capacity(capacity: u64) -> (ok: bool)
        ensures
            ok == Self::valid_capacity(capacity),
    ;

    /// Makes an empty engine of the given capacity.
    fn new(capacity: u64) -> (engine: Self)
        requires
            Self::valid_capacity(capacity),
        ensures
            engine.inv(),
            engine@ == Self::model_new(capacity),
    ;

    /// Looks `key` up: `Some` on a hit, which the engine records as its policy
    /// says; `None` on a miss, which changes nothing.
    fn get(&mut self, key: Key) -> (hit: Option<()>)
        requires
            old(self).inv(),
        ensures
            final(self).inv(),
            hit.is_some() == Self::model_contains(old(self)@, key),
            final(self)@ == if hit.is_some() {
                Self::model_get(old(self)@, key)
            } else {
                old(self)@
            },
    ;

    /// Asks to admit `key` with weight `size`.
    fn put(&mut self, key: Key, size: u64)
        requires
            old(self).inv(),
        ensures
            final(self).inv(),
            final(self)@ == Self::model_put(old(self)@, key, size),
    ;

    /// The invariant of an engine makes its state well-formed.
    proof fn lemma_inv_wf(&self)
        requires
            self.inv(),
        ensures
            Self::model_wf(self@),
    ;
}

/// One access of a trace: the key and the weight of the object.
pub type Access = (Key, u64);

/// The state after one access: a hit where the key is resident, else a
/// request to admit it.
pub open spec fn access_step<P: EvictPolicy>(m: P::V, a: Access) -> P::V {
    if P::model_contains(m, a.0) {
        P::model_get(m, a.0)
    } else {
        P::model_put(m, a.0, a.1)
    }
}

/// The state after the accesses of `trace`, in order.
pub open spec fn state_after<P: EvictPolicy>(m: P::V, trace: Seq<Access>) -> P::V
    decreases trace.len(),
{
    if trace.len() == 0 {
        m
    } else {
        access_step::<P>(state_after::<P>(m, trace.drop_last()), trace.last())
    }
}

/// The number of hits among the accesses of `trace`, in order.
pub open spec fn hits_in<P: EvictPolicy>(m: P::V, trace: Seq<Access>) -> nat
    decreases trace.len(),
{
    if trace.len() == 0 {
        0
    } else {
        let before = state_after::<P>(m, trace.drop_last());
        hits_in::<P>(m, trace.drop_last()) + if P::model_contains(before, trace.last().0) {
            1nat
        } else {
            0nat
        }
    }
}

/// Every state reached from a well-formed state is well-formed, with the
/// capacity it started with and at most that much occupied.
pub proof fn lemma_state_after_wf<P: EvictPolicy>(m: P::V, trace: Seq<Access>)
    requires
        P::model_wf(m),
    ensures
        P::model_wf(state_after::<P>(m, trace)),
        P::model_capacity(state_after::<P>(m, trace)) == P::model_capacity(m),
        P::model_used(state_after::<P>(m, trace)) <= P::model_capacity(m),
    decreases trace.len(),
{
    if trace.len() > 0 {
        lemma_state_after_wf::<P>(m, trace.drop_last());
        let before = state_after::<P>(m, trace.drop_last());
        if P::model_contains(before, trace.last().0) {
            P::lemma_model_get(before, trace.last().0);
        } else {
            P::lemma_model_put(before, trace.last().0, trace.last().1);
        }
    }
    P::lemma_model_bounded(state_after::<P>(m, trace));
}

/// A trace holds no more hits than accesses.
pub proof fn lemma_hits_bounded<P: EvictPolicy>(m: P::V, trace: Seq<Access>)
    ensures
        hits_in::<P>(m, trace) <= trace.len(),
    decreases trace.len(),
{
    if trace.len() > 0 {
        lemma_hits_bounded::<P>(m, trace.drop_last());
    }
}

/// Asking twice to admit the same key with the same weight leaves the
/// occupied size, after the second request, as it was after the first.
pub proof fn lemma_put_twice<P: EvictPolicy>(m: P::V, key: Key, size: u64)
    requires
        P::model_wf(m),
    ensures
        P::model_used(P::model_put(P::model_put(m, key, size), key, size)) == P::model_used(
            P::model_put(m, key, size),
        ),
{
    let once = P::model_put(m, key, size);
    P::lemma_model_put(m, key, size);
    P::lemma_model_put(once, key, size);
    if admissible(P::model_capacity(m), size) {
        P::lemma_model_get(once, key);
    }
}

} // verus!
