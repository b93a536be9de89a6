//! Trace-driven cache simulation: eviction engines, fixed-rate key sampling,
//! and a sweep simulator that derives miss-ratio curves.
use vstd::prelude::*;

pub mod config;
pub mod evict_policy;
pub mod shards;
pub mod minisim;

pub use config::{default_eviction_policies, parse_size, size_of_text, EvictionPolicy};
pub use evict_policy::{EvictPolicy, FifoPolicy, LfuPolicy, LruPolicy, TwoQPolicy};
pub use minisim::{simulation, CurvePoint, MiniSim, SimulationResult};
pub use shards::{Sampler, ShardsFixedRate};

verus! {

/// Identifier of a cached object.
pub type Key = u64;

/// Why a sampler or a simulator cannot be made as it was asked for.
#[derive(Debug, Clone, Copy, PartialEq, Eq)]
pub enum ConfigError {
    /// The sampling rate is no fraction between 0 and 1: the modulus is 0,
    /// or the threshold is above it.
    SampleRate { threshold: u64, modulus: u64 },
    /// The number of engines is 0, or more than can be indexed.
    Points { points: u64 },
    /// The engine at index `place`, counted from 0, cannot have the capacity
    /// that falls to it.
    Capacity { place: u64, capacity: u64 },
}

/// One entry of a trace.
#[derive(Debug, Clone, Copy, PartialEq, Eq)]
pub struct AccessRecord {
    pub timestamp: u64,
    pub command: u8,
    pub key: u64,
    pub size: u32,
    pub ttl: u32,
}

impl AccessRecord {
    /// A record from five numbers as a trace file gives them, each cut to
    /// the width of its field.
    pub fn from_fields(timestamp: u64, command: u64, key: u64, size: u64, ttl: u64) -> (record:
        Self)
        ensures
            record.timestamp == timestamp,
            record.command == command % 0x100,
            record.key == key,
            record.size == size % 0x1_0000_0000,
            record.ttl == ttl % 0x1_0000_0000,
    {
        AccessRecord {
            timestamp,
            command: (command % 0x100) as u8,
            key,
            size: (size % 0x1_0000_0000) as u32,
            ttl: (ttl % 0x1_0000_0000) as u32,
        }
    }
}

/// The column that a field of the trace is read from: none where the
/// configuration names no column for it, or names -1; the field then has its
/// default.
pub fn field_column(field_opt: Option<i32>) -> (column: Option<usize>)
    requires
        field_opt matches Some(index) ==> index >= -1,
    ensures
        column == match field_opt {
            Some(index) => if index == -1 {
                None
            } else {
                Some(index as usize)
            },
            None => None,
        },
{
    match field_opt {
        Some(index) => if index == -1 {
            None
        } else {
            Some(index as usize)
        },
        None => None,
    }
}

/// What a simulator reads of a record: the key and the weight.
pub open spec fn access_of(record: AccessRecord) -> evict_policy::Access {
    (record.key, record.size as u64)
}

/// What a simulator reads of a trace.
pub open spec fn accesses_of(records: Seq<AccessRecord>) -> Seq<evict_policy::Access> {
    Seq::new(records.len(), |i: int| access_of(records[i]))
}

} // verus!
