//! Riftline: the verified core of a small Kafka-style messaging broker.
//!
//! The broker keeps one log segment per topic partition in an object store,
//! frames the messages of a segment with newline bytes, hands consumers the
//! records of a segment from a requested offset on, and remembers the offset
//! that each consumer group committed for a topic partition.

pub mod broker;
pub mod object_store;
pub mod offsets;
pub mod segment;
pub mod text;
pub mod wire;

use vstd::prelude::*;

verus! {

/// Adds two numbers.
pub fn add(left: u64, right: u64) -> (sum: u64)
    requires
        left + right <= u64::MAX,
    ensures
        sum == left + right,
{
    left + right
}

} // verus!
