//! The requests and responses of the broker's three services: the producer,
//! the consumer and the offset commit service.

use vstd::prelude::*;

verus! {

/// Messages to append to a topic.
#[derive(Clone, Debug, PartialEq, Eq, Default)]
pub struct ProduceRequest {
    pub topic: String,
    pub messages: Vec<Vec<u8>>,
}

/// Where a produced batch landed.
#[derive(Clone, Debug, PartialEq, Eq, Default)]
pub struct ProduceResponse {
    pub partition: i32,
    pub offset: i64,
}

/// A request to read a topic partition from an offset on.
#[derive(Clone, Debug, PartialEq, Eq, Default)]
pub struct ConsumeRequest {
    pub topic: String,
    pub partition: i32,
    pub offset: i64,
}

/// One message delivered to a consumer, with its offset in the partition.
#[derive(Clone, Debug, PartialEq, Eq, Default)]
pub struct ConsumeResponse {
    pub offset: i64,
    pub message: Vec<u8>,
}

/// A consumer group's committed offset for a topic partition.
#[derive(Clone, Debug, PartialEq, Eq, Default)]
pub struct CommitRequest {
    pub topic: String,
    pub partition: i32,
    pub offset: i64,
    pub consumer_group: String,
}

/// The outcome of a commit.
#[derive(Clone, Debug, PartialEq, Eq, Default)]
pub struct CommitResponse {
    pub success: bool,
}

/// A request for a consumer group's committed offset.
#[derive(Clone, Debug, PartialEq, Eq, Default)]
pub struct FetchRequest {
    pub topic: String,
    pub partition: i32,
    pub consumer_group: String,
}

/// A committed offset.
#[derive(Clone, Debug, PartialEq, Eq, Default)]
pub struct FetchResponse {
    pub offset: i64,
}

} // verus!
