//! The batch publisher's pure part: what goes on the wire for an entry, and
//! how a broker's answer is classified.

use vstd::prelude::*;
use crate::outbox::{copy_opt_string, copy_pairs, OutboxEntry};

verus! {

/// Milliseconds the broker has to acknowledge one message.
pub const PUBLISH_TIMEOUT_MS: u64 = 5000;

/// A broker message built from an entry.
#[derive(Debug)]
pub struct Message {
    /// Destination topic.
    pub topic: String,
    /// Message key; absent means the broker picks the partition.
    pub key: Option<String>,
    /// Wire-level headers, one per entry header.
    pub headers: Vec<(String, String)>,
    /// Message body; absent means an empty body.
    pub payload: Option<String>,
}

/// Where the broker stored an acknowledged message.
#[derive(Debug, PartialEq, Eq, Structural, Clone, Copy)]
pub struct Delivery {
    pub partition: i32,
    pub offset: i64,
}

/// Why one publish failed.
#[derive(Debug, PartialEq, Eq, Structural, Clone, Copy)]
pub enum PublishError {
    /// The broker did not acknowledge within the bound.
    Timeout,
    /// The broker answered with a protocol-level error.
    BrokerRejected,
    /// The message could not be encoded; retrying cannot help.
    SerializationFailed,
}

/// The broker's answer to one publish.
pub type PublishOutcome = Result<Delivery, PublishError>;

/// A failure that a later attempt may overcome.
pub open spec fn retryable(e: PublishError) -> bool {
    e != PublishError::SerializationFailed
}

/// The headers an entry carries, absent ones as none.
pub open spec fn entry_headers(e: OutboxEntry) -> Seq<(String, String)> {
    match e.headers {
        Some(h) => h@,
        None => Seq::empty(),
    }
}

/// `m` is the message for entry `e`: same topic, the partition key as key,
/// the headers one for one, and the payload as body.
pub open spec fn message_for(m: Message, e: OutboxEntry) -> bool {
    &&& m.topic == e.topic
    &&& m.key == e.partition_key
    &&& m.headers@ == entry_headers(e)
    &&& m.payload == e.payload
}

impl PublishError {
    /// Whether a later attempt may overcome this failure.
    pub fn is_retryable(&self) -> (r: bool)
        ensures
            r == retryable(*self),
    {
        match self {
            PublishError::SerializationFailed => false,
            _ => true,
        }
    }
}

/// Builds the broker message for an entry.
pub fn to_message(entry: &OutboxEntry) -> (r: Message)
    ensures
        message_for(r, *entry),
{
    let headers = match &entry.headers {
        Some(h) => copy_pairs(h),
        None => Vec::new(),
    };
    Message {
        topic: entry.topic.clone(),
        key: copy_opt_string(&entry.partition_key),
        headers,
        payload: copy_opt_string(&entry.payload),
    }
}

} // verus!
