//! The message domain type.

use vstd::prelude::*;
use crate::fibp::wire::roundtrip::keys_unique;
use crate::fibp::wire::{headers_view, WireEnqueueMessage};
use crate::lua::results::{default_key, default_string};

verus! {

/// Core message domain type. This is the internal representation used by the
/// scheduler and storage layer, distinct from the protobuf wire type. The id
/// is the UUID's sixteen bytes. A well-formed message (`wf`) holds each
/// header key once.
#[derive(Debug)]
pub struct Message {
    pub id: [u8; 16],
    pub queue_id: String,
    pub headers: Vec<(String, String)>,
    pub payload: Vec<u8>,
    pub fairness_key: String,
    pub weight: u32,
    pub throttle_keys: Vec<String>,
    pub attempt_count: u32,
    pub enqueued_at: u64,
    pub leased_at: Option<u64>,
}

impl Message {
    /// Each header key occurs once.
    pub open spec fn wf(&self) -> bool {
        keys_unique(headers_view(self.headers@))
    }
}

/// The bytes of a version-7 UUID of the RFC variant: the high nibble of
/// byte 6 is the version, 7, and the top two bits of byte 8 are `10`.
pub open spec fn is_v7_uuid(b: Seq<u8>) -> bool {
    &&& b.len() == 16
    &&& b[6] >> 4u8 == 7
    &&& b[8] >> 6u8 == 2
}

/// Wraps `Uuid::now_v7`: a fresh version-7 UUID of the RFC variant, as its
/// bytes. Its timestamp comes from the clock and its other bits from chance,
/// so nothing more is claimed of it.
#[verifier::external_body]
fn uuid_now_v7() -> (r: [u8; 16])
    ensures
        is_v7_uuid(r@),
{
    *uuid::Uuid::now_v7().as_bytes()
}

impl Message {
    /// Generate a new UUIDv7 message ID.
    pub fn new_id() -> (r: [u8; 16])
        ensures
            is_v7_uuid(r@),
    {
        uuid_now_v7()
    }
}

/// The message that an enqueue request carries for `queue`: a new message
/// with the given id and enqueue time, the request's headers and payload,
/// the default fairness key, weight 1, no throttle keys, no attempts and no
/// lease.
pub fn message_from_wire(queue: &str, m: WireEnqueueMessage, id: [u8; 16], now_ns: u64) -> (r: Message)
    ensures
        r.id == id,
        r.queue_id@ == queue@,
        r.headers@ == m.headers@,
        r.payload@ == m.payload@,
        r.fairness_key@ == default_key(),
        r.weight == 1,
        r.throttle_keys@.len() == 0,
        r.attempt_count == 0,
        r.enqueued_at == now_ns,
        r.leased_at is None,
        r.wf() == keys_unique(headers_view(m.headers@)),
{
    Message {
        id,
        queue_id: String::from_str(queue),
        headers: m.headers,
        payload: m.payload,
        fairness_key: default_string(),
        weight: 1,
        throttle_keys: Vec::new(),
        attempt_count: 0,
        enqueued_at: now_ns,
        leased_at: None,
    }
}

} // verus!
