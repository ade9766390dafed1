//! Applying committed log entries to the replicated state machine: the
//! response to each request, and the queue Raft groups the meta group
//! tracks.
//!
//! The consensus engine that commits the entries, and the events sent to
//! start or stop a queue's group, are left to the caller.

use vstd::prelude::*;
use crate::message::Message;
use crate::queue::QueueConfig;
use crate::storage::ordered::ByteMap;
use vstd::utf8::encode_utf8;

verus! {

/// A single ack item in a batch ack request.
#[derive(Debug)]
pub struct AckItemData {
    pub queue_id: String,
    pub msg_id: [u8; 16],
}

/// A single nack item in a batch nack request.
#[derive(Debug)]
pub struct NackItemData {
    pub queue_id: String,
    pub msg_id: [u8; 16],
    pub error: String,
}

/// State-mutating operations that flow through the replicated log. Batch
/// requests also keep their older single-item fields. A throttle-rate
/// change carries its rate and burst as floating-point numbers, which stay
/// with the caller: applying the request reads only its key.
#[derive(Debug)]
pub enum ClusterRequest {
    Enqueue { messages: Vec<Message>, message: Option<Message> },
    Ack { items: Vec<AckItemData>, queue_id: Option<String>, msg_id: Option<[u8; 16]> },
    Nack { items: Vec<NackItemData>, queue_id: Option<String>, msg_id: Option<[u8; 16]>, error: Option<String> },
    CreateQueue { name: String, config: QueueConfig },
    DeleteQueue { queue_id: String },
    SetConfig { key: String, value: String },
    SetThrottleRate { key: String },
    RemoveThrottleRate { key: String },
    Redrive { dlq_queue_id: String, count: u64 },
    CreateQueueGroup { queue_id: String, members: Vec<u64>, config: QueueConfig, preferred_leader: u64 },
    DeleteQueueGroup { queue_id: String },
}

/// The response to applying a committed request.
#[derive(Debug)]
pub enum ClusterResponse {
    Enqueue { msg_id: [u8; 16] },
    Ack,
    Nack,
    CreateQueue { queue_id: String },
    DeleteQueue,
    SetConfig,
    SetThrottleRate,
    RemoveThrottleRate,
    Redrive { count: u64 },
    CreateQueueGroup { queue_id: String },
    DeleteQueueGroup,
    Error { message: String },
}

/// A committed log entry: a blank entry, a request, or a membership change.
#[derive(Debug)]
pub enum ReplicatedEntry {
    Blank,
    Normal(ClusterRequest),
    Membership,
}

/// The id an enqueue reports: that of the first message of the batch, else
/// that of the single message of an older entry, else the nil UUID.
pub open spec fn enqueue_reply_id(messages: Seq<Message>, message: Option<Message>) -> Seq<u8> {
    if messages.len() > 0 {
        messages[0].id@
    } else {
        match message {
            Some(m) => m.id@,
            None => Seq::new(16, |i: int| 0u8),
        }
    }
}

/// The response owed for an entry.
pub open spec fn response_for(entry: ReplicatedEntry, r: ClusterResponse) -> bool {
    match entry {
        ReplicatedEntry::Normal(req) => match req {
            ClusterRequest::Enqueue { messages, message } => match r {
                ClusterResponse::Enqueue { msg_id } => msg_id@ == enqueue_reply_id(messages@, message),
                _ => false,
            },
            ClusterRequest::Ack { .. } => r is Ack,
            ClusterRequest::Nack { .. } => r is Nack,
            ClusterRequest::CreateQueue { name, .. } => match r {
                ClusterResponse::CreateQueue { queue_id } => queue_id@ == name@,
                _ => false,
            },
            ClusterRequest::DeleteQueue { .. } => r is DeleteQueue,
            ClusterRequest::SetConfig { .. } => r is SetConfig,
            ClusterRequest::SetThrottleRate { .. } => r is SetThrottleRate,
            ClusterRequest::RemoveThrottleRate { .. } => r is RemoveThrottleRate,
            ClusterRequest::Redrive { .. } => r == ClusterResponse::Redrive { count: 0 },
            ClusterRequest::CreateQueueGroup { queue_id, .. } => match r {
                ClusterResponse::CreateQueueGroup { queue_id: q } => q@ == queue_id@,
                _ => false,
            },
            ClusterRequest::DeleteQueueGroup { .. } => r is DeleteQueueGroup,
        },
        _ => r is Ack,
    }
}

/// The queue groups, as queue id bytes to member node ids.
pub open spec fn groups_view(m: Map<Seq<u8>, Vec<u64>>) -> Map<Seq<u8>, Seq<u64>> {
    Map::new(|k: Seq<u8>| m.contains_key(k), |k: Seq<u8>| m[k]@)
}

/// The queue groups after an entry: a group creation records the queue's
/// members (replacing any earlier record), a group deletion drops it, and
/// every other entry leaves the groups as they were.
pub open spec fn groups_after(entry: ReplicatedEntry, g: Map<Seq<u8>, Seq<u64>>) -> Map<Seq<u8>, Seq<u64>> {
    match entry {
        ReplicatedEntry::Normal(ClusterRequest::CreateQueueGroup { queue_id, members, .. }) => g.insert(
            encode_utf8(queue_id@),
            members@,
        ),
        ReplicatedEntry::Normal(ClusterRequest::DeleteQueueGroup { queue_id }) => g.remove(encode_utf8(queue_id@)),
        _ => g,
    }
}

fn copy_string(s: &String) -> (r: String)
    ensures
        r@ == s@,
{
    String::from_str(s.as_str())
}

fn copy_members(m: &Vec<u64>) -> (r: Vec<u64>)
    ensures
        r@ == m@,
{
    let mut out: Vec<u64> = Vec::new();
    let mut i: usize = 0;
    while i < m.len()
        invariant
            i <= m@.len(),
            out@ == m@.take(i as int),
        decreases m@.len() - i,
    {
        out.push(m[i]);
        i = i + 1;
        assert(out@ =~= m@.take(i as int));
    }
    assert(m@.take(m@.len() as int) =~= m@);
    out
}

/// Apply one committed entry to the state machine: update the queue groups
/// and give the entry's response.
pub fn apply_replicated(groups: &mut ByteMap<Vec<u64>>, entry: &ReplicatedEntry) -> (r: ClusterResponse)
    requires
        old(groups).wf(),
    ensures
        final(groups).wf(),
        response_for(*entry, r),
        groups_view(final(groups).view()) == groups_after(*entry, groups_view(old(groups).view())),
{
    match entry {
        ReplicatedEntry::Blank => ClusterResponse::Ack,
        ReplicatedEntry::Membership => ClusterResponse::Ack,
        ReplicatedEntry::Normal(req) => match req {
            ClusterRequest::Enqueue { messages, message } => {
                let msg_id = if messages.len() > 0 {
                    messages[0].id
                } else {
                    match message {
                        Some(m) => m.id,
                        None => [0u8; 16],
                    }
                };
                proof {
                    if messages@.len() == 0 && message is None {
                        assert(msg_id@ =~= Seq::new(16, |i: int| 0u8));
                    }
                }
                ClusterResponse::Enqueue { msg_id }
            },
            ClusterRequest::Ack { .. } => ClusterResponse::Ack,
            ClusterRequest::Nack { .. } => ClusterResponse::Nack,
            ClusterRequest::CreateQueue { name, .. } => ClusterResponse::CreateQueue { queue_id: copy_string(name) },
            ClusterRequest::DeleteQueue { .. } => ClusterResponse::DeleteQueue,
            ClusterRequest::SetConfig { .. } => ClusterResponse::SetConfig,
            ClusterRequest::SetThrottleRate { .. } => ClusterResponse::SetThrottleRate,
            ClusterRequest::RemoveThrottleRate { .. } => ClusterResponse::RemoveThrottleRate,
            ClusterRequest::Redrive { .. } => ClusterResponse::Redrive { count: 0 },
            ClusterRequest::CreateQueueGroup { queue_id, members, .. } => {
                let ghost g0 = groups_view(groups.view());
                let copied = copy_members(members);
                groups.insert(crate::text::str_to_vec(queue_id.as_str()), copied);
                assert(groups_view(groups.view()) =~= g0.insert(encode_utf8(queue_id@), members@));
                ClusterResponse::CreateQueueGroup { queue_id: copy_string(queue_id) }
            },
            ClusterRequest::DeleteQueueGroup { queue_id } => {
                let ghost g0 = groups_view(groups.view());
                groups.remove(queue_id.as_str().as_bytes());
                assert(groups_view(groups.view()) =~= g0.remove(encode_utf8(queue_id@)));
                ClusterResponse::DeleteQueueGroup
            },
        },
    }
}

/// The queue groups after a run of entries, applied in order.
pub open spec fn groups_after_all(es: Seq<ReplicatedEntry>, g: Map<Seq<u8>, Seq<u64>>) -> Map<Seq<u8>, Seq<u64>>
    decreases es.len(),
{
    if es.len() == 0 {
        g
    } else {
        groups_after(es.last(), groups_after_all(es.drop_last(), g))
    }
}

/// Apply committed entries in log order: one response per entry, and the
/// queue groups as the entries leave them.
pub fn apply_to_state_machine(groups: &mut ByteMap<Vec<u64>>, entries: &Vec<ReplicatedEntry>) -> (r: Vec<
    ClusterResponse,
>)
    requires
        old(groups).wf(),
    ensures
        final(groups).wf(),
        r@.len() == entries@.len(),
        forall|i: int| 0 <= i < entries@.len() ==> response_for(#[trigger] entries@[i], r@[i]),
        groups_view(final(groups).view()) == groups_after_all(entries@, groups_view(old(groups).view())),
{
    let mut responses: Vec<ClusterResponse> = Vec::new();
    let mut i: usize = 0;
    while i < entries.len()
        invariant
            i <= entries@.len(),
            groups.wf(),
            responses@.len() == i,
            forall|k: int| 0 <= k < i ==> response_for(#[trigger] entries@[k], responses@[k]),
            groups_view(groups.view()) == groups_after_all(entries@.take(i as int), groups_view(old(groups).view())),
        decreases entries@.len() - i,
    {
        let r = apply_replicated(groups, &entries[i]);
        responses.push(r);
        proof {
            assert(entries@.take(i + 1).drop_last() == entries@.take(i as int));
            assert(entries@.take(i + 1).last() == entries@[i as int]);
        }
        i = i + 1;
    }
    assert(entries@.take(entries@.len() as int) == entries@);
    responses
}

} // verus!
