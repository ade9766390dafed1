//! Decisions of the FIBP command dispatcher: where a frame goes, and how the
//! scheduler's and the cluster's answers become wire results.
//!
//! Talking to the scheduler and to the queue's replicated log is left to the
//! caller, which hands each answer to the functions here.

use vstd::prelude::*;
use vstd::utf8::*;
use crate::error::{
    cluster_write_error_text, prefixed, storage_error_text, AckError, BrokerError, ClusterWriteError, EnqueueError,
    NackError,
};
use crate::fibp::codec::{
    spec_encode_frame, FibpCodec, Frame, FrameView, FLAG_STREAM, OP_ACK, OP_AUTH, OP_CONSUME, OP_CREATE_QUEUE, OP_DELETE_QUEUE, OP_ENQUEUE, OP_ERROR, OP_FLOW,
    OP_GOAWAY, OP_HEARTBEAT, OP_LIST_QUEUES, OP_NACK, OP_PAUSE_QUEUE, OP_QUEUE_STATS, OP_REDRIVE, OP_RESUME_QUEUE,
};
use crate::fibp::error::FibpError;
use crate::fibp::wire::{
    ack_nack_err, encode_consume_push, enqueue_err, spec_encode_consume_push, AckNackResultItem, ConsumePushMessage,
    EnqueueResultItem,
};
use crate::text::str_bytes;

verus! {

// ---------------------------------------------------------------------------
// Frame routing
// ---------------------------------------------------------------------------

/// Where an incoming frame goes.
#[derive(Debug)]
pub enum FrameRoute {
    /// Authenticate the connection.
    Auth,
    /// Answer with this frame and carry on.
    Reply(Frame),
    /// The peer sent GoAway: close the connection.
    PeerGoaway,
    /// An operation before authentication: send this error frame, then close
    /// the connection.
    Unauthenticated(Frame),
    Enqueue,
    Consume,
    Ack,
    Nack,
    Flow,
    /// A queue administration operation.
    Admin,
}

/// The error frame for `cid` carrying `text`.
pub open spec fn error_frame(cid: u32, text: Seq<char>) -> FrameView {
    FrameView { flags: 0, op: OP_ERROR, correlation_id: cid, payload: encode_utf8(text) }
}

/// An upper-case hexadecimal digit.
pub open spec fn hex_digit_char(n: int) -> char {
    if n < 10 {
        (n + 48) as char
    } else {
        (n + 55) as char
    }
}

/// A byte as two upper-case hexadecimal digits.
pub open spec fn hex_byte(b: u8) -> Seq<char> {
    seq![hex_digit_char((b / 16) as int), hex_digit_char((b % 16) as int)]
}

pub(crate) fn hex_digit(n: u8) -> (r: &'static str)
    requires
        n < 16,
    ensures
        r@ == seq![hex_digit_char(n as int)],
{
    proof {
        reveal_strlit("0");
        reveal_strlit("1");
        reveal_strlit("2");
        reveal_strlit("3");
        reveal_strlit("4");
        reveal_strlit("5");
        reveal_strlit("6");
        reveal_strlit("7");
        reveal_strlit("8");
        reveal_strlit("9");
        reveal_strlit("A");
        reveal_strlit("B");
        reveal_strlit("C");
        reveal_strlit("D");
        reveal_strlit("E");
        reveal_strlit("F");
    }
    let r = match n {
        0 => "0",
        1 => "1",
        2 => "2",
        3 => "3",
        4 => "4",
        5 => "5",
        6 => "6",
        7 => "7",
        8 => "8",
        9 => "9",
        10 => "A",
        11 => "B",
        12 => "C",
        13 => "D",
        14 => "E",
        _ => "F",
    };
    assert(r@ =~= seq![hex_digit_char(n as int)]);
    r
}

/// `before`, the byte in hexadecimal, `after`.
fn with_hex(before: &str, b: u8, after: &str) -> (r: String)
    ensures
        r@ == before@ + hex_byte(b) + after@,
{
    let mut s = String::from_str(before);
    s.append(hex_digit(b / 16));
    s.append(hex_digit(b % 16));
    s.append(after);
    assert(s@ =~= before@ + hex_byte(b) + after@);
    s
}

/// Where a frame goes, given whether the connection is authenticated.
/// Authentication, heartbeats and GoAway are always allowed; everything else
/// needs an authenticated connection.
pub fn route_frame(frame: &Frame, authenticated: bool) -> (r: FrameRoute)
    ensures
        ({
            let op = frame.op;
            let cid = frame.correlation_id;
            if op == OP_AUTH {
                r is Auth
            } else if op == OP_HEARTBEAT {
                r matches FrameRoute::Reply(f) && f@ == (FrameView {
                    flags: 0,
                    op: OP_HEARTBEAT,
                    correlation_id: cid,
                    payload: Seq::empty(),
                })
            } else if op == OP_GOAWAY {
                r is PeerGoaway
            } else if !authenticated {
                r matches FrameRoute::Unauthenticated(f) && f@ == error_frame(
                    cid,
                    "authentication required: send OP_AUTH frame first"@,
                )
            } else if op == OP_ENQUEUE {
                r is Enqueue
            } else if op == OP_CONSUME {
                r is Consume
            } else if op == OP_ACK {
                r is Ack
            } else if op == OP_NACK {
                r is Nack
            } else if op == OP_FLOW {
                r is Flow
            } else if op == OP_CREATE_QUEUE || op == OP_DELETE_QUEUE || op == OP_QUEUE_STATS || op == OP_LIST_QUEUES
                || op == OP_REDRIVE {
                r is Admin
            } else if op == OP_PAUSE_QUEUE || op == OP_RESUME_QUEUE {
                r matches FrameRoute::Reply(f) && f@ == error_frame(
                    cid,
                    "operation 0x"@ + hex_byte(op) + " not implemented"@,
                )
            } else {
                r matches FrameRoute::Reply(f) && f@ == error_frame(cid, "unknown operation 0x"@ + hex_byte(op) + ""@)
            }
        }),
{
    let op = frame.op;
    let cid = frame.correlation_id;
    if op == OP_AUTH {
        return FrameRoute::Auth;
    }
    if op == OP_HEARTBEAT {
        return FrameRoute::Reply(Frame::new(0, OP_HEARTBEAT, cid, Vec::new()));
    }
    if op == OP_GOAWAY {
        return FrameRoute::PeerGoaway;
    }
    if !authenticated {
        return FrameRoute::Unauthenticated(Frame::error(cid, "authentication required: send OP_AUTH frame first"));
    }
    if op == OP_ENQUEUE {
        FrameRoute::Enqueue
    } else if op == OP_CONSUME {
        FrameRoute::Consume
    } else if op == OP_ACK {
        FrameRoute::Ack
    } else if op == OP_NACK {
        FrameRoute::Nack
    } else if op == OP_FLOW {
        FrameRoute::Flow
    } else if op == OP_CREATE_QUEUE || op == OP_DELETE_QUEUE || op == OP_QUEUE_STATS || op == OP_LIST_QUEUES || op
        == OP_REDRIVE {
        FrameRoute::Admin
    } else if op == OP_PAUSE_QUEUE || op == OP_RESUME_QUEUE {
        let text = with_hex("operation 0x", op, " not implemented");
        FrameRoute::Reply(Frame::error(cid, text.as_str()))
    } else {
        let text = with_hex("unknown operation 0x", op, "");
        FrameRoute::Reply(Frame::error(cid, text.as_str()))
    }
}

// ---------------------------------------------------------------------------
// Authentication
// ---------------------------------------------------------------------------

/// The API key an auth frame carries: its payload as UTF-8.
pub fn auth_token(frame: &Frame) -> (r: Result<String, FibpError>)
    ensures
        valid_utf8(frame.payload@) ==> (r matches Ok(s) && s@ == decode_utf8(frame.payload@)),
        !valid_utf8(frame.payload@) ==> (r matches Err(FibpError::InvalidPayload { reason }) && reason@
            == "auth payload must be valid utf-8"@),
{
    let bytes = crate::text::bytes_to_vec(frame.payload.as_slice());
    match crate::text::string_from_utf8(bytes) {
        Ok(s) => Ok(s),
        Err(_) => Err(FibpError::InvalidPayload { reason: String::from_str("auth payload must be valid utf-8") }),
    }
}

/// How an auth frame is answered, given whether the connection was already
/// authenticated and, if not, whether its key is valid: the frame to send,
/// and the error that closes the connection when the key is refused.
pub fn auth_reply(correlation_id: u32, already_authenticated: bool, key_valid: bool) -> (r: (
    Frame,
    Option<FibpError>,
))
    ensures
        already_authenticated || key_valid ==> r.0@ == (FrameView {
            flags: 0,
            op: OP_AUTH,
            correlation_id,
            payload: Seq::empty(),
        }) && r.1 is None,
        !already_authenticated && !key_valid ==> r.0@ == error_frame(correlation_id, "invalid or missing api key"@)
            && (r.1 matches Some(FibpError::AuthFailed { reason }) && reason@ == "invalid api key"@),
{
    if already_authenticated || key_valid {
        (Frame::new(0, OP_AUTH, correlation_id, Vec::new()), None)
    } else {
        (
            Frame::error(correlation_id, "invalid or missing api key"),
            Some(FibpError::AuthFailed { reason: String::from_str("invalid api key") }),
        )
    }
}

// ---------------------------------------------------------------------------
// Enqueue results
// ---------------------------------------------------------------------------

/// `i` is the enqueue result that reports the scheduler's answer `r`.
pub open spec fn reports_enqueue(i: EnqueueResultItem, r: Result<String, EnqueueError>) -> bool {
    match r {
        Ok(id) => i matches EnqueueResultItem::Success { msg_id } && msg_id@ == id@,
        Err(EnqueueError::QueueNotFound(msg)) => i matches EnqueueResultItem::Failure { code, message } && code
            == enqueue_err::QUEUE_NOT_FOUND && message@ == msg@,
        Err(EnqueueError::Storage(e)) => i matches EnqueueResultItem::Failure { code, message } && code
            == enqueue_err::STORAGE && message@ == storage_error_text(e),
    }
}

/// The enqueue result for a message whose scheduler answer is `r`.
pub fn enqueue_item_from(r: Result<String, EnqueueError>) -> (i: EnqueueResultItem)
    ensures
        reports_enqueue(i, r),
{
    match r {
        Ok(id) => EnqueueResultItem::Success { msg_id: id },
        Err(EnqueueError::QueueNotFound(msg)) => EnqueueResultItem::Failure {
            code: enqueue_err::QUEUE_NOT_FOUND,
            message: msg,
        },
        Err(EnqueueError::Storage(e)) => EnqueueResultItem::Failure { code: enqueue_err::STORAGE, message: e.message() },
    }
}

/// An enqueue to a queue with an empty name is refused as a whole.
pub fn reject_empty_queue(queue: &str) -> (r: Option<Vec<EnqueueResultItem>>)
    ensures
        queue@.len() == 0 ==> (r matches Some(v) && v@.len() == 1 && (v@[0] matches EnqueueResultItem::Failure {
            code,
            message,
        } && code == enqueue_err::QUEUE_NOT_FOUND && message@ == "queue name must not be empty"@)),
        queue@.len() > 0 ==> r is None,
{
    if queue.is_empty() {
        let mut v: Vec<EnqueueResultItem> = Vec::new();
        v.push(
            EnqueueResultItem::Failure {
                code: enqueue_err::QUEUE_NOT_FOUND,
                message: String::from_str("queue name must not be empty"),
            },
        );
        Some(v)
    } else {
        None
    }
}

/// What the scheduler said when a committed write was applied locally.
#[derive(Debug)]
pub enum LocalApply<T> {
    /// The command could not be sent.
    SendFailed(BrokerError),
    /// The scheduler answered.
    Replied(T),
    /// The scheduler dropped the reply.
    ReplyDropped,
}

/// What the leader answered to a write forwarded to it.
#[derive(Debug)]
pub enum ForwardedReply {
    /// The message was stored under this id.
    Enqueued { msg_id: String },
    /// The ack or nack was applied.
    Done,
    /// The leader refused the write.
    Error { message: String },
    /// Any other answer.
    Other,
}

/// How a write to a queue's replicated log went.
#[derive(Debug)]
pub enum ClusterWrite<T> {
    /// The write did not commit.
    Failed(ClusterWriteError),
    /// This node leads the queue: the write committed and was applied to the
    /// local scheduler with this outcome.
    Local(LocalApply<T>),
    /// Another node leads the queue and answered.
    Forwarded(ForwardedReply),
}

/// The message id reported for the `i`-th scheduler answer of a committed
/// write: the scheduler's id when it has one, else the id the message was
/// written with.
pub open spec fn committed_id(results: Seq<Result<String, EnqueueError>>, i: int, msg_id: Seq<char>) -> Seq<char> {
    match results[i] {
        Ok(id) => id@,
        Err(_) => msg_id,
    }
}

/// The enqueue results reported for one message written through the
/// cluster. Once the write committed, the local scheduler's answer cannot
/// undo it: a failed send, a dropped reply or a scheduler error are all
/// reported as success, so that a client retry does not duplicate the
/// message.
pub fn cluster_enqueue_items(msg_id: String, outcome: ClusterWrite<Vec<Result<String, EnqueueError>>>) -> (r: Vec<
    EnqueueResultItem,
>)
    ensures
        match outcome {
            ClusterWrite::Failed(e) => r@.len() == 1 && (r@[0] matches EnqueueResultItem::Failure { code, message }
                && code == enqueue_err::STORAGE && message@ == cluster_write_error_text(e)),
            ClusterWrite::Local(LocalApply::Replied(results)) => r@.len() == results@.len() && forall|i: int|
                0 <= i < r@.len() ==> (#[trigger] r@[i] matches EnqueueResultItem::Success { msg_id: m } && m@
                    == committed_id(results@, i, msg_id@)),
            ClusterWrite::Local(_) => r@.len() == 1 && (r@[0] matches EnqueueResultItem::Success { msg_id: m } && m@
                == msg_id@),
            ClusterWrite::Forwarded(ForwardedReply::Enqueued { msg_id: fwd }) => r@.len() == 1 && (
            r@[0] matches EnqueueResultItem::Success { msg_id: m } && m@ == fwd@),
            ClusterWrite::Forwarded(ForwardedReply::Error { message: fwd }) => r@.len() == 1 && (
            r@[0] matches EnqueueResultItem::Failure { code, message } && code == enqueue_err::STORAGE && message@
                == fwd@),
            ClusterWrite::Forwarded(_) => r@.len() == 1 && (r@[0] matches EnqueueResultItem::Success { msg_id: m } && m@
                == msg_id@),
        },
{
    let mut out: Vec<EnqueueResultItem> = Vec::new();
    match outcome {
        ClusterWrite::Failed(e) => {
            out.push(EnqueueResultItem::Failure { code: enqueue_err::STORAGE, message: e.message() });
        },
        ClusterWrite::Local(LocalApply::Replied(results)) => {
            let ghost all = results@;
            let n = results.len();
            let mut rest = results;
            while rest.len() > 0
                invariant
                    all.len() == n,
                    out@.len() + rest@.len() == n,
                    rest@ == all.subrange(out@.len() as int, n as int),
                    forall|i: int|
                        0 <= i < out@.len() ==> (#[trigger] out@[i] matches EnqueueResultItem::Success { msg_id: m }
                            && m@ == committed_id(all, i, msg_id@)),
                decreases rest@.len(),
            {
                proof {
                    assert(rest@[0] == all[out@.len() as int]);
                }
                let first = rest.remove(0);
                let item = match first {
                    Ok(id) => EnqueueResultItem::Success { msg_id: id },
                    Err(_) => EnqueueResultItem::Success { msg_id: msg_id.clone() },
                };
                out.push(item);
                proof {
                    assert(rest@ =~= all.subrange(out@.len() as int, n as int));
                }
            }
        },
        ClusterWrite::Local(_) => {
            out.push(EnqueueResultItem::Success { msg_id });
        },
        ClusterWrite::Forwarded(ForwardedReply::Enqueued { msg_id: fwd }) => {
            out.push(EnqueueResultItem::Success { msg_id: fwd });
        },
        ClusterWrite::Forwarded(ForwardedReply::Error { message }) => {
            out.push(EnqueueResultItem::Failure { code: enqueue_err::STORAGE, message });
        },
        ClusterWrite::Forwarded(_) => {
            out.push(EnqueueResultItem::Success { msg_id });
        },
    }
    out
}

// ---------------------------------------------------------------------------
// Ack and nack results
// ---------------------------------------------------------------------------

/// What `Uuid::parse_str` makes of a string: the UUID's bytes, or `None`
/// when the string is not a UUID.
pub uninterp spec fn uuid_text_value(s: Seq<char>) -> Option<Seq<u8>>;

/// Wraps `uuid::Uuid::parse_str`: the result is a function of the text, and
/// the UUID comes back as its sixteen bytes. Which texts it accepts is left
/// unsaid.
#[verifier::external_body]
fn parse_uuid(s: &str) -> (r: Option<[u8; 16]>)
    ensures
        match uuid_text_value(s@) {
            Some(b) => r matches Some(a) && a@ == b,
            None => r is None,
        },
{
    match uuid::Uuid::parse_str(s) {
        Ok(u) => Some(*u.as_bytes()),
        Err(_) => None,
    }
}

/// The message id an ack or nack item names, or the result that refuses
/// the item when the id is not a UUID.
pub fn parse_message_id(msg_id: &str) -> (r: Result<[u8; 16], AckNackResultItem>)
    ensures
        match uuid_text_value(msg_id@) {
            Some(b) => r matches Ok(a) && a@ == b,
            None => r matches Err(AckNackResultItem::Failure { code, message }) && code
                == ack_nack_err::MESSAGE_NOT_FOUND && message@ == "invalid message_id: "@ + msg_id@,
        },
{
    match parse_uuid(msg_id) {
        Some(id) => Ok(id),
        None => Err(
            AckNackResultItem::Failure {
                code: ack_nack_err::MESSAGE_NOT_FOUND,
                message: prefixed("invalid message_id: ", msg_id),
            },
        ),
    }
}

/// `i` is the ack result that reports the scheduler's answer `r`.
pub open spec fn reports_ack(i: AckNackResultItem, r: Result<(), AckError>) -> bool {
    match r {
        Ok(()) => i is Success,
        Err(AckError::MessageNotFound(msg)) => i matches AckNackResultItem::Failure { code, message } && code
            == ack_nack_err::MESSAGE_NOT_FOUND && message@ == msg@,
        Err(AckError::Storage(e)) => i matches AckNackResultItem::Failure { code, message } && code
            == ack_nack_err::STORAGE && message@ == storage_error_text(e),
    }
}

/// `i` is the nack result that reports the scheduler's answer `r`.
pub open spec fn reports_nack(i: AckNackResultItem, r: Result<(), NackError>) -> bool {
    match r {
        Ok(()) => i is Success,
        Err(NackError::MessageNotFound(msg)) => i matches AckNackResultItem::Failure { code, message } && code
            == ack_nack_err::MESSAGE_NOT_FOUND && message@ == msg@,
        Err(NackError::Storage(e)) => i matches AckNackResultItem::Failure { code, message } && code
            == ack_nack_err::STORAGE && message@ == storage_error_text(e),
    }
}

/// The ack result for the scheduler's answer `r`.
pub fn ack_item_from(r: Result<(), AckError>) -> (i: AckNackResultItem)
    ensures
        reports_ack(i, r),
{
    match r {
        Ok(()) => AckNackResultItem::Success,
        Err(AckError::MessageNotFound(msg)) => AckNackResultItem::Failure {
            code: ack_nack_err::MESSAGE_NOT_FOUND,
            message: msg,
        },
        Err(AckError::Storage(e)) => AckNackResultItem::Failure { code: ack_nack_err::STORAGE, message: e.message() },
    }
}

/// The nack result for the scheduler's answer `r`.
pub fn nack_item_from(r: Result<(), NackError>) -> (i: AckNackResultItem)
    ensures
        reports_nack(i, r),
{
    match r {
        Ok(()) => AckNackResultItem::Success,
        Err(NackError::MessageNotFound(msg)) => AckNackResultItem::Failure {
            code: ack_nack_err::MESSAGE_NOT_FOUND,
            message: msg,
        },
        Err(NackError::Storage(e)) => AckNackResultItem::Failure { code: ack_nack_err::STORAGE, message: e.message() },
    }
}

/// The result reported for an ack or nack write that did not end in a
/// scheduler answer: a write that did not commit or a send that failed is
/// a storage failure; a dropped reply after the write committed, or a
/// forwarded write the leader applied, is a success.
pub open spec fn reports_cluster_ack_nack<T>(i: AckNackResultItem, outcome: ClusterWrite<T>) -> bool {
    match outcome {
        ClusterWrite::Failed(e) => i matches AckNackResultItem::Failure { code, message } && code
            == ack_nack_err::STORAGE && message@ == cluster_write_error_text(e),
        ClusterWrite::Local(LocalApply::SendFailed(e)) => i matches AckNackResultItem::Failure { code, message } && code
            == ack_nack_err::STORAGE && message@ == crate::error::broker_error_text(e),
        ClusterWrite::Local(LocalApply::Replied(_)) => true,
        ClusterWrite::Local(LocalApply::ReplyDropped) => i is Success,
        ClusterWrite::Forwarded(ForwardedReply::Error { message: fwd }) => i matches AckNackResultItem::Failure {
            code,
            message,
        } && code == ack_nack_err::STORAGE && message@ == fwd@,
        ClusterWrite::Forwarded(_) => i is Success,
    }
}

/// The ack result for an ack written through the cluster.
pub fn cluster_ack_item(outcome: ClusterWrite<Result<(), AckError>>) -> (i: AckNackResultItem)
    ensures
        reports_cluster_ack_nack(i, outcome),
        outcome matches ClusterWrite::Local(LocalApply::Replied(r)) ==> reports_ack(i, r),
{
    match outcome {
        ClusterWrite::Failed(e) => AckNackResultItem::Failure { code: ack_nack_err::STORAGE, message: e.message() },
        ClusterWrite::Local(LocalApply::SendFailed(e)) => AckNackResultItem::Failure {
            code: ack_nack_err::STORAGE,
            message: e.message(),
        },
        ClusterWrite::Local(LocalApply::Replied(r)) => ack_item_from(r),
        ClusterWrite::Local(LocalApply::ReplyDropped) => AckNackResultItem::Success,
        ClusterWrite::Forwarded(ForwardedReply::Error { message }) => AckNackResultItem::Failure {
            code: ack_nack_err::STORAGE,
            message,
        },
        ClusterWrite::Forwarded(_) => AckNackResultItem::Success,
    }
}

/// The nack result for a nack written through the cluster.
pub fn cluster_nack_item(outcome: ClusterWrite<Result<(), NackError>>) -> (i: AckNackResultItem)
    ensures
        reports_cluster_ack_nack(i, outcome),
        outcome matches ClusterWrite::Local(LocalApply::Replied(r)) ==> reports_nack(i, r),
{
    match outcome {
        ClusterWrite::Failed(e) => AckNackResultItem::Failure { code: ack_nack_err::STORAGE, message: e.message() },
        ClusterWrite::Local(LocalApply::SendFailed(e)) => AckNackResultItem::Failure {
            code: ack_nack_err::STORAGE,
            message: e.message(),
        },
        ClusterWrite::Local(LocalApply::Replied(r)) => nack_item_from(r),
        ClusterWrite::Local(LocalApply::ReplyDropped) => AckNackResultItem::Success,
        ClusterWrite::Forwarded(ForwardedReply::Error { message }) => AckNackResultItem::Failure {
            code: ack_nack_err::STORAGE,
            message,
        },
        ClusterWrite::Forwarded(_) => AckNackResultItem::Success,
    }
}

// ---------------------------------------------------------------------------
// Cluster errors
// ---------------------------------------------------------------------------

/// Convert a `ClusterWriteError` to a `FibpError`.
pub fn cluster_write_err_to_fibp(e: ClusterWriteError) -> (r: FibpError)
    ensures
        r matches FibpError::InvalidPayload { reason } && reason@ == match e {
            ClusterWriteError::QueueGroupNotFound => "queue raft group not found"@,
            ClusterWriteError::NodeNotReady => "node not ready for this queue"@,
            ClusterWriteError::NoLeader => "no leader available"@,
            ClusterWriteError::Raft(msg) => "raft error: "@ + msg@,
            ClusterWriteError::Forward(msg) => "forward error: "@ + msg@,
        },
{
    let reason = match e {
        ClusterWriteError::QueueGroupNotFound => String::from_str("queue raft group not found"),
        ClusterWriteError::NodeNotReady => String::from_str("node not ready for this queue"),
        ClusterWriteError::NoLeader => String::from_str("no leader available"),
        ClusterWriteError::Raft(msg) => prefixed("raft error: ", msg.as_str()),
        ClusterWriteError::Forward(msg) => prefixed("forward error: ", msg.as_str()),
    };
    FibpError::InvalidPayload { reason }
}

/// Whether this node may serve a consume for a queue, from what the cluster
/// knows: `None` in single-node mode or when this node leads the queue, the
/// leader's client address to redirect to, or an error when no leader is
/// known or the queue is unknown here. `is_leader` is `None` when this node
/// has no group for the queue; `expected` then says the group is on its way.
pub fn leadership_outcome(
    clustered: bool,
    is_leader: Option<bool>,
    leader_addr: Option<String>,
    expected: bool,
) -> (r: Result<Option<String>, FibpError>)
    ensures
        !clustered ==> r matches Ok(None),
        clustered && is_leader == Some(true) ==> r matches Ok(None),
        clustered && is_leader == Some(false) ==> (match leader_addr {
            Some(a) => r matches Ok(Some(b)) && b@ == a@,
            None => r matches Err(FibpError::InvalidPayload { reason }) && reason@ == "no leader available for queue"@,
        }),
        clustered && is_leader is None ==> (r matches Err(FibpError::InvalidPayload { reason }) && reason@ == (
        if expected {
            "node not ready for this queue"@
        } else {
            "queue not found"@
        })),
{
    if !clustered {
        return Ok(None);
    }
    match is_leader {
        Some(true) => Ok(None),
        Some(false) => match leader_addr {
            Some(addr) => Ok(Some(addr)),
            None => Err(FibpError::InvalidPayload { reason: String::from_str("no leader available for queue") }),
        },
        None => {
            if expected {
                Err(FibpError::InvalidPayload { reason: String::from_str("node not ready for this queue") })
            } else {
                Err(FibpError::InvalidPayload { reason: String::from_str("queue not found") })
            }
        },
    }
}


// ---------------------------------------------------------------------------
// Consume sessions
// ---------------------------------------------------------------------------

/// Why a consume request is refused before it reaches the scheduler, as the
/// error frame that answers it: a session already runs on the connection,
/// or the queue name is empty.
pub fn consume_precheck(correlation_id: u32, session_active: bool, queue: &str) -> (r: Option<Frame>)
    ensures
        session_active ==> (r matches Some(f) && f@ == error_frame(correlation_id, "consume session already active"@)),
        !session_active && queue@.len() == 0 ==> (r matches Some(f) && f@ == error_frame(
            correlation_id,
            "queue name must not be empty"@,
        )),
        !session_active && queue@.len() > 0 ==> r is None,
{
    if session_active {
        Some(Frame::error(correlation_id, "consume session already active"))
    } else if queue.is_empty() {
        Some(Frame::error(correlation_id, "queue name must not be empty"))
    } else {
        None
    }
}

/// The error frame that sends a consumer to the queue's leader.
pub fn leader_hint_frame(correlation_id: u32, leader_addr: &str) -> (r: Frame)
    ensures
        r@ == error_frame(correlation_id, "leader_hint:"@ + leader_addr@),
{
    let text = prefixed("leader_hint:", leader_addr);
    Frame::error(correlation_id, text.as_str())
}

/// How many messages of a ready batch of `batch_len` may go out with
/// `available` credits, and the credits left after: `None` while no credit
/// is available.
pub fn take_credits(available: u32, batch_len: usize) -> (r: Option<(usize, u32)>)
    ensures
        available == 0 ==> r is None,
        available > 0 ==> (r matches Some((n, left)) && n == (if batch_len < available {
            batch_len as int
        } else {
            available as int
        }) && left == available - n),
{
    if available == 0 {
        return None;
    }
    let n: usize = if batch_len < available as usize {
        batch_len
    } else {
        available as usize
    };
    Some((n, available - n as u32))
}

/// The credits a consumer has after a flow frame grants `granted` more;
/// the counter wraps at `u32::MAX`, as the atomic add it stands in does.
pub fn credits_after_flow(current: u32, granted: u32) -> (r: u32)
    ensures
        r == (current + granted) % 0x1_0000_0000,
{
    current.wrapping_add(granted)
}

/// The bytes of the push frame that carries a batch of ready messages, or
/// the refusal when the frame would exceed `max_frame_size`.
pub fn push_frame_bytes(messages: &[ConsumePushMessage], max_frame_size: u32) -> (r: Result<Vec<u8>, FibpError>)
    ensures
        ({
            let payload = spec_encode_consume_push(messages@);
            let f = FrameView { flags: FLAG_STREAM, op: OP_CONSUME, correlation_id: 0, payload };
            &&& 6 + payload.len() <= max_frame_size ==> (r matches Ok(b) && b@ == spec_encode_frame(f))
            &&& 6 + payload.len() > max_frame_size ==> r matches Err(FibpError::FrameTooLarge { .. })
        }),
{
    let payload = encode_consume_push(messages);
    if payload.len() > max_frame_size as usize || payload.len() > usize::MAX - 6 {
        return Err(
            FibpError::FrameTooLarge { size: (payload.len() as u64).wrapping_add(6) as u32, limit: max_frame_size },
        );
    }
    let frame = Frame::new(FLAG_STREAM, OP_CONSUME, 0, payload);
    let mut codec = FibpCodec::new(max_frame_size);
    let mut buf: Vec<u8> = Vec::new();
    match codec.encode(frame, &mut buf) {
        Ok(()) => Ok(buf),
        Err(e) => Err(e),
    }
}

} // verus!
