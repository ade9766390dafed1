use fila_core::error::{AckError, BrokerError, ClusterWriteError, EnqueueError, NackError, StorageError};
use fila_core::fibp::codec::{
    FibpCodec, Frame, FLAG_STREAM, OP_ACK, OP_AUTH, OP_CONSUME, OP_CREATE_QUEUE, OP_ENQUEUE, OP_ERROR, OP_FLOW,
    OP_GOAWAY, OP_HEARTBEAT, OP_NACK, OP_PAUSE_QUEUE, OP_REDRIVE,
};
use fila_core::fibp::dispatch::{
    ack_item_from, auth_reply, auth_token, cluster_ack_item, cluster_enqueue_items, cluster_nack_item,
    cluster_write_err_to_fibp, consume_precheck, credits_after_flow, enqueue_item_from, leader_hint_frame,
    leadership_outcome, nack_item_from, parse_message_id, push_frame_bytes, reject_empty_queue, route_frame,
    take_credits, ClusterWrite, ForwardedReply, FrameRoute, LocalApply,
};
use fila_core::fibp::error::FibpError;
use fila_core::fibp::wire::{ack_nack_err, enqueue_err, AckNackResultItem, ConsumePushMessage, EnqueueResultItem};

fn frame(op: u8, cid: u32) -> Frame {
    Frame::new(0, op, cid, Vec::new())
}

fn error_text(f: &Frame) -> String {
    assert_eq!(f.op, OP_ERROR);
    String::from_utf8(f.payload.clone()).unwrap()
}

#[test]
fn control_frames_pass_without_auth() {
    assert!(matches!(route_frame(&frame(OP_AUTH, 1), false), FrameRoute::Auth));
    assert!(matches!(route_frame(&frame(OP_GOAWAY, 1), false), FrameRoute::PeerGoaway));
    match route_frame(&frame(OP_HEARTBEAT, 7), false) {
        FrameRoute::Reply(f) => assert_eq!(f, Frame::new(0, OP_HEARTBEAT, 7, Vec::new())),
        other => panic!("expected a pong, got {other:?}"),
    }
}

#[test]
fn data_frames_need_auth() {
    match route_frame(&frame(OP_ENQUEUE, 3), false) {
        FrameRoute::Unauthenticated(f) => {
            assert_eq!(f.correlation_id, 3);
            assert_eq!(error_text(&f), "authentication required: send OP_AUTH frame first");
        }
        other => panic!("expected refusal, got {other:?}"),
    }
    assert!(matches!(route_frame(&frame(OP_ENQUEUE, 3), true), FrameRoute::Enqueue));
    assert!(matches!(route_frame(&frame(OP_CONSUME, 3), true), FrameRoute::Consume));
    assert!(matches!(route_frame(&frame(OP_ACK, 3), true), FrameRoute::Ack));
    assert!(matches!(route_frame(&frame(OP_NACK, 3), true), FrameRoute::Nack));
    assert!(matches!(route_frame(&frame(OP_FLOW, 3), true), FrameRoute::Flow));
    assert!(matches!(route_frame(&frame(OP_CREATE_QUEUE, 3), true), FrameRoute::Admin));
    assert!(matches!(route_frame(&frame(OP_REDRIVE, 3), true), FrameRoute::Admin));
}

#[test]
fn unsupported_ops_are_answered_with_errors() {
    match route_frame(&frame(OP_PAUSE_QUEUE, 9), true) {
        FrameRoute::Reply(f) => assert_eq!(error_text(&f), "operation 0x14 not implemented"),
        other => panic!("unexpected {other:?}"),
    }
    match route_frame(&frame(0xAB, 9), true) {
        FrameRoute::Reply(f) => assert_eq!(error_text(&f), "unknown operation 0xAB"),
        other => panic!("unexpected {other:?}"),
    }
}

#[test]
fn auth_frames() {
    let f = Frame::new(0, OP_AUTH, 5, b"secret-key".to_vec());
    assert_eq!(auth_token(&f).unwrap(), "secret-key");
    let bad = Frame::new(0, OP_AUTH, 5, vec![0xFF]);
    assert!(matches!(auth_token(&bad), Err(FibpError::InvalidPayload { .. })));

    let (ok, err) = auth_reply(5, false, true);
    assert_eq!(ok, Frame::new(0, OP_AUTH, 5, Vec::new()));
    assert!(err.is_none());
    let (refused, err) = auth_reply(5, false, false);
    assert_eq!(error_text(&refused), "invalid or missing api key");
    assert!(matches!(err, Some(FibpError::AuthFailed { reason }) if reason == "invalid api key"));
}

#[test]
fn scheduler_answers_become_enqueue_results() {
    assert!(matches!(enqueue_item_from(Ok("id-1".to_string())), EnqueueResultItem::Success { msg_id } if msg_id == "id-1"));
    match enqueue_item_from(Err(EnqueueError::QueueNotFound("q".to_string()))) {
        EnqueueResultItem::Failure { code, message } => {
            assert_eq!(code, enqueue_err::QUEUE_NOT_FOUND);
            assert_eq!(message, "q");
        }
        _ => panic!("expected failure"),
    }
    match enqueue_item_from(Err(EnqueueError::Storage(StorageError::Engine("disk".to_string())))) {
        EnqueueResultItem::Failure { code, message } => {
            assert_eq!(code, enqueue_err::STORAGE);
            assert_eq!(message, "storage engine error: disk");
        }
        _ => panic!("expected failure"),
    }
}

#[test]
fn empty_queue_name_is_refused() {
    let r = reject_empty_queue("").unwrap();
    assert_eq!(r.len(), 1);
    assert!(matches!(&r[0], EnqueueResultItem::Failure { code, message }
        if *code == enqueue_err::QUEUE_NOT_FOUND && message == "queue name must not be empty"));
    assert!(reject_empty_queue("q").is_none());
}

#[test]
fn committed_enqueue_is_reported_as_success() {
    let r = cluster_enqueue_items("m1".to_string(), ClusterWrite::Local(LocalApply::SendFailed(BrokerError::ChannelFull)));
    assert!(matches!(&r[..], [EnqueueResultItem::Success { msg_id }] if msg_id == "m1"));
    let r = cluster_enqueue_items(
        "m1".to_string(),
        ClusterWrite::Local(LocalApply::Replied(vec![Err(EnqueueError::QueueNotFound("q".to_string()))])),
    );
    assert!(matches!(&r[..], [EnqueueResultItem::Success { msg_id }] if msg_id == "m1"));
    let r = cluster_enqueue_items("m1".to_string(), ClusterWrite::Local(LocalApply::Replied(vec![Ok("m9".to_string())])));
    assert!(matches!(&r[..], [EnqueueResultItem::Success { msg_id }] if msg_id == "m9"));
    let r = cluster_enqueue_items("m1".to_string(), ClusterWrite::Failed(ClusterWriteError::NoLeader));
    assert!(matches!(&r[..], [EnqueueResultItem::Failure { code, message }]
        if *code == enqueue_err::STORAGE && message == "no leader available"));
    let r = cluster_enqueue_items(
        "m1".to_string(),
        ClusterWrite::Forwarded(ForwardedReply::Error { message: "full".to_string() }),
    );
    assert!(matches!(&r[..], [EnqueueResultItem::Failure { code, message }] if *code == enqueue_err::STORAGE && message == "full"));
    let r = cluster_enqueue_items(
        "m1".to_string(),
        ClusterWrite::Forwarded(ForwardedReply::Enqueued { msg_id: "m2".to_string() }),
    );
    assert!(matches!(&r[..], [EnqueueResultItem::Success { msg_id }] if msg_id == "m2"));
}

#[test]
fn ack_and_nack_results() {
    assert!(matches!(ack_item_from(Ok(())), AckNackResultItem::Success));
    assert!(matches!(ack_item_from(Err(AckError::MessageNotFound("x".to_string()))),
        AckNackResultItem::Failure { code, message } if code == ack_nack_err::MESSAGE_NOT_FOUND && message == "x"));
    assert!(matches!(nack_item_from(Err(NackError::Storage(StorageError::CorruptData("bad".to_string())))),
        AckNackResultItem::Failure { code, message } if code == ack_nack_err::STORAGE && message == "corrupt data: bad"));
    assert!(matches!(cluster_ack_item(ClusterWrite::Local(LocalApply::ReplyDropped)), AckNackResultItem::Success));
    assert!(matches!(cluster_ack_item(ClusterWrite::Local(LocalApply::SendFailed(BrokerError::SchedulerPanicked))),
        AckNackResultItem::Failure { code, message } if code == ack_nack_err::STORAGE && message == "scheduler thread panicked"));
    assert!(matches!(cluster_nack_item(ClusterWrite::Forwarded(ForwardedReply::Done)), AckNackResultItem::Success));
    assert!(matches!(cluster_nack_item(ClusterWrite::Failed(ClusterWriteError::Raft("term".to_string()))),
        AckNackResultItem::Failure { message, .. } if message == "raft error: term"));
}

#[test]
fn message_ids_must_be_uuids() {
    let id = parse_message_id("67e55044-10b1-426f-9247-bb680e5fe0c8").unwrap();
    assert_eq!(id[0], 0x67);
    assert_eq!(id[15], 0xc8);
    match parse_message_id("not-a-uuid") {
        Err(AckNackResultItem::Failure { code, message }) => {
            assert_eq!(code, ack_nack_err::MESSAGE_NOT_FOUND);
            assert_eq!(message, "invalid message_id: not-a-uuid");
        }
        _ => panic!("expected refusal"),
    }
}

#[test]
fn cluster_errors_become_invalid_payloads() {
    let cases = [
        (ClusterWriteError::QueueGroupNotFound, "queue raft group not found"),
        (ClusterWriteError::NodeNotReady, "node not ready for this queue"),
        (ClusterWriteError::NoLeader, "no leader available"),
        (ClusterWriteError::Raft("x".to_string()), "raft error: x"),
        (ClusterWriteError::Forward("y".to_string()), "forward error: y"),
    ];
    for (e, text) in cases {
        assert_eq!(e.message(), text);
        match cluster_write_err_to_fibp(e) {
            FibpError::InvalidPayload { reason } => assert_eq!(reason, text),
            other => panic!("unexpected {other:?}"),
        }
    }
}

#[test]
fn consume_leadership_and_prechecks() {
    assert!(matches!(leadership_outcome(false, None, None, false), Ok(None)));
    assert!(matches!(leadership_outcome(true, Some(true), None, false), Ok(None)));
    assert!(matches!(leadership_outcome(true, Some(false), Some("10.0.0.2:5555".to_string()), false),
        Ok(Some(a)) if a == "10.0.0.2:5555"));
    assert!(matches!(leadership_outcome(true, Some(false), None, false),
        Err(FibpError::InvalidPayload { reason }) if reason == "no leader available for queue"));
    assert!(matches!(leadership_outcome(true, None, None, true),
        Err(FibpError::InvalidPayload { reason }) if reason == "node not ready for this queue"));
    assert!(matches!(leadership_outcome(true, None, None, false),
        Err(FibpError::InvalidPayload { reason }) if reason == "queue not found"));

    assert_eq!(error_text(&consume_precheck(4, true, "q").unwrap()), "consume session already active");
    assert_eq!(error_text(&consume_precheck(4, false, "").unwrap()), "queue name must not be empty");
    assert!(consume_precheck(4, false, "q").is_none());
    assert_eq!(error_text(&leader_hint_frame(4, "h:1")), "leader_hint:h:1");
}

#[test]
fn credits_limit_push_batches() {
    assert_eq!(take_credits(0, 5), None);
    assert_eq!(take_credits(3, 5), Some((3, 0)));
    assert_eq!(take_credits(10, 5), Some((5, 5)));
    assert_eq!(credits_after_flow(5, 7), 12);
    assert_eq!(credits_after_flow(u32::MAX, 2), 1);
}

#[test]
fn push_frames_carry_the_batch() {
    let msgs = vec![ConsumePushMessage {
        msg_id: "id".to_string(),
        fairness_key: "k".to_string(),
        attempt_count: 1,
        headers: Vec::new(),
        payload: b"p".to_vec(),
    }];
    let bytes = push_frame_bytes(&msgs, 1024).unwrap();
    let mut codec = FibpCodec::new(1024);
    let (f, used) = codec.decode(&bytes).unwrap().unwrap();
    assert_eq!(used, bytes.len());
    assert_eq!(f.flags, FLAG_STREAM);
    assert_eq!(f.op, OP_CONSUME);
    assert_eq!(f.correlation_id, 0);
    assert!(matches!(push_frame_bytes(&msgs, 8), Err(FibpError::FrameTooLarge { .. })));
}
