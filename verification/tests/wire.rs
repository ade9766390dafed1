use fila_core::fibp::error::FibpError;
use fila_core::fibp::wire::ack_nack_err;
use fila_core::fibp::wire::enqueue_err;
use fila_core::fibp::wire::{
    decode_ack_request, decode_consume_request, decode_enqueue_request, decode_flow, decode_nack_request,
    encode_ack_nack_response, encode_consume_push, encode_enqueue_response, insert_header, AckNackResultItem,
    ConsumePushMessage, EnqueueResultItem,
};

fn put_u8(buf: &mut Vec<u8>, v: u8) {
    buf.push(v);
}

fn put_u16(buf: &mut Vec<u8>, v: u16) {
    buf.extend_from_slice(&v.to_be_bytes());
}

fn put_u32(buf: &mut Vec<u8>, v: u32) {
    buf.extend_from_slice(&v.to_be_bytes());
}

fn write_string16(buf: &mut Vec<u8>, s: &str) {
    put_u16(buf, s.len() as u16);
    buf.extend_from_slice(s.as_bytes());
}

/// A read cursor over an encoded payload.
struct Cursor {
    buf: Vec<u8>,
    pos: usize,
}

impl Cursor {
    fn new(buf: Vec<u8>) -> Self {
        Cursor { buf, pos: 0 }
    }

    fn get_u8(&mut self) -> u8 {
        let v = self.buf[self.pos];
        self.pos += 1;
        v
    }

    fn get_u16(&mut self) -> u16 {
        let v = u16::from_be_bytes([self.buf[self.pos], self.buf[self.pos + 1]]);
        self.pos += 2;
        v
    }

    fn get_u32(&mut self) -> u32 {
        let b = &self.buf[self.pos..self.pos + 4];
        self.pos += 4;
        u32::from_be_bytes([b[0], b[1], b[2], b[3]])
    }

    fn split_to(&mut self, n: usize) -> Vec<u8> {
        let v = self.buf[self.pos..self.pos + n].to_vec();
        self.pos += n;
        v
    }
}

#[test]
fn round_trip_enqueue_request() {
    let mut buf = Vec::new();
    let queue = "test-queue";
    write_string16(&mut buf, queue);
    put_u16(&mut buf, 2); // 2 messages

    // Message 1: one header, small payload
    put_u8(&mut buf, 1); // header_count
    write_string16(&mut buf, "key1");
    write_string16(&mut buf, "val1");
    put_u32(&mut buf, 5);
    buf.extend_from_slice(b"hello");

    // Message 2: no headers, empty payload
    put_u8(&mut buf, 0);
    put_u32(&mut buf, 0);

    let req = decode_enqueue_request(&buf).unwrap();
    assert_eq!(req.queue, "test-queue");
    assert_eq!(req.messages.len(), 2);
    assert_eq!(req.messages[0].header("key1").unwrap(), "val1");
    assert_eq!(&req.messages[0].payload[..], b"hello");
    assert!(req.messages[1].headers.is_empty());
    assert!(req.messages[1].payload.is_empty());
}

#[test]
fn round_trip_enqueue_response() {
    let results = vec![
        EnqueueResultItem::Success { msg_id: "abc-123".to_string() },
        EnqueueResultItem::Failure { code: enqueue_err::QUEUE_NOT_FOUND, message: "queue not found".to_string() },
    ];
    let encoded = encode_enqueue_response(&results);
    let mut buf = Cursor::new(encoded);

    let count = buf.get_u16();
    assert_eq!(count, 2);

    // First result: success
    assert_eq!(buf.get_u8(), 1);
    let id_len = buf.get_u16() as usize;
    let id = String::from_utf8(buf.split_to(id_len)).unwrap();
    assert_eq!(id, "abc-123");

    // Second result: error
    assert_eq!(buf.get_u8(), 0);
    assert_eq!(buf.get_u16(), enqueue_err::QUEUE_NOT_FOUND);
    let msg_len = buf.get_u16() as usize;
    let msg = String::from_utf8(buf.split_to(msg_len)).unwrap();
    assert_eq!(msg, "queue not found");
}

#[test]
fn round_trip_ack_request() {
    let mut buf = Vec::new();
    put_u16(&mut buf, 1); // 1 item
    write_string16(&mut buf, "q1");
    write_string16(&mut buf, "msg-1");

    let items = decode_ack_request(&buf).unwrap();
    assert_eq!(items.len(), 1);
    assert_eq!(items[0].queue, "q1");
    assert_eq!(items[0].msg_id, "msg-1");
}

#[test]
fn round_trip_nack_request() {
    let mut buf = Vec::new();
    put_u16(&mut buf, 1);
    write_string16(&mut buf, "q1");
    write_string16(&mut buf, "msg-1");
    write_string16(&mut buf, "processing failed");

    let items = decode_nack_request(&buf).unwrap();
    assert_eq!(items.len(), 1);
    assert_eq!(items[0].queue, "q1");
    assert_eq!(items[0].msg_id, "msg-1");
    assert_eq!(items[0].error, "processing failed");
}

#[test]
fn round_trip_consume_request() {
    let mut buf = Vec::new();
    write_string16(&mut buf, "my-queue");
    put_u32(&mut buf, 100);

    let req = decode_consume_request(&buf).unwrap();
    assert_eq!(req.queue, "my-queue");
    assert_eq!(req.initial_credits, 100);
}

#[test]
fn round_trip_flow() {
    let mut buf = Vec::new();
    put_u32(&mut buf, 42);
    let credits = decode_flow(&buf).unwrap();
    assert_eq!(credits, 42);
}

#[test]
fn round_trip_consume_push() {
    let mut headers = Vec::new();
    insert_header(&mut headers, "h1".to_string(), "v1".to_string());
    let messages = vec![ConsumePushMessage {
        msg_id: "id-1".to_string(),
        fairness_key: "default".to_string(),
        attempt_count: 3,
        headers,
        payload: b"data".to_vec(),
    }];
    let encoded = encode_consume_push(&messages);
    let mut buf = Cursor::new(encoded);

    assert_eq!(buf.get_u16(), 1);

    // msg_id
    let id_len = buf.get_u16() as usize;
    let id = String::from_utf8(buf.split_to(id_len)).unwrap();
    assert_eq!(id, "id-1");

    // fairness_key
    let fk_len = buf.get_u16() as usize;
    let fk = String::from_utf8(buf.split_to(fk_len)).unwrap();
    assert_eq!(fk, "default");

    // attempt_count
    assert_eq!(buf.get_u32(), 3);

    // headers
    let hcount = buf.get_u8();
    assert_eq!(hcount, 1);
    let klen = buf.get_u16() as usize;
    let k = String::from_utf8(buf.split_to(klen)).unwrap();
    let vlen = buf.get_u16() as usize;
    let v = String::from_utf8(buf.split_to(vlen)).unwrap();
    assert_eq!(k, "h1");
    assert_eq!(v, "v1");

    // payload
    let plen = buf.get_u32() as usize;
    assert_eq!(&buf.split_to(plen)[..], b"data");
}

#[test]
fn round_trip_ack_nack_response() {
    let results = vec![
        AckNackResultItem::Success,
        AckNackResultItem::Failure { code: ack_nack_err::MESSAGE_NOT_FOUND, message: "not found".to_string() },
    ];
    let encoded = encode_ack_nack_response(&results);
    let mut buf = Cursor::new(encoded);

    assert_eq!(buf.get_u16(), 2);

    // First: success
    assert_eq!(buf.get_u8(), 1);

    // Second: error
    assert_eq!(buf.get_u8(), 0);
    assert_eq!(buf.get_u16(), ack_nack_err::MESSAGE_NOT_FOUND);
    let msg_len = buf.get_u16() as usize;
    let msg = String::from_utf8(buf.split_to(msg_len)).unwrap();
    assert_eq!(msg, "not found");
}

#[test]
fn decode_truncated_enqueue_request_fails() {
    // Just a queue name, but says 5 messages follow with no data.
    let mut buf = Vec::new();
    write_string16(&mut buf, "q");
    put_u16(&mut buf, 5);
    let err = decode_enqueue_request(&buf).unwrap_err();
    assert!(matches!(err, FibpError::InvalidPayload { .. }), "expected InvalidPayload, got: {err:?}");
}

#[test]
fn repeated_header_key_keeps_last_value() {
    let mut buf = Vec::new();
    write_string16(&mut buf, "q");
    put_u16(&mut buf, 1);
    put_u8(&mut buf, 3);
    write_string16(&mut buf, "a");
    write_string16(&mut buf, "1");
    write_string16(&mut buf, "b");
    write_string16(&mut buf, "2");
    write_string16(&mut buf, "a");
    write_string16(&mut buf, "3");
    put_u32(&mut buf, 0);
    let req = decode_enqueue_request(&buf).unwrap();
    let m = &req.messages[0];
    assert_eq!(m.headers.len(), 2);
    assert_eq!(m.header("a").unwrap(), "3");
    assert_eq!(m.header("b").unwrap(), "2");
    assert!(m.header("c").is_none());
}

#[test]
fn trailing_bytes_after_request_are_ignored() {
    let mut buf = Vec::new();
    write_string16(&mut buf, "q");
    put_u32(&mut buf, 7);
    buf.extend_from_slice(&[9, 9, 9]);
    let req = decode_consume_request(&buf).unwrap();
    assert_eq!(req.queue, "q");
    assert_eq!(req.initial_credits, 7);
}

#[test]
fn invalid_utf8_string_is_refused() {
    let buf = vec![0, 2, 0xC3, 0x28, 0, 0, 0, 1];
    let err = decode_consume_request(&buf).unwrap_err();
    match err {
        FibpError::InvalidPayload { reason } => assert!(reason.starts_with("invalid utf8: ")),
        other => panic!("expected InvalidPayload, got: {other:?}"),
    }
}

#[test]
fn payload_overrun_is_refused() {
    let mut buf = Vec::new();
    write_string16(&mut buf, "q");
    put_u16(&mut buf, 1);
    put_u8(&mut buf, 0);
    put_u32(&mut buf, 10);
    buf.extend_from_slice(b"abc");
    let err = decode_enqueue_request(&buf).unwrap_err();
    match err {
        FibpError::InvalidPayload { reason } => assert_eq!(reason, "payload length 10 exceeds remaining 3 bytes"),
        other => panic!("expected InvalidPayload, got: {other:?}"),
    }
}

#[test]
fn short_flow_payload_is_refused() {
    let err = decode_flow(&[0, 1]).unwrap_err();
    match err {
        FibpError::InvalidPayload { reason } => assert_eq!(reason, "unexpected end of payload reading u32"),
        other => panic!("expected InvalidPayload, got: {other:?}"),
    }
}

#[test]
fn ack_request_with_many_items_reads_all() {
    let mut buf = Vec::new();
    put_u16(&mut buf, 3);
    for i in 0..3 {
        write_string16(&mut buf, "q");
        write_string16(&mut buf, &format!("m{i}"));
    }
    let items = decode_ack_request(&buf).unwrap();
    let ids: Vec<&str> = items.iter().map(|a| a.msg_id.as_str()).collect();
    assert_eq!(ids, vec!["m0", "m1", "m2"]);
}

#[test]
fn empty_responses_hold_only_a_zero_count() {
    assert_eq!(encode_enqueue_response(&[]), vec![0, 0]);
    assert_eq!(encode_ack_nack_response(&[]), vec![0, 0]);
    assert_eq!(encode_consume_push(&[]), vec![0, 0]);
}

#[test]
fn string_overrun_reason_names_both_lengths() {
    match decode_consume_request(&[0, 5, b'a', b'b']) {
        Err(FibpError::InvalidPayload { reason }) => {
            assert_eq!(reason, "string length 5 exceeds remaining 2 bytes")
        }
        other => panic!("expected InvalidPayload, got {other:?}"),
    }
}
