use fila_core::fibp::codec::{FibpCodec, Frame, FLAG_STREAM, OP_ACK, OP_ENQUEUE, OP_ERROR, OP_GOAWAY, OP_HEARTBEAT};
use fila_core::fibp::error::FibpError;

/// Decode the frame at the front of `buf` and drop its bytes, as a framed
/// reader does.
fn decode_and_advance(codec: &mut FibpCodec, buf: &mut Vec<u8>) -> Result<Option<Frame>, FibpError> {
    match codec.decode(buf)? {
        Some((frame, used)) => {
            buf.drain(..used);
            Ok(Some(frame))
        }
        None => Ok(None),
    }
}

#[test]
fn round_trip_frame() {
    let mut codec = FibpCodec::new(16_777_216);
    let frame = Frame::new(0, OP_ENQUEUE, 42, b"hello".to_vec());

    let mut buf = Vec::new();
    codec.encode(frame.clone(), &mut buf).unwrap();
    let decoded = decode_and_advance(&mut codec, &mut buf).unwrap().unwrap();

    assert_eq!(decoded, frame);
}

#[test]
fn round_trip_empty_payload() {
    let mut codec = FibpCodec::new(16_777_216);
    let frame = Frame::new(FLAG_STREAM, OP_HEARTBEAT, 0, Vec::new());

    let mut buf = Vec::new();
    codec.encode(frame.clone(), &mut buf).unwrap();
    let decoded = decode_and_advance(&mut codec, &mut buf).unwrap().unwrap();

    assert_eq!(decoded, frame);
}

#[test]
fn round_trip_large_correlation_id() {
    let mut codec = FibpCodec::new(16_777_216);
    let frame = Frame::new(0, OP_ACK, u32::MAX, b"x".to_vec());

    let mut buf = Vec::new();
    codec.encode(frame.clone(), &mut buf).unwrap();
    let decoded = decode_and_advance(&mut codec, &mut buf).unwrap().unwrap();

    assert_eq!(decoded, frame);
}

#[test]
fn decode_partial_length() {
    let mut codec = FibpCodec::new(16_777_216);
    let mut buf = vec![0u8, 0];
    assert!(decode_and_advance(&mut codec, &mut buf).unwrap().is_none());
}

#[test]
fn decode_partial_body() {
    let mut codec = FibpCodec::new(16_777_216);
    let frame = Frame::new(0, OP_ENQUEUE, 1, b"data".to_vec());

    let mut full = Vec::new();
    codec.encode(frame, &mut full).unwrap();

    // Feed only the first half.
    let mut partial = full[..full.len() / 2].to_vec();
    assert!(decode_and_advance(&mut codec, &mut partial).unwrap().is_none());
}

#[test]
fn decode_oversized_frame() {
    let mut codec = FibpCodec::new(64);

    // Write a length prefix claiming 128 bytes.
    let mut buf = Vec::new();
    buf.extend_from_slice(&128u32.to_be_bytes());
    buf.extend_from_slice(&[0u8; 128]);

    let err = decode_and_advance(&mut codec, &mut buf).unwrap_err();
    assert!(
        matches!(err, FibpError::FrameTooLarge { size: 128, limit: 64 }),
        "expected FrameTooLarge, got: {err:?}"
    );
}

#[test]
fn encode_oversized_frame() {
    let mut codec = FibpCodec::new(8);
    let frame = Frame::new(0, OP_ENQUEUE, 1, vec![0u8; 100]);
    let mut buf = Vec::new();
    let err = codec.encode(frame, &mut buf).unwrap_err();
    assert!(matches!(err, FibpError::FrameTooLarge { .. }), "expected FrameTooLarge, got: {err:?}");
}

#[test]
fn multiple_frames_in_buffer() {
    let mut codec = FibpCodec::new(16_777_216);
    let f1 = Frame::new(0, OP_ENQUEUE, 1, b"one".to_vec());
    let f2 = Frame::new(0, OP_ACK, 2, b"two".to_vec());

    let mut buf = Vec::new();
    codec.encode(f1.clone(), &mut buf).unwrap();
    codec.encode(f2.clone(), &mut buf).unwrap();

    let d1 = decode_and_advance(&mut codec, &mut buf).unwrap().unwrap();
    let d2 = decode_and_advance(&mut codec, &mut buf).unwrap().unwrap();
    assert_eq!(d1, f1);
    assert_eq!(d2, f2);
    assert!(decode_and_advance(&mut codec, &mut buf).unwrap().is_none());
}

#[test]
fn error_frame_helper() {
    let f = Frame::error(99, "something went wrong");
    assert_eq!(f.op, OP_ERROR);
    assert_eq!(f.correlation_id, 99);
    assert_eq!(f.payload, b"something went wrong".to_vec());
}

#[test]
fn goaway_frame_helper() {
    let f = Frame::goaway("shutting down");
    assert_eq!(f.op, OP_GOAWAY);
    assert_eq!(f.correlation_id, 0);
    assert_eq!(f.payload, b"shutting down".to_vec());
}

#[test]
fn encoded_frame_has_exact_bytes() {
    let mut codec = FibpCodec::new(1024);
    let mut buf = vec![0xAA];
    codec.encode(Frame::new(0x04, 0x21, 0x0102_0304, b"hi".to_vec()), &mut buf).unwrap();
    assert_eq!(buf, vec![0xAA, 0, 0, 0, 8, 0x04, 0x21, 1, 2, 3, 4, b'h', b'i']);
}

#[test]
fn decode_reports_bytes_used() {
    let mut codec = FibpCodec::new(1024);
    let buf = vec![0, 0, 0, 7, 1, 2, 0, 0, 0, 9, b'z', 0xFF, 0xFF];
    let (frame, used) = codec.decode(&buf).unwrap().unwrap();
    assert_eq!(used, 11);
    assert_eq!(frame, Frame::new(1, 2, 9, b"z".to_vec()));
}

#[test]
fn decode_too_short_frame_is_refused() {
    let mut codec = FibpCodec::new(1024);
    let buf = vec![0, 0, 0, 5, 0, 0, 0, 0, 0];
    let err = codec.decode(&buf).unwrap_err();
    assert!(matches!(err, FibpError::FrameTooShort { size: 5, minimum: 6 }));
}

#[test]
fn encode_at_limit_is_accepted() {
    let mut codec = FibpCodec::new(8);
    let mut buf = Vec::new();
    codec.encode(Frame::new(0, OP_ENQUEUE, 1, vec![7u8; 2]), &mut buf).unwrap();
    assert_eq!(codec.max_frame_size(), 8);
    assert_eq!(buf.len(), 12);
    let mut buf2 = Vec::new();
    assert!(codec.encode(Frame::new(0, OP_ENQUEUE, 1, vec![7u8; 3]), &mut buf2).is_err());
    assert!(buf2.is_empty());
}
