use fila_core::fibp::wire::WireEnqueueMessage;
use fila_core::message::{message_from_wire, Message};
use uuid::Uuid;

#[test]
fn new_ids_are_time_ordered_v7_uuids() {
    let a = Message::new_id();
    let b = Message::new_id();
    assert_eq!(a[6] >> 4, 7);
    assert_eq!(a[8] >> 6, 2);
    assert_eq!(Uuid::from_bytes(a).get_version_num(), 7);
    assert_eq!(Uuid::from_bytes(b).get_version_num(), 7);
    assert_ne!(a, b);
}

#[test]
fn enqueued_messages_start_with_defaults() {
    let wire = WireEnqueueMessage {
        headers: vec![("tenant".to_string(), "acme".to_string())],
        payload: b"hello".to_vec(),
    };
    let id = [7u8; 16];
    let m = message_from_wire("orders", wire, id, 1_234);
    assert_eq!(m.id, id);
    assert_eq!(m.queue_id, "orders");
    assert_eq!(m.headers, vec![("tenant".to_string(), "acme".to_string())]);
    assert_eq!(m.payload, b"hello".to_vec());
    assert_eq!(m.fairness_key, "default");
    assert_eq!(m.weight, 1);
    assert!(m.throttle_keys.is_empty());
    assert_eq!(m.attempt_count, 0);
    assert_eq!(m.enqueued_at, 1_234);
    assert_eq!(m.leased_at, None);
}
