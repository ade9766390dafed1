use fila_core::storage::keys::{
    extract_queue_id, lease_expiry_key, lease_key, lease_value, message_key, message_prefix,
    message_prefix_with_key, parse_expiry_from_lease_value, parse_lease_expiry_key,
};
use uuid::Uuid;

fn be(v: u64) -> [u8; 8] {
    v.to_be_bytes()
}

#[test]
fn big_endian_u64_lexicographic_order() {
    let small = be(100);
    let large = be(200);
    assert!(small < large, "100 should sort before 200 in big-endian");

    let zero = be(0);
    let max = be(u64::MAX);
    assert!(zero < max, "0 should sort before MAX");

    let a = be(1_000_000_000);
    let b = be(1_000_000_001);
    assert!(a < b, "adjacent values should sort correctly");

    // The timestamp field of a lease-expiry key is exactly this encoding.
    let id = Uuid::now_v7();
    let k = lease_expiry_key(100, "q", id.as_bytes());
    assert_eq!(&k[..8], &small[..]);
}

#[test]
fn message_keys_sort_by_queue_then_key_then_time() {
    let id1 = Uuid::now_v7();
    let id2 = Uuid::now_v7();

    let k1 = message_key("q1", "tenant_a", 1000, id1.as_bytes());
    let k2 = message_key("q1", "tenant_a", 2000, id2.as_bytes());
    assert!(k1 < k2, "earlier timestamp should sort first");

    let ka = message_key("q1", "a", 1000, id1.as_bytes());
    let kb = message_key("q1", "b", 1000, id1.as_bytes());
    assert!(ka < kb, "fairness key 'a' should sort before 'b'");

    let kq1 = message_key("q1", "a", 1000, id1.as_bytes());
    let kq2 = message_key("q2", "a", 1000, id1.as_bytes());
    assert!(kq1 < kq2, "queue 'q1' should sort before 'q2'");
}

#[test]
fn lease_expiry_keys_sort_by_timestamp() {
    let id = Uuid::now_v7();
    let early = lease_expiry_key(1000, "q1", id.as_bytes());
    let late = lease_expiry_key(2000, "q1", id.as_bytes());
    assert!(early < late, "earlier expiry should sort first");
}

#[test]
fn message_prefix_is_prefix_of_message_key() {
    let id = Uuid::now_v7();
    let key = message_key("my-queue", "tenant_a", 12345, id.as_bytes());
    let prefix = message_prefix("my-queue");
    assert!(key.starts_with(&prefix), "message key should start with queue prefix");
}

#[test]
fn message_prefix_with_key_is_prefix_of_message_key() {
    let id = Uuid::now_v7();
    let key = message_key("my-queue", "tenant_a", 12345, id.as_bytes());
    let prefix = message_prefix_with_key("my-queue", "tenant_a");
    assert!(key.starts_with(&prefix), "message key should start with queue+fairness prefix");
}

#[test]
fn different_length_strings_dont_collide() {
    let id = Uuid::now_v7();
    let k1 = message_key("q", "a", 1000, id.as_bytes());
    let k2 = message_key("q", "ab", 1000, id.as_bytes());
    assert_ne!(k1, k2);
}

#[test]
fn extract_queue_id_roundtrip() {
    let id = Uuid::now_v7();
    let key = message_key("my-queue", "fk", 1000, id.as_bytes());
    assert_eq!(extract_queue_id(&key), Some("my-queue".to_string()));
}

#[test]
fn extract_queue_id_rejects_corrupt_input() {
    assert!(extract_queue_id(&[]).is_none());
    assert!(extract_queue_id(&[0]).is_none());
    // Length prefix says 5 bytes but only 1 byte available
    assert!(extract_queue_id(&[0, 5, b'a']).is_none());
}

#[test]
fn parse_lease_expiry_key_roundtrip() {
    let id = Uuid::now_v7();
    let key = lease_expiry_key(42_000_000_000, "my-queue", id.as_bytes());
    let (queue_id, msg_id) = parse_lease_expiry_key(&key).expect("should parse valid key");
    assert_eq!(queue_id, "my-queue");
    assert_eq!(Uuid::from_bytes(msg_id), id);
}

#[test]
fn parse_lease_expiry_key_rejects_corrupt_input() {
    assert!(parse_lease_expiry_key(&[0; 10]).is_none());

    let mut bad = vec![0u8; 28];
    bad[9] = 0x00;
    bad[10] = 0xFF;
    assert!(parse_lease_expiry_key(&bad).is_none());

    assert!(parse_lease_expiry_key(&[]).is_none());
}

#[test]
fn message_key_exact_layout() {
    let id = [7u8; 16];
    let key = message_key("ab", "c", 0x0102030405060708, &id);
    let mut expected = vec![0, 2, b'a', b'b', b':', 0, 1, b'c', b':', 1, 2, 3, 4, 5, 6, 7, 8, b':'];
    expected.extend_from_slice(&id);
    assert_eq!(key, expected);
}

#[test]
fn lease_key_exact_layout() {
    let id = [9u8; 16];
    let key = lease_key("q", &id);
    let mut expected = vec![0, 1, b'q', b':'];
    expected.extend_from_slice(&id);
    assert_eq!(key, expected);
}

#[test]
fn lease_value_expiry_roundtrip() {
    let val = lease_value("consumer-1", 5_000_000_000);
    assert_eq!(parse_expiry_from_lease_value(&val), Some(5_000_000_000));
    let empty_consumer = lease_value("", u64::MAX);
    assert_eq!(empty_consumer.len(), 11);
    assert_eq!(parse_expiry_from_lease_value(&empty_consumer), Some(u64::MAX));
}

#[test]
fn parse_expiry_rejects_corrupt_values() {
    assert_eq!(parse_expiry_from_lease_value(&[0; 10]), None);
    let mut val = lease_value("c", 7);
    val[3] = b'x';
    assert_eq!(parse_expiry_from_lease_value(&val), None);
    let mut long = lease_value("c", 7);
    long.push(0);
    assert_eq!(parse_expiry_from_lease_value(&long), None);
}

#[test]
fn extract_queue_id_rejects_invalid_utf8() {
    assert!(extract_queue_id(&[0, 1, 0xFF, b':']).is_none());
}

#[test]
fn message_keys_preserve_timestamp_ordering() {
    let id1 = Uuid::from_bytes([0xFF; 16]);
    let id2 = Uuid::from_bytes([0; 16]);
    let k1 = message_key("q", "f", 5, id1.as_bytes());
    let k2 = message_key("q", "f", 6, id2.as_bytes());
    assert!(k1 < k2);
}
