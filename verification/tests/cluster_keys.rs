use fila_core::cluster::keys::KeyBuilder;

fn group_prefix(id: &str) -> Vec<u8> {
    let mut p = b"q:".to_vec();
    p.extend_from_slice(&(id.len() as u64).to_be_bytes());
    p.extend_from_slice(id.as_bytes());
    p.push(b':');
    p
}

fn with(prefix: &[u8], suffix: &[u8]) -> Vec<u8> {
    let mut k = prefix.to_vec();
    k.extend_from_slice(suffix);
    k
}

#[test]
fn meta_group_keys_have_no_prefix() {
    let kb = KeyBuilder::meta();
    assert_eq!(kb.vote_key(), b"vote".to_vec());
    assert_eq!(kb.last_purged_key(), b"meta:last_purged".to_vec());
    assert_eq!(kb.log_prefix(), b"log:".to_vec());
    let mut expected = b"log:".to_vec();
    expected.extend_from_slice(&[0, 0, 0, 0, 0, 0, 1, 2]);
    assert_eq!(kb.log_key(258), expected);
}

#[test]
fn queue_group_keys_carry_the_queue_prefix() {
    let kb = KeyBuilder::for_queue("orders");
    let p = group_prefix("orders");
    assert_eq!(&p[..10], b"q:\0\0\0\0\0\0\0\x06");
    assert_eq!(kb.vote_key(), with(&p, b"vote"));
    assert_eq!(kb.last_purged_key(), with(&p, b"meta:last_purged"));
    assert_eq!(kb.log_prefix(), with(&p, b"log:"));
    let mut expected = with(&p, b"log:");
    expected.extend_from_slice(&u64::MAX.to_be_bytes());
    assert_eq!(kb.log_key(u64::MAX), expected);
}

#[test]
fn log_keys_sort_by_index() {
    let kb = KeyBuilder::for_queue("q1");
    let a = kb.log_key(9);
    let b = kb.log_key(10);
    let c = kb.log_key(1 << 40);
    assert!(a < b);
    assert!(b < c);
    assert!(a.starts_with(&kb.log_prefix()));
}

#[test]
fn different_queues_do_not_share_keys() {
    let a = KeyBuilder::for_queue("a");
    let b = KeyBuilder::for_queue("ab");
    assert_ne!(a.vote_key(), b.vote_key());
    assert!(!b.log_key(0).starts_with(&a.log_prefix()));
    assert_ne!(KeyBuilder::meta().vote_key(), a.vote_key());
}

#[test]
fn queue_ids_holding_colons_stay_isolated() {
    let a = KeyBuilder::for_queue("a");
    let b = KeyBuilder::for_queue("a:log");
    for i in [0u64, 1, 0x3a76_6f74_65, u64::MAX] {
        assert!(!b.log_key(i).starts_with(&a.log_prefix()));
        assert!(!a.log_key(i).starts_with(&b.log_prefix()));
        assert_ne!(a.log_key(i), b.vote_key());
    }
    assert_ne!(a.vote_key(), b.vote_key());
    assert_ne!(a.last_purged_key(), b.last_purged_key());
}
