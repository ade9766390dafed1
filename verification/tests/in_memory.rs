use fila_core::storage::in_memory::{InMemoryEngine, Mutation};

#[test]
fn apply_mutations_works() {
    let mut engine = InMemoryEngine::new();
    let mutations = vec![
        Mutation::PutMessage { key: b"msg-1".to_vec(), value: b"encoded".to_vec() },
        Mutation::PutLease { key: b"lease-1".to_vec(), value: b"lease-val".to_vec() },
        Mutation::PutMsgIndex { key: b"idx-1".to_vec(), value: b"msg-1".to_vec() },
    ];
    engine.apply_mutations(mutations).unwrap();

    assert!(engine.get_message(b"msg-1").unwrap().is_some());
    assert!(engine.get_lease(b"lease-1").unwrap().is_some());
    assert!(engine.get_msg_index(b"idx-1").unwrap().is_some());
}

#[test]
fn in_memory_message_put_get_delete() {
    let mut engine = InMemoryEngine::new();
    engine.put_message(b"test-key", b"payload").unwrap();
    assert_eq!(engine.get_message(b"test-key").unwrap(), Some(b"payload".to_vec()));
    engine.delete_message(b"test-key").unwrap();
    assert!(engine.get_message(b"test-key").unwrap().is_none());
}

#[test]
fn queue_config_roundtrip() {
    let mut engine = InMemoryEngine::new();
    engine.put_queue("test", b"config-bytes").unwrap();
    assert_eq!(engine.get_queue("test").unwrap(), Some(b"config-bytes".to_vec()));
    engine.put_queue("a", b"first").unwrap();
    assert_eq!(engine.list_queues().unwrap(), vec![b"first".to_vec(), b"config-bytes".to_vec()]);
    engine.delete_queue("test").unwrap();
    assert!(engine.get_queue("test").unwrap().is_none());
}

#[test]
fn list_messages_by_prefix_in_key_order() {
    let mut engine = InMemoryEngine::new();
    engine.put_message(b"q1:b", b"2").unwrap();
    engine.put_message(b"q2:a", b"3").unwrap();
    engine.put_message(b"q1:a", b"1").unwrap();
    let listed = engine.list_messages(b"q1:").unwrap();
    assert_eq!(listed, vec![(b"q1:a".to_vec(), b"1".to_vec()), (b"q1:b".to_vec(), b"2".to_vec())]);
    assert_eq!(engine.list_messages(b"q2:").unwrap().len(), 1);
    assert_eq!(engine.list_messages(b"").unwrap().len(), 3);
}

#[test]
fn list_expired_leases_up_to_bound() {
    let mut engine = InMemoryEngine::new();
    let k = |v: u64| v.to_be_bytes().to_vec();
    engine
        .apply_mutations(vec![
            Mutation::PutLeaseExpiry { key: k(300) },
            Mutation::PutLeaseExpiry { key: k(100) },
            Mutation::PutLeaseExpiry { key: k(200) },
        ])
        .unwrap();
    assert_eq!(engine.list_expired_leases(&k(200)).unwrap(), vec![k(100), k(200)]);
    assert_eq!(engine.list_expired_leases(&k(300)).unwrap().len(), 3);
    engine.apply_mutations(vec![Mutation::DeleteLeaseExpiry { key: k(100) }]).unwrap();
    assert_eq!(engine.list_expired_leases(&k(300)).unwrap(), vec![k(200), k(300)]);
}

#[test]
fn in_memory_list_state_by_prefix_with_limit() {
    let mut engine = InMemoryEngine::new();
    engine.put_state("throttle.key1", b"v1").unwrap();
    engine.put_state("throttle.key2", b"v2").unwrap();
    engine.put_state("throttle.key3", b"v3").unwrap();
    engine.put_state("other.key", b"v4").unwrap();
    assert_eq!(engine.list_state_by_prefix("throttle.", usize::MAX).unwrap().len(), 3);
    let limited = engine.list_state_by_prefix("throttle.", 2).unwrap();
    assert_eq!(limited.len(), 2);
    assert_eq!(limited[0].0, b"throttle.key1".to_vec());
    assert_eq!(engine.list_state_by_prefix("other.", usize::MAX).unwrap().len(), 1);
    // a zero limit lists nothing
    assert!(engine.list_state_by_prefix("throttle.", 0).unwrap().is_empty());
    assert!(engine.list_state_by_prefix("none.", 5).unwrap().is_empty());
}

#[test]
fn state_and_queue_mutations_use_string_keys() {
    let mut engine = InMemoryEngine::new();
    engine
        .apply_mutations(vec![
            Mutation::PutState { key: b"config.x".to_vec(), value: b"42".to_vec() },
            Mutation::PutQueue { key: b"q".to_vec(), value: b"cfg".to_vec() },
        ])
        .unwrap();
    assert_eq!(engine.get_state("config.x").unwrap(), Some(b"42".to_vec()));
    assert_eq!(engine.get_queue("q").unwrap(), Some(b"cfg".to_vec()));
    engine
        .apply_mutations(vec![
            Mutation::DeleteState { key: b"config.x".to_vec() },
            Mutation::DeleteQueue { key: b"q".to_vec() },
        ])
        .unwrap();
    assert!(engine.get_state("config.x").unwrap().is_none());
    assert!(engine.get_queue("q").unwrap().is_none());
    // invalid UTF-8 keys are stored under their lossy conversion
    engine
        .apply_mutations(vec![Mutation::PutState { key: vec![b'a', 0xFF], value: b"v".to_vec() }])
        .unwrap();
    assert_eq!(engine.get_state("a\u{FFFD}").unwrap(), Some(b"v".to_vec()));
}

#[test]
fn later_mutations_win() {
    let mut engine = InMemoryEngine::new();
    engine
        .apply_mutations(vec![
            Mutation::PutLease { key: b"l".to_vec(), value: b"1".to_vec() },
            Mutation::DeleteLease { key: b"l".to_vec() },
            Mutation::PutLease { key: b"l".to_vec(), value: b"2".to_vec() },
        ])
        .unwrap();
    assert_eq!(engine.get_lease(b"l").unwrap(), Some(b"2".to_vec()));
    assert!(engine.flush().is_ok());
}
