use fila_core::cluster::apply::{
    apply_replicated, apply_to_state_machine, AckItemData, ClusterRequest, ClusterResponse, ReplicatedEntry,
};
use fila_core::cluster::replicate::{apply_ack, apply_nack, find_message_key, replicated_mutations};
use fila_core::message::Message;
use fila_core::queue::QueueConfig;
use fila_core::storage::in_memory::{InMemoryEngine, Mutation};
use fila_core::storage::keys::{lease_expiry_key, lease_key, lease_value, message_key};
use fila_core::storage::ordered::ByteMap;

fn message(id: [u8; 16]) -> Message {
    Message {
        id,
        queue_id: "q".to_string(),
        headers: vec![],
        payload: vec![],
        fairness_key: "default".to_string(),
        weight: 1,
        throttle_keys: vec![],
        attempt_count: 0,
        enqueued_at: 0,
        leased_at: None,
    }
}

#[test]
fn enqueue_reports_the_first_message_id() {
    let mut groups: ByteMap<Vec<u64>> = ByteMap::new();
    let entry = ReplicatedEntry::Normal(ClusterRequest::Enqueue {
        messages: vec![message([1; 16]), message([2; 16])],
        message: Some(message([3; 16])),
    });
    match apply_replicated(&mut groups, &entry) {
        ClusterResponse::Enqueue { msg_id } => assert_eq!(msg_id, [1; 16]),
        other => panic!("unexpected {other:?}"),
    }
    let legacy = ReplicatedEntry::Normal(ClusterRequest::Enqueue { messages: vec![], message: Some(message([3; 16])) });
    match apply_replicated(&mut groups, &legacy) {
        ClusterResponse::Enqueue { msg_id } => assert_eq!(msg_id, [3; 16]),
        other => panic!("unexpected {other:?}"),
    }
    let empty = ReplicatedEntry::Normal(ClusterRequest::Enqueue { messages: vec![], message: None });
    match apply_replicated(&mut groups, &empty) {
        ClusterResponse::Enqueue { msg_id } => assert_eq!(msg_id, [0; 16]),
        other => panic!("unexpected {other:?}"),
    }
}

#[test]
fn queue_groups_follow_create_and_delete() {
    let mut groups: ByteMap<Vec<u64>> = ByteMap::new();
    let entries = vec![
        ReplicatedEntry::Blank,
        ReplicatedEntry::Normal(ClusterRequest::CreateQueueGroup {
            queue_id: "orders".to_string(),
            members: vec![1, 2, 3],
            config: QueueConfig::new("orders".to_string()),
            preferred_leader: 2,
        }),
        ReplicatedEntry::Normal(ClusterRequest::Ack { items: vec![AckItemData { queue_id: "orders".to_string(), msg_id: [0; 16] }], queue_id: None, msg_id: None }),
        ReplicatedEntry::Normal(ClusterRequest::Redrive { dlq_queue_id: "dlq".to_string(), count: 5 }),
        ReplicatedEntry::Membership,
    ];
    let responses = apply_to_state_machine(&mut groups, &entries);
    assert!(matches!(responses[0], ClusterResponse::Ack));
    assert!(matches!(&responses[1], ClusterResponse::CreateQueueGroup { queue_id } if queue_id == "orders"));
    assert!(matches!(responses[2], ClusterResponse::Ack));
    assert!(matches!(responses[3], ClusterResponse::Redrive { count: 0 }));
    assert!(matches!(responses[4], ClusterResponse::Ack));
    assert_eq!(groups.get(b"orders"), Some(&vec![1, 2, 3]));
    let del = ReplicatedEntry::Normal(ClusterRequest::DeleteQueueGroup { queue_id: "orders".to_string() });
    assert!(matches!(apply_replicated(&mut groups, &del), ClusterResponse::DeleteQueueGroup));
    assert_eq!(groups.get(b"orders"), None);
}

#[test]
fn ack_deletes_message_index_and_lease_once() {
    let mut engine = InMemoryEngine::new();
    let id = [9u8; 16];
    engine.put_message(b"msg-key", b"encoded").unwrap();
    engine.put_msg_index(b"idx-key", b"msg-key").unwrap();
    let lk = lease_key("q", &id);
    engine.put_lease(&lk, &lease_value("consumer", 500)).unwrap();
    let ek = lease_expiry_key(500, "q", &id);
    engine.apply_mutations(vec![fila_core::storage::in_memory::Mutation::PutLeaseExpiry { key: ek.clone() }]).unwrap();

    assert_eq!(find_message_key(&engine, b"idx-key", &id, &[]), Some(b"msg-key".to_vec()));
    apply_ack(&mut engine, "q", &id, b"idx-key", &[]);
    assert_eq!(engine.get_message(b"msg-key").unwrap(), None);
    assert_eq!(engine.get_msg_index(b"idx-key").unwrap(), None);
    assert_eq!(engine.get_lease(&lk).unwrap(), None);
    assert!(engine.list_expired_leases(&ek).unwrap().is_empty());

    // a repeated ack finds nothing and changes nothing
    engine.put_message(b"other", b"x").unwrap();
    assert_eq!(find_message_key(&engine, b"idx-key", &id, &[]), None);
    apply_ack(&mut engine, "q", &id, b"idx-key", &[]);
    assert_eq!(engine.get_message(b"other").unwrap(), Some(b"x".to_vec()));
}

#[test]
fn ack_without_index_falls_back_to_the_scan() {
    let mut engine = InMemoryEngine::new();
    let id = [4u8; 16];
    engine.put_message(b"k1", b"a").unwrap();
    engine.put_message(b"k2", b"b").unwrap();
    let scanned = vec![(b"k1".to_vec(), [1u8; 16]), (b"k2".to_vec(), id)];
    assert_eq!(find_message_key(&engine, b"missing-idx", &id, &scanned), Some(b"k2".to_vec()));
    apply_ack(&mut engine, "q", &id, b"missing-idx", &scanned);
    assert_eq!(engine.get_message(b"k1").unwrap(), Some(b"a".to_vec()));
    assert_eq!(engine.get_message(b"k2").unwrap(), None);
}

#[test]
fn nack_stores_the_update_and_drops_the_lease() {
    let mut engine = InMemoryEngine::new();
    let id = [5u8; 16];
    engine.put_message(b"k", b"attempt-0").unwrap();
    let lk = lease_key("q", &id);
    engine.put_lease(&lk, &lease_value("c", 77)).unwrap();
    apply_nack(&mut engine, "q", &id, b"k".to_vec(), b"attempt-1".to_vec());
    assert_eq!(engine.get_message(b"k").unwrap(), Some(b"attempt-1".to_vec()));
    assert_eq!(engine.get_lease(&lk).unwrap(), None);
}

#[test]
fn enqueue_stores_each_message_and_its_index() {
    let req = ClusterRequest::Enqueue { messages: vec![message([1; 16]), message([2; 16])], message: None };
    let idx = vec![b"i1".to_vec(), b"i2".to_vec()];
    let enc = vec![b"m1".to_vec(), b"m2".to_vec()];
    let out = replicated_mutations(None, &req, &idx, &enc);
    let k1 = message_key("q", "default", 0, &[1; 16]);
    let k2 = message_key("q", "default", 0, &[2; 16]);
    assert_eq!(out.len(), 4);
    assert!(matches!(&out[0], Mutation::PutMessage { key, value } if *key == k1 && value == b"m1"));
    assert!(matches!(&out[1], Mutation::PutMsgIndex { key, value } if key == b"i1" && *value == k1));
    assert!(matches!(&out[2], Mutation::PutMessage { key, value } if *key == k2 && value == b"m2"));
    assert!(matches!(&out[3], Mutation::PutMsgIndex { key, value } if key == b"i2" && *value == k2));

    let own = replicated_mutations(Some("other"), &req, &idx, &enc);
    let o1 = message_key("other", "default", 0, &[1; 16]);
    assert!(matches!(&own[0], Mutation::PutMessage { key, .. } if *key == o1));

    let legacy = ClusterRequest::Enqueue { messages: vec![], message: Some(message([3; 16])) };
    let one = replicated_mutations(None, &legacy, &vec![b"i3".to_vec()], &vec![b"m3".to_vec()]);
    assert_eq!(one.len(), 2);

    let ack = ClusterRequest::Ack { items: vec![], queue_id: None, msg_id: None };
    assert!(replicated_mutations(None, &ack, &vec![], &vec![]).is_empty());
}
