use fila_core::storage::fila::compaction::{plan_segment, ttl_nanos};
use fila_core::storage::fila::config::{FilaStorageConfig, SyncMode};
use fila_core::storage::fila::segments::{
    list_segments, parse_segment_seq, sealed_segments, OpenPlan, SegmentCursor,
};
use fila_core::storage::fila::wal::{
    encode_record, encode_segment, read_segment, replay_segment, replay_segments, segment_header, OpTag, WalEntry,
    WalOp,
};
use fila_core::storage::fila::{batch_op_to_wal_op, batch_to_entry, Indexes, LivenessSnapshot, WriteBatchOp};

/// A log kept in memory: segment files by name, the writer's position and
/// the indexes, driven the way the engine drives them.
struct MemLog {
    files: Vec<(String, Vec<u8>)>,
    cursor: SegmentCursor,
    idx: Indexes,
}

/// Values that stand for records whose decoder rejects them.
const UNDECODABLE: &[u8] = b"not-a-record";

fn decodes(entry: &WalEntry) -> Vec<bool> {
    entry.ops.iter().map(|op| op.value.as_deref() != Some(UNDECODABLE)).collect()
}

fn enqueued_at(entry: &WalEntry) -> Vec<Option<u64>> {
    entry
        .ops
        .iter()
        .map(|op| match (&op.tag, &op.value) {
            (OpTag::PutMessage, Some(v)) if v.len() >= 8 => {
                Some(u64::from_be_bytes([v[0], v[1], v[2], v[3], v[4], v[5], v[6], v[7]]))
            }
            _ => None,
        })
        .collect()
}

/// A message value whose first eight bytes are its enqueue time.
fn message_value(enqueued_at: u64, payload: &[u8]) -> Vec<u8> {
    let mut v = enqueued_at.to_be_bytes().to_vec();
    v.extend_from_slice(payload);
    v
}

impl MemLog {
    fn open_with(files: Vec<(String, Vec<u8>)>, segment_size: u64) -> MemLog {
        let mut files = files;
        let names: Vec<String> = files.iter().map(|(n, _)| n.clone()).collect();
        let order = list_segments(&names);
        let last = order.last().map(|&(seq, i)| (seq, files[i].1.len() as u64));
        let (cursor, plan) = SegmentCursor::open(last, SyncMode::EveryBatch, segment_size);
        if let OpenPlan::CreateFirst { file_name } = plan {
            files.push((file_name, segment_header(1)));
        }
        let names: Vec<String> = files.iter().map(|(n, _)| n.clone()).collect();
        let segments: Vec<Vec<u8>> = list_segments(&names).iter().map(|&(_, i)| files[i].1.clone()).collect();
        let entries = replay_segments(&segments);
        let flags: Vec<Vec<bool>> = entries.iter().map(decodes).collect();
        let idx = Indexes::from_replay(&entries, &flags);
        MemLog { files, cursor, idx }
    }

    fn open(segment_size: u64) -> MemLog {
        MemLog::open_with(Vec::new(), segment_size)
    }

    fn reopen(self) -> MemLog {
        let size = self.cursor.segment_size_bytes;
        MemLog::open_with(self.files, size)
    }

    fn active_file(&mut self) -> &mut Vec<u8> {
        let names: Vec<String> = self.files.iter().map(|(n, _)| n.clone()).collect();
        let (_, i) = *list_segments(&names).last().unwrap();
        &mut self.files[i].1
    }

    fn write_batch(&mut self, ops: Vec<WriteBatchOp>) {
        if let Some(entry) = batch_to_entry(ops) {
            let record = encode_record(&entry);
            self.active_file().extend_from_slice(&record);
            let plan = self.cursor.record_appended(record.len() as u64);
            assert!(plan.fsync);
            if let Some(name) = plan.rotate_to {
                self.files.push((name, segment_header(7)));
                self.cursor.rotated();
            }
            self.idx.apply_entry(&entry, &decodes(&entry));
        }
    }

    fn put_message(&mut self, key: &[u8], value: &[u8]) {
        self.write_batch(vec![WriteBatchOp::PutMessage { key: key.to_vec(), value: value.to_vec() }]);
    }

    fn delete_message(&mut self, key: &[u8]) {
        self.write_batch(vec![WriteBatchOp::DeleteMessage { key: key.to_vec() }]);
    }

    fn all_entries(&self) -> Vec<WalEntry> {
        let names: Vec<String> = self.files.iter().map(|(n, _)| n.clone()).collect();
        list_segments(&names).into_iter().flat_map(|(_, i)| replay_segment(&self.files[i].1)).collect()
    }

    /// One compaction pass; returns (segments compacted, bytes reclaimed).
    fn compact(&mut self, ttl_ms: Option<u64>, now_ns: u64) -> (u64, u64) {
        let names: Vec<String> = self.files.iter().map(|(n, _)| n.clone()).collect();
        let order = list_segments(&names);
        let sealed = sealed_segments(&order, self.cursor.current_seq());
        let ttl = ttl_nanos(ttl_ms);
        let mut compacted = 0;
        let mut reclaimed = 0;
        let mut removed = Vec::new();
        for (_, i) in sealed {
            let snapshot = LivenessSnapshot::from_indexes(&self.idx);
            let original = self.files[i].1.clone();
            let Some((entries, clean)) = read_segment(&original) else { continue };
            let times: Vec<Vec<Option<u64>>> = entries.iter().map(enqueued_at).collect();
            let plan = plan_segment(&snapshot, &entries, &times, clean, ttl, now_ns);
            if !plan.has_dead_entries {
                continue;
            }
            self.idx.remove_messages(&plan.expired_keys);
            compacted += 1;
            if plan.live_entries.is_empty() {
                removed.push(i);
                reclaimed += original.len() as u64;
            } else {
                let bytes = encode_segment(9, &plan.live_entries);
                reclaimed += (original.len() as u64).saturating_sub(bytes.len() as u64);
                self.files[i].1 = bytes;
            }
        }
        removed.sort_unstable_by(|a, b| b.cmp(a));
        for i in removed {
            self.files.remove(i);
        }
        (compacted, reclaimed)
    }
}

#[test]
fn fila_storage_implements_storage_trait() {
    let mut log = MemLog::open(64 * 1024 * 1024);
    log.put_message(b"msg-key-1", b"hello");
    log.write_batch(vec![WriteBatchOp::PutLease { key: b"lease-key-1".to_vec(), value: b"consumer:999".to_vec() }]);
    log.delete_message(b"msg-key-1");

    let entries = log.all_entries();
    assert_eq!(entries.len(), 3);
    assert_eq!(entries[0].ops[0].tag, OpTag::PutMessage);
    assert_eq!(entries[1].ops[0].tag, OpTag::PutLease);
    assert_eq!(entries[2].ops[0].tag, OpTag::DeleteMessage);
}

#[test]
fn fila_storage_write_batch_atomic() {
    let mut log = MemLog::open(64 * 1024 * 1024);
    log.write_batch(vec![
        WriteBatchOp::PutMessage { key: b"k1".to_vec(), value: b"v1".to_vec() },
        WriteBatchOp::DeleteLease { key: b"k2".to_vec() },
        WriteBatchOp::PutLeaseExpiry { key: b"k3".to_vec() },
    ]);
    let entries = log.all_entries();
    assert_eq!(entries.len(), 1);
    assert_eq!(entries[0].ops.len(), 3);
}

#[test]
fn fila_storage_empty_write_batch_is_noop() {
    let mut log = MemLog::open(64 * 1024 * 1024);
    log.write_batch(vec![]);
    assert!(log.all_entries().is_empty());
    assert!(batch_to_entry(vec![]).is_none());
}

#[test]
fn message_put_get_roundtrip() {
    let mut log = MemLog::open(64 * 1024 * 1024);
    log.put_message(b"msg-key-1", b"payload-data");
    assert_eq!(log.idx.get_message(b"msg-key-1"), Some(b"payload-data".to_vec()));
}

#[test]
fn mod_message_get_nonexistent_returns_none() {
    let log = MemLog::open(64 * 1024 * 1024);
    assert!(log.idx.get_message(b"no-such-key").is_none());
}

#[test]
fn message_delete_removes_from_index() {
    let mut log = MemLog::open(64 * 1024 * 1024);
    log.put_message(b"key-1", b"data");
    assert!(log.idx.get_message(b"key-1").is_some());
    log.delete_message(b"key-1");
    assert!(log.idx.get_message(b"key-1").is_none());
}

#[test]
fn list_messages_prefix_filtering() {
    let mut log = MemLog::open(64 * 1024 * 1024);
    log.put_message(b"q1:msg-1", b"a");
    log.put_message(b"q1:msg-2", b"b");
    log.put_message(b"q2:msg-1", b"c");

    let q1_msgs = log.idx.list_messages(b"q1:");
    assert_eq!(q1_msgs.len(), 2);
    assert_eq!(q1_msgs[0].0, b"q1:msg-1");
    assert_eq!(q1_msgs[1].0, b"q1:msg-2");

    let q2_msgs = log.idx.list_messages(b"q2:");
    assert_eq!(q2_msgs.len(), 1);
}

#[test]
fn list_messages_excludes_deleted() {
    let mut log = MemLog::open(64 * 1024 * 1024);
    log.put_message(b"q1:msg-1", b"a");
    log.put_message(b"q1:msg-2", b"b");
    log.delete_message(b"q1:msg-1");

    let msgs = log.idx.list_messages(b"q1:");
    assert_eq!(msgs.len(), 1);
    assert_eq!(msgs[0].0, b"q1:msg-2");
}

#[test]
fn list_messages_under_all_ff_prefix() {
    let mut log = MemLog::open(64 * 1024 * 1024);
    log.put_message(&[0xFF, 0x01], b"a");
    log.put_message(&[0xFE, 0x01], b"b");
    log.put_message(&[0xFF], b"c");
    let msgs = log.idx.list_messages(&[0xFF]);
    assert_eq!(msgs.len(), 2);
    assert_eq!(msgs[0].0, vec![0xFF]);
    assert_eq!(msgs[1].0, vec![0xFF, 0x01]);
}

#[test]
fn lease_put_get_delete_roundtrip() {
    let mut log = MemLog::open(64 * 1024 * 1024);
    log.write_batch(vec![WriteBatchOp::PutLease { key: b"lease-1".to_vec(), value: b"consumer-a:12345".to_vec() }]);
    assert_eq!(log.idx.get_lease(b"lease-1"), Some(b"consumer-a:12345".to_vec()));
    log.write_batch(vec![WriteBatchOp::DeleteLease { key: b"lease-1".to_vec() }]);
    assert!(log.idx.get_lease(b"lease-1").is_none());
}

#[test]
fn list_expired_leases_range_query() {
    let mut log = MemLog::open(64 * 1024 * 1024);
    let key1 = 100u64.to_be_bytes().to_vec();
    let key2 = 200u64.to_be_bytes().to_vec();
    let key3 = 300u64.to_be_bytes().to_vec();
    log.write_batch(vec![
        WriteBatchOp::PutLeaseExpiry { key: key1.clone() },
        WriteBatchOp::PutLeaseExpiry { key: key2.clone() },
        WriteBatchOp::PutLeaseExpiry { key: key3.clone() },
    ]);

    let expired = log.idx.list_expired_leases(&200u64.to_be_bytes());
    assert_eq!(expired.len(), 2);
    assert_eq!(expired[0], key1);
    assert_eq!(expired[1], key2);

    let all = log.idx.list_expired_leases(&300u64.to_be_bytes());
    assert_eq!(all.len(), 3);
}

#[test]
fn queue_put_get_delete_roundtrip() {
    let mut log = MemLog::open(64 * 1024 * 1024);
    log.write_batch(vec![WriteBatchOp::PutQueue { key: b"my-queue".to_vec(), value: b"{\"name\":\"my-queue\"}".to_vec() }]);
    assert_eq!(log.idx.get_queue("my-queue"), Some(b"{\"name\":\"my-queue\"}".to_vec()));
    log.write_batch(vec![WriteBatchOp::DeleteQueue { key: b"my-queue".to_vec() }]);
    assert!(log.idx.get_queue("my-queue").is_none());
}

#[test]
fn list_queues_returns_all() {
    let mut log = MemLog::open(64 * 1024 * 1024);
    log.write_batch(vec![WriteBatchOp::PutQueue { key: b"q2".to_vec(), value: b"two".to_vec() }]);
    log.write_batch(vec![WriteBatchOp::PutQueue { key: b"q1".to_vec(), value: b"one".to_vec() }]);
    let queues = log.idx.list_queues();
    assert_eq!(queues.len(), 2);
    assert!(queues.contains(&b"one".to_vec()));
    assert!(queues.contains(&b"two".to_vec()));
}

#[test]
fn undecodable_records_are_not_indexed() {
    let mut log = MemLog::open(64 * 1024 * 1024);
    log.put_message(b"m", b"ok");
    log.put_message(b"m", UNDECODABLE);
    assert_eq!(log.idx.get_message(b"m"), Some(b"ok".to_vec()));
    log.write_batch(vec![WriteBatchOp::PutQueue { key: b"q".to_vec(), value: UNDECODABLE.to_vec() }]);
    assert!(log.idx.get_queue("q").is_none());
}

#[test]
fn non_utf8_string_keys_file_under_empty_key() {
    let mut log = MemLog::open(64 * 1024 * 1024);
    log.write_batch(vec![WriteBatchOp::PutState { key: vec![0xC3, 0x28], value: b"x".to_vec() }]);
    assert_eq!(log.idx.get_state(""), Some(b"x".to_vec()));
    log.write_batch(vec![WriteBatchOp::DeleteState { key: vec![0xFF] }]);
    assert!(log.idx.get_state("").is_none());
}

#[test]
fn state_put_get_delete_roundtrip() {
    let mut log = MemLog::open(64 * 1024 * 1024);
    log.write_batch(vec![WriteBatchOp::PutState { key: b"config.key1".to_vec(), value: b"value1".to_vec() }]);
    assert_eq!(log.idx.get_state("config.key1"), Some(b"value1".to_vec()));
    log.write_batch(vec![WriteBatchOp::DeleteState { key: b"config.key1".to_vec() }]);
    assert!(log.idx.get_state("config.key1").is_none());
}

#[test]
fn list_state_by_prefix_with_limit() {
    let mut log = MemLog::open(64 * 1024 * 1024);
    for (k, v) in [("throttle.key1", "v1"), ("throttle.key2", "v2"), ("throttle.key3", "v3"), ("other.key", "v4")] {
        log.write_batch(vec![WriteBatchOp::PutState { key: k.as_bytes().to_vec(), value: v.as_bytes().to_vec() }]);
    }

    let all = log.idx.list_state_by_prefix("throttle.", usize::MAX);
    assert_eq!(all.len(), 3);
    assert_eq!(all[0].0, "throttle.key1");

    let limited = log.idx.list_state_by_prefix("throttle.", 2);
    assert_eq!(limited.len(), 2);

    let other = log.idx.list_state_by_prefix("other.", usize::MAX);
    assert_eq!(other.len(), 1);

    assert!(log.idx.list_state_by_prefix("throttle.", 0).is_empty());
}

#[test]
fn state_prefix_scan_without_string_bound_keeps_to_the_prefix() {
    let mut log = MemLog::open(64 * 1024 * 1024);
    for k in ["a\u{7f}1", "a\u{7f}2", "b"] {
        log.write_batch(vec![WriteBatchOp::PutState { key: k.as_bytes().to_vec(), value: b"v".to_vec() }]);
    }
    // The byte bound of "a\x7f" is "a\x80", which is not UTF-8; the scan
    // still lists only the keys with the prefix.
    let r = log.idx.list_state_by_prefix("a\u{7f}", usize::MAX);
    let keys: Vec<&str> = r.iter().map(|(k, _)| k.as_str()).collect();
    assert_eq!(keys, vec!["a\u{7f}1", "a\u{7f}2"]);
    assert_eq!(log.idx.list_state_by_prefix("a\u{7f}", 1).len(), 1);
}

#[test]
fn wal_replay_rebuilds_indexes() {
    let mut log = MemLog::open(64 * 1024 * 1024);
    log.put_message(b"msg-1", b"persistent");
    log.write_batch(vec![WriteBatchOp::PutLease { key: b"lease-1".to_vec(), value: b"consumer:1".to_vec() }]);
    log.write_batch(vec![WriteBatchOp::PutQueue { key: b"my-q".to_vec(), value: b"cfg".to_vec() }]);
    log.write_batch(vec![WriteBatchOp::PutState { key: b"config.x".to_vec(), value: b"42".to_vec() }]);

    let log = log.reopen();
    assert_eq!(log.idx.get_message(b"msg-1"), Some(b"persistent".to_vec()));
    assert_eq!(log.idx.get_lease(b"lease-1"), Some(b"consumer:1".to_vec()));
    assert!(log.idx.get_queue("my-q").is_some());
    assert_eq!(log.idx.get_state("config.x"), Some(b"42".to_vec()));
}

#[test]
fn wal_replay_applies_deletes() {
    let mut log = MemLog::open(64 * 1024 * 1024);
    log.put_message(b"msg-1", b"temp");
    log.delete_message(b"msg-1");
    let log = log.reopen();
    assert!(log.idx.get_message(b"msg-1").is_none());
}

#[test]
fn write_batch_updates_all_indexes() {
    let mut log = MemLog::open(64 * 1024 * 1024);
    log.write_batch(vec![
        WriteBatchOp::PutMessage { key: b"m1".to_vec(), value: b"batch-msg".to_vec() },
        WriteBatchOp::PutLease { key: b"l1".to_vec(), value: b"c1:999".to_vec() },
        WriteBatchOp::PutLeaseExpiry { key: b"e1".to_vec() },
    ]);
    assert!(log.idx.get_message(b"m1").is_some());
    assert!(log.idx.get_lease(b"l1").is_some());
    assert_eq!(log.idx.list_expired_leases(b"\xff\xff\xff\xff\xff\xff\xff\xff").len(), 1);
}

#[test]
fn overwrite_returns_latest_value() {
    let mut log = MemLog::open(64 * 1024 * 1024);
    log.put_message(b"same-key", b"version-1");
    log.put_message(b"same-key", b"version-2");
    assert_eq!(log.idx.get_message(b"same-key").unwrap(), b"version-2");
}

#[test]
fn compaction_removes_dead_entries() {
    let mut log = MemLog::open(200);
    for i in 0..20 {
        log.put_message(format!("q1:msg-{i:04}").as_bytes(), &message_value(1, format!("payload-{i}").as_bytes()));
    }
    for i in 0..15 {
        log.delete_message(format!("q1:msg-{i:04}").as_bytes());
    }
    let names: Vec<String> = log.files.iter().map(|(n, _)| n.clone()).collect();
    let sealed = sealed_segments(&list_segments(&names), log.cursor.current_seq());
    assert!(!sealed.is_empty(), "need sealed segments for compaction test");

    let (segments_compacted, bytes_reclaimed) = log.compact(None, 10);
    assert!(segments_compacted > 0, "should have compacted segments");
    assert!(bytes_reclaimed > 0, "should have reclaimed bytes");

    for i in 15..20 {
        assert!(log.idx.get_message(format!("q1:msg-{i:04}").as_bytes()).is_some());
    }
    for i in 0..15 {
        assert!(log.idx.get_message(format!("q1:msg-{i:04}").as_bytes()).is_none());
    }
}

#[test]
fn compaction_preserves_live_entries_on_replay() {
    let mut log = MemLog::open(200);
    for i in 0..20 {
        log.put_message(format!("q1:msg-{i:04}").as_bytes(), &message_value(1, format!("data-{i}").as_bytes()));
    }
    for i in 0..5 {
        log.delete_message(format!("q1:msg-{i:04}").as_bytes());
    }
    log.compact(None, 10);
    let log = log.reopen();
    for i in 5..20 {
        assert!(log.idx.get_message(format!("q1:msg-{i:04}").as_bytes()).is_some());
    }
    for i in 0..5 {
        assert!(log.idx.get_message(format!("q1:msg-{i:04}").as_bytes()).is_none());
    }
}

#[test]
fn compaction_ttl_expiry_removes_old_messages() {
    let mut log = MemLog::open(200);
    let now_ns: u64 = 10_000_000_000_000;
    let one_hour_ago_ns = now_ns - 3_600_000_000_000;
    for i in 0..10 {
        log.put_message(format!("q1:old-{i:04}").as_bytes(), &message_value(one_hour_ago_ns, b"old"));
    }
    for i in 0..5 {
        log.put_message(format!("q1:new-{i:04}").as_bytes(), &message_value(now_ns, b"new"));
    }
    let (segments_compacted, _) = log.compact(Some(1_000), now_ns);
    if segments_compacted > 0 {
        for i in 0..10 {
            assert!(log.idx.get_message(format!("q1:old-{i:04}").as_bytes()).is_none());
        }
    }
    for i in 0..5 {
        assert!(log.idx.get_message(format!("q1:new-{i:04}").as_bytes()).is_some());
    }
}

#[test]
fn compaction_is_idempotent() {
    let mut log = MemLog::open(200);
    for i in 0..20 {
        log.put_message(format!("q1:msg-{i:04}").as_bytes(), &message_value(1, b"x"));
    }
    for i in 0..10 {
        log.delete_message(format!("q1:msg-{i:04}").as_bytes());
    }
    let (first, _) = log.compact(None, 10);
    assert!(first > 0);
    let (second, reclaimed) = log.compact(None, 10);
    assert_eq!(second, 0);
    assert_eq!(reclaimed, 0);
}

#[test]
fn compaction_empty_segment_is_deleted() {
    let mut log = MemLog::open(200);
    for i in 0..10 {
        log.put_message(format!("q1:msg-{i:04}").as_bytes(), &message_value(1, b"x"));
        log.delete_message(format!("q1:msg-{i:04}").as_bytes());
    }
    let before = log.files.len();
    log.compact(None, 10);
    assert!(log.files.len() < before);
}

#[test]
fn ttl_nanos_scales_milliseconds() {
    assert_eq!(ttl_nanos(Some(1_000)), Some(1_000_000_000));
    assert_eq!(ttl_nanos(None), None);
}

#[test]
fn segment_names_round_trip() {
    let names = ["segment-0000000001.wal", "segment-0000000042.wal", "segment-12345678901.wal"];
    assert_eq!(parse_segment_seq(names[0]), Some(1));
    assert_eq!(parse_segment_seq(names[1]), Some(42));
    assert_eq!(parse_segment_seq(names[2]), Some(12345678901));
    assert_eq!(parse_segment_seq("segment-+7.wal"), Some(7));
    assert_eq!(parse_segment_seq("segment-.wal"), None);
    assert_eq!(parse_segment_seq("segment-1x.wal"), None);
    assert_eq!(parse_segment_seq("segment-99999999999999999999.wal"), None);
    assert_eq!(parse_segment_seq("other-0000000001.wal"), None);
    assert_eq!(parse_segment_seq("segment-0000000001.tmp"), None);
}

#[test]
fn segments_are_ordered_by_number() {
    let names: Vec<String> =
        ["segment-0000000003.wal", "notes.txt", "segment-0000000001.wal", "segment-2.wal", "segment-0000000002.wal"]
            .iter()
            .map(|s| s.to_string())
            .collect();
    let order = list_segments(&names);
    assert_eq!(order, vec![(1, 2), (2, 3), (2, 4), (3, 0)]);
    assert_eq!(sealed_segments(&order, 2), vec![(1, 2), (3, 0)]);
}

#[test]
fn writer_rotates_when_segment_fills() {
    let (mut cursor, plan) = SegmentCursor::open(None, SyncMode::Interval(100), 100);
    match plan {
        OpenPlan::CreateFirst { file_name } => assert_eq!(file_name, "segment-0000000001.wal"),
        OpenPlan::Reopen => panic!("expected a new first segment"),
    }
    assert_eq!(cursor.current_size, 32);
    let p = cursor.record_appended(40);
    assert!(!p.fsync);
    assert!(p.rotate_to.is_none());
    let p = cursor.record_appended(28);
    assert_eq!(p.rotate_to.as_deref(), Some("segment-0000000002.wal"));
    cursor.rotated();
    assert_eq!(cursor.current_seq(), 2);
    assert_eq!(cursor.current_size, 32);
}

#[test]
fn writer_reopens_existing_segment() {
    let (cursor, plan) = SegmentCursor::open(Some((5, 1234)), SyncMode::EveryBatch, 1 << 20);
    assert!(matches!(plan, OpenPlan::Reopen));
    assert_eq!(cursor.current_seq(), 5);
    assert_eq!(cursor.current_size, 1234);
}

#[test]
fn storage_config_defaults() {
    let c = FilaStorageConfig::new(std::path::PathBuf::from("/data/wal"));
    assert_eq!(c.segment_size_bytes, 64 * 1024 * 1024);
    assert!(matches!(c.sync_mode, SyncMode::EveryBatch));
    assert!(matches!(SyncMode::default(), SyncMode::EveryBatch));
}

#[test]
fn batch_ops_become_wal_ops() {
    let op = batch_op_to_wal_op(WriteBatchOp::PutState { key: b"k".to_vec(), value: b"v".to_vec() });
    assert_eq!(op, WalOp { tag: OpTag::PutState, key: b"k".to_vec(), value: Some(b"v".to_vec()) });
    let op = batch_op_to_wal_op(WriteBatchOp::DeleteQueue { key: b"q".to_vec() });
    assert_eq!(op, WalOp { tag: OpTag::DeleteQueue, key: b"q".to_vec(), value: None });
}

#[test]
fn torn_segment_counts_as_dead_for_compaction() {
    let mut bytes = segment_header(1);
    let entry = WalEntry { ops: vec![WalOp { tag: OpTag::PutLease, key: b"l".to_vec(), value: Some(b"v".to_vec()) }] };
    bytes.extend_from_slice(&encode_record(&entry));
    let full = read_segment(&bytes).unwrap();
    assert!(full.1);
    bytes.extend_from_slice(&[1, 0, 0]);
    bytes.push(0);
    bytes.extend_from_slice(&[9, 9, 9, 9]);
    let torn = read_segment(&bytes).unwrap();
    assert_eq!(torn.0.len(), 1);
    assert!(!torn.1);
    assert!(read_segment(&[0u8; 40]).is_none());
}
