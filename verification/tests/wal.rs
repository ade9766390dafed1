use fila_core::storage::fila::wal::{
    deserialize_entry, encode_record, read_one_entry, replay_segment, segment_header,
    serialize_entry, validate_segment_header, EntryError, OpTag, WalEntry, WalOp,
};

fn op(tag: OpTag, key: &[u8], value: Option<&[u8]>) -> WalOp {
    WalOp {
        tag,
        key: key.to_vec(),
        value: value.map(|v| v.to_vec()),
    }
}

#[test]
fn serialization_roundtrip_all_op_types() {
    let entry = WalEntry {
        ops: vec![
            op(OpTag::PutMessage, b"k1", Some(b"v1")),
            op(OpTag::DeleteMessage, b"k2", None),
            op(OpTag::PutLease, b"k3", Some(b"v3")),
            op(OpTag::DeleteLease, b"k4", None),
            op(OpTag::PutLeaseExpiry, b"k5", None),
            op(OpTag::DeleteLeaseExpiry, b"k6", None),
            op(OpTag::PutQueue, b"k7", Some(b"v7")),
            op(OpTag::DeleteQueue, b"k8", None),
            op(OpTag::PutState, b"k9", Some(b"v9")),
            op(OpTag::DeleteState, b"k10", None),
        ],
    };

    let serialized = serialize_entry(&entry);
    let deserialized = deserialize_entry(&serialized).unwrap();
    assert_eq!(deserialized, entry);
}

#[test]
fn serialized_entry_exact_bytes() {
    let entry = WalEntry {
        ops: vec![op(OpTag::PutLease, b"k", Some(b"vv")), op(OpTag::DeleteState, b"", None)],
    };
    let bytes = serialize_entry(&entry);
    assert_eq!(
        bytes,
        vec![2, 0, 0, 0, 0x03, 1, 0, 0, 0, b'k', 2, 0, 0, 0, b'v', b'v', 0x0A, 0, 0, 0, 0]
    );
}

#[test]
fn deserialize_rejects_bad_input() {
    assert!(deserialize_entry(&[1, 0, 0]).is_none());
    // unknown tag
    assert!(deserialize_entry(&[1, 0, 0, 0, 0x0B, 0, 0, 0, 0]).is_none());
    // key length past the end
    assert!(deserialize_entry(&[1, 0, 0, 0, 0x02, 5, 0, 0, 0, b'a']).is_none());
    // zero ops, trailing bytes ignored
    assert_eq!(deserialize_entry(&[0, 0, 0, 0, 9, 9]).unwrap().ops.len(), 0);
}

fn segment_with(entries: &[WalEntry]) -> Vec<u8> {
    let mut seg = segment_header(123);
    for e in entries {
        seg.extend_from_slice(&encode_record(e));
    }
    seg
}

fn put(i: usize) -> WalEntry {
    WalEntry {
        ops: vec![op(
            OpTag::PutMessage,
            format!("key-{i}").as_bytes(),
            Some(format!("value-{i}").as_bytes()),
        )],
    }
}

#[test]
fn wal_append_and_replay_roundtrip() {
    let entries: Vec<WalEntry> = (0..10).map(put).collect();
    let seg = segment_with(&entries);
    let replayed = replay_segment(&seg);
    assert_eq!(replayed.len(), 10);
    assert_eq!(replayed, entries);
}

#[test]
fn crash_recovery_truncated_last_entry() {
    let entries: Vec<WalEntry> = (0..5).map(put).collect();
    let mut seg = segment_with(&entries);
    seg.truncate(seg.len() - 5);
    assert_eq!(replay_segment(&seg).len(), 4);
}

#[test]
fn crc_integrity_corrupt_byte() {
    let entries: Vec<WalEntry> = (0..3).map(put).collect();
    let mut seg = segment_with(&entries);
    let n = seg.len();
    seg[n - 3] ^= 0xFF;
    assert_eq!(replay_segment(&seg).len(), 2, "corrupted entry should be skipped");
}

#[test]
fn batch_atomicity() {
    let batch = WalEntry {
        ops: vec![
            op(OpTag::PutMessage, b"key-1", Some(b"val-1")),
            op(OpTag::DeleteMessage, b"key-2", None),
            op(OpTag::PutLease, b"lease-1", Some(b"consumer-1:12345")),
        ],
    };
    let seg = segment_with(&[batch.clone()]);
    let replayed = replay_segment(&seg);
    assert_eq!(replayed.len(), 1);
    assert_eq!(replayed[0], batch);
    assert_eq!(replayed[0].ops.len(), 3);
}

#[test]
fn header_checks() {
    let h = segment_header(0x1122334455667788);
    assert_eq!(h.len(), 32);
    assert_eq!(&h[0..4], b"FILA");
    assert_eq!(&h[4..6], &[1, 0]);
    assert_eq!(&h[6..14], &0x1122334455667788u64.to_le_bytes());
    assert!(validate_segment_header(&h));
    let mut bad = h.clone();
    bad[4] = 2;
    assert!(!validate_segment_header(&bad));
    assert!(!validate_segment_header(&h[..31]));
    assert!(replay_segment(&bad).is_empty());
}

#[test]
fn read_one_entry_outcomes() {
    let e = put(1);
    let rec = encode_record(&e);
    assert_eq!(read_one_entry(&rec, 0), Ok(Some((e.clone(), rec.len()))));
    assert_eq!(read_one_entry(&rec[..3], 0), Ok(None));
    assert_eq!(read_one_entry(&rec[..6], 0), Err(EntryError::Truncated));
    assert_eq!(read_one_entry(&rec[..rec.len() - 1], 0), Err(EntryError::Truncated));
    let mut huge = rec.clone();
    huge[3] = 0x20; // claims more than 256 MiB
    assert_eq!(read_one_entry(&huge, 0), Err(EntryError::CrcMismatch));
    let mut bad_crc = rec.clone();
    bad_crc[4] ^= 1;
    assert_eq!(read_one_entry(&bad_crc, 0), Err(EntryError::CrcMismatch));
    // record checksum is crc32 of the payload
    let payload = serialize_entry(&e);
    assert_eq!(&rec[4..8], &crc32fast::hash(&payload).to_le_bytes());
}

#[test]
fn empty_segment_replays_nothing() {
    assert!(replay_segment(&segment_header(1)).is_empty());
    assert!(replay_segment(&[]).is_empty());
}

#[test]
fn replay_across_segments_keeps_append_order() {
    use_segments();
}

fn use_segments() {
    let e = |k: &[u8]| WalEntry { ops: vec![op(OpTag::PutState, k, Some(b"v"))] };
    let first = fila_core::storage::fila::wal::encode_segment(1, &vec![e(b"a"), e(b"b")]);
    let second = fila_core::storage::fila::wal::encode_segment(2, &vec![]);
    let third = fila_core::storage::fila::wal::encode_segment(3, &vec![e(b"c")]);
    let replayed = fila_core::storage::fila::wal::replay_segments(&vec![first.clone(), second, third.clone()]);
    assert_eq!(replayed, vec![e(b"a"), e(b"b"), e(b"c")]);
    // a damaged segment loses only its own tail
    let mut torn = first.clone();
    torn.truncate(torn.len() - 3);
    let replayed = fila_core::storage::fila::wal::replay_segments(&vec![torn, third]);
    assert_eq!(replayed, vec![e(b"a"), e(b"c")]);
    assert!(fila_core::storage::fila::wal::replay_segments(&vec![]).is_empty());
}

fn reflected_crc32(data: &[u8]) -> u32 {
    let mut c: u32 = 0xFFFF_FFFF;
    for &b in data {
        c ^= b as u32;
        for _ in 0..8 {
            c = if c & 1 == 1 { (c >> 1) ^ 0xEDB8_8320 } else { c >> 1 };
        }
    }
    c ^ 0xFFFF_FFFF
}

#[test]
fn record_checksum_is_the_ieee_crc32_of_the_payload() {
    assert_eq!(reflected_crc32(b"123456789"), 0xCBF4_3926);
    let entry = WalEntry { ops: vec![op(OpTag::PutState, b"123456789", Some(b"value"))] };
    let payload = serialize_entry(&entry);
    let record = encode_record(&entry);
    assert_eq!(&record[4..8], &reflected_crc32(&payload).to_le_bytes());
}

#[test]
fn flipped_payload_byte_drops_the_last_record() {
    let e = |k: &[u8]| WalEntry { ops: vec![op(OpTag::PutState, k, Some(b"value"))] };
    let seg = fila_core::storage::fila::wal::encode_segment(5, &vec![e(b"a"), e(b"b")]);
    let last_len = encode_record(&e(b"b")).len();
    for off in 8..last_len {
        let mut damaged = seg.clone();
        let at = seg.len() - last_len + off;
        damaged[at] ^= 0x01;
        assert_eq!(replay_segment(&damaged), vec![e(b"a")], "byte {off} of the record");
    }
}
