//! Write-ahead-log record format.
//!
//! A segment file is a 32-byte header followed by records. Each record is
//! `len (u32 LE) | crc32(payload) (u32 LE) | payload`, and each payload is a
//! batch of operations:
//!   op_count (u32 LE) + for each op: tag(1) + key_len(u32 LE) + key +
//!   [value_len(u32 LE) + value] (only for Put variants that carry a value)
//!
//! The file handling itself lives with the caller; everything here works on
//! byte strings.

use vstd::prelude::*;
use crate::encoding::{
    append_bytes, le32, le64, le_bytes, le_value, lemma_le_bytes_len, lemma_le_value_of_bytes,
    lemma_pow256_small, push_le, read_le,
};

verus! {

/// WAL operation tag values. These identify the operation type in each WAL
/// entry and must remain stable across versions for replay compatibility.
#[derive(Debug, Clone, Copy, PartialEq, Eq, Structural)]
pub enum OpTag {
    PutMessage,
    DeleteMessage,
    PutLease,
    DeleteLease,
    PutLeaseExpiry,
    DeleteLeaseExpiry,
    PutQueue,
    DeleteQueue,
    PutState,
    DeleteState,
}

impl OpTag {
    /// The tag byte written to the log.
    pub open spec fn spec_byte(self) -> u8 {
        match self {
            OpTag::PutMessage => 0x01,
            OpTag::DeleteMessage => 0x02,
            OpTag::PutLease => 0x03,
            OpTag::DeleteLease => 0x04,
            OpTag::PutLeaseExpiry => 0x05,
            OpTag::DeleteLeaseExpiry => 0x06,
            OpTag::PutQueue => 0x07,
            OpTag::DeleteQueue => 0x08,
            OpTag::PutState => 0x09,
            OpTag::DeleteState => 0x0A,
        }
    }

    /// The tag a byte stands for.
    pub open spec fn spec_from_u8(v: u8) -> Option<OpTag> {
        if v == 0x01 {
            Some(OpTag::PutMessage)
        } else if v == 0x02 {
            Some(OpTag::DeleteMessage)
        } else if v == 0x03 {
            Some(OpTag::PutLease)
        } else if v == 0x04 {
            Some(OpTag::DeleteLease)
        } else if v == 0x05 {
            Some(OpTag::PutLeaseExpiry)
        } else if v == 0x06 {
            Some(OpTag::DeleteLeaseExpiry)
        } else if v == 0x07 {
            Some(OpTag::PutQueue)
        } else if v == 0x08 {
            Some(OpTag::DeleteQueue)
        } else if v == 0x09 {
            Some(OpTag::PutState)
        } else if v == 0x0A {
            Some(OpTag::DeleteState)
        } else {
            None
        }
    }

    /// Operations whose record carries a value.
    pub open spec fn spec_has_value(self) -> bool {
        self == OpTag::PutMessage || self == OpTag::PutLease || self == OpTag::PutQueue || self
            == OpTag::PutState
    }

    /// The tag byte written to the log.
    pub fn to_u8(self) -> (r: u8)
        ensures
            r == self.spec_byte(),
    {
        match self {
            OpTag::PutMessage => 0x01,
            OpTag::DeleteMessage => 0x02,
            OpTag::PutLease => 0x03,
            OpTag::DeleteLease => 0x04,
            OpTag::PutLeaseExpiry => 0x05,
            OpTag::DeleteLeaseExpiry => 0x06,
            OpTag::PutQueue => 0x07,
            OpTag::DeleteQueue => 0x08,
            OpTag::PutState => 0x09,
            OpTag::DeleteState => 0x0A,
        }
    }

    /// The tag a byte stands for, if any.
    pub fn from_u8(v: u8) -> (r: Option<Self>)
        ensures
            r == Self::spec_from_u8(v),
    {
        match v {
            0x01 => Some(Self::PutMessage),
            0x02 => Some(Self::DeleteMessage),
            0x03 => Some(Self::PutLease),
            0x04 => Some(Self::DeleteLease),
            0x05 => Some(Self::PutLeaseExpiry),
            0x06 => Some(Self::DeleteLeaseExpiry),
            0x07 => Some(Self::PutQueue),
            0x08 => Some(Self::DeleteQueue),
            0x09 => Some(Self::PutState),
            0x0A => Some(Self::DeleteState),
            _ => None,
        }
    }

    /// Whether the record of this operation carries a value.
    pub fn has_value(self) -> (r: bool)
        ensures
            r == self.spec_has_value(),
    {
        match self {
            OpTag::PutMessage | OpTag::PutLease | OpTag::PutQueue | OpTag::PutState => true,
            _ => false,
        }
    }
}

/// Every tag byte decodes back to its tag.
pub proof fn law_op_tag_byte_roundtrip(tag: OpTag)
    ensures
        OpTag::spec_from_u8(tag.spec_byte()) == Some(tag),
{
}

/// A single deserialized WAL operation.
#[derive(Debug, Clone, PartialEq, Eq)]
pub struct WalOp {
    pub tag: OpTag,
    pub key: Vec<u8>,
    pub value: Option<Vec<u8>>,
}

/// A WAL entry consisting of one or more operations (a batch).
#[derive(Debug, Clone, PartialEq, Eq)]
pub struct WalEntry {
    pub ops: Vec<WalOp>,
}

/// The mathematical content of a `WalOp`.
pub struct WalOpView {
    pub tag: OpTag,
    pub key: Seq<u8>,
    pub value: Option<Seq<u8>>,
}

pub open spec fn opt_bytes_view(v: Option<Vec<u8>>) -> Option<Seq<u8>> {
    match v {
        Some(b) => Some(b@),
        None => None,
    }
}

impl View for WalOp {
    type V = WalOpView;

    open spec fn view(&self) -> WalOpView {
        WalOpView { tag: self.tag, key: self.key@, value: opt_bytes_view(self.value) }
    }
}

impl View for WalEntry {
    type V = Seq<WalOpView>;

    open spec fn view(&self) -> Seq<WalOpView> {
        self.ops@.map_values(|op: WalOp| op@)
    }
}

/// An operation that replays to itself: it carries a value exactly when its
/// tag calls for one, and its lengths fit the 32-bit length fields.
pub open spec fn op_well_formed(op: WalOpView) -> bool {
    &&& op.key.len() <= u32::MAX
    &&& (op.value is Some <==> op.tag.spec_has_value())
    &&& (op.value matches Some(v) ==> v.len() <= u32::MAX)
}

pub open spec fn entry_well_formed(ops: Seq<WalOpView>) -> bool {
    &&& ops.len() <= u32::MAX
    &&& forall|i: int| 0 <= i < ops.len() ==> op_well_formed(#[trigger] ops[i])
}

/// The bytes of one operation.
pub open spec fn spec_serialize_op(op: WalOpView) -> Seq<u8> {
    seq![op.tag.spec_byte()] + le32(op.key.len() as u32) + op.key + match op.value {
        Some(v) => le32(v.len() as u32) + v,
        None => Seq::empty(),
    }
}

/// The bytes of a run of operations.
pub open spec fn spec_serialize_ops(ops: Seq<WalOpView>) -> Seq<u8>
    decreases ops.len(),
{
    if ops.len() == 0 {
        Seq::empty()
    } else {
        spec_serialize_op(ops[0]) + spec_serialize_ops(ops.drop_first())
    }
}

/// The payload bytes of an entry.
pub open spec fn spec_serialize_entry(ops: Seq<WalOpView>) -> Seq<u8> {
    le32(ops.len() as u32) + spec_serialize_ops(ops)
}

/// Parses one operation at `pos`, giving it and the position after it.
#[verifier::opaque]
pub open spec fn spec_parse_op(d: Seq<u8>, pos: int) -> Option<(WalOpView, int)> {
    if pos >= d.len() {
        None
    } else {
        match OpTag::spec_from_u8(d[pos]) {
            None => None,
            Some(tag) => {
                let p1 = pos + 1;
                if p1 + 4 > d.len() {
                    None
                } else {
                    let klen = le_value(d.subrange(p1, p1 + 4)) as int;
                    let p2 = p1 + 4;
                    if p2 + klen > d.len() {
                        None
                    } else {
                        let key = d.subrange(p2, p2 + klen);
                        let p3 = p2 + klen;
                        if tag.spec_has_value() {
                            if p3 + 4 > d.len() {
                                None
                            } else {
                                let vlen = le_value(d.subrange(p3, p3 + 4)) as int;
                                let p4 = p3 + 4;
                                if p4 + vlen > d.len() {
                                    None
                                } else {
                                    Some(
                                        (
                                            WalOpView {
                                                tag,
                                                key,
                                                value: Some(d.subrange(p4, p4 + vlen)),
                                            },
                                            p4 + vlen,
                                        ),
                                    )
                                }
                            }
                        } else {
                            Some((WalOpView { tag, key, value: None }, p3))
                        }
                    }
                }
            },
        }
    }
}

/// Parses `count` operations starting at `pos`.
pub open spec fn spec_parse_ops(d: Seq<u8>, pos: int, count: nat) -> Option<Seq<WalOpView>>
    decreases count,
{
    if count == 0 {
        Some(Seq::empty())
    } else {
        match spec_parse_op(d, pos) {
            None => None,
            Some((op, next)) => match spec_parse_ops(d, next, (count - 1) as nat) {
                None => None,
                Some(rest) => Some(seq![op] + rest),
            },
        }
    }
}

/// Parses an entry payload; trailing bytes after the last operation are ignored.
pub open spec fn spec_deserialize_entry(d: Seq<u8>) -> Option<Seq<WalOpView>> {
    if d.len() < 4 {
        None
    } else {
        spec_parse_ops(d, 4, le_value(d.subrange(0, 4)))
    }
}

proof fn lemma_serialize_ops_push(ops: Seq<WalOpView>, op: WalOpView)
    ensures
        spec_serialize_ops(ops.push(op)) == spec_serialize_ops(ops) + spec_serialize_op(op),
    decreases ops.len(),
{
    if ops.len() == 0 {
        assert(ops.push(op).drop_first() == ops);
    } else {
        lemma_serialize_ops_push(ops.drop_first(), op);
        assert(ops.push(op).drop_first() == ops.drop_first().push(op));
    }
}

/// Serialize a batch of operations into the WAL payload format.
pub fn serialize_entry(entry: &WalEntry) -> (r: Vec<u8>)
    ensures
        r@ == spec_serialize_entry(entry@),
{
    let mut buf: Vec<u8> = Vec::new();
    let n = entry.ops.len();
    push_le(&mut buf, (n as u32) as u64, 4);
    let mut i: usize = 0;
    while i < n
        invariant
            n == entry.ops@.len(),
            i <= n,
            buf@ == le32(n as u32) + spec_serialize_ops(entry@.take(i as int)),
        decreases n - i,
    {
        let op = &entry.ops[i];
        let ghost before = buf@;
        buf.push(op.tag.to_u8());
        push_le(&mut buf, (op.key.len() as u32) as u64, 4);
        append_bytes(&mut buf, op.key.as_slice());
        match &op.value {
            Some(v) => {
                push_le(&mut buf, (v.len() as u32) as u64, 4);
                append_bytes(&mut buf, v.as_slice());
            },
            None => {},
        }
        proof {
            assert(entry@[i as int] == op@);
            lemma_serialize_ops_push(entry@.take(i as int), op@);
            assert(entry@.take(i + 1) == entry@.take(i as int).push(op@));
            assert(buf@ == before + spec_serialize_op(op@));
        }
        i = i + 1;
    }
    assert(entry@.take(n as int) == entry@);
    buf
}

/// Parses one operation at `pos`.
fn parse_op(data: &[u8], pos: usize) -> (r: Option<(WalOp, usize)>)
    requires
        pos <= data@.len(),
    ensures
        match spec_parse_op(data@, pos as int) {
            Some((op, next)) => r matches Some((o, n)) && o@ == op && n == next,
            None => r is None,
        },
{
    reveal(spec_parse_op);
    let len = data.len();
    if pos >= len {
        return None;
    }
    let tag = match OpTag::from_u8(data[pos]) {
        Some(t) => t,
        None => return None,
    };
    let p1 = pos + 1;
    if len - p1 < 4 {
        return None;
    }
    let key_len = read_le(data, p1, 4) as usize;
    let p2 = p1 + 4;
    if key_len > len - p2 {
        return None;
    }
    let key = crate::text::copy_range(data, p2, p2 + key_len);
    let p3 = p2 + key_len;
    if tag.has_value() {
        if len - p3 < 4 {
            return None;
        }
        let value_len = read_le(data, p3, 4) as usize;
        let p4 = p3 + 4;
        if value_len > len - p4 {
            return None;
        }
        let value = crate::text::copy_range(data, p4, p4 + value_len);
        Some((WalOp { tag, key, value: Some(value) }, p4 + value_len))
    } else {
        Some((WalOp { tag, key, value: None }, p3))
    }
}

/// Deserialize a WAL payload back into a WalEntry.
pub fn deserialize_entry(data: &[u8]) -> (r: Option<WalEntry>)
    ensures
        match spec_deserialize_entry(data@) {
            Some(ops) => r matches Some(e) && e@ == ops,
            None => r is None,
        },
{
    if data.len() < 4 {
        return None;
    }
    let op_count = read_le(data, 0, 4);
    let ghost count = op_count as nat;
    let mut pos: usize = 4;
    let mut ops: Vec<WalOp> = Vec::new();
    let mut i: u64 = 0;
    assert(ops@.map_values(|op: WalOp| op@) == Seq::<WalOpView>::empty());
    while i < op_count
        invariant
            i <= op_count,
            4 <= pos <= data@.len(),
            count == op_count as nat,
            spec_deserialize_entry(data@) == spec_parse_ops(data@, 4, count),
            match spec_parse_ops(data@, pos as int, (count - i) as nat) {
                Some(rest) => spec_parse_ops(data@, 4, count) == Some(
                    ops@.map_values(|op: WalOp| op@) + rest,
                ),
                None => spec_parse_ops(data@, 4, count) is None,
            },
        decreases op_count - i,
    {
        let ghost old_ops = ops@.map_values(|op: WalOp| op@);
        match parse_op(data, pos) {
            None => {
                return None;
            },
            Some((op, next)) => {
                proof {
                    reveal_parse_op_bound(data@, pos as int);
                }
                let ghost opv = op@;
                ops.push(op);
                proof {
                    let rest_count = (count - i - 1) as nat;
                    assert(ops@.map_values(|op: WalOp| op@) == old_ops.push(opv));
                    match spec_parse_ops(data@, next as int, rest_count) {
                        Some(rest) => {
                            assert(old_ops + (seq![opv] + rest) == old_ops.push(opv) + rest);
                        },
                        None => {},
                    }
                }
                pos = next;
                i = i + 1;
            },
        }
    }
    assert(spec_parse_ops(data@, pos as int, 0) == Some(Seq::<WalOpView>::empty()));
    assert(ops@.map_values(|op: WalOp| op@) + Seq::<WalOpView>::empty() == ops@.map_values(
        |op: WalOp| op@,
    ));
    Some(WalEntry { ops })
}

proof fn reveal_parse_op_bound(d: Seq<u8>, pos: int)
    ensures
        spec_parse_op(d, pos) matches Some((_, next)) ==> pos < next <= d.len(),
{
    reveal(spec_parse_op);
}


proof fn lemma_le32_roundtrip(n: nat)
    requires
        n <= u32::MAX,
    ensures
        le_value(le32(n as u32)) == n,
        le32(n as u32).len() == 4,
{
    lemma_pow256_small();
    lemma_le_bytes_len(n, 4);
    lemma_le_value_of_bytes(n, 4);
}

proof fn lemma_parse_op_of_serialized(op: WalOpView, pre: Seq<u8>, post: Seq<u8>)
    requires
        op_well_formed(op),
    ensures
        spec_parse_op(pre + spec_serialize_op(op) + post, pre.len() as int) == Some(
            (op, (pre.len() + spec_serialize_op(op).len()) as int),
        ),
{
    reveal(spec_parse_op);
    let d = pre + spec_serialize_op(op) + post;
    let pos = pre.len() as int;
    let k = op.key.len();
    lemma_le32_roundtrip(k);
    assert(d[pos] == op.tag.spec_byte());
    assert(d.subrange(pos + 1, pos + 5) == le32(k as u32));
    assert(d.subrange(pos + 5, pos + 5 + k) == op.key);
    match op.value {
        Some(v) => {
            lemma_le32_roundtrip(v.len());
            let p3 = pos + 5 + k;
            assert(d.subrange(p3, p3 + 4) == le32(v.len() as u32));
            assert(d.subrange(p3 + 4, p3 + 4 + v.len()) == v);
        },
        None => {},
    }
}

proof fn lemma_parse_ops_of_serialized(ops: Seq<WalOpView>, pre: Seq<u8>, post: Seq<u8>)
    requires
        forall|i: int| 0 <= i < ops.len() ==> op_well_formed(#[trigger] ops[i]),
    ensures
        spec_parse_ops(pre + spec_serialize_ops(ops) + post, pre.len() as int, ops.len()) == Some(
            ops,
        ),
    decreases ops.len(),
{
    if ops.len() > 0 {
        let first = spec_serialize_op(ops[0]);
        let rest = ops.drop_first();
        let d = pre + spec_serialize_ops(ops) + post;
        assert(d == pre + first + (spec_serialize_ops(rest) + post));
        assert(op_well_formed(ops[0]));
        lemma_parse_op_of_serialized(ops[0], pre, spec_serialize_ops(rest) + post);
        assert forall|i: int| 0 <= i < rest.len() implies op_well_formed(#[trigger] rest[i]) by {
            assert(rest[i] == ops[i + 1]);
        }
        lemma_parse_ops_of_serialized(rest, pre + first, post);
        assert(d == (pre + first) + spec_serialize_ops(rest) + post);
        assert(seq![ops[0]] + rest == ops);
    }
}

/// Deserializing the payload of an entry gives the entry back.
pub proof fn law_entry_roundtrip(ops: Seq<WalOpView>)
    requires
        entry_well_formed(ops),
    ensures
        spec_deserialize_entry(spec_serialize_entry(ops)) == Some(ops),
{
    let d = spec_serialize_entry(ops);
    lemma_le32_roundtrip(ops.len());
    assert(d.subrange(0, 4) == le32(ops.len() as u32));
    lemma_parse_ops_of_serialized(ops, le32(ops.len() as u32), Seq::empty());
    assert(d == le32(ops.len() as u32) + spec_serialize_ops(ops) + Seq::<u8>::empty());
}


// ---------------------------------------------------------------------------
// Records and segments
// ---------------------------------------------------------------------------

/// Magic bytes at the start of every segment file (`FILA`).
pub open spec fn segment_magic() -> Seq<u8> {
    seq![0x46u8, 0x49u8, 0x4Cu8, 0x41u8]
}

/// Current segment format version.
pub const SEGMENT_VERSION: u16 = 1;

/// Total segment header size in bytes.
pub const SEGMENT_HEADER_SIZE: u64 = 32;

/// Records whose payload claims more than this many bytes are taken as corrupt.
pub const MAX_RECORD_PAYLOAD: u64 = 268435456;

/// One bit step of the reflected CRC-32 (IEEE) register.
pub open spec fn crc32_bit(x: u32) -> u32 {
    if x & 1 == 1 {
        (x >> 1) ^ 0xEDB8_8320u32
    } else {
        x >> 1
    }
}

/// The CRC-32 register after taking in one more byte.
pub open spec fn crc32_byte(c: u32, b: u8) -> u32 {
    crc32_bit(crc32_bit(crc32_bit(crc32_bit(crc32_bit(crc32_bit(crc32_bit(crc32_bit(c ^ (b as u32)))))))))
}

/// The CRC-32 register after taking in `data`, starting from all ones.
pub open spec fn crc32_register(data: Seq<u8>) -> u32
    decreases data.len(),
{
    if data.len() == 0 {
        0xFFFF_FFFFu32
    } else {
        crc32_byte(crc32_register(data.drop_last()), data.last())
    }
}

/// The CRC-32 (IEEE: reflected polynomial 0xEDB88320, initial value and
/// final xor all ones) of a byte string.
#[verifier::opaque]
pub open spec fn crc32(data: Seq<u8>) -> u32 {
    crc32_register(data) ^ 0xFFFF_FFFFu32
}

/// Wraps `crc32fast::hash`: the result is the CRC-32 of exactly the given bytes.
#[verifier::external_body]
fn crc32_hash(data: &[u8]) -> (r: u32)
    ensures
        r == crc32(data@),
{
    crc32fast::hash(data)
}

/// A segment header: magic, version (u16 LE), creation time (u64 LE), zero padding.
pub open spec fn spec_segment_header(created_ns: u64) -> Seq<u8> {
    segment_magic() + le_bytes(SEGMENT_VERSION as nat, 2) + le64(created_ns) + Seq::new(
        18,
        |i: int| 0u8,
    )
}

/// A segment starts with a valid header.
pub open spec fn spec_valid_header(d: Seq<u8>) -> bool {
    &&& d.len() >= 32
    &&& d.subrange(0, 4) == segment_magic()
    &&& le_value(d.subrange(4, 6)) == SEGMENT_VERSION
}

/// Build a segment header stamped with the given creation time.
pub fn segment_header(created_ns: u64) -> (r: Vec<u8>)
    ensures
        r@ == spec_segment_header(created_ns),
        r@.len() == SEGMENT_HEADER_SIZE,
{
    let mut header: Vec<u8> = Vec::new();
    header.push(0x46);
    header.push(0x49);
    header.push(0x4C);
    header.push(0x41);
    push_le(&mut header, SEGMENT_VERSION as u64, 2);
    push_le(&mut header, created_ns, 8);
    let ghost fixed = header@;
    let mut i: usize = 0;
    while i < 18
        invariant
            i <= 18,
            header@ == fixed + Seq::new(i as nat, |j: int| 0u8),
        decreases 18 - i,
    {
        header.push(0);
        i = i + 1;
        assert(header@ == fixed + Seq::new(i as nat, |j: int| 0u8));
    }
    proof {
        lemma_le_bytes_len(SEGMENT_VERSION as nat, 2);
        lemma_le_bytes_len(created_ns as nat, 8);
        assert(header@.subrange(0, 4) == segment_magic());
    }
    header
}

/// Check that a segment starts with a valid header.
pub fn validate_segment_header(data: &[u8]) -> (r: bool)
    ensures
        r == spec_valid_header(data@),
{
    if data.len() < 32 {
        return false;
    }
    if data[0] != 0x46 || data[1] != 0x49 || data[2] != 0x4C || data[3] != 0x41 {
        assert(data@.subrange(0, 4) != segment_magic()) by {
            if data@.subrange(0, 4) == segment_magic() {
                assert(data@.subrange(0, 4)[0] == data@[0]);
                assert(data@.subrange(0, 4)[1] == data@[1]);
                assert(data@.subrange(0, 4)[2] == data@[2]);
                assert(data@.subrange(0, 4)[3] == data@[3]);
            }
        }
        return false;
    }
    assert(data@.subrange(0, 4) == segment_magic());
    let version = read_le(data, 4, 2);
    version == SEGMENT_VERSION as u64
}

/// The bytes of one record: payload length, checksum, payload.
pub open spec fn spec_frame_record(payload: Seq<u8>, crc: u32) -> Seq<u8> {
    le32(payload.len() as u32) + le32(crc) + payload
}

/// The record that stores an entry.
pub open spec fn spec_entry_record(ops: Seq<WalOpView>) -> Seq<u8> {
    spec_frame_record(spec_serialize_entry(ops), crc32(spec_serialize_entry(ops)))
}

/// Frame a payload with its length and checksum.
pub fn frame_record(payload: &[u8], crc: u32) -> (r: Vec<u8>)
    ensures
        r@ == spec_frame_record(payload@, crc),
{
    let mut buf: Vec<u8> = Vec::new();
    push_le(&mut buf, (payload.len() as u32) as u64, 4);
    push_le(&mut buf, crc as u64, 4);
    append_bytes(&mut buf, payload);
    buf
}

/// The record bytes that appending `entry` to the log writes.
pub fn encode_record(entry: &WalEntry) -> (r: Vec<u8>)
    ensures
        r@ == spec_entry_record(entry@),
{
    let payload = serialize_entry(entry);
    let crc = crc32_hash(payload.as_slice());
    frame_record(payload.as_slice(), crc)
}

/// Why reading a record stopped short of an entry.
#[derive(Debug, Clone, Copy, PartialEq, Eq, Structural)]
pub enum EntryError {
    /// The record is cut off before its end.
    Truncated,
    /// The record is damaged: bad checksum, absurd length, or a payload that
    /// does not parse.
    CrcMismatch,
}

/// What reading one record at a position yields.
pub enum ReadOutcome {
    /// Fewer than four bytes remain: a clean end of the log.
    End,
    Failed(EntryError),
    /// An entry and the position after its record.
    Read(Seq<WalOpView>, int),
}

/// Reads the record at `pos`.
pub open spec fn spec_read_entry(d: Seq<u8>, pos: int) -> ReadOutcome {
    let rem = d.len() - pos;
    if rem < 4 {
        ReadOutcome::End
    } else if rem < 8 {
        ReadOutcome::Failed(EntryError::Truncated)
    } else {
        let len = le_value(d.subrange(pos, pos + 4)) as int;
        let expected = le_value(d.subrange(pos + 4, pos + 8));
        if len > MAX_RECORD_PAYLOAD {
            ReadOutcome::Failed(EntryError::CrcMismatch)
        } else if rem - 8 < len {
            ReadOutcome::Failed(EntryError::Truncated)
        } else {
            let payload = d.subrange(pos + 8, pos + 8 + len);
            if crc32(payload) != expected {
                ReadOutcome::Failed(EntryError::CrcMismatch)
            } else {
                match spec_deserialize_entry(payload) {
                    None => ReadOutcome::Failed(EntryError::CrcMismatch),
                    Some(ops) => ReadOutcome::Read(ops, pos + 8 + len),
                }
            }
        }
    }
}

/// The outcome of checking a record's payload once its checksum is known.
pub open spec fn spec_check_payload(payload: Seq<u8>, expected: u32, actual: u32) -> Result<
    Seq<WalOpView>,
    EntryError,
> {
    if actual != expected {
        Err(EntryError::CrcMismatch)
    } else {
        match spec_deserialize_entry(payload) {
            None => Err(EntryError::CrcMismatch),
            Some(ops) => Ok(ops),
        }
    }
}

/// Accept a record payload whose checksum matched and that parses as an entry.
pub fn check_payload(payload: &[u8], expected_crc: u32, actual_crc: u32) -> (r: Result<WalEntry, EntryError>)
    ensures
        match spec_check_payload(payload@, expected_crc, actual_crc) {
            Ok(ops) => r matches Ok(e) && e@ == ops,
            Err(err) => r == Err::<WalEntry, EntryError>(err),
        },
{
    if actual_crc != expected_crc {
        return Err(EntryError::CrcMismatch);
    }
    match deserialize_entry(payload) {
        Some(entry) => Ok(entry),
        None => Err(EntryError::CrcMismatch),
    }
}

/// Read a single WAL entry at `pos`. Returns `Ok(None)` at a clean end,
/// and otherwise the entry with the position after its record.
pub fn read_one_entry(data: &[u8], pos: usize) -> (r: Result<Option<(WalEntry, usize)>, EntryError>)
    requires
        pos <= data@.len(),
    ensures
        match spec_read_entry(data@, pos as int) {
            ReadOutcome::End => r == Ok::<Option<(WalEntry, usize)>, EntryError>(None),
            ReadOutcome::Failed(e) => r == Err::<Option<(WalEntry, usize)>, EntryError>(e),
            ReadOutcome::Read(ops, next) => r matches Ok(Some((e, n))) && e@ == ops && n == next,
        },
{
    let rem = data.len() - pos;
    if rem < 4 {
        return Ok(None);
    }
    let len = read_le(data, pos, 4);
    if rem < 8 {
        return Err(EntryError::Truncated);
    }
    let expected = read_le(data, pos + 4, 4) as u32;
    if len > MAX_RECORD_PAYLOAD {
        return Err(EntryError::CrcMismatch);
    }
    let len = len as usize;
    if rem - 8 < len {
        return Err(EntryError::Truncated);
    }
    let payload = crate::text::copy_range(data, pos + 8, pos + 8 + len);
    let actual = crc32_hash(payload.as_slice());
    match check_payload(payload.as_slice(), expected, actual) {
        Ok(entry) => Ok(Some((entry, pos + 8 + len))),
        Err(e) => Err(e),
    }
}

/// Entries replayed from position `pos` until the first clean end,
/// truncation or damaged record.
pub open spec fn spec_replay_from(d: Seq<u8>, pos: int) -> Seq<Seq<WalOpView>>
    decreases d.len() - pos,
{
    match spec_read_entry(d, pos) {
        ReadOutcome::Read(ops, next) => if next > pos {
            seq![ops] + spec_replay_from(d, next)
        } else {
            Seq::empty()
        },
        _ => Seq::empty(),
    }
}

/// Entries replayed from a whole segment; a segment with a bad header yields none.
pub open spec fn spec_replay_segment(d: Seq<u8>) -> Seq<Seq<WalOpView>> {
    if spec_valid_header(d) {
        spec_replay_from(d, 32)
    } else {
        Seq::empty()
    }
}

pub open spec fn entries_view(v: Seq<WalEntry>) -> Seq<Seq<WalOpView>> {
    v.map_values(|e: WalEntry| e@)
}

/// Replay all valid WAL entries of one segment, in order. A truncated or
/// damaged record is treated as the end of the log.
pub fn replay_segment(data: &[u8]) -> (r: Vec<WalEntry>)
    ensures
        entries_view(r@) == spec_replay_segment(data@),
{
    let mut entries: Vec<WalEntry> = Vec::new();
    if !validate_segment_header(data) {
        assert(entries_view(entries@) == Seq::<Seq<WalOpView>>::empty());
        return entries;
    }
    let mut pos: usize = 32;
    assert(entries_view(entries@) + spec_replay_from(data@, 32) == spec_replay_from(data@, 32));
    loop
        invariant
            pos <= data@.len(),
            spec_replay_segment(data@) == entries_view(entries@) + spec_replay_from(data@, pos as int),
        decreases data@.len() - pos,
    {
        match read_one_entry(data, pos) {
            Ok(Some((entry, next))) => {
                proof {
                    lemma_read_entry_advances(data@, pos as int);
                    assert(entries_view(entries@.push(entry)) == entries_view(entries@).push(
                        entry@,
                    ));
                    let rest = spec_replay_from(data@, next as int);
                    assert(entries_view(entries@) + (seq![entry@] + rest) == entries_view(
                        entries@,
                    ).push(entry@) + rest);
                }
                entries.push(entry);
                pos = next;
            },
            _ => {
                assert(entries_view(entries@) + Seq::<Seq<WalOpView>>::empty() == entries_view(
                    entries@,
                ));
                return entries;
            },
        }
    }
}


/// Whether reading from `pos` on reaches a clean end, rather than a
/// truncated or damaged record.
pub open spec fn spec_ends_cleanly(d: Seq<u8>, pos: int) -> bool
    decreases d.len() - pos,
{
    match spec_read_entry(d, pos) {
        ReadOutcome::Read(_, next) => if next > pos {
            spec_ends_cleanly(d, next)
        } else {
            false
        },
        ReadOutcome::End => true,
        ReadOutcome::Failed(_) => false,
    }
}

/// Read a whole segment: `None` when its header is invalid, otherwise the
/// entries up to the first clean end, truncation or damaged record, and
/// whether the end was clean.
pub fn read_segment(data: &[u8]) -> (r: Option<(Vec<WalEntry>, bool)>)
    ensures
        !spec_valid_header(data@) ==> r is None,
        spec_valid_header(data@) ==> (r matches Some((es, clean)) && entries_view(es@) == spec_replay_from(data@, 32)
            && clean == spec_ends_cleanly(data@, 32)),
{
    if !validate_segment_header(data) {
        return None;
    }
    let mut entries: Vec<WalEntry> = Vec::new();
    let mut pos: usize = 32;
    assert(entries_view(entries@) + spec_replay_from(data@, 32) == spec_replay_from(data@, 32));
    loop
        invariant
            32 <= pos <= data@.len(),
            spec_valid_header(data@),
            spec_replay_from(data@, 32) == entries_view(entries@) + spec_replay_from(data@, pos as int),
            spec_ends_cleanly(data@, 32) == spec_ends_cleanly(data@, pos as int),
        decreases data@.len() - pos,
    {
        match read_one_entry(data, pos) {
            Ok(Some((entry, next))) => {
                proof {
                    lemma_read_entry_advances(data@, pos as int);
                    assert(entries_view(entries@.push(entry)) == entries_view(entries@).push(entry@));
                    let rest = spec_replay_from(data@, next as int);
                    assert(entries_view(entries@) + (seq![entry@] + rest) == entries_view(entries@).push(entry@)
                        + rest);
                }
                entries.push(entry);
                pos = next;
            },
            Ok(None) => {
                assert(entries_view(entries@) + Seq::<Seq<WalOpView>>::empty() == entries_view(entries@));
                return Some((entries, true));
            },
            Err(_) => {
                assert(entries_view(entries@) + Seq::<Seq<WalOpView>>::empty() == entries_view(entries@));
                return Some((entries, false));
            },
        }
    }
}

proof fn lemma_read_entry_advances(d: Seq<u8>, pos: int)
    requires
        0 <= pos <= d.len(),
    ensures
        spec_read_entry(d, pos) matches ReadOutcome::Read(_, next) ==> pos + 8 <= next <= d.len(),
{
}



proof fn lemma_records_push(es: Seq<Seq<WalOpView>>, e: Seq<WalOpView>)
    ensures
        spec_records(es.push(e)) == spec_records(es) + spec_entry_record(e),
    decreases es.len(),
{
    if es.len() == 0 {
        assert(es.push(e).drop_first() =~= Seq::<Seq<WalOpView>>::empty());
        assert(es.push(e)[0] == e);
        assert(spec_records(es.push(e).drop_first()) == Seq::<u8>::empty());
        assert(spec_records(es.push(e)) =~= spec_entry_record(e) + Seq::<u8>::empty());
        assert(spec_records(es) == Seq::<u8>::empty());
    } else {
        lemma_records_push(es.drop_first(), e);
        assert(es.push(e).drop_first() == es.drop_first().push(e));
        assert(es.push(e)[0] == es[0]);
    }
}

/// The bytes of a whole segment: a header stamped `created_ns`, then the
/// record of each entry in order.
pub fn encode_segment(created_ns: u64, entries: &Vec<WalEntry>) -> (r: Vec<u8>)
    ensures
        r@ == spec_segment_header(created_ns) + spec_records(entries_view(entries@)),
{
    let mut out = segment_header(created_ns);
    let mut i: usize = 0;
    while i < entries.len()
        invariant
            i <= entries@.len(),
            out@ == spec_segment_header(created_ns) + spec_records(entries_view(entries@.subrange(0, i as int))),
        decreases entries@.len() - i,
    {
        let mut rec = encode_record(&entries[i]);
        proof {
            assert(entries_view(entries@.subrange(0, i + 1)) == entries_view(entries@.subrange(0, i as int)).push(
                entries@[i as int]@,
            ));
            lemma_records_push(entries_view(entries@.subrange(0, i as int)), entries@[i as int]@);
        }
        out.append(&mut rec);
        i = i + 1;
    }
    assert(entries@.subrange(0, entries@.len() as int) == entries@);
    out
}

/// An entry that the log writes and replays faithfully.
pub open spec fn entry_replayable(ops: Seq<WalOpView>) -> bool {
    &&& entry_well_formed(ops)
    &&& spec_serialize_entry(ops).len() <= MAX_RECORD_PAYLOAD
}

/// The records of a run of entries, in order.
pub open spec fn spec_records(es: Seq<Seq<WalOpView>>) -> Seq<u8>
    decreases es.len(),
{
    if es.len() == 0 {
        Seq::empty()
    } else {
        spec_entry_record(es[0]) + spec_records(es.drop_first())
    }
}

proof fn lemma_read_record(ops: Seq<WalOpView>, pre: Seq<u8>, post: Seq<u8>)
    requires
        entry_replayable(ops),
    ensures
        spec_read_entry(pre + spec_entry_record(ops) + post, pre.len() as int) == ReadOutcome::Read(
            ops,
            (pre.len() + spec_entry_record(ops).len()) as int,
        ),
{
    let payload = spec_serialize_entry(ops);
    let crc = crc32(payload);
    let d = pre + spec_entry_record(ops) + post;
    let pos = pre.len() as int;
    lemma_le32_roundtrip(payload.len());
    lemma_le32_roundtrip(crc as nat);
    assert(d.subrange(pos, pos + 4) == le32(payload.len() as u32));
    assert(d.subrange(pos + 4, pos + 8) == le32(crc));
    assert(d.subrange(pos + 8, pos + 8 + payload.len()) == payload);
    law_entry_roundtrip(ops);
}

proof fn lemma_replay_records(es: Seq<Seq<WalOpView>>, pre: Seq<u8>, tail: Seq<u8>)
    requires
        forall|i: int| 0 <= i < es.len() ==> entry_replayable(#[trigger] es[i]),
    ensures
        spec_replay_from(pre + spec_records(es) + tail, pre.len() as int) == es + spec_replay_from(
            pre + spec_records(es) + tail,
            (pre.len() + spec_records(es).len()) as int,
        ),
    decreases es.len(),
{
    let d = pre + spec_records(es) + tail;
    if es.len() == 0 {
        assert(es + spec_replay_from(d, pre.len() as int) == spec_replay_from(d, pre.len() as int));
    } else {
        let r0 = spec_entry_record(es[0]);
        let rest = es.drop_first();
        assert(entry_replayable(es[0]));
        assert(d == pre + r0 + (spec_records(rest) + tail));
        lemma_read_record(es[0], pre, spec_records(rest) + tail);
        assert(r0.len() >= 8);
        assert forall|i: int| 0 <= i < rest.len() implies entry_replayable(#[trigger] rest[i]) by {
            assert(rest[i] == es[i + 1]);
        }
        lemma_replay_records(rest, pre + r0, tail);
        assert(d == (pre + r0) + spec_records(rest) + tail);
        assert(seq![es[0]] + (rest + spec_replay_from(d, (pre.len() + spec_records(es).len()) as int)) == es
            + spec_replay_from(d, (pre.len() + spec_records(es).len()) as int));
    }
}

proof fn lemma_torn_tail_stops(d: Seq<u8>, end: int, torn: Seq<WalOpView>, partial: Seq<u8>)
    requires
        0 <= end <= d.len(),
        d.subrange(end, d.len() as int) == partial,
        entry_replayable(torn) || partial.len() == 0,
        partial.len() < spec_entry_record(torn).len(),
        partial == spec_entry_record(torn).subrange(0, partial.len() as int),
    ensures
        spec_replay_from(d, end) == Seq::<Seq<WalOpView>>::empty(),
{
    if partial.len() >= 8 {
        let payload = spec_serialize_entry(torn);
        lemma_le32_roundtrip(payload.len());
        assert(d.subrange(end, end + 4) == partial.subrange(0, 4));
        assert(partial.subrange(0, 4) == le32(payload.len() as u32));
        assert(le_value(d.subrange(end, end + 4)) == payload.len());
    }
    let payload = spec_serialize_entry(torn);
    lemma_le_bytes_len(payload.len() as u32 as nat, 4);
    lemma_le_bytes_len(crc32(payload) as nat, 4);
    assert(!(spec_read_entry(d, end) is Read));
}

/// Replay of a segment gives back, in order, exactly the entries that were
/// appended to it.
pub proof fn law_replay_returns_appended_entries(created_ns: u64, es: Seq<Seq<WalOpView>>)
    requires
        forall|i: int| 0 <= i < es.len() ==> entry_replayable(#[trigger] es[i]),
    ensures
        spec_replay_segment(spec_segment_header(created_ns) + spec_records(es)) == es,
{
    let e = Seq::<WalOpView>::empty();
    let payload = spec_serialize_entry(e);
    lemma_le_bytes_len(payload.len() as u32 as nat, 4);
    lemma_le_bytes_len(crc32(payload) as nat, 4);
    assert(Seq::<u8>::empty() == spec_entry_record(e).subrange(0, 0));
    law_replay_survives_torn_tail(created_ns, es, e, Seq::empty());
    assert(spec_segment_header(created_ns) + spec_records(es) + Seq::<u8>::empty()
        == spec_segment_header(created_ns) + spec_records(es));
}

/// A crash in the middle of appending a record loses only that record:
/// replay of the appended entries followed by a torn, partial record gives
/// back the appended entries.
pub proof fn law_replay_survives_torn_tail(
    created_ns: u64,
    es: Seq<Seq<WalOpView>>,
    torn: Seq<WalOpView>,
    partial: Seq<u8>,
)
    requires
        forall|i: int| 0 <= i < es.len() ==> entry_replayable(#[trigger] es[i]),
        entry_replayable(torn) || partial.len() == 0,
        partial.len() < spec_entry_record(torn).len(),
        partial == spec_entry_record(torn).subrange(0, partial.len() as int),
    ensures
        spec_replay_segment(spec_segment_header(created_ns) + spec_records(es) + partial) == es,
{
    let h = spec_segment_header(created_ns);
    let d = h + spec_records(es) + partial;
    lemma_pow256_small();
    lemma_le_bytes_len(SEGMENT_VERSION as nat, 2);
    lemma_le_bytes_len(created_ns as nat, 8);
    lemma_le_value_of_bytes(SEGMENT_VERSION as nat, 2);
    assert(h.len() == 32);
    assert(d.subrange(0, 4) == segment_magic());
    assert(d.subrange(4, 6) == le_bytes(SEGMENT_VERSION as nat, 2));
    lemma_replay_records(es, h, partial);
    let end = (h.len() + spec_records(es).len()) as int;
    assert(d.subrange(end as int, d.len() as int) == partial);
    lemma_torn_tail_stops(d, end, torn, partial);
    assert(es + Seq::<Seq<WalOpView>>::empty() == es);
}

/// The entries replayed from several segments, read in the order given.
pub open spec fn spec_replay_segments(ds: Seq<Seq<u8>>) -> Seq<Seq<WalOpView>>
    decreases ds.len(),
{
    if ds.len() == 0 {
        Seq::empty()
    } else {
        spec_replay_segments(ds.drop_last()) + spec_replay_segment(ds.last())
    }
}

/// Several runs of entries, one after another.
pub open spec fn flatten_entries(parts: Seq<Seq<Seq<WalOpView>>>) -> Seq<Seq<WalOpView>>
    decreases parts.len(),
{
    if parts.len() == 0 {
        Seq::empty()
    } else {
        flatten_entries(parts.drop_last()) + parts.last()
    }
}

/// The bytes of segment files, each a header followed by the records of its
/// entries.
pub open spec fn spec_segment_files(created: Seq<u64>, parts: Seq<Seq<Seq<WalOpView>>>) -> Seq<Seq<u8>> {
    Seq::new(parts.len(), |i: int| spec_segment_header(created[i]) + spec_records(parts[i]))
}

/// Replay the segments of a log, given in sequence order: the valid entries
/// of each, one segment after another.
pub fn replay_segments(segments: &Vec<Vec<u8>>) -> (r: Vec<WalEntry>)
    ensures
        entries_view(r@) == spec_replay_segments(segments@.map_values(|s: Vec<u8>| s@)),
{
    let ghost ds = segments@.map_values(|s: Vec<u8>| s@);
    let mut entries: Vec<WalEntry> = Vec::new();
    let mut i: usize = 0;
    assert(ds.take(0) == Seq::<Seq<u8>>::empty());
    while i < segments.len()
        invariant
            i <= segments@.len(),
            ds == segments@.map_values(|s: Vec<u8>| s@),
            entries_view(entries@) == spec_replay_segments(ds.take(i as int)),
        decreases segments@.len() - i,
    {
        let mut more = replay_segment(segments[i].as_slice());
        let ghost before = entries@;
        let ghost added = more@;
        entries.append(&mut more);
        proof {
            assert(ds.take(i + 1).drop_last() == ds.take(i as int));
            assert(ds.take(i + 1).last() == segments@[i as int]@);
            assert(entries@ == before + added);
            assert(entries_view(entries@) =~= entries_view(before) + entries_view(added));
        }
        i = i + 1;
    }
    assert(ds.take(segments@.len() as int) == ds);
    entries
}

/// Replay across segment files gives back every appended entry, in order:
/// the entries of the first segment, then those of the next, and so on.
pub proof fn law_replay_across_segments(created: Seq<u64>, parts: Seq<Seq<Seq<WalOpView>>>)
    requires
        created.len() == parts.len(),
        forall|i: int, j: int| 0 <= i < parts.len() && 0 <= j < parts[i].len() ==> entry_replayable(#[trigger] parts[i][j]),
    ensures
        spec_replay_segments(spec_segment_files(created, parts)) == flatten_entries(parts),
    decreases parts.len(),
{
    if parts.len() > 0 {
        let n = parts.len() - 1;
        let ds = spec_segment_files(created, parts);
        assert(ds.drop_last() =~= spec_segment_files(created.drop_last(), parts.drop_last()));
        assert forall|i: int, j: int| 0 <= i < parts.drop_last().len() && 0 <= j < parts.drop_last()[i].len() implies entry_replayable(
            #[trigger] parts.drop_last()[i][j],
        ) by {
            assert(parts.drop_last()[i] == parts[i]);
        }
        law_replay_across_segments(created.drop_last(), parts.drop_last());
        assert forall|j: int| 0 <= j < parts[n].len() implies entry_replayable(#[trigger] parts[n][j]) by {
            assert(entry_replayable(parts[n][j]));
        }
        law_replay_returns_appended_entries(created[n], parts[n]);
        assert(ds.last() == spec_segment_header(created[n]) + spec_records(parts[n]));
    }
}

proof fn lemma_crc32_bit_injective(x: u32, y: u32)
    requires
        x != y,
    ensures
        crc32_bit(x) != crc32_bit(y),
{
    assert(x != y ==> crc32_bit(x) != crc32_bit(y)) by (bit_vector);
}

proof fn lemma_crc32_bit_n_injective(x: u32, y: u32, n: nat)
    requires
        x != y,
    ensures
        crc32_bit_n(x, n) != crc32_bit_n(y, n),
    decreases n,
{
    if n > 0 {
        lemma_crc32_bit_n_injective(x, y, (n - 1) as nat);
        lemma_crc32_bit_injective(crc32_bit_n(x, (n - 1) as nat), crc32_bit_n(y, (n - 1) as nat));
    }
}

proof fn lemma_crc32_byte_injective(c1: u32, b1: u8, c2: u32, b2: u8)
    requires
        c1 ^ (b1 as u32) != c2 ^ (b2 as u32),
    ensures
        crc32_byte(c1, b1) != crc32_byte(c2, b2),
{
    reveal_with_fuel(crc32_bit_n, 9);
    assert(crc32_byte(c1, b1) == crc32_bit_n(c1 ^ (b1 as u32), 8));
    assert(crc32_byte(c2, b2) == crc32_bit_n(c2 ^ (b2 as u32), 8));
    lemma_crc32_bit_n_injective(c1 ^ (b1 as u32), c2 ^ (b2 as u32), 8);
}

/// `n` bit steps of the CRC-32 register.
pub open spec fn crc32_bit_n(x: u32, n: nat) -> u32
    decreases n,
{
    if n == 0 {
        x
    } else {
        crc32_bit(crc32_bit_n(x, (n - 1) as nat))
    }
}

proof fn lemma_register_step(d: Seq<u8>, n: int)
    requires
        0 < n <= d.len(),
    ensures
        crc32_register(d.take(n)) == crc32_byte(crc32_register(d.take(n - 1)), d[n - 1]),
{
    assert(d.take(n).drop_last() == d.take(n - 1));
}

proof fn lemma_registers_stay_apart(p: Seq<u8>, q: Seq<u8>, m: int, n: int)
    requires
        0 < m <= n <= p.len(),
        q.len() == p.len(),
        forall|j: int| m <= j < p.len() ==> q[j] == p[j],
        crc32_register(q.take(m)) != crc32_register(p.take(m)),
    ensures
        crc32_register(q.take(n)) != crc32_register(p.take(n)),
    decreases n - m,
{
    if n > m {
        lemma_registers_stay_apart(p, q, m, n - 1);
        let r1 = crc32_register(q.take(n - 1));
        let r2 = crc32_register(p.take(n - 1));
        let b = p[n - 1];
        assert(q[n - 1] == b);
        assert(r1 ^ (b as u32) != r2 ^ (b as u32)) by (bit_vector)
            requires
                r1 != r2,
        ;
        lemma_crc32_byte_injective(r1, b, r2, b);
        lemma_register_step(p, n);
        lemma_register_step(q, n);
    }
}

/// Changing one byte of a byte string changes its CRC-32.
pub proof fn law_crc32_detects_changed_byte(p: Seq<u8>, i: int, x: u8)
    requires
        0 <= i < p.len(),
        x != p[i],
    ensures
        crc32(p.update(i, x)) != crc32(p),
{
    let q = p.update(i, x);
    assert(q.take(i) =~= p.take(i));
    lemma_register_step(p, i + 1);
    lemma_register_step(q, i + 1);
    let c = crc32_register(p.take(i));
    let pi = p[i];
    assert(q[i] == x);
    assert(c ^ (x as u32) != c ^ (pi as u32)) by (bit_vector)
        requires
            x != pi,
    ;
    lemma_crc32_byte_injective(c, x, c, pi);
    lemma_registers_stay_apart(p, q, i + 1, p.len() as int);
    assert(q.take(p.len() as int) =~= q);
    assert(p.take(p.len() as int) =~= p);
    reveal(crc32);
    let a = crc32_register(q);
    let b = crc32_register(p);
    assert(a ^ 0xFFFF_FFFFu32 != b ^ 0xFFFF_FFFFu32) by (bit_vector)
        requires
            a != b,
    ;
}

/// A damaged last record is dropped: replay of the appended entries
/// followed by a record one of whose payload bytes was changed gives back
/// the appended entries, since the checksum no longer matches.
pub proof fn law_replay_drops_damaged_record(
    created_ns: u64,
    es: Seq<Seq<WalOpView>>,
    last: Seq<WalOpView>,
    i: int,
    x: u8,
)
    requires
        forall|k: int| 0 <= k < es.len() ==> entry_replayable(#[trigger] es[k]),
        entry_replayable(last),
        0 <= i < spec_serialize_entry(last).len(),
        x != spec_serialize_entry(last)[i],
    ensures
        spec_replay_segment(
            spec_segment_header(created_ns) + spec_records(es) + spec_entry_record(last).update(8 + i, x),
        ) == es,
{
    let h = spec_segment_header(created_ns);
    let payload = spec_serialize_entry(last);
    let damaged = spec_entry_record(last).update(8 + i, x);
    let d = h + spec_records(es) + damaged;
    lemma_pow256_small();
    lemma_le_bytes_len(SEGMENT_VERSION as nat, 2);
    lemma_le_bytes_len(created_ns as nat, 8);
    lemma_le_value_of_bytes(SEGMENT_VERSION as nat, 2);
    assert(h.len() == 32);
    assert(d.subrange(0, 4) == segment_magic());
    assert(d.subrange(4, 6) == le_bytes(SEGMENT_VERSION as nat, 2));
    lemma_replay_records(es, h, damaged);
    let end = (h.len() + spec_records(es).len()) as int;
    lemma_le32_roundtrip(payload.len());
    lemma_le_bytes_len(crc32(payload) as nat, 4);
    lemma_le_value_of_bytes(crc32(payload) as nat, 4);
    assert(d.subrange(end, d.len() as int) =~= damaged);
    assert(d.subrange(end, end + 4) =~= le32(payload.len() as u32));
    assert(d.subrange(end + 4, end + 8) =~= le_bytes(crc32(payload) as nat, 4));
    assert(d.subrange(end + 8, end + 8 + payload.len()) =~= payload.update(i, x));
    law_crc32_detects_changed_byte(payload, i, x);
    assert(!(spec_read_entry(d, end) is Read));
    assert(es + Seq::<Seq<WalOpView>>::empty() == es);
}

} // verus!
