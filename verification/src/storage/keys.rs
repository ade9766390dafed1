//! Key encoding for the message, lease and lease-expiry stores.
//!
//! All numeric values use big-endian encoding for correct lexicographic ordering.
//! Composite keys use `:` (0x3A) as separator.
//! Variable-length strings are length-prefixed with a big-endian u16.

use vstd::prelude::*;
use vstd::utf8::*;
use crate::encoding::{
    append_bytes, be64, be_bytes, be_encode, be_value, has_prefix, lemma_be_bytes_len, lemma_be_order,
    lemma_be_value_of_bytes, lemma_lex_common_prefix, lemma_lex_extend, lemma_pow256_small, lex_lt,
    push_be, read_be,
};
use crate::text::{str_bytes, utf8_range};

verus! {

/// Separator byte between key components (`:`).
pub const SEPARATOR: u8 = 0x3A;

/// A string component: two-byte big-endian length, then the bytes.
pub open spec fn spec_encode_string(b: Seq<u8>) -> Seq<u8> {
    be_bytes(b.len(), 2) + b
}

/// `{queue_id}:{fairness_key}:{enqueue_ts_ns}:{msg_id}`.
pub open spec fn spec_message_key(q: Seq<u8>, f: Seq<u8>, ts: u64, id: Seq<u8>) -> Seq<u8> {
    spec_encode_string(q) + seq![SEPARATOR] + spec_encode_string(f) + seq![SEPARATOR] + be64(ts)
        + seq![SEPARATOR] + id
}

/// `{queue_id}:`
pub open spec fn spec_message_prefix(q: Seq<u8>) -> Seq<u8> {
    spec_encode_string(q) + seq![SEPARATOR]
}

/// `{queue_id}:{fairness_key}:`
pub open spec fn spec_message_prefix_with_key(q: Seq<u8>, f: Seq<u8>) -> Seq<u8> {
    spec_encode_string(q) + seq![SEPARATOR] + spec_encode_string(f) + seq![SEPARATOR]
}

/// `{queue_id}:{msg_id}`
pub open spec fn spec_lease_key(q: Seq<u8>, id: Seq<u8>) -> Seq<u8> {
    spec_encode_string(q) + seq![SEPARATOR] + id
}

/// `{expiry_ts_ns}:{queue_id}:{msg_id}`
pub open spec fn spec_lease_expiry_key(ts: u64, q: Seq<u8>, id: Seq<u8>) -> Seq<u8> {
    be64(ts) + seq![SEPARATOR] + spec_encode_string(q) + seq![SEPARATOR] + id
}

/// `{consumer_id}:{expiry_ts_ns}`
pub open spec fn spec_lease_value(c: Seq<u8>, ts: u64) -> Seq<u8> {
    spec_encode_string(c) + seq![SEPARATOR] + be64(ts)
}

/// Key strings must fit the two-byte length prefix.
pub open spec fn fits_key_string(s: &str) -> bool {
    str_bytes(s).len() <= 0xFFFF
}

/// The queue id a message key starts with, if the key holds one.
pub open spec fn spec_extract_queue_id(key: Seq<u8>) -> Option<Seq<u8>> {
    if key.len() < 3 {
        None
    } else {
        let n = be_value(key.subrange(0, 2)) as int;
        if key.len() < 2 + n {
            None
        } else if valid_utf8(key.subrange(2, 2 + n)) {
            Some(key.subrange(2, 2 + n))
        } else {
            None
        }
    }
}

/// The expiry timestamp of a well-formed lease value.
pub open spec fn spec_parse_expiry(v: Seq<u8>) -> Option<u64> {
    if v.len() < 11 {
        None
    } else {
        let n = be_value(v.subrange(0, 2)) as int;
        if v.len() != 2 + n + 1 + 8 {
            None
        } else if v[2 + n] != SEPARATOR {
            None
        } else {
            Some(be_value(v.subrange(2 + n + 1, v.len() as int)) as u64)
        }
    }
}

/// The queue id and message id of a well-formed lease-expiry key.
pub open spec fn spec_parse_lease_expiry_key(key: Seq<u8>) -> Option<(Seq<u8>, Seq<u8>)> {
    if key.len() < 28 {
        None
    } else {
        let n = be_value(key.subrange(9, 11)) as int;
        if key.len() - 9 < 2 + n + 1 + 16 {
            None
        } else if !valid_utf8(key.subrange(11, 11 + n)) {
            None
        } else {
            Some((key.subrange(11, 11 + n), key.subrange(12 + n, 28 + n)))
        }
    }
}

/// Encode a u64 as 8 big-endian bytes.
fn encode_u64(val: u64) -> (r: Vec<u8>)
    ensures
        r@ == be64(val),
{
    be_encode(val, 8)
}

/// Encode a variable-length string with a 2-byte big-endian length prefix.
fn encode_string(s: &str) -> (r: Vec<u8>)
    requires
        fits_key_string(s),
    ensures
        r@ == spec_encode_string(str_bytes(s)),
{
    let b = s.as_bytes();
    let len = b.len();
    let mut buf: Vec<u8> = Vec::new();
    push_be(&mut buf, len as u64, 2);
    append_bytes(&mut buf, b);
    buf
}

/// Build a message key: `{queue_id}:{fairness_key}:{enqueue_ts_ns}:{msg_id}`
///
/// Key layout (binary):
/// - length-prefixed queue_id
/// - separator
/// - length-prefixed fairness_key
/// - separator
/// - 8-byte big-endian enqueue timestamp (nanos)
/// - separator
/// - 16-byte message id (raw bytes, lexicographically sortable for UUIDv7)
pub fn message_key(queue_id: &str, fairness_key: &str, enqueue_ts_ns: u64, msg_id: &[u8; 16]) -> (r: Vec<u8>)
    requires
        fits_key_string(queue_id),
        fits_key_string(fairness_key),
    ensures
        r@ == spec_message_key(str_bytes(queue_id), str_bytes(fairness_key), enqueue_ts_ns, msg_id@),
{
    let mut key = encode_string(queue_id);
    key.push(SEPARATOR);
    let f = encode_string(fairness_key);
    append_bytes(&mut key, f.as_slice());
    key.push(SEPARATOR);
    let t = encode_u64(enqueue_ts_ns);
    append_bytes(&mut key, t.as_slice());
    key.push(SEPARATOR);
    append_bytes(&mut key, msg_id.as_slice());
    key
}

/// Build a prefix for iterating all messages in a queue.
pub fn message_prefix(queue_id: &str) -> (r: Vec<u8>)
    requires
        fits_key_string(queue_id),
    ensures
        r@ == spec_message_prefix(str_bytes(queue_id)),
{
    let mut prefix = encode_string(queue_id);
    prefix.push(SEPARATOR);
    prefix
}

/// Build a prefix for iterating messages with a specific fairness key in a queue.
pub fn message_prefix_with_key(queue_id: &str, fairness_key: &str) -> (r: Vec<u8>)
    requires
        fits_key_string(queue_id),
        fits_key_string(fairness_key),
    ensures
        r@ == spec_message_prefix_with_key(str_bytes(queue_id), str_bytes(fairness_key)),
{
    let mut prefix = encode_string(queue_id);
    prefix.push(SEPARATOR);
    let f = encode_string(fairness_key);
    append_bytes(&mut prefix, f.as_slice());
    prefix.push(SEPARATOR);
    prefix
}

/// Extract the queue_id from a message key.
///
/// Message key format starts with a length-prefixed queue_id string.
/// Returns `None` if the key is too short or malformed.
pub fn extract_queue_id(key: &[u8]) -> (r: Option<String>)
    ensures
        match spec_extract_queue_id(key@) {
            Some(q) => r matches Some(s) && str_bytes_of(&s) == q,
            None => r is None,
        },
{
    if key.len() < 3 {
        return None;
    }
    let queue_id_len = read_be(key, 0, 2) as usize;
    if key.len() < 2 + queue_id_len {
        return None;
    }
    match utf8_range(key, 2, 2 + queue_id_len) {
        Ok(q) => Some(q),
        Err(_) => None,
    }
}

/// The UTF-8 bytes of an owned string.
pub open spec fn str_bytes_of(s: &String) -> Seq<u8> {
    encode_utf8(s@)
}

/// Build a lease key: `{queue_id}:{msg_id}`
pub fn lease_key(queue_id: &str, msg_id: &[u8; 16]) -> (r: Vec<u8>)
    requires
        fits_key_string(queue_id),
    ensures
        r@ == spec_lease_key(str_bytes(queue_id), msg_id@),
{
    let mut key = encode_string(queue_id);
    key.push(SEPARATOR);
    append_bytes(&mut key, msg_id.as_slice());
    key
}

/// Build a lease expiry key: `{expiry_ts_ns}:{queue_id}:{msg_id}`
///
/// Timestamp-first layout enables efficient "scan from earliest expiry" iteration.
pub fn lease_expiry_key(expiry_ts_ns: u64, queue_id: &str, msg_id: &[u8; 16]) -> (r: Vec<u8>)
    requires
        fits_key_string(queue_id),
    ensures
        r@ == spec_lease_expiry_key(expiry_ts_ns, str_bytes(queue_id), msg_id@),
{
    let mut key = encode_u64(expiry_ts_ns);
    key.push(SEPARATOR);
    let q = encode_string(queue_id);
    append_bytes(&mut key, q.as_slice());
    key.push(SEPARATOR);
    append_bytes(&mut key, msg_id.as_slice());
    key
}

/// Encode a lease value: `{consumer_id}:{expiry_ts_ns}`
pub fn lease_value(consumer_id: &str, expiry_ts_ns: u64) -> (r: Vec<u8>)
    requires
        fits_key_string(consumer_id),
    ensures
        r@ == spec_lease_value(str_bytes(consumer_id), expiry_ts_ns),
{
    let mut val = encode_string(consumer_id);
    val.push(SEPARATOR);
    let t = encode_u64(expiry_ts_ns);
    append_bytes(&mut val, t.as_slice());
    val
}

/// Extract the expiry timestamp from a lease value.
///
/// Validates the encoded structure (`{len_prefix}{consumer_id}:{expiry_ts_ns}`)
/// before parsing. Returns `None` if the value is corrupted.
pub fn parse_expiry_from_lease_value(value: &[u8]) -> (r: Option<u64>)
    ensures
        r == spec_parse_expiry(value@),
{
    // Minimum: 2 (length prefix) + 0 (empty consumer_id) + 1 (separator) + 8 (expiry) = 11
    if value.len() < 11 {
        return None;
    }
    let consumer_len = read_be(value, 0, 2) as usize;
    let expected_len = 2 + consumer_len + 1 + 8;
    if value.len() != expected_len {
        return None;
    }
    if value[2 + consumer_len] != SEPARATOR {
        return None;
    }
    Some(read_be(value, 2 + consumer_len + 1, 8))
}

/// Parse a lease_expiry key to extract (queue_id, msg_id).
///
/// Key format: `{expiry_ts_ns(8B)}:{queue_id_len(2B)}{queue_id}:{msg_id(16B)}`
pub fn parse_lease_expiry_key(key: &[u8]) -> (r: Option<(String, [u8; 16])>)
    ensures
        match spec_parse_lease_expiry_key(key@) {
            Some((q, id)) => r matches Some((s, i)) && str_bytes_of(&s) == q && i@ == id,
            None => r is None,
        },
{
    // Minimum: 8 (ts) + 1 (:) + 2 (len) + 0 (queue_id) + 1 (:) + 16 (uuid) = 28
    if key.len() < 28 {
        return None;
    }
    // Skip 8 bytes timestamp + 1 byte separator
    let queue_id_len = read_be(key, 9, 2) as usize;
    if key.len() - 9 < 2 + queue_id_len + 1 + 16 {
        return None;
    }
    let queue_id = match utf8_range(key, 11, 11 + queue_id_len) {
        Ok(q) => q,
        Err(_) => return None,
    };
    // Skip separator
    let uuid_start = 9 + 2 + queue_id_len + 1;
    let mut id = [0u8; 16];
    let mut i: usize = 0;
    let len = key.len();
    while i < 16
        invariant
            len == key@.len(),
            i <= 16,
            uuid_start + 16 <= key@.len(),
            forall|j: int| 0 <= j < i ==> id@[j] == key@[uuid_start + j],
        decreases 16 - i,
    {
        id[i] = key[uuid_start + i];
        i = i + 1;
    }
    assert(id@ == key@.subrange(uuid_start as int, uuid_start + 16));
    Some((queue_id, id))
}


proof fn lemma_encode_string_facts(b: Seq<u8>)
    requires
        (b.len() as int) <= 0xFFFF,
    ensures
        spec_encode_string(b).len() == (b.len() as int) + 2,
        be_value(spec_encode_string(b).subrange(0, 2)) == (b.len() as int),
        spec_encode_string(b).subrange(2, (b.len() as int) + 2) == b,
{
    lemma_be_bytes_len(b.len(), 2);
    lemma_pow256_small();
    lemma_be_value_of_bytes(b.len(), 2);
    assert(spec_encode_string(b).subrange(0, 2) == be_bytes(b.len(), 2));
    assert(spec_encode_string(b).subrange(2, (b.len() as int) + 2) == b);
}

/// Every message key starts with the prefix of its queue, and with the
/// prefix of its queue and fairness key.
pub proof fn law_message_key_has_prefixes(q: Seq<u8>, f: Seq<u8>, ts: u64, id: Seq<u8>)
    ensures
        has_prefix(spec_message_key(q, f, ts, id), spec_message_prefix(q)),
        has_prefix(spec_message_key(q, f, ts, id), spec_message_prefix_with_key(q, f)),
{
    let k = spec_message_key(q, f, ts, id);
    let p1 = spec_message_prefix(q);
    let p2 = spec_message_prefix_with_key(q, f);
    assert(k == p2 + (be64(ts) + seq![SEPARATOR] + id));
    assert(p2 == p1 + (spec_encode_string(f) + seq![SEPARATOR]));
    assert(k.subrange(0, p2.len() as int) == p2);
    assert(k.subrange(0, p1.len() as int) == p1);
}

/// The queue id extracted from a message key is the queue id it was built from.
pub proof fn law_extract_queue_id_roundtrip(q: Seq<char>, f: Seq<char>, ts: u64, id: Seq<u8>)
    requires
        encode_utf8(q).len() <= 0xFFFF,
    ensures
        spec_extract_queue_id(spec_message_key(encode_utf8(q), encode_utf8(f), ts, id)) == Some(
            encode_utf8(q),
        ),
{
    let qb = encode_utf8(q);
    let k = spec_message_key(qb, encode_utf8(f), ts, id);
    lemma_encode_string_facts(qb);
    encode_utf8_valid_utf8(q);
    assert(k.subrange(0, 2) == spec_encode_string(qb).subrange(0, 2));
    assert(k.subrange(2, 2 + (qb.len() as int)) == qb);
}

/// The expiry stored in a lease value is the expiry it was built from.
pub proof fn law_lease_value_roundtrip(c: Seq<char>, ts: u64)
    requires
        encode_utf8(c).len() <= 0xFFFF,
    ensures
        spec_parse_expiry(spec_lease_value(encode_utf8(c), ts)) == Some(ts),
{
    let cb = encode_utf8(c);
    let v = spec_lease_value(cb, ts);
    lemma_encode_string_facts(cb);
    lemma_be_bytes_len(ts as nat, 8);
    lemma_pow256_small();
    lemma_be_value_of_bytes(ts as nat, 8);
    assert(v.subrange(0, 2) == spec_encode_string(cb).subrange(0, 2));
    assert(v[2 + (cb.len() as int)] == SEPARATOR);
    assert(v.subrange(2 + (cb.len() as int) + 1, v.len() as int) == be64(ts));
}

/// A lease-expiry key parses back into the queue id and message id it holds.
pub proof fn law_lease_expiry_key_roundtrip(ts: u64, q: Seq<char>, id: Seq<u8>)
    requires
        encode_utf8(q).len() <= 0xFFFF,
        id.len() == 16,
    ensures
        spec_parse_lease_expiry_key(spec_lease_expiry_key(ts, encode_utf8(q), id)) == Some(
            (encode_utf8(q), id),
        ),
{
    let qb = encode_utf8(q);
    let k = spec_lease_expiry_key(ts, qb, id);
    lemma_encode_string_facts(qb);
    lemma_be_bytes_len(ts as nat, 8);
    encode_utf8_valid_utf8(q);
    assert(k.subrange(9, 11) == spec_encode_string(qb).subrange(0, 2));
    assert(k.subrange(11, 11 + (qb.len() as int)) == qb);
    assert(k.subrange(12 + (qb.len() as int), 28 + (qb.len() as int)) == id);
}

/// Messages of one queue and fairness key sort by enqueue time, whatever
/// their ids.
pub proof fn law_message_keys_ordered_by_timestamp(
    q: Seq<u8>,
    f: Seq<u8>,
    ts1: u64,
    ts2: u64,
    id1: Seq<u8>,
    id2: Seq<u8>,
)
    requires
        ts1 < ts2,
    ensures
        lex_lt(spec_message_key(q, f, ts1, id1), spec_message_key(q, f, ts2, id2)),
{
    let p = spec_message_prefix_with_key(q, f);
    let x = seq![SEPARATOR] + id1;
    let y = seq![SEPARATOR] + id2;
    lemma_pow256_small();
    lemma_be_order(ts1 as nat, ts2 as nat, 8);
    lemma_be_bytes_len(ts1 as nat, 8);
    lemma_be_bytes_len(ts2 as nat, 8);
    lemma_lex_extend(be64(ts1), be64(ts2), x, y);
    lemma_lex_common_prefix(p, be64(ts1) + x, be64(ts2) + y);
    assert(spec_message_key(q, f, ts1, id1) == p + (be64(ts1) + x));
    assert(spec_message_key(q, f, ts2, id2) == p + (be64(ts2) + y));
}

/// Lease-expiry keys sort by expiry time, whatever queue and message they name.
pub proof fn law_lease_expiry_keys_ordered_by_timestamp(
    ts1: u64,
    ts2: u64,
    q1: Seq<u8>,
    q2: Seq<u8>,
    id1: Seq<u8>,
    id2: Seq<u8>,
)
    requires
        ts1 < ts2,
    ensures
        lex_lt(spec_lease_expiry_key(ts1, q1, id1), spec_lease_expiry_key(ts2, q2, id2)),
{
    let x = seq![SEPARATOR] + spec_encode_string(q1) + seq![SEPARATOR] + id1;
    let y = seq![SEPARATOR] + spec_encode_string(q2) + seq![SEPARATOR] + id2;
    lemma_pow256_small();
    lemma_be_order(ts1 as nat, ts2 as nat, 8);
    lemma_be_bytes_len(ts1 as nat, 8);
    lemma_be_bytes_len(ts2 as nat, 8);
    lemma_lex_extend(be64(ts1), be64(ts2), x, y);
    assert(spec_lease_expiry_key(ts1, q1, id1) == be64(ts1) + x);
    assert(spec_lease_expiry_key(ts2, q2, id2) == be64(ts2) + y);
}

/// Big-endian timestamps sort as the numbers do.
pub proof fn law_be64_order(a: u64, b: u64)
    requires
        a < b,
    ensures
        lex_lt(be64(a), be64(b)),
{
    lemma_pow256_small();
    lemma_be_order(a as nat, b as nat, 8);
}

/// Distinct components give distinct message keys: the length prefixes keep
/// strings of different lengths from colliding.
pub proof fn law_message_key_injective(
    q1: Seq<u8>,
    f1: Seq<u8>,
    ts1: u64,
    id1: Seq<u8>,
    q2: Seq<u8>,
    f2: Seq<u8>,
    ts2: u64,
    id2: Seq<u8>,
)
    requires
        (q1.len() as int) <= 0xFFFF,
        (q2.len() as int) <= 0xFFFF,
        (f1.len() as int) <= 0xFFFF,
        (f2.len() as int) <= 0xFFFF,
        spec_message_key(q1, f1, ts1, id1) == spec_message_key(q2, f2, ts2, id2),
    ensures
        q1 == q2,
        f1 == f2,
        ts1 == ts2,
        id1 == id2,
{
    let k = spec_message_key(q1, f1, ts1, id1);
    lemma_encode_string_facts(q1);
    lemma_encode_string_facts(q2);
    lemma_encode_string_facts(f1);
    lemma_encode_string_facts(f2);
    assert(k.subrange(0, 2) == spec_encode_string(q1).subrange(0, 2));
    assert(k.subrange(0, 2) == spec_encode_string(q2).subrange(0, 2));
    assert(q1 == k.subrange(2, 2 + (q1.len() as int)));
    assert(q2 == k.subrange(2, 2 + (q2.len() as int)));
    let o = 3 + (q1.len() as int);
    assert(k.subrange(o, o + 2) == spec_encode_string(f1).subrange(0, 2));
    assert(k.subrange(o, o + 2) == spec_encode_string(f2).subrange(0, 2));
    assert(f1 == k.subrange(o + 2, o + 2 + (f1.len() as int)));
    assert(f2 == k.subrange(o + 2, o + 2 + (f2.len() as int)));
    let t = o + 3 + (f1.len() as int);
    lemma_be_bytes_len(ts1 as nat, 8);
    lemma_be_bytes_len(ts2 as nat, 8);
    lemma_pow256_small();
    assert(be64(ts1) == k.subrange(t, t + 8));
    assert(be64(ts2) == k.subrange(t, t + 8));
    lemma_be_value_of_bytes(ts1 as nat, 8);
    lemma_be_value_of_bytes(ts2 as nat, 8);
    assert(id1 == k.subrange(t + 9, k.len() as int));
    assert(id2 == k.subrange(t + 9, k.len() as int));
}

} // verus!
