//! FIBP binary wire encoding and decoding for data operation payloads.
//!
//! Each data operation (enqueue, consume, ack, nack, flow) has a compact
//! binary representation defined here. All multi-byte integers are big-endian.
//! Strings are UTF-8 with a `u16` length prefix.

pub mod ack_nack_err;
pub mod enqueue_err;
pub mod roundtrip;

use vstd::prelude::*;
use vstd::utf8::*;
use crate::encoding::{be16, be32, be_value, lemma_be_value_bound, lemma_pow256_small, push_be, read_be};
use crate::fibp::error::FibpError;
use crate::lua::results::str_eq;
use crate::text::utf8_range;

verus! {

// ---------------------------------------------------------------------------
// Primitive readers / writers
// ---------------------------------------------------------------------------

/// The big-endian `u16` at `pos`.
pub open spec fn u16_at(s: Seq<u8>, pos: int) -> nat {
    be_value(s.subrange(pos, pos + 2))
}

/// The big-endian `u32` at `pos`.
pub open spec fn u32_at(s: Seq<u8>, pos: int) -> nat {
    be_value(s.subrange(pos, pos + 4))
}

/// The length-prefixed UTF-8 string at `pos` and the position after it, or
/// `None` when the bytes run out or are not UTF-8.
pub open spec fn spec_string16(s: Seq<u8>, pos: int) -> Option<(Seq<char>, int)> {
    if pos + 2 > s.len() {
        None
    } else {
        let end = pos + 2 + u16_at(s, pos);
        if end > s.len() || !valid_utf8(s.subrange(pos + 2, end)) {
            None
        } else {
            Some((decode_utf8(s.subrange(pos + 2, end)), end))
        }
    }
}

/// A string with its `u16` byte-length prefix. A length past `u16::MAX`
/// wraps in the prefix, as the cast on the wire does.
pub open spec fn string16_bytes(s: Seq<char>) -> Seq<u8> {
    be16(encode_utf8(s).len() as u16) + encode_utf8(s)
}

/// The decimal digits of `n`, as `Display` writes an unsigned integer.
pub open spec fn decimal_text(n: nat) -> Seq<char>
    decreases n,
{
    if n < 10 {
        seq![(n + 48) as char]
    } else {
        decimal_text(n / 10).push((n % 10 + 48) as char)
    }
}

/// The decimal digits of `n` as a string.
pub(crate) fn decimal_string(n: u64) -> (r: String)
    ensures
        r@ == decimal_text(n as nat),
    decreases n,
{
    if n < 10 {
        String::from_str(crate::fibp::dispatch::hex_digit(n as u8))
    } else {
        let mut s = decimal_string(n / 10);
        s.append(crate::fibp::dispatch::hex_digit((n % 10) as u8));
        s
    }
}

/// The reason given when a length runs past the end of a payload:
/// `{what} length {len} exceeds remaining {remaining} bytes`.
fn overrun_reason(what: &str, len: usize, remaining: usize) -> (r: String)
    ensures
        r@ == what@ + " length "@ + decimal_text(len as nat) + " exceeds remaining "@ + decimal_text(
            remaining as nat,
        ) + " bytes"@,
{
    let mut s = String::from_str(what);
    s.append(" length ");
    s.append(decimal_string(len as u64).as_str());
    s.append(" exceeds remaining ");
    s.append(decimal_string(remaining as u64).as_str());
    s.append(" bytes");
    s
}

fn end_of_payload(what: &str) -> (r: FibpError)
    ensures
        r is InvalidPayload,
{
    let mut reason = String::from_str("unexpected end of payload reading ");
    reason.append(what);
    FibpError::InvalidPayload { reason }
}

fn read_u8(buf: &[u8], pos: usize) -> (r: Result<(u8, usize), FibpError>)
    requires
        pos <= buf@.len(),
    ensures
        pos + 1 <= buf@.len() ==> (r matches Ok((v, p)) && v == buf@[pos as int] && p == pos + 1),
        pos + 1 > buf@.len() ==> r matches Err(FibpError::InvalidPayload { .. }),
{
    if buf.len() - pos < 1 {
        return Err(end_of_payload("u8"));
    }
    Ok((buf[pos], pos + 1))
}

fn read_u16(buf: &[u8], pos: usize) -> (r: Result<(u16, usize), FibpError>)
    requires
        pos <= buf@.len(),
    ensures
        pos + 2 <= buf@.len() ==> (r matches Ok((v, p)) && v == u16_at(buf@, pos as int) && p == pos + 2),
        pos + 2 > buf@.len() ==> r matches Err(FibpError::InvalidPayload { .. }),
{
    if buf.len() - pos < 2 {
        return Err(end_of_payload("u16"));
    }
    let v = read_be(buf, pos, 2);
    Ok((v as u16, pos + 2))
}

fn read_u32(buf: &[u8], pos: usize) -> (r: Result<(u32, usize), FibpError>)
    requires
        pos <= buf@.len(),
    ensures
        pos + 4 <= buf@.len() ==> (r matches Ok((v, p)) && v == u32_at(buf@, pos as int) && p == pos + 4),
        pos + 4 > buf@.len() ==> r matches Err(FibpError::InvalidPayload { .. }),
{
    if buf.len() - pos < 4 {
        return Err(end_of_payload("u32"));
    }
    let v = read_be(buf, pos, 4);
    proof {
        lemma_pow256_small();
        lemma_be_value_bound(buf@.subrange(pos as int, pos + 4));
    }
    Ok((v as u32, pos + 4))
}

fn read_string16(buf: &[u8], pos: usize) -> (r: Result<(String, usize), FibpError>)
    requires
        pos <= buf@.len(),
    ensures
        match spec_string16(buf@, pos as int) {
            Some((s, next)) => r matches Ok((t, p)) && t@ == s && p == next,
            None => r matches Err(FibpError::InvalidPayload { .. }),
        },
{
    let (len, p) = match read_u16(buf, pos) {
        Ok(x) => x,
        Err(e) => return Err(e),
    };
    let len = len as usize;
    if buf.len() - p < len {
        return Err(FibpError::InvalidPayload { reason: overrun_reason("string", len, buf.len() - p) });
    }
    match utf8_range(buf, p, p + len) {
        Ok(s) => Ok((s, p + len)),
        Err(e) => {
            let mut reason = String::from_str("invalid utf8: ");
            reason.append(e.as_str());
            Err(FibpError::InvalidPayload { reason })
        },
    }
}

fn write_string16(buf: &mut Vec<u8>, s: &str)
    ensures
        final(buf)@ == old(buf)@ + string16_bytes(s@),
{
    let b = s.as_bytes();
    push_be(buf, (b.len() as u16) as u64, 2);
    crate::encoding::append_bytes(buf, b);
}

// ---------------------------------------------------------------------------
// Headers
// ---------------------------------------------------------------------------

/// The position of the last entry for key `k`, or -1 when there is none.
pub open spec fn find_key(h: Seq<(Seq<char>, Seq<char>)>, k: Seq<char>) -> int
    decreases h.len(),
{
    if h.len() == 0 {
        -1
    } else if h.last().0 == k {
        h.len() - 1
    } else {
        find_key(h.drop_last(), k)
    }
}

/// Headers after setting `k` to `v`: an entry already held for `k` takes the
/// new value in its place; otherwise the pair goes at the end.
pub open spec fn header_insert(h: Seq<(Seq<char>, Seq<char>)>, k: Seq<char>, v: Seq<char>) -> Seq<
    (Seq<char>, Seq<char>),
> {
    let i = find_key(h, k);
    if i >= 0 {
        h.update(i, (k, v))
    } else {
        h.push((k, v))
    }
}

/// The value held for key `k`, if any.
pub open spec fn header_lookup(h: Seq<(Seq<char>, Seq<char>)>, k: Seq<char>) -> Option<Seq<char>> {
    let i = find_key(h, k);
    if i >= 0 {
        Some(h[i].1)
    } else {
        None
    }
}

/// The headers as pairs of character strings.
pub open spec fn headers_view(h: Seq<(String, String)>) -> Seq<(Seq<char>, Seq<char>)> {
    h.map_values(|p: (String, String)| (p.0@, p.1@))
}

pub(crate) proof fn lemma_find_key_bounds(h: Seq<(Seq<char>, Seq<char>)>, k: Seq<char>)
    ensures
        -1 <= find_key(h, k) < h.len(),
        find_key(h, k) >= 0 ==> h[find_key(h, k)].0 == k,
        forall|j: int| find_key(h, k) < j < h.len() ==> h[j].0 != k,
    decreases h.len(),
{
    if h.len() > 0 && h.last().0 != k {
        let d = h.drop_last();
        lemma_find_key_bounds(d, k);
        if find_key(d, k) >= 0 {
            assert(h[find_key(d, k)] == d[find_key(d, k)]);
        }
        assert forall|j: int| find_key(h, k) < j < h.len() implies h[j].0 != k by {
            if j < h.len() - 1 {
                assert(h[j] == d[j]);
            }
        }
    }
}

/// Two header lists whose keys agree place every key alike.
proof fn lemma_find_key_same_keys(a: Seq<(Seq<char>, Seq<char>)>, b: Seq<(Seq<char>, Seq<char>)>, k: Seq<char>)
    requires
        a.len() == b.len(),
        forall|j: int| 0 <= j < a.len() ==> a[j].0 == b[j].0,
    ensures
        find_key(a, k) == find_key(b, k),
    decreases a.len(),
{
    if a.len() > 0 {
        lemma_find_key_same_keys(a.drop_last(), b.drop_last(), k);
    }
}

/// After setting a key, looking it up gives the new value, and every other
/// key keeps what it held.
pub proof fn law_header_insert_lookup(h: Seq<(Seq<char>, Seq<char>)>, k: Seq<char>, v: Seq<char>, other: Seq<char>)
    requires
        other != k,
    ensures
        header_lookup(header_insert(h, k, v), k) == Some(v),
        header_lookup(header_insert(h, k, v), other) == header_lookup(h, other),
{
    let i = find_key(h, k);
    lemma_find_key_bounds(h, k);
    let h2 = header_insert(h, k, v);
    if i >= 0 {
        lemma_find_key_same_keys(h2, h, k);
        lemma_find_key_same_keys(h2, h, other);
        lemma_find_key_bounds(h, other);
    } else {
        assert(h2.drop_last() == h);
        lemma_find_key_bounds(h, other);
    }
}

/// Set `key` to `value` in `headers`: an existing entry for the key takes the
/// new value in its place, otherwise the pair is appended.
pub fn insert_header(headers: &mut Vec<(String, String)>, key: String, value: String)
    ensures
        headers_view(final(headers)@) == header_insert(headers_view(old(headers)@), key@, value@),
{
    let ghost hv = headers_view(headers@);
    let n = headers.len();
    let mut found: usize = n;
    let mut i: usize = 0;
    while i < n
        invariant
            n == headers@.len(),
            hv == headers_view(headers@),
            i <= n,
            found == n ==> find_key(hv.subrange(0, i as int), key@) == -1,
            found < n ==> found < i && find_key(hv.subrange(0, i as int), key@) == found,
            found <= n,
        decreases n - i,
    {
        assert(hv.subrange(0, i + 1).drop_last() == hv.subrange(0, i as int));
        if str_eq(headers[i].0.as_str(), key.as_str()) {
            found = i;
        }
        i = i + 1;
    }
    assert(hv.subrange(0, n as int) == hv);
    if found < n {
        headers.set(found, (key, value));
    } else {
        headers.push((key, value));
    }
    assert(headers_view(headers@) =~= header_insert(hv, key@, value@));
}

/// The value held for `key` in `headers`, if any.
pub fn header_value<'a>(headers: &'a [(String, String)], key: &str) -> (r: Option<&'a String>)
    ensures
        match header_lookup(headers_view(headers@), key@) {
            Some(v) => r matches Some(s) && s@ == v,
            None => r is None,
        },
{
    let ghost hv = headers_view(headers@);
    let n = headers.len();
    let mut i: usize = n;
    assert(hv.subrange(0, n as int) == hv);
    while i > 0
        invariant
            n == headers@.len(),
            hv == headers_view(headers@),
            i <= n,
            find_key(hv, key@) == find_key(hv.subrange(0, i as int), key@),
        decreases i,
    {
        assert(hv.subrange(0, i as int).drop_last() == hv.subrange(0, i - 1));
        if str_eq(headers[i - 1].0.as_str(), key) {
            return Some(&headers[i - 1].1);
        }
        i = i - 1;
    }
    None
}

// ---------------------------------------------------------------------------
// Enqueue request / response
// ---------------------------------------------------------------------------

/// A single message in an enqueue request.
#[derive(Debug, Clone)]
pub struct WireEnqueueMessage {
    pub headers: Vec<(String, String)>,
    pub payload: Vec<u8>,
}

/// The content of an enqueued message: its headers and payload bytes.
pub struct WireEnqueueMessageView {
    pub headers: Seq<(Seq<char>, Seq<char>)>,
    pub payload: Seq<u8>,
}

impl View for WireEnqueueMessage {
    type V = WireEnqueueMessageView;

    open spec fn view(&self) -> WireEnqueueMessageView {
        WireEnqueueMessageView { headers: headers_view(self.headers@), payload: self.payload@ }
    }
}

impl WireEnqueueMessage {
    /// The value of header `key`, if the message has one.
    pub fn header(&self, key: &str) -> (r: Option<&String>)
        ensures
            match header_lookup(self@.headers, key@) {
                Some(v) => r matches Some(s) && s@ == v,
                None => r is None,
            },
    {
        header_value(self.headers.as_slice(), key)
    }
}

/// Parsed enqueue request payload.
#[derive(Debug)]
pub struct EnqueueRequest {
    pub queue: String,
    pub messages: Vec<WireEnqueueMessage>,
}

/// The content of an enqueue request.
pub struct EnqueueRequestView {
    pub queue: Seq<char>,
    pub messages: Seq<WireEnqueueMessageView>,
}

impl View for EnqueueRequest {
    type V = EnqueueRequestView;

    open spec fn view(&self) -> EnqueueRequestView {
        EnqueueRequestView { queue: self.queue@, messages: self.messages@.map_values(|m: WireEnqueueMessage| m@) }
    }
}

/// Reads `count` header pairs from `pos` into `acc`, a later pair for a key
/// replacing an earlier one; gives the headers and the position after them.
pub open spec fn spec_headers(s: Seq<u8>, pos: int, count: nat, acc: Seq<(Seq<char>, Seq<char>)>) -> Option<
    (Seq<(Seq<char>, Seq<char>)>, int),
>
    decreases count,
{
    if count == 0 {
        Some((acc, pos))
    } else {
        match spec_string16(s, pos) {
            None => None,
            Some((k, p1)) => match spec_string16(s, p1) {
                None => None,
                Some((v, p2)) => spec_headers(s, p2, (count - 1) as nat, header_insert(acc, k, v)),
            },
        }
    }
}

/// Reads one message at `pos`: a `u8` header count, the headers, a `u32`
/// payload length and the payload.
pub open spec fn spec_message(s: Seq<u8>, pos: int) -> Option<(WireEnqueueMessageView, int)> {
    if pos + 1 > s.len() {
        None
    } else {
        match spec_headers(s, pos + 1, s[pos] as nat, Seq::empty()) {
            None => None,
            Some((h, p)) => if p + 4 > s.len() {
                None
            } else {
                let end = p + 4 + u32_at(s, p);
                if end > s.len() {
                    None
                } else {
                    Some((WireEnqueueMessageView { headers: h, payload: s.subrange(p + 4, end) }, end))
                }
            },
        }
    }
}

/// Reads `count` messages from `pos`, after those in `acc`.
pub open spec fn spec_messages(s: Seq<u8>, pos: int, count: nat, acc: Seq<WireEnqueueMessageView>) -> Option<
    (Seq<WireEnqueueMessageView>, int),
>
    decreases count,
{
    if count == 0 {
        Some((acc, pos))
    } else {
        match spec_message(s, pos) {
            None => None,
            Some((m, p)) => spec_messages(s, p, (count - 1) as nat, acc.push(m)),
        }
    }
}

/// An enqueue request: the queue name, a `u16` message count and the
/// messages. Bytes after the last message are ignored.
pub open spec fn spec_decode_enqueue_request(s: Seq<u8>) -> Option<EnqueueRequestView> {
    match spec_string16(s, 0) {
        None => None,
        Some((q, p)) => if p + 2 > s.len() {
            None
        } else {
            match spec_messages(s, p + 2, u16_at(s, p), Seq::empty()) {
                None => None,
                Some((ms, _)) => Some(EnqueueRequestView { queue: q, messages: ms }),
            }
        },
    }
}

fn read_headers(buf: &[u8], pos: usize, count: u8) -> (r: Result<(Vec<(String, String)>, usize), FibpError>)
    requires
        pos <= buf@.len(),
    ensures
        match spec_headers(buf@, pos as int, count as nat, Seq::empty()) {
            Some((h, next)) => r matches Ok((v, p)) && headers_view(v@) == h && p == next,
            None => r matches Err(FibpError::InvalidPayload { .. }),
        },
        r matches Ok((_, p)) ==> p <= buf@.len(),
{
    let mut headers: Vec<(String, String)> = Vec::new();
    let mut p = pos;
    let mut j: u8 = 0;
    assert(headers_view(headers@) =~= Seq::<(Seq<char>, Seq<char>)>::empty());
    while j < count
        invariant
            p <= buf@.len(),
            j <= count,
            spec_headers(buf@, pos as int, count as nat, Seq::empty()) == spec_headers(
                buf@,
                p as int,
                (count - j) as nat,
                headers_view(headers@),
            ),
        decreases count - j,
    {
        let (key, p1) = match read_string16(buf, p) {
            Ok(x) => x,
            Err(e) => return Err(e),
        };
        let (val, p2) = match read_string16(buf, p1) {
            Ok(x) => x,
            Err(e) => return Err(e),
        };
        insert_header(&mut headers, key, val);
        p = p2;
        j = j + 1;
    }
    Ok((headers, p))
}

fn read_message(buf: &[u8], pos: usize) -> (r: Result<(WireEnqueueMessage, usize), FibpError>)
    requires
        pos <= buf@.len(),
    ensures
        match spec_message(buf@, pos as int) {
            Some((m, next)) => r matches Ok((v, p)) && v@ == m && p == next,
            None => r matches Err(FibpError::InvalidPayload { .. }),
        },
        r matches Ok((_, p)) ==> p <= buf@.len(),
{
    let (header_count, p) = match read_u8(buf, pos) {
        Ok(x) => x,
        Err(e) => return Err(e),
    };
    let (headers, p) = match read_headers(buf, p, header_count) {
        Ok(x) => x,
        Err(e) => return Err(e),
    };
    let (payload_len, p) = match read_u32(buf, p) {
        Ok(x) => x,
        Err(e) => return Err(e),
    };
    let payload_len = payload_len as usize;
    if buf.len() - p < payload_len {
        return Err(FibpError::InvalidPayload { reason: overrun_reason("payload", payload_len, buf.len() - p) });
    }
    let payload = crate::text::copy_range(buf, p, p + payload_len);
    Ok((WireEnqueueMessage { headers, payload }, p + payload_len))
}

/// Decode an enqueue request from the frame payload.
pub fn decode_enqueue_request(buf: &[u8]) -> (r: Result<EnqueueRequest, FibpError>)
    ensures
        match spec_decode_enqueue_request(buf@) {
            Some(req) => r matches Ok(v) && v@ == req,
            None => r matches Err(FibpError::InvalidPayload { .. }),
        },
{
    let (queue, p) = match read_string16(buf, 0) {
        Ok(x) => x,
        Err(e) => return Err(e),
    };
    let (msg_count, p) = match read_u16(buf, p) {
        Ok(x) => x,
        Err(e) => return Err(e),
    };
    let mut messages: Vec<WireEnqueueMessage> = Vec::new();
    let mut p = p;
    let mut j: u16 = 0;
    let ghost start = p;
    assert(messages@.map_values(|m: WireEnqueueMessage| m@) =~= Seq::<WireEnqueueMessageView>::empty());
    while j < msg_count
        invariant
            p <= buf@.len(),
            j <= msg_count,
            spec_messages(buf@, start as int, msg_count as nat, Seq::empty()) == spec_messages(
                buf@,
                p as int,
                (msg_count - j) as nat,
                messages@.map_values(|m: WireEnqueueMessage| m@),
            ),
            spec_decode_enqueue_request(buf@) == match spec_messages(buf@, start as int, msg_count as nat, Seq::empty()) {
                None => None,
                Some((ms, _)) => Some(EnqueueRequestView { queue: queue@, messages: ms }),
            },
        decreases msg_count - j,
    {
        let (m, p1) = match read_message(buf, p) {
            Ok(x) => x,
            Err(e) => return Err(e),
        };
        let ghost before = messages@.map_values(|m: WireEnqueueMessage| m@);
        messages.push(m);
        assert(messages@.map_values(|m: WireEnqueueMessage| m@) =~= before.push(m@));
        p = p1;
        j = j + 1;
    }
    Ok(EnqueueRequest { queue, messages })
}

/// A single result in the enqueue response.
#[derive(Debug)]
pub enum EnqueueResultItem {
    /// The message was stored under this id.
    Success { msg_id: String },
    /// The message was refused.
    Failure { code: u16, message: String },
}

/// The bytes of one enqueue result: `1` and the message id, or `0`, the
/// error code and the error message.
pub open spec fn enqueue_result_bytes(item: EnqueueResultItem) -> Seq<u8> {
    match item {
        EnqueueResultItem::Success { msg_id } => seq![1u8] + string16_bytes(msg_id@),
        EnqueueResultItem::Failure { code, message } => seq![0u8] + be16(code) + string16_bytes(message@),
    }
}

/// The bytes of a run of enqueue results, one after another.
pub open spec fn enqueue_results_bytes(items: Seq<EnqueueResultItem>) -> Seq<u8>
    decreases items.len(),
{
    if items.len() == 0 {
        Seq::empty()
    } else {
        enqueue_results_bytes(items.drop_last()) + enqueue_result_bytes(items.last())
    }
}

/// An enqueue response: a `u16` result count (wrapping past `u16::MAX`, as
/// the cast on the wire does) and the results.
pub open spec fn spec_encode_enqueue_response(items: Seq<EnqueueResultItem>) -> Seq<u8> {
    be16(items.len() as u16) + enqueue_results_bytes(items)
}

/// Encode an enqueue response payload.
pub fn encode_enqueue_response(results: &[EnqueueResultItem]) -> (r: Vec<u8>)
    ensures
        r@ == spec_encode_enqueue_response(results@),
{
    let mut buf: Vec<u8> = Vec::new();
    push_be(&mut buf, (results.len() as u16) as u64, 2);
    let mut i: usize = 0;
    while i < results.len()
        invariant
            i <= results@.len(),
            buf@ == be16(results@.len() as u16) + enqueue_results_bytes(results@.subrange(0, i as int)),
        decreases results@.len() - i,
    {
        assert(results@.subrange(0, i + 1).drop_last() == results@.subrange(0, i as int));
        match &results[i] {
            EnqueueResultItem::Success { msg_id } => {
                buf.push(1u8);
                write_string16(&mut buf, msg_id.as_str());
            },
            EnqueueResultItem::Failure { code, message } => {
                buf.push(0u8);
                push_be(&mut buf, *code as u64, 2);
                write_string16(&mut buf, message.as_str());
            },
        }
        i = i + 1;
    }
    assert(results@.subrange(0, results@.len() as int) == results@);
    buf
}

// ---------------------------------------------------------------------------
// Consume request
// ---------------------------------------------------------------------------

/// Parsed consume request payload.
#[derive(Debug)]
pub struct ConsumeRequest {
    pub queue: String,
    pub initial_credits: u32,
}

/// A consume request: the queue name and a `u32` of initial credits.
pub open spec fn spec_decode_consume_request(s: Seq<u8>) -> Option<(Seq<char>, u32)> {
    match spec_string16(s, 0) {
        None => None,
        Some((q, p)) => if p + 4 > s.len() {
            None
        } else {
            Some((q, u32_at(s, p) as u32))
        },
    }
}

/// Decode a consume request from the frame payload.
pub fn decode_consume_request(buf: &[u8]) -> (r: Result<ConsumeRequest, FibpError>)
    ensures
        match spec_decode_consume_request(buf@) {
            Some((q, c)) => r matches Ok(v) && v.queue@ == q && v.initial_credits == c,
            None => r matches Err(FibpError::InvalidPayload { .. }),
        },
{
    let (queue, p) = match read_string16(buf, 0) {
        Ok(x) => x,
        Err(e) => return Err(e),
    };
    let (initial_credits, _) = match read_u32(buf, p) {
        Ok(x) => x,
        Err(e) => return Err(e),
    };
    Ok(ConsumeRequest { queue, initial_credits })
}

// ---------------------------------------------------------------------------
// Consume push frame (server → client)
// ---------------------------------------------------------------------------

/// A message prepared for the consume push frame.
#[derive(Debug)]
pub struct ConsumePushMessage {
    pub msg_id: String,
    pub fairness_key: String,
    pub attempt_count: u32,
    pub headers: Vec<(String, String)>,
    pub payload: Vec<u8>,
}

/// The bytes of header pairs, each key then its value.
pub open spec fn headers_bytes(h: Seq<(Seq<char>, Seq<char>)>) -> Seq<u8>
    decreases h.len(),
{
    if h.len() == 0 {
        Seq::empty()
    } else {
        headers_bytes(h.drop_last()) + string16_bytes(h.last().0) + string16_bytes(h.last().1)
    }
}

/// The bytes of one pushed message. Counts and lengths past the width of
/// their field wrap, as the casts on the wire do.
pub open spec fn push_message_bytes(m: ConsumePushMessage) -> Seq<u8> {
    string16_bytes(m.msg_id@) + string16_bytes(m.fairness_key@) + be32(m.attempt_count) + seq![
        m.headers@.len() as u8,
    ] + headers_bytes(headers_view(m.headers@)) + be32(m.payload@.len() as u32) + m.payload@
}

/// The bytes of a run of pushed messages.
pub open spec fn push_messages_bytes(ms: Seq<ConsumePushMessage>) -> Seq<u8>
    decreases ms.len(),
{
    if ms.len() == 0 {
        Seq::empty()
    } else {
        push_messages_bytes(ms.drop_last()) + push_message_bytes(ms.last())
    }
}

/// A consume push payload: a `u16` message count and the messages.
pub open spec fn spec_encode_consume_push(ms: Seq<ConsumePushMessage>) -> Seq<u8> {
    be16(ms.len() as u16) + push_messages_bytes(ms)
}

fn write_headers(buf: &mut Vec<u8>, headers: &[(String, String)])
    ensures
        final(buf)@ == old(buf)@ + headers_bytes(headers_view(headers@)),
{
    let ghost hv = headers_view(headers@);
    let mut i: usize = 0;
    while i < headers.len()
        invariant
            i <= headers@.len(),
            hv == headers_view(headers@),
            buf@ == old(buf)@ + headers_bytes(hv.subrange(0, i as int)),
        decreases headers@.len() - i,
    {
        assert(hv.subrange(0, i + 1).drop_last() == hv.subrange(0, i as int));
        write_string16(buf, headers[i].0.as_str());
        write_string16(buf, headers[i].1.as_str());
        i = i + 1;
    }
    assert(hv.subrange(0, headers@.len() as int) == hv);
}

fn write_push_message(buf: &mut Vec<u8>, msg: &ConsumePushMessage)
    ensures
        final(buf)@ == old(buf)@ + push_message_bytes(*msg),
{
    let ghost start = buf@;
    write_string16(buf, msg.msg_id.as_str());
    write_string16(buf, msg.fairness_key.as_str());
    push_be(buf, msg.attempt_count as u64, 4);
    buf.push(msg.headers.len() as u8);
    write_headers(buf, msg.headers.as_slice());
    push_be(buf, (msg.payload.len() as u32) as u64, 4);
    crate::encoding::append_bytes(buf, msg.payload.as_slice());
    assert(buf@ =~= start + push_message_bytes(*msg));
}

/// Encode a batch of ready messages as a consume push payload.
pub fn encode_consume_push(messages: &[ConsumePushMessage]) -> (r: Vec<u8>)
    ensures
        r@ == spec_encode_consume_push(messages@),
{
    let mut buf: Vec<u8> = Vec::new();
    push_be(&mut buf, (messages.len() as u16) as u64, 2);
    let mut i: usize = 0;
    while i < messages.len()
        invariant
            i <= messages@.len(),
            buf@ == be16(messages@.len() as u16) + push_messages_bytes(messages@.subrange(0, i as int)),
        decreases messages@.len() - i,
    {
        assert(messages@.subrange(0, i + 1).drop_last() == messages@.subrange(0, i as int));
        write_push_message(&mut buf, &messages[i]);
        i = i + 1;
    }
    assert(messages@.subrange(0, messages@.len() as int) == messages@);
    buf
}

// ---------------------------------------------------------------------------
// Flow (credit update)
// ---------------------------------------------------------------------------

/// A flow payload: a `u32` of credits.
pub open spec fn spec_decode_flow(s: Seq<u8>) -> Option<u32> {
    if s.len() < 4 {
        None
    } else {
        Some(u32_at(s, 0) as u32)
    }
}

/// Decode a flow (credit) frame payload.
pub fn decode_flow(buf: &[u8]) -> (r: Result<u32, FibpError>)
    ensures
        match spec_decode_flow(buf@) {
            Some(c) => r == Ok::<u32, FibpError>(c),
            None => r matches Err(FibpError::InvalidPayload { .. }),
        },
{
    match read_u32(buf, 0) {
        Ok((c, _)) => Ok(c),
        Err(e) => Err(e),
    }
}

// ---------------------------------------------------------------------------
// Ack request / response
// ---------------------------------------------------------------------------

/// A single item in an ack request.
#[derive(Debug)]
pub struct AckItem {
    pub queue: String,
    pub msg_id: String,
}

impl View for AckItem {
    type V = (Seq<char>, Seq<char>);

    open spec fn view(&self) -> (Seq<char>, Seq<char>) {
        (self.queue@, self.msg_id@)
    }
}

/// Reads `count` (queue, message id) pairs from `pos`, after those in `acc`.
pub open spec fn spec_ack_items(s: Seq<u8>, pos: int, count: nat, acc: Seq<(Seq<char>, Seq<char>)>) -> Option<
    Seq<(Seq<char>, Seq<char>)>,
>
    decreases count,
{
    if count == 0 {
        Some(acc)
    } else {
        match spec_string16(s, pos) {
            None => None,
            Some((q, p1)) => match spec_string16(s, p1) {
                None => None,
                Some((m, p2)) => spec_ack_items(s, p2, (count - 1) as nat, acc.push((q, m))),
            },
        }
    }
}

/// An ack request: a `u16` item count and the items.
pub open spec fn spec_decode_ack_request(s: Seq<u8>) -> Option<Seq<(Seq<char>, Seq<char>)>> {
    if s.len() < 2 {
        None
    } else {
        spec_ack_items(s, 2, u16_at(s, 0), Seq::empty())
    }
}

/// Decode an ack request payload.
pub fn decode_ack_request(buf: &[u8]) -> (r: Result<Vec<AckItem>, FibpError>)
    ensures
        match spec_decode_ack_request(buf@) {
            Some(items) => r matches Ok(v) && v@.map_values(|a: AckItem| a@) == items,
            None => r matches Err(FibpError::InvalidPayload { .. }),
        },
{
    let (count, p) = match read_u16(buf, 0) {
        Ok(x) => x,
        Err(e) => return Err(e),
    };
    let mut items: Vec<AckItem> = Vec::new();
    let mut p = p;
    let mut j: u16 = 0;
    assert(items@.map_values(|a: AckItem| a@) =~= Seq::<(Seq<char>, Seq<char>)>::empty());
    while j < count
        invariant
            p <= buf@.len(),
            j <= count,
            spec_decode_ack_request(buf@) == spec_ack_items(
                buf@,
                p as int,
                (count - j) as nat,
                items@.map_values(|a: AckItem| a@),
            ),
        decreases count - j,
    {
        let (queue, p1) = match read_string16(buf, p) {
            Ok(x) => x,
            Err(e) => return Err(e),
        };
        let (msg_id, p2) = match read_string16(buf, p1) {
            Ok(x) => x,
            Err(e) => return Err(e),
        };
        let ghost before = items@.map_values(|a: AckItem| a@);
        let item = AckItem { queue, msg_id };
        let ghost iv = item@;
        items.push(item);
        assert(items@.map_values(|a: AckItem| a@) =~= before.push(iv));
        p = p2;
        j = j + 1;
    }
    Ok(items)
}

/// A single item in a nack request.
#[derive(Debug)]
pub struct NackItem {
    pub queue: String,
    pub msg_id: String,
    pub error: String,
}

impl View for NackItem {
    type V = (Seq<char>, Seq<char>, Seq<char>);

    open spec fn view(&self) -> (Seq<char>, Seq<char>, Seq<char>) {
        (self.queue@, self.msg_id@, self.error@)
    }
}

/// Reads `count` (queue, message id, error) triples from `pos`, after those
/// in `acc`.
pub open spec fn spec_nack_items(
    s: Seq<u8>,
    pos: int,
    count: nat,
    acc: Seq<(Seq<char>, Seq<char>, Seq<char>)>,
) -> Option<Seq<(Seq<char>, Seq<char>, Seq<char>)>>
    decreases count,
{
    if count == 0 {
        Some(acc)
    } else {
        match spec_string16(s, pos) {
            None => None,
            Some((q, p1)) => match spec_string16(s, p1) {
                None => None,
                Some((m, p2)) => match spec_string16(s, p2) {
                    None => None,
                    Some((e, p3)) => spec_nack_items(s, p3, (count - 1) as nat, acc.push((q, m, e))),
                },
            },
        }
    }
}

/// A nack request: a `u16` item count and the items.
pub open spec fn spec_decode_nack_request(s: Seq<u8>) -> Option<Seq<(Seq<char>, Seq<char>, Seq<char>)>> {
    if s.len() < 2 {
        None
    } else {
        spec_nack_items(s, 2, u16_at(s, 0), Seq::empty())
    }
}

/// Decode a nack request payload.
pub fn decode_nack_request(buf: &[u8]) -> (r: Result<Vec<NackItem>, FibpError>)
    ensures
        match spec_decode_nack_request(buf@) {
            Some(items) => r matches Ok(v) && v@.map_values(|a: NackItem| a@) == items,
            None => r matches Err(FibpError::InvalidPayload { .. }),
        },
{
    let (count, p) = match read_u16(buf, 0) {
        Ok(x) => x,
        Err(e) => return Err(e),
    };
    let mut items: Vec<NackItem> = Vec::new();
    let mut p = p;
    let mut j: u16 = 0;
    assert(items@.map_values(|a: NackItem| a@) =~= Seq::<(Seq<char>, Seq<char>, Seq<char>)>::empty());
    while j < count
        invariant
            p <= buf@.len(),
            j <= count,
            spec_decode_nack_request(buf@) == spec_nack_items(
                buf@,
                p as int,
                (count - j) as nat,
                items@.map_values(|a: NackItem| a@),
            ),
        decreases count - j,
    {
        let (queue, p1) = match read_string16(buf, p) {
            Ok(x) => x,
            Err(e) => return Err(e),
        };
        let (msg_id, p2) = match read_string16(buf, p1) {
            Ok(x) => x,
            Err(e) => return Err(e),
        };
        let (error, p3) = match read_string16(buf, p2) {
            Ok(x) => x,
            Err(e) => return Err(e),
        };
        let ghost before = items@.map_values(|a: NackItem| a@);
        let item = NackItem { queue, msg_id, error };
        let ghost iv = item@;
        items.push(item);
        assert(items@.map_values(|a: NackItem| a@) =~= before.push(iv));
        p = p3;
        j = j + 1;
    }
    Ok(items)
}

/// A single result in the ack/nack response.
#[derive(Debug)]
pub enum AckNackResultItem {
    /// The message was acknowledged (or nacked) as asked.
    Success,
    /// The request was refused.
    Failure { code: u16, message: String },
}

/// The bytes of one ack/nack result: `1`, or `0`, the error code and the
/// error message.
pub open spec fn ack_nack_result_bytes(item: AckNackResultItem) -> Seq<u8> {
    match item {
        AckNackResultItem::Success => seq![1u8],
        AckNackResultItem::Failure { code, message } => seq![0u8] + be16(code) + string16_bytes(message@),
    }
}

/// The bytes of a run of ack/nack results.
pub open spec fn ack_nack_results_bytes(items: Seq<AckNackResultItem>) -> Seq<u8>
    decreases items.len(),
{
    if items.len() == 0 {
        Seq::empty()
    } else {
        ack_nack_results_bytes(items.drop_last()) + ack_nack_result_bytes(items.last())
    }
}

/// An ack/nack response: a `u16` result count (wrapping past `u16::MAX`) and
/// the results.
pub open spec fn spec_encode_ack_nack_response(items: Seq<AckNackResultItem>) -> Seq<u8> {
    be16(items.len() as u16) + ack_nack_results_bytes(items)
}

/// Encode an ack or nack response payload.
pub fn encode_ack_nack_response(results: &[AckNackResultItem]) -> (r: Vec<u8>)
    ensures
        r@ == spec_encode_ack_nack_response(results@),
{
    let mut buf: Vec<u8> = Vec::new();
    push_be(&mut buf, (results.len() as u16) as u64, 2);
    let mut i: usize = 0;
    while i < results.len()
        invariant
            i <= results@.len(),
            buf@ == be16(results@.len() as u16) + ack_nack_results_bytes(results@.subrange(0, i as int)),
        decreases results@.len() - i,
    {
        assert(results@.subrange(0, i + 1).drop_last() == results@.subrange(0, i as int));
        match &results[i] {
            AckNackResultItem::Success => {
                buf.push(1u8);
            },
            AckNackResultItem::Failure { code, message } => {
                buf.push(0u8);
                push_be(&mut buf, *code as u64, 2);
                write_string16(&mut buf, message.as_str());
            },
        }
        i = i + 1;
    }
    assert(results@.subrange(0, results@.len() as int) == results@);
    buf
}

} // verus!
