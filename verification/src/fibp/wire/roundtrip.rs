//! The request encodings a client writes, and proofs that the decoders read
//! them back.

use vstd::prelude::*;
use vstd::utf8::*;
use crate::encoding::{be16, be32, be_bytes, lemma_be_bytes_len, lemma_be_value_of_bytes, lemma_pow256_small};
use crate::fibp::wire::{
    find_key, header_insert, lemma_find_key_bounds, headers_bytes, spec_ack_items, spec_decode_ack_request, spec_decode_consume_request,
    spec_decode_enqueue_request, spec_decode_flow, spec_decode_nack_request, spec_headers, spec_message,
    spec_messages, spec_nack_items, spec_string16, string16_bytes, u16_at, u32_at, EnqueueRequestView,
    WireEnqueueMessageView, headers_view, push_message_bytes, push_messages_bytes, spec_encode_consume_push,
    ConsumePushMessage,
};

verus! {

/// A string whose UTF-8 bytes fit a `u16` length prefix.
pub open spec fn fits16(s: Seq<char>) -> bool {
    encode_utf8(s).len() <= 0xFFFF
}

/// No key occurs twice.
pub open spec fn keys_unique(h: Seq<(Seq<char>, Seq<char>)>) -> bool {
    forall|i: int, j: int| 0 <= i < j < h.len() ==> h[i].0 != h[j].0
}

/// A consume request as a client writes it.
pub open spec fn spec_encode_consume_request(queue: Seq<char>, credits: u32) -> Seq<u8> {
    string16_bytes(queue) + be32(credits)
}

/// A flow payload as a client writes it.
pub open spec fn spec_encode_flow(credits: u32) -> Seq<u8> {
    be32(credits)
}

/// Ack items as a client writes them, one after another.
pub open spec fn ack_items_bytes(items: Seq<(Seq<char>, Seq<char>)>) -> Seq<u8>
    decreases items.len(),
{
    if items.len() == 0 {
        Seq::empty()
    } else {
        string16_bytes(items[0].0) + string16_bytes(items[0].1) + ack_items_bytes(items.subrange(1, items.len() as int))
    }
}

/// An ack request as a client writes it.
pub open spec fn spec_encode_ack_request(items: Seq<(Seq<char>, Seq<char>)>) -> Seq<u8> {
    be16(items.len() as u16) + ack_items_bytes(items)
}

/// Nack items as a client writes them, one after another.
pub open spec fn nack_items_bytes(items: Seq<(Seq<char>, Seq<char>, Seq<char>)>) -> Seq<u8>
    decreases items.len(),
{
    if items.len() == 0 {
        Seq::empty()
    } else {
        string16_bytes(items[0].0) + string16_bytes(items[0].1) + string16_bytes(items[0].2) + nack_items_bytes(
            items.subrange(1, items.len() as int),
        )
    }
}

/// A nack request as a client writes it.
pub open spec fn spec_encode_nack_request(items: Seq<(Seq<char>, Seq<char>, Seq<char>)>) -> Seq<u8> {
    be16(items.len() as u16) + nack_items_bytes(items)
}

/// Header pairs as a client writes them, first to last.
pub open spec fn header_pairs_bytes(h: Seq<(Seq<char>, Seq<char>)>) -> Seq<u8>
    decreases h.len(),
{
    if h.len() == 0 {
        Seq::empty()
    } else {
        string16_bytes(h[0].0) + string16_bytes(h[0].1) + header_pairs_bytes(h.subrange(1, h.len() as int))
    }
}

/// One message of an enqueue request as a client writes it.
pub open spec fn message_bytes(m: WireEnqueueMessageView) -> Seq<u8> {
    seq![m.headers.len() as u8] + header_pairs_bytes(m.headers) + be32(m.payload.len() as u32) + m.payload
}

/// The messages of an enqueue request, one after another.
pub open spec fn messages_bytes(ms: Seq<WireEnqueueMessageView>) -> Seq<u8>
    decreases ms.len(),
{
    if ms.len() == 0 {
        Seq::empty()
    } else {
        message_bytes(ms[0]) + messages_bytes(ms.subrange(1, ms.len() as int))
    }
}

/// An enqueue request as a client writes it.
pub open spec fn spec_encode_enqueue_request(req: EnqueueRequestView) -> Seq<u8> {
    string16_bytes(req.queue) + be16(req.messages.len() as u16) + messages_bytes(req.messages)
}

/// A message that the wire format can carry as it is: at most 255 headers,
/// each key once, strings and payload within their length fields.
pub open spec fn message_fits(m: WireEnqueueMessageView) -> bool {
    &&& m.headers.len() <= 0xFF
    &&& keys_unique(m.headers)
    &&& forall|i: int| 0 <= i < m.headers.len() ==> fits16(#[trigger] m.headers[i].0) && fits16(m.headers[i].1)
    &&& m.payload.len() <= 0xFFFF_FFFF
}

proof fn lemma_at(s: Seq<u8>, pos: int, a: Seq<u8>, b: Seq<u8>)
    requires
        0 <= pos,
        pos + a.len() + b.len() <= s.len(),
        s.subrange(pos, pos + a.len() + b.len()) == a + b,
    ensures
        s.subrange(pos, pos + a.len()) == a,
        s.subrange(pos + a.len(), pos + a.len() + b.len()) == b,
{
    assert(s.subrange(pos, pos + a.len()) =~= (a + b).subrange(0, a.len() as int));
    assert(s.subrange(pos + a.len(), pos + a.len() + b.len()) =~= (a + b).subrange(a.len() as int, (a.len() + b.len()) as int));
}

proof fn lemma_u16_at(s: Seq<u8>, pos: int, v: u16)
    requires
        0 <= pos,
        pos + 2 <= s.len(),
        s.subrange(pos, pos + 2) == be16(v),
    ensures
        u16_at(s, pos) == v,
{
    lemma_pow256_small();
    lemma_be_value_of_bytes(v as nat, 2);
}

proof fn lemma_u32_at(s: Seq<u8>, pos: int, v: u32)
    requires
        0 <= pos,
        pos + 4 <= s.len(),
        s.subrange(pos, pos + 4) == be32(v),
    ensures
        u32_at(s, pos) == v,
{
    lemma_pow256_small();
    lemma_be_value_of_bytes(v as nat, 4);
}

proof fn lemma_string16_at(s: Seq<u8>, pos: int, q: Seq<char>)
    requires
        0 <= pos,
        fits16(q),
        pos + string16_bytes(q).len() <= s.len(),
        s.subrange(pos, pos + string16_bytes(q).len()) == string16_bytes(q),
    ensures
        string16_bytes(q).len() == 2 + encode_utf8(q).len(),
        spec_string16(s, pos) == Some((q, pos + string16_bytes(q).len())),
{
    let b = encode_utf8(q);
    lemma_be_bytes_len(b.len() as nat, 2);
    lemma_at(s, pos, be16(b.len() as u16), b);
    lemma_u16_at(s, pos, b.len() as u16);
    encode_utf8_valid_utf8(q);
    encode_utf8_decode_utf8(q);
}

/// A length-prefixed string reads back as itself, wherever it stands.
pub proof fn law_string16_roundtrip(pre: Seq<u8>, q: Seq<char>, rest: Seq<u8>)
    requires
        fits16(q),
    ensures
        spec_string16(pre + string16_bytes(q) + rest, pre.len() as int) == Some(
            (q, (pre.len() + string16_bytes(q).len()) as int),
        ),
{
    let s = pre + string16_bytes(q) + rest;
    assert(s.subrange(pre.len() as int, pre.len() + string16_bytes(q).len() as int) =~= string16_bytes(q));
    lemma_string16_at(s, pre.len() as int, q);
}

/// A consume request reads back as the queue and credits it was written
/// with.
pub proof fn law_consume_request_roundtrip(queue: Seq<char>, credits: u32)
    requires
        fits16(queue),
    ensures
        spec_decode_consume_request(spec_encode_consume_request(queue, credits)) == Some((queue, credits)),
{
    let s = spec_encode_consume_request(queue, credits);
    let n = string16_bytes(queue).len();
    lemma_be_bytes_len(credits as nat, 4);
    assert(s.subrange(0, n as int) =~= string16_bytes(queue));
    lemma_string16_at(s, 0, queue);
    assert(s.subrange(n as int, n + 4int) =~= be32(credits));
    lemma_u32_at(s, n as int, credits);
}

/// A flow payload reads back as its credits.
pub proof fn law_flow_roundtrip(credits: u32)
    ensures
        spec_decode_flow(spec_encode_flow(credits)) == Some(credits),
{
    let s = spec_encode_flow(credits);
    lemma_be_bytes_len(credits as nat, 4);
    assert(s.subrange(0, 4) =~= be32(credits));
    lemma_u32_at(s, 0, credits);
}

proof fn lemma_ack_items(s: Seq<u8>, pos: int, items: Seq<(Seq<char>, Seq<char>)>, acc: Seq<(Seq<char>, Seq<char>)>)
    requires
        0 <= pos,
        pos + ack_items_bytes(items).len() <= s.len(),
        s.subrange(pos, pos + ack_items_bytes(items).len()) == ack_items_bytes(items),
        forall|i: int| 0 <= i < items.len() ==> fits16(#[trigger] items[i].0) && fits16(items[i].1),
    ensures
        spec_ack_items(s, pos, items.len(), acc) == Some(acc + items),
    decreases items.len(),
{
    if items.len() == 0 {
        assert(acc + items =~= acc);
    } else {
        let a = string16_bytes(items[0].0);
        let b = string16_bytes(items[0].1);
        let tail = items.subrange(1, items.len() as int);
        let t = ack_items_bytes(tail);
        assert(fits16(items[0].0) && fits16(items[0].1));
        assert(a + b + t =~= a + (b + t));
        lemma_at(s, pos, a, b + t);
        lemma_at(s, pos + a.len(), b, t);
        lemma_string16_at(s, pos, items[0].0);
        lemma_string16_at(s, pos + a.len(), items[0].1);
        assert forall|i: int| 0 <= i < tail.len() implies fits16(#[trigger] tail[i].0) && fits16(tail[i].1) by {
            assert(tail[i] == items[i + 1]);
        }
        lemma_ack_items(s, pos + a.len() + b.len(), tail, acc.push((items[0].0, items[0].1)));
        assert(acc.push((items[0].0, items[0].1)) + tail =~= acc + items);
    }
}

/// An ack request reads back as the items it was written with.
pub proof fn law_ack_request_roundtrip(items: Seq<(Seq<char>, Seq<char>)>)
    requires
        items.len() <= 0xFFFF,
        forall|i: int| 0 <= i < items.len() ==> fits16(#[trigger] items[i].0) && fits16(items[i].1),
    ensures
        spec_decode_ack_request(spec_encode_ack_request(items)) == Some(items),
{
    let s = spec_encode_ack_request(items);
    let t = ack_items_bytes(items);
    lemma_be_bytes_len(items.len(), 2);
    assert(s.subrange(0, 2 + t.len() as int) =~= be16(items.len() as u16) + t);
    lemma_at(s, 0, be16(items.len() as u16), t);
    lemma_u16_at(s, 0, items.len() as u16);
    lemma_ack_items(s, 2, items, Seq::empty());
    assert(Seq::<(Seq<char>, Seq<char>)>::empty() + items =~= items);
}

proof fn lemma_nack_items(
    s: Seq<u8>,
    pos: int,
    items: Seq<(Seq<char>, Seq<char>, Seq<char>)>,
    acc: Seq<(Seq<char>, Seq<char>, Seq<char>)>,
)
    requires
        0 <= pos,
        pos + nack_items_bytes(items).len() <= s.len(),
        s.subrange(pos, pos + nack_items_bytes(items).len()) == nack_items_bytes(items),
        forall|i: int|
            #![trigger items[i]]
            0 <= i < items.len() ==> fits16(items[i].0) && fits16(items[i].1) && fits16(items[i].2),
    ensures
        spec_nack_items(s, pos, items.len(), acc) == Some(acc + items),
    decreases items.len(),
{
    if items.len() == 0 {
        assert(acc + items =~= acc);
    } else {
        let a = string16_bytes(items[0].0);
        let b = string16_bytes(items[0].1);
        let c = string16_bytes(items[0].2);
        let tail = items.subrange(1, items.len() as int);
        let t = nack_items_bytes(tail);
        assert(fits16(items[0].0) && fits16(items[0].1) && fits16(items[0].2));
        assert(a + b + c + t =~= a + (b + (c + t)));
        lemma_at(s, pos, a, b + (c + t));
        lemma_at(s, pos + a.len(), b, c + t);
        lemma_at(s, pos + a.len() + b.len(), c, t);
        lemma_string16_at(s, pos, items[0].0);
        lemma_string16_at(s, pos + a.len(), items[0].1);
        lemma_string16_at(s, pos + a.len() + b.len(), items[0].2);
        assert forall|i: int| #![trigger tail[i]] 0 <= i < tail.len() implies fits16(tail[i].0) && fits16(tail[i].1)
            && fits16(tail[i].2) by {
            assert(tail[i] == items[i + 1]);
        }
        lemma_nack_items(s, pos + a.len() + b.len() + c.len(), tail, acc.push(items[0]));
        assert(acc.push(items[0]) + tail =~= acc + items);
    }
}

/// A nack request reads back as the items it was written with.
pub proof fn law_nack_request_roundtrip(items: Seq<(Seq<char>, Seq<char>, Seq<char>)>)
    requires
        items.len() <= 0xFFFF,
        forall|i: int|
            #![trigger items[i]]
            0 <= i < items.len() ==> fits16(items[i].0) && fits16(items[i].1) && fits16(items[i].2),
    ensures
        spec_decode_nack_request(spec_encode_nack_request(items)) == Some(items),
{
    let s = spec_encode_nack_request(items);
    let t = nack_items_bytes(items);
    lemma_be_bytes_len(items.len(), 2);
    assert(s.subrange(0, 2 + t.len() as int) =~= be16(items.len() as u16) + t);
    lemma_at(s, 0, be16(items.len() as u16), t);
    lemma_u16_at(s, 0, items.len() as u16);
    lemma_nack_items(s, 2, items, Seq::empty());
    assert(Seq::<(Seq<char>, Seq<char>, Seq<char>)>::empty() + items =~= items);
}

proof fn lemma_headers(s: Seq<u8>, pos: int, h: Seq<(Seq<char>, Seq<char>)>, acc: Seq<(Seq<char>, Seq<char>)>)
    requires
        0 <= pos,
        pos + header_pairs_bytes(h).len() <= s.len(),
        s.subrange(pos, pos + header_pairs_bytes(h).len()) == header_pairs_bytes(h),
        forall|i: int| #![trigger h[i]] 0 <= i < h.len() ==> fits16(h[i].0) && fits16(h[i].1),
        keys_unique(acc + h),
    ensures
        spec_headers(s, pos, h.len(), acc) == Some((acc + h, pos + header_pairs_bytes(h).len())),
    decreases h.len(),
{
    if h.len() == 0 {
        assert(acc + h =~= acc);
    } else {
        let (k, v) = h[0];
        let a = string16_bytes(k);
        let b = string16_bytes(v);
        let tail = h.subrange(1, h.len() as int);
        let t = header_pairs_bytes(tail);
        assert(fits16(k) && fits16(v));
        assert(a + b + t =~= a + (b + t));
        lemma_at(s, pos, a, b + t);
        lemma_at(s, pos + a.len(), b, t);
        lemma_string16_at(s, pos, k);
        lemma_string16_at(s, pos + a.len(), v);
        assert forall|j: int| 0 <= j < acc.len() implies acc[j].0 != k by {
            assert((acc + h)[j] == acc[j]);
            assert((acc + h)[acc.len() as int] == h[0]);
        }
        lemma_find_key_bounds(acc, k);
        assert(header_insert(acc, k, v) == acc.push((k, v)));
        assert forall|i: int| #![trigger tail[i]] 0 <= i < tail.len() implies fits16(tail[i].0) && fits16(tail[i].1) by {
            assert(tail[i] == h[i + 1]);
        }
        assert(acc.push((k, v)) + tail =~= acc + h);
        lemma_headers(s, pos + a.len() + b.len(), tail, acc.push((k, v)));
    }
}

proof fn lemma_message(s: Seq<u8>, pos: int, m: WireEnqueueMessageView)
    requires
        0 <= pos,
        pos + message_bytes(m).len() <= s.len(),
        s.subrange(pos, pos + message_bytes(m).len()) == message_bytes(m),
        message_fits(m),
    ensures
        spec_message(s, pos) == Some((m, pos + message_bytes(m).len())),
{
    let hb = header_pairs_bytes(m.headers);
    let c = seq![m.headers.len() as u8];
    let l = be32(m.payload.len() as u32);
    lemma_be_bytes_len(m.payload.len(), 4);
    assert(message_bytes(m) =~= c + (hb + (l + m.payload)));
    lemma_at(s, pos, c, hb + (l + m.payload));
    lemma_at(s, pos + 1, hb, l + m.payload);
    lemma_at(s, pos + 1 + hb.len(), l, m.payload);
    assert(s[pos] == s.subrange(pos, pos + 1)[0]);
    assert(Seq::<(Seq<char>, Seq<char>)>::empty() + m.headers =~= m.headers);
    lemma_headers(s, pos + 1, m.headers, Seq::empty());
    lemma_u32_at(s, pos + 1 + hb.len(), m.payload.len() as u32);
}

proof fn lemma_messages(s: Seq<u8>, pos: int, ms: Seq<WireEnqueueMessageView>, acc: Seq<WireEnqueueMessageView>)
    requires
        0 <= pos,
        pos + messages_bytes(ms).len() <= s.len(),
        s.subrange(pos, pos + messages_bytes(ms).len()) == messages_bytes(ms),
        forall|i: int| 0 <= i < ms.len() ==> message_fits(#[trigger] ms[i]),
    ensures
        spec_messages(s, pos, ms.len(), acc) == Some((acc + ms, pos + messages_bytes(ms).len())),
    decreases ms.len(),
{
    if ms.len() == 0 {
        assert(acc + ms =~= acc);
    } else {
        let a = message_bytes(ms[0]);
        let tail = ms.subrange(1, ms.len() as int);
        let t = messages_bytes(tail);
        lemma_at(s, pos, a, t);
        assert(message_fits(ms[0]));
        lemma_message(s, pos, ms[0]);
        assert forall|i: int| 0 <= i < tail.len() implies message_fits(#[trigger] tail[i]) by {
            assert(tail[i] == ms[i + 1]);
        }
        lemma_messages(s, pos + a.len(), tail, acc.push(ms[0]));
        assert(acc.push(ms[0]) + tail =~= acc + ms);
    }
}

/// An enqueue request reads back as the request it was written from, when
/// every part fits its length field and no message names a header twice.
pub proof fn law_enqueue_request_roundtrip(req: EnqueueRequestView)
    requires
        fits16(req.queue),
        req.messages.len() <= 0xFFFF,
        forall|i: int| 0 <= i < req.messages.len() ==> message_fits(#[trigger] req.messages[i]),
    ensures
        spec_decode_enqueue_request(spec_encode_enqueue_request(req)) == Some(req),
{
    let s = spec_encode_enqueue_request(req);
    let q = string16_bytes(req.queue);
    let c = be16(req.messages.len() as u16);
    let t = messages_bytes(req.messages);
    lemma_be_bytes_len(req.messages.len(), 2);
    assert(s =~= q + (c + t));
    assert(s.subrange(0, s.len() as int) =~= s);
    lemma_at(s, 0, q, c + t);
    lemma_at(s, q.len() as int, c, t);
    lemma_string16_at(s, 0, req.queue);
    lemma_u16_at(s, q.len() as int, req.messages.len() as u16);
    lemma_messages(s, q.len() + 2int, req.messages, Seq::empty());
    assert(Seq::<WireEnqueueMessageView>::empty() + req.messages =~= req.messages);
}


// ---------------------------------------------------------------------------
// The consume push frame, as a consumer reads it
// ---------------------------------------------------------------------------

/// A pushed message as a consumer reads it.
pub struct PushMessageView {
    pub msg_id: Seq<char>,
    pub fairness_key: Seq<char>,
    pub attempt_count: u32,
    pub headers: Seq<(Seq<char>, Seq<char>)>,
    pub payload: Seq<u8>,
}

/// What a consumer should read of a message pushed to it.
pub open spec fn push_view(m: ConsumePushMessage) -> PushMessageView {
    PushMessageView {
        msg_id: m.msg_id@,
        fairness_key: m.fairness_key@,
        attempt_count: m.attempt_count,
        headers: headers_view(m.headers@),
        payload: m.payload@,
    }
}

/// Reads one pushed message at `pos`: its id, its fairness key, a `u32`
/// attempt count, then a `u8` header count, the headers, a `u32` payload
/// length and the payload.
pub open spec fn spec_push_message(s: Seq<u8>, pos: int) -> Option<(PushMessageView, int)> {
    match spec_string16(s, pos) {
        None => None,
        Some((id, p1)) => match spec_string16(s, p1) {
            None => None,
            Some((fk, p2)) => if p2 + 4 > s.len() {
                None
            } else {
                match spec_message(s, p2 + 4) {
                    None => None,
                    Some((m, p3)) => Some(
                        (
                            PushMessageView {
                                msg_id: id,
                                fairness_key: fk,
                                attempt_count: u32_at(s, p2) as u32,
                                headers: m.headers,
                                payload: m.payload,
                            },
                            p3,
                        ),
                    ),
                }
            },
        },
    }
}

/// Reads `count` pushed messages from `pos`, after those in `acc`.
pub open spec fn spec_push_messages(s: Seq<u8>, pos: int, count: nat, acc: Seq<PushMessageView>) -> Option<
    (Seq<PushMessageView>, int),
>
    decreases count,
{
    if count == 0 {
        Some((acc, pos))
    } else {
        match spec_push_message(s, pos) {
            None => None,
            Some((m, p)) => spec_push_messages(s, p, (count - 1) as nat, acc.push(m)),
        }
    }
}

/// A consume push payload as a consumer reads it: a `u16` message count,
/// then the messages, first to last.
pub open spec fn spec_decode_consume_push(s: Seq<u8>) -> Option<Seq<PushMessageView>> {
    if s.len() < 2 {
        None
    } else {
        match spec_push_messages(s, 2, u16_at(s, 0), Seq::empty()) {
            None => None,
            Some((ms, _)) => Some(ms),
        }
    }
}

/// A pushed message that the wire format carries as it is.
pub open spec fn push_fits(m: ConsumePushMessage) -> bool {
    &&& fits16(m.msg_id@)
    &&& fits16(m.fairness_key@)
    &&& message_fits(WireEnqueueMessageView { headers: headers_view(m.headers@), payload: m.payload@ })
}

proof fn lemma_header_pairs_push(h: Seq<(Seq<char>, Seq<char>)>, x: (Seq<char>, Seq<char>))
    ensures
        header_pairs_bytes(h.push(x)) == header_pairs_bytes(h) + string16_bytes(x.0) + string16_bytes(x.1),
    decreases h.len(),
{
    if h.len() == 0 {
        let e = h.push(x).subrange(1, 1);
        assert(e =~= Seq::<(Seq<char>, Seq<char>)>::empty());
        assert(header_pairs_bytes(e) == Seq::<u8>::empty());
        assert(h.push(x)[0] == x);
        assert(header_pairs_bytes(h) == Seq::<u8>::empty());
        assert(header_pairs_bytes(h.push(x)) =~= string16_bytes(x.0) + string16_bytes(x.1));
    } else {
        let t = h.subrange(1, h.len() as int);
        lemma_header_pairs_push(t, x);
        assert(h.push(x).subrange(1, h.len() + 1int) =~= t.push(x));
        assert(h.push(x)[0] == h[0]);
        let a = string16_bytes(h[0].0) + string16_bytes(h[0].1);
        assert(header_pairs_bytes(h.push(x)) =~= header_pairs_bytes(h) + string16_bytes(x.0) + string16_bytes(x.1));
    }
}

proof fn lemma_headers_bytes_in_order(h: Seq<(Seq<char>, Seq<char>)>)
    ensures
        headers_bytes(h) == header_pairs_bytes(h),
    decreases h.len(),
{
    if h.len() > 0 {
        lemma_headers_bytes_in_order(h.drop_last());
        lemma_header_pairs_push(h.drop_last(), h.last());
        assert(h.drop_last().push(h.last()) == h);
    }
}

proof fn lemma_push_messages_concat(a: Seq<ConsumePushMessage>, b: Seq<ConsumePushMessage>)
    ensures
        push_messages_bytes(a + b) == push_messages_bytes(a) + push_messages_bytes(b),
    decreases b.len(),
{
    if b.len() == 0 {
        assert(a + b =~= a);
        assert(push_messages_bytes(a) + Seq::<u8>::empty() =~= push_messages_bytes(a));
    } else {
        lemma_push_messages_concat(a, b.drop_last());
        assert((a + b).drop_last() =~= a + b.drop_last());
        assert((a + b).last() == b.last());
        assert(push_messages_bytes(a + b) =~= push_messages_bytes(a) + push_messages_bytes(b));
    }
}

proof fn lemma_push_message(s: Seq<u8>, pos: int, m: ConsumePushMessage)
    requires
        0 <= pos,
        pos + push_message_bytes(m).len() <= s.len(),
        s.subrange(pos, pos + push_message_bytes(m).len()) == push_message_bytes(m),
        push_fits(m),
    ensures
        spec_push_message(s, pos) == Some((push_view(m), pos + push_message_bytes(m).len())),
{
    let w = WireEnqueueMessageView { headers: headers_view(m.headers@), payload: m.payload@ };
    let a = string16_bytes(m.msg_id@);
    let b = string16_bytes(m.fairness_key@);
    let c = be32(m.attempt_count);
    let d = message_bytes(w);
    lemma_headers_bytes_in_order(headers_view(m.headers@));
    lemma_be_bytes_len(m.attempt_count as nat, 4);
    assert(push_message_bytes(m) =~= a + (b + (c + d)));
    lemma_at(s, pos, a, b + (c + d));
    lemma_at(s, pos + a.len(), b, c + d);
    lemma_at(s, pos + a.len() + b.len(), c, d);
    lemma_string16_at(s, pos, m.msg_id@);
    lemma_string16_at(s, pos + a.len(), m.fairness_key@);
    lemma_u32_at(s, pos + a.len() + b.len(), m.attempt_count);
    lemma_message(s, pos + a.len() + b.len() + 4, w);
}

proof fn lemma_push_messages(s: Seq<u8>, pos: int, ms: Seq<ConsumePushMessage>, acc: Seq<PushMessageView>)
    requires
        0 <= pos,
        pos + push_messages_bytes(ms).len() <= s.len(),
        s.subrange(pos, pos + push_messages_bytes(ms).len()) == push_messages_bytes(ms),
        forall|i: int| 0 <= i < ms.len() ==> push_fits(#[trigger] ms[i]),
    ensures
        spec_push_messages(s, pos, ms.len(), acc) == Some(
            (acc + ms.map_values(|m: ConsumePushMessage| push_view(m)), pos + push_messages_bytes(ms).len()),
        ),
    decreases ms.len(),
{
    let f = |m: ConsumePushMessage| push_view(m);
    if ms.len() == 0 {
        assert(acc + ms.map_values(f) =~= acc);
    } else {
        let tail = ms.subrange(1, ms.len() as int);
        assert(seq![ms[0]] + tail =~= ms);
        lemma_push_messages_concat(seq![ms[0]], tail);
        reveal_with_fuel(push_messages_bytes, 2);
        assert(seq![ms[0]].drop_last() =~= Seq::<ConsumePushMessage>::empty());
        assert(push_messages_bytes(seq![ms[0]]) =~= push_message_bytes(ms[0]));
        let a = push_message_bytes(ms[0]);
        let t = push_messages_bytes(tail);
        lemma_at(s, pos, a, t);
        assert(push_fits(ms[0]));
        lemma_push_message(s, pos, ms[0]);
        assert forall|i: int| 0 <= i < tail.len() implies push_fits(#[trigger] tail[i]) by {
            assert(tail[i] == ms[i + 1]);
        }
        lemma_push_messages(s, pos + a.len(), tail, acc.push(push_view(ms[0])));
        assert(acc.push(push_view(ms[0])) + tail.map_values(f) =~= acc + ms.map_values(f));
    }
}

/// A consumer reads a consume push payload back as the messages it was
/// encoded from, in order: the i-th message read has the id, fairness key,
/// attempt count, headers and payload of the i-th message pushed.
pub proof fn law_consume_push_roundtrip(ms: Seq<ConsumePushMessage>)
    requires
        ms.len() <= 0xFFFF,
        forall|i: int| 0 <= i < ms.len() ==> push_fits(#[trigger] ms[i]),
    ensures
        spec_decode_consume_push(spec_encode_consume_push(ms)) == Some(
            ms.map_values(|m: ConsumePushMessage| push_view(m)),
        ),
{
    let s = spec_encode_consume_push(ms);
    let c = be16(ms.len() as u16);
    let t = push_messages_bytes(ms);
    lemma_be_bytes_len(ms.len() as nat, 2);
    assert(s.subrange(0, s.len() as int) =~= s);
    lemma_at(s, 0, c, t);
    lemma_u16_at(s, 0, ms.len() as u16);
    lemma_push_messages(s, 2, ms, Seq::empty());
    assert(Seq::<PushMessageView>::empty() + ms.map_values(|m: ConsumePushMessage| push_view(m)) =~= ms.map_values(
        |m: ConsumePushMessage| push_view(m),
    ));
}

/// Setting a header never leaves a key in two entries.
pub proof fn law_header_insert_keeps_keys_unique(h: Seq<(Seq<char>, Seq<char>)>, k: Seq<char>, v: Seq<char>)
    requires
        keys_unique(h),
    ensures
        keys_unique(header_insert(h, k, v)),
{
    lemma_find_key_bounds(h, k);
    let h2 = header_insert(h, k, v);
    if find_key(h, k) >= 0 {
        assert forall|i: int, j: int| 0 <= i < j < h2.len() implies h2[i].0 != h2[j].0 by {
            assert(h2[i].0 == h[i].0 && h2[j].0 == h[j].0);
        }
    } else {
        assert forall|i: int, j: int| 0 <= i < j < h2.len() implies h2[i].0 != h2[j].0 by {
            if j == h.len() {
                assert(h2[i] == h[i]);
            } else {
                assert(h2[i] == h[i] && h2[j] == h[j]);
            }
        }
    }
}

/// The headers that a request decodes to hold each key once.
pub proof fn law_decoded_headers_unique(s: Seq<u8>, pos: int, count: nat, acc: Seq<(Seq<char>, Seq<char>)>)
    requires
        keys_unique(acc),
    ensures
        spec_headers(s, pos, count, acc) matches Some((h, _)) ==> keys_unique(h),
    decreases count,
{
    if count > 0 {
        if let Some((k, p1)) = spec_string16(s, pos) {
            if let Some((v, p2)) = spec_string16(s, p1) {
                law_header_insert_keeps_keys_unique(acc, k, v);
                law_decoded_headers_unique(s, p2, (count - 1) as nat, header_insert(acc, k, v));
            }
        }
    }
}

} // verus!
