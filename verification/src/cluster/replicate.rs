//! Applying committed acks and nacks to a node's storage: find the message
//! the request names, then delete it (ack) or store it back with one more
//! attempt (nack), and drop its lease.
//!
//! A committed enqueue stores each message of its batch under its message
//! key, with an index entry pointing to that key.
//!
//! The message index key and the decoding of stored messages come from the
//! caller: `scanned` lists the messages under the queue's prefix as their
//! keys and ids, and a nack's updated message arrives encoded.

use vstd::prelude::*;
use crate::storage::in_memory::{apply_mutations_spec, EngineView, InMemoryEngine, Mutation, MutationView};
use crate::storage::keys::{
    fits_key_string, lease_expiry_key, lease_key, parse_expiry_from_lease_value, spec_lease_expiry_key,
    spec_lease_key, spec_parse_expiry,
};
use crate::text::str_bytes;
use crate::message::Message;
use crate::cluster::apply::ClusterRequest;
use crate::storage::keys::{law_lease_value_roundtrip, message_key, spec_lease_value, spec_message_key};
use vstd::utf8::encode_utf8;

verus! {

/// The key of the first scanned message with id `id`.
pub open spec fn first_with_id(scanned: Seq<(Vec<u8>, [u8; 16])>, id: Seq<u8>) -> Option<Seq<u8>>
    decreases scanned.len(),
{
    if scanned.len() == 0 {
        None
    } else if scanned[0].1@ == id {
        Some(scanned[0].0@)
    } else {
        first_with_id(scanned.drop_first(), id)
    }
}

/// The key of the message a request names: the one the message index
/// points to when that message is stored, otherwise the first scanned
/// message with the id.
pub open spec fn message_target(
    v: EngineView,
    idx_key: Seq<u8>,
    id: Seq<u8>,
    scanned: Seq<(Vec<u8>, [u8; 16])>,
) -> Option<Seq<u8>> {
    if v.msg_index.contains_key(idx_key) && v.messages.contains_key(v.msg_index[idx_key]) {
        Some(v.msg_index[idx_key])
    } else {
        first_with_id(scanned, id)
    }
}

/// The deletions that drop a message's lease: the lease, and its expiry
/// entry when the lease value holds an expiry.
pub open spec fn lease_deletions(v: EngineView, q: Seq<u8>, id: Seq<u8>) -> Seq<MutationView> {
    let lk = spec_lease_key(q, id);
    if v.leases.contains_key(lk) {
        match spec_parse_expiry(v.leases[lk]) {
            Some(ts) => seq![MutationView::DeleteLease(lk), MutationView::DeleteLeaseExpiry(spec_lease_expiry_key(ts, q, id))],
            None => seq![MutationView::DeleteLease(lk)],
        }
    } else {
        Seq::empty()
    }
}

/// What acking a message writes: nothing when the message is not found;
/// otherwise the deletion of the message and its index entry, then of its
/// lease.
pub open spec fn ack_plan(
    v: EngineView,
    q: Seq<u8>,
    id: Seq<u8>,
    idx_key: Seq<u8>,
    scanned: Seq<(Vec<u8>, [u8; 16])>,
) -> Seq<MutationView> {
    match message_target(v, idx_key, id, scanned) {
        Some(k) => seq![MutationView::DeleteMessage(k), MutationView::DeleteMsgIndex(idx_key)] + lease_deletions(v, q, id),
        None => Seq::empty(),
    }
}

/// What nacking a found message writes: the updated message under its key,
/// then the deletion of its lease.
pub open spec fn nack_plan(v: EngineView, q: Seq<u8>, id: Seq<u8>, key: Seq<u8>, value: Seq<u8>) -> Seq<MutationView> {
    seq![MutationView::PutMessage(key, value)] + lease_deletions(v, q, id)
}

pub open spec fn mutations_view(ms: Seq<Mutation>) -> Seq<MutationView> {
    ms.map_values(|m: Mutation| m@)
}

fn same_id(a: &[u8; 16], b: &[u8; 16]) -> (r: bool)
    ensures
        r == (a@ == b@),
{
    let mut i: usize = 0;
    while i < 16
        invariant
            i <= 16,
            a@.len() == 16,
            b@.len() == 16,
            forall|j: int| 0 <= j < i ==> a@[j] == b@[j],
        decreases 16 - i,
    {
        if a[i] != b[i] {
            return false;
        }
        i = i + 1;
    }
    assert(a@ =~= b@);
    true
}

fn first_scanned_with_id(scanned: &[(Vec<u8>, [u8; 16])], msg_id: &[u8; 16]) -> (r: Option<Vec<u8>>)
    ensures
        match r {
            Some(k) => first_with_id(scanned@, msg_id@) == Some(k@),
            None => first_with_id(scanned@, msg_id@) is None,
        },
{
    let mut i: usize = 0;
    assert(scanned@.skip(0) == scanned@);
    while i < scanned.len()
        invariant
            i <= scanned@.len(),
            first_with_id(scanned@, msg_id@) == first_with_id(scanned@.skip(i as int), msg_id@),
        decreases scanned@.len() - i,
    {
        assert(scanned@.skip(i as int)[0] == scanned@[i as int]);
        if same_id(&scanned[i].1, msg_id) {
            return Some(crate::text::bytes_to_vec(scanned[i].0.as_slice()));
        }
        assert(scanned@.skip(i as int).drop_first() == scanned@.skip(i + 1));
        i = i + 1;
    }
    None
}

/// Find the message a request names (see `message_target`).
pub fn find_message_key(
    engine: &InMemoryEngine,
    idx_key: &[u8],
    msg_id: &[u8; 16],
    scanned: &[(Vec<u8>, [u8; 16])],
) -> (r: Option<Vec<u8>>)
    requires
        engine.wf(),
    ensures
        match r {
            Some(k) => message_target(engine.view(), idx_key@, msg_id@, scanned@) == Some(k@),
            None => message_target(engine.view(), idx_key@, msg_id@, scanned@) is None,
        },
{
    if let Ok(Some(k)) = engine.get_msg_index(idx_key) {
        if let Ok(Some(_)) = engine.get_message(k.as_slice()) {
            return Some(k);
        }
    }
    first_scanned_with_id(scanned, msg_id)
}

/// The deletions that drop a message's lease (see `lease_deletions`).
fn lease_cleanup(engine: &InMemoryEngine, queue_id: &str, msg_id: &[u8; 16]) -> (r: Vec<Mutation>)
    requires
        engine.wf(),
        fits_key_string(queue_id),
    ensures
        mutations_view(r@) == lease_deletions(engine.view(), str_bytes(queue_id), msg_id@),
{
    let mut out: Vec<Mutation> = Vec::new();
    let lk = lease_key(queue_id, msg_id);
    if let Ok(Some(value)) = engine.get_lease(lk.as_slice()) {
        let ghost lkv = lk@;
        out.push(Mutation::DeleteLease { key: lk });
        if let Some(ts) = parse_expiry_from_lease_value(value.as_slice()) {
            out.push(Mutation::DeleteLeaseExpiry { key: lease_expiry_key(ts, queue_id, msg_id) });
        }
    }
    assert(mutations_view(out@) =~= lease_deletions(engine.view(), str_bytes(queue_id), msg_id@));
    out
}

/// Apply a committed ack: delete the named message, its index entry and
/// its lease. A message that is not found is left alone, so acking twice
/// is harmless.
pub fn apply_ack(
    engine: &mut InMemoryEngine,
    queue_id: &str,
    msg_id: &[u8; 16],
    idx_key: &[u8],
    scanned: &[(Vec<u8>, [u8; 16])],
)
    requires
        old(engine).wf(),
        fits_key_string(queue_id),
    ensures
        final(engine).wf(),
        final(engine).view() == apply_mutations_spec(
            old(engine).view(),
            ack_plan(old(engine).view(), str_bytes(queue_id), msg_id@, idx_key@, scanned@),
        ),
{
    let ghost v = engine.view();
    match find_message_key(engine, idx_key, msg_id, scanned) {
        Some(key) => {
            let mut ms: Vec<Mutation> = Vec::new();
            ms.push(Mutation::DeleteMessage { key });
            ms.push(Mutation::DeleteMsgIndex { key: crate::text::bytes_to_vec(idx_key) });
            let mut rest = lease_cleanup(engine, queue_id, msg_id);
            let ghost first = ms@;
            ms.append(&mut rest);
            assert(mutations_view(ms@) =~= ack_plan(v, str_bytes(queue_id), msg_id@, idx_key@, scanned@));
            let _ = engine.apply_mutations(ms);
        },
        None => {
            assert(ack_plan(v, str_bytes(queue_id), msg_id@, idx_key@, scanned@) =~= Seq::<MutationView>::empty());
        },
    }
}

/// Apply a committed nack to a found message: store `value`, the message
/// with one more attempt and no lease, under `key`, and drop its lease.
pub fn apply_nack(engine: &mut InMemoryEngine, queue_id: &str, msg_id: &[u8; 16], key: Vec<u8>, value: Vec<u8>)
    requires
        old(engine).wf(),
        fits_key_string(queue_id),
    ensures
        final(engine).wf(),
        final(engine).view() == apply_mutations_spec(
            old(engine).view(),
            nack_plan(old(engine).view(), str_bytes(queue_id), msg_id@, key@, value@),
        ),
{
    let ghost v = engine.view();
    let ghost kv = key@;
    let ghost vv = value@;
    let mut ms: Vec<Mutation> = Vec::new();
    ms.push(Mutation::PutMessage { key, value });
    let mut rest = lease_cleanup(engine, queue_id, msg_id);
    ms.append(&mut rest);
    assert(mutations_view(ms@) =~= nack_plan(v, str_bytes(queue_id), msg_id@, kv, vv));
    let _ = engine.apply_mutations(ms);
}


/// The messages an enqueue entry carries: its batch, else the single
/// message of an older entry, else none.
pub open spec fn enqueue_batch(messages: Seq<Message>, message: Option<Message>) -> Seq<Message> {
    if messages.len() > 0 {
        messages
    } else {
        match message {
            Some(m) => seq![m],
            None => Seq::empty(),
        }
    }
}

/// The queue a replicated message is stored under: the node's own queue
/// when it serves one, else the message's queue.
pub open spec fn storage_queue(own_queue: Option<&str>, m: Message) -> Seq<u8> {
    match own_queue {
        Some(q) => str_bytes(q),
        None => encode_utf8(m.queue_id@),
    }
}

/// The message's key strings fit their length prefixes.
pub open spec fn keys_fit(own_queue: Option<&str>, m: Message) -> bool {
    &&& storage_queue(own_queue, m).len() <= 0xFFFF
    &&& encode_utf8(m.fairness_key@).len() <= 0xFFFF
}

/// What storing one replicated message writes: the encoded message under
/// its message key, then the index entry `idx` pointing to that key.
pub open spec fn store_writes(own_queue: Option<&str>, m: Message, idx: Seq<u8>, value: Seq<u8>) -> Seq<MutationView> {
    let k = spec_message_key(storage_queue(own_queue, m), encode_utf8(m.fairness_key@), m.enqueued_at, m.id@);
    seq![MutationView::PutMessage(k, value), MutationView::PutMsgIndex(idx, k)]
}

/// The writes of a batch, message by message.
pub open spec fn batch_writes(
    own_queue: Option<&str>,
    ms: Seq<Message>,
    idx: Seq<Vec<u8>>,
    enc: Seq<Vec<u8>>,
) -> Seq<MutationView>
    decreases ms.len(),
{
    if ms.len() == 0 {
        Seq::empty()
    } else {
        let n = ms.len() - 1;
        batch_writes(own_queue, ms.take(n), idx.take(n), enc.take(n)) + store_writes(own_queue, ms[n], idx[n]@, enc[n]@)
    }
}

fn store_message(own_queue: Option<&str>, m: &Message, idx: &Vec<u8>, value: &Vec<u8>, out: &mut Vec<Mutation>)
    requires
        keys_fit(own_queue, *m),
    ensures
        mutations_view(final(out)@) == mutations_view(old(out)@) + store_writes(own_queue, *m, idx@, value@),
{
    let q: &str = match own_queue {
        Some(q) => q,
        None => m.queue_id.as_str(),
    };
    let k = message_key(q, m.fairness_key.as_str(), m.enqueued_at, &m.id);
    let ghost before = out@;
    out.push(Mutation::PutMessage { key: crate::text::bytes_to_vec(k.as_slice()), value: crate::text::bytes_to_vec(value.as_slice()) });
    out.push(Mutation::PutMsgIndex { key: crate::text::bytes_to_vec(idx.as_slice()), value: k });
    assert(mutations_view(out@) =~= mutations_view(before) + store_writes(own_queue, *m, idx@, value@));
}

/// The writes that store a committed enqueue on a node: for each message of
/// the entry's batch, in order, the message encoded as `encoded[i]` under
/// its key, then the index entry `idx_keys[i]` pointing to that key. Other
/// requests write nothing here: acks and nacks are applied by `apply_ack`
/// and `apply_nack`, and the rest belong to the meta group.
pub fn replicated_mutations(
    own_queue: Option<&str>,
    req: &ClusterRequest,
    idx_keys: &Vec<Vec<u8>>,
    encoded: &Vec<Vec<u8>>,
) -> (r: Vec<Mutation>)
    requires
        req matches ClusterRequest::Enqueue { messages, message } ==> {
            let b = enqueue_batch(messages@, *message);
            &&& idx_keys@.len() == b.len()
            &&& encoded@.len() == b.len()
            &&& forall|i: int| 0 <= i < b.len() ==> keys_fit(own_queue, #[trigger] b[i])
        },
    ensures
        match req {
            ClusterRequest::Enqueue { messages, message } => mutations_view(r@) == batch_writes(
                own_queue,
                enqueue_batch(messages@, *message),
                idx_keys@,
                encoded@,
            ),
            _ => r@.len() == 0,
        },
{
    let mut out: Vec<Mutation> = Vec::new();
    match req {
        ClusterRequest::Enqueue { messages, message } => {
            if messages.len() > 0 {
                let ghost b = messages@;
                let mut i: usize = 0;
                while i < messages.len()
                    invariant
                        i <= b.len(),
                        b == messages@,
                        idx_keys@.len() == b.len(),
                        encoded@.len() == b.len(),
                        forall|j: int| 0 <= j < b.len() ==> keys_fit(own_queue, #[trigger] b[j]),
                        mutations_view(out@) == batch_writes(
                            own_queue,
                            b.take(i as int),
                            idx_keys@.take(i as int),
                            encoded@.take(i as int),
                        ),
                    decreases b.len() - i,
                {
                    proof {
                        let n = i as int;
                        assert(b.take(n + 1).take(n) =~= b.take(n));
                        assert(idx_keys@.take(n + 1).take(n) =~= idx_keys@.take(n));
                        assert(encoded@.take(n + 1).take(n) =~= encoded@.take(n));
                    }
                    store_message(own_queue, &messages[i], &idx_keys[i], &encoded[i], &mut out);
                    i = i + 1;
                }
                assert(b.take(b.len() as int) =~= b);
                assert(idx_keys@.take(b.len() as int) =~= idx_keys@);
                assert(encoded@.take(b.len() as int) =~= encoded@);
            } else {
                match message {
                    Some(m) => {
                        let ghost b = seq![*m];
                        assert(b[0] == *m);
                        store_message(own_queue, m, &idx_keys[0], &encoded[0], &mut out);
                        proof {
                            assert(b.take(0) =~= Seq::<Message>::empty());
                            assert(batch_writes(own_queue, b.take(0), idx_keys@.take(0), encoded@.take(0)) =~= Seq::<MutationView>::empty());
                            assert(mutations_view(Seq::<Mutation>::empty()) =~= Seq::<MutationView>::empty());
                        }
                    },
                    None => {
                        assert(mutations_view(out@) =~= Seq::<MutationView>::empty());
                    },
                }
            }
        },
        _ => {},
    }
    out
}

/// Deleting leases touches neither the messages nor the message index.
proof fn lemma_lease_deletions_keep_messages(u: EngineView, v: EngineView, q: Seq<u8>, id: Seq<u8>)
    ensures
        apply_mutations_spec(u, lease_deletions(v, q, id)).messages == u.messages,
        apply_mutations_spec(u, lease_deletions(v, q, id)).msg_index == u.msg_index,
{
    let l = lease_deletions(v, q, id);
    reveal_with_fuel(apply_mutations_spec, 3);
    if l.len() == 2 {
        assert(l.drop_last().drop_last() =~= Seq::<MutationView>::empty());
    } else if l.len() == 1 {
        assert(l.drop_last() =~= Seq::<MutationView>::empty());
    }
}

proof fn lemma_apply_concat(v: EngineView, a: Seq<MutationView>, b: Seq<MutationView>)
    ensures
        apply_mutations_spec(v, a + b) == apply_mutations_spec(apply_mutations_spec(v, a), b),
    decreases b.len(),
{
    if b.len() > 0 {
        assert((a + b).drop_last() =~= a + b.drop_last());
        assert((a + b).last() == b.last());
        lemma_apply_concat(v, a, b.drop_last());
    } else {
        assert(a + b =~= a);
    }
}


proof fn lemma_lease_dropped(u: EngineView, v: EngineView, q: Seq<u8>, id: Seq<u8>, c: Seq<char>, ts: u64)
    requires
        v.leases.contains_key(spec_lease_key(q, id)),
        v.leases[spec_lease_key(q, id)] == spec_lease_value(encode_utf8(c), ts),
        encode_utf8(c).len() <= 0xFFFF,
    ensures
        lease_deletions(v, q, id) == seq![
            MutationView::DeleteLease(spec_lease_key(q, id)),
            MutationView::DeleteLeaseExpiry(spec_lease_expiry_key(ts, q, id)),
        ],
        !apply_mutations_spec(u, lease_deletions(v, q, id)).leases.contains_key(spec_lease_key(q, id)),
        !apply_mutations_spec(u, lease_deletions(v, q, id)).lease_expiry.contains(spec_lease_expiry_key(ts, q, id)),
{
    law_lease_value_roundtrip(c, ts);
    let l = lease_deletions(v, q, id);
    reveal_with_fuel(apply_mutations_spec, 3);
    assert(l.drop_last().drop_last() =~= Seq::<MutationView>::empty());
    assert(l.drop_last() =~= seq![MutationView::DeleteLease(spec_lease_key(q, id))]);
}

/// Nacking a leased message stores its update and drops its lease whole:
/// afterwards the message key holds the new value, the lease is gone, and so
/// is the lease-expiry entry for the expiry that the lease value holds.
/// Acking a message that is found drops its lease the same way.
pub proof fn law_nack_and_ack_drop_the_lease(
    v: EngineView,
    q: Seq<u8>,
    id: Seq<u8>,
    key: Seq<u8>,
    value: Seq<u8>,
    consumer: Seq<char>,
    expiry: u64,
    idx_key: Seq<u8>,
    scanned: Seq<(Vec<u8>, [u8; 16])>,
)
    requires
        v.leases.contains_key(spec_lease_key(q, id)),
        v.leases[spec_lease_key(q, id)] == spec_lease_value(encode_utf8(consumer), expiry),
        encode_utf8(consumer).len() <= 0xFFFF,
    ensures
        ({
            let n = apply_mutations_spec(v, nack_plan(v, q, id, key, value));
            &&& n.messages.contains_key(key)
            &&& n.messages[key] == value
            &&& !n.leases.contains_key(spec_lease_key(q, id))
            &&& !n.lease_expiry.contains(spec_lease_expiry_key(expiry, q, id))
        }),
        message_target(v, idx_key, id, scanned) is Some ==> {
            let n = apply_mutations_spec(v, ack_plan(v, q, id, idx_key, scanned));
            &&& !n.leases.contains_key(spec_lease_key(q, id))
            &&& !n.lease_expiry.contains(spec_lease_expiry_key(expiry, q, id))
        },
{
    let head = seq![MutationView::PutMessage(key, value)];
    let tail = lease_deletions(v, q, id);
    assert(nack_plan(v, q, id, key, value) == head + tail);
    lemma_apply_concat(v, head, tail);
    reveal_with_fuel(apply_mutations_spec, 2);
    assert(head.drop_last() =~= Seq::<MutationView>::empty());
    let m = apply_mutations_spec(v, head);
    assert(m.messages[key] == value);
    lemma_lease_deletions_keep_messages(m, v, q, id);
    lemma_lease_dropped(m, v, q, id, consumer, expiry);
    if message_target(v, idx_key, id, scanned) is Some {
        let k = message_target(v, idx_key, id, scanned)->0;
        let h2 = seq![MutationView::DeleteMessage(k), MutationView::DeleteMsgIndex(idx_key)];
        assert(ack_plan(v, q, id, idx_key, scanned) == h2 + tail);
        lemma_apply_concat(v, h2, tail);
        lemma_lease_dropped(apply_mutations_spec(v, h2), v, q, id, consumer, expiry);
    }
}

/// An ack leaves nothing for a repeated ack of the same message to find
/// through the index: the acked message and its index entry are gone, so
/// the repeat finds the message only if the scan it is given still lists a
/// message with that id, and otherwise changes nothing.
pub proof fn law_repeated_ack_finds_only_the_scan(
    v: EngineView,
    q: Seq<u8>,
    id: Seq<u8>,
    idx_key: Seq<u8>,
    scanned: Seq<(Vec<u8>, [u8; 16])>,
    rescanned: Seq<(Vec<u8>, [u8; 16])>,
)
    requires
        message_target(v, idx_key, id, scanned) is Some,
    ensures
        ({
            let k = message_target(v, idx_key, id, scanned)->0;
            let n = apply_mutations_spec(v, ack_plan(v, q, id, idx_key, scanned));
            &&& !n.messages.contains_key(k)
            &&& !n.msg_index.contains_key(idx_key)
            &&& message_target(n, idx_key, id, rescanned) == first_with_id(rescanned, id)
            &&& (first_with_id(rescanned, id) is None ==> ack_plan(n, q, id, idx_key, rescanned).len() == 0)
        }),
{
    let k = message_target(v, idx_key, id, scanned)->0;
    let head = seq![MutationView::DeleteMessage(k), MutationView::DeleteMsgIndex(idx_key)];
    let tail = lease_deletions(v, q, id);
    assert(ack_plan(v, q, id, idx_key, scanned) == head + tail);
    lemma_apply_concat(v, head, tail);
    reveal_with_fuel(apply_mutations_spec, 3);
    assert(head.drop_last().drop_last() =~= Seq::<MutationView>::empty());
    assert(head.drop_last() =~= seq![MutationView::DeleteMessage(k)]);
    let m = apply_mutations_spec(v, head);
    assert(!m.messages.contains_key(k));
    assert(!m.msg_index.contains_key(idx_key));
    lemma_lease_deletions_keep_messages(m, v, q, id);
}

} // verus!
