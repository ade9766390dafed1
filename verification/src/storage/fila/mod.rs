//! Purpose-built log-structured storage engine: the write-ahead log format
//! and the in-memory indexes rebuilt from it.
//!
//! All writes go through the append-only WAL. The indexes are rebuilt from
//! WAL replay on startup and maintained incrementally on each write. Message
//! and queue records are kept as the encoded bytes that were written; whether
//! such a value decodes as its record is decided by the caller, which holds
//! the record types' decoders.

pub mod compaction;
pub mod config;
pub mod segments;
pub mod wal;

use vstd::prelude::*;
use vstd::utf8::*;
use crate::storage::bounds::spec_prefix_upper_bound;
use crate::storage::fila::wal::{
    entry_replayable, flatten_entries, law_replay_across_segments, law_replay_survives_torn_tail, spec_entry_record,
    entries_view, spec_records, spec_replay_segment, spec_replay_segments, spec_segment_files, spec_segment_header, OpTag, WalEntry,
    WalOp, WalOpView,
};
use crate::storage::in_memory::copy_opt;
use crate::encoding::{has_prefix, lex_le, lex_lt};
use crate::storage::bounds::{law_prefix_upper_bound_range, prefix_upper_bound as upper_bound_bytes};
use crate::storage::ordered::{
    first_of_pairs, keys_view, lemma_values_view_dom, lemma_values_view_insert, lemma_values_view_remove,
    lists_first_selected, pairs_view, selects, set_as_map, values_in_key_order, values_view, vec_views, ByteMap,
    ScanFilter, ScanFilterView,
};
use crate::text::{bytes_to_vec, str_bytes, str_to_vec, utf8_range};

verus! {

// ---------------------------------------------------------------------------
// The model
// ---------------------------------------------------------------------------

/// The contents of the indexes. Queue and state keys are the bytes of their
/// string keys.
pub struct IndexesView {
    pub messages: Map<Seq<u8>, Seq<u8>>,
    pub leases: Map<Seq<u8>, Seq<u8>>,
    pub lease_expiries: Set<Seq<u8>>,
    pub queues: Map<Seq<u8>, Seq<u8>>,
    pub state: Map<Seq<u8>, Seq<u8>>,
}

/// The key a string-keyed store files a raw key under: the key itself when it
/// is UTF-8, the empty string otherwise.
pub open spec fn text_key(k: Seq<u8>) -> Seq<u8> {
    if valid_utf8(k) {
        k
    } else {
        Seq::empty()
    }
}

/// The effect of one WAL operation on the indexes. `decodes` says whether
/// the operation's value decodes as the record its tag names; a message or
/// queue put whose value does not is skipped, as is a put without a value.
pub open spec fn index_op(v: IndexesView, op: WalOpView, decodes: bool) -> IndexesView {
    match op.tag {
        OpTag::PutMessage => match op.value {
            Some(val) => if decodes {
                IndexesView { messages: v.messages.insert(op.key, val), ..v }
            } else {
                v
            },
            None => v,
        },
        OpTag::DeleteMessage => IndexesView { messages: v.messages.remove(op.key), ..v },
        OpTag::PutLease => match op.value {
            Some(val) => IndexesView { leases: v.leases.insert(op.key, val), ..v },
            None => v,
        },
        OpTag::DeleteLease => IndexesView { leases: v.leases.remove(op.key), ..v },
        OpTag::PutLeaseExpiry => IndexesView { lease_expiries: v.lease_expiries.insert(op.key), ..v },
        OpTag::DeleteLeaseExpiry => IndexesView { lease_expiries: v.lease_expiries.remove(op.key), ..v },
        OpTag::PutQueue => match op.value {
            Some(val) => if decodes {
                IndexesView { queues: v.queues.insert(text_key(op.key), val), ..v }
            } else {
                v
            },
            None => v,
        },
        OpTag::DeleteQueue => IndexesView { queues: v.queues.remove(text_key(op.key)), ..v },
        OpTag::PutState => match op.value {
            Some(val) => IndexesView { state: v.state.insert(text_key(op.key), val), ..v },
            None => v,
        },
        OpTag::DeleteState => IndexesView { state: v.state.remove(text_key(op.key)), ..v },
    }
}

/// The effect of the operations of an entry, in order; `decodes[i]` goes
/// with `ops[i]`.
pub open spec fn index_entry(v: IndexesView, ops: Seq<WalOpView>, decodes: Seq<bool>) -> IndexesView
    decreases ops.len(),
{
    if ops.len() == 0 {
        v
    } else {
        index_op(index_entry(v, ops.drop_last(), decodes), ops.last(), decodes[ops.len() - 1])
    }
}

/// The empty indexes.
pub open spec fn empty_indexes() -> IndexesView {
    IndexesView {
        messages: Map::empty(),
        leases: Map::empty(),
        lease_expiries: Set::empty(),
        queues: Map::empty(),
        state: Map::empty(),
    }
}


// ---------------------------------------------------------------------------
// Range helpers
// ---------------------------------------------------------------------------

/// The exclusive upper bound of the keys that start with `p`, or `None` when
/// `p` is all 0xFF bytes (or empty) and no such bound exists.
pub open spec fn spec_upper_bound(p: Seq<u8>) -> Option<Seq<u8>> {
    if spec_prefix_upper_bound(p).len() == 0 {
        None
    } else {
        Some(spec_prefix_upper_bound(p))
    }
}

/// Compute the exclusive upper bound for a prefix scan on byte keys.
/// Returns None if the prefix is all 0xFF bytes (no upper bound possible).
fn prefix_upper_bound(prefix: &[u8]) -> (r: Option<Vec<u8>>)
    ensures
        match spec_upper_bound(prefix@) {
            Some(u) => r matches Some(v) && v@ == u,
            None => r is None,
        },
{
    let end = upper_bound_bytes(prefix);
    if end.len() == 0 {
        None
    } else {
        Some(end)
    }
}

/// The string upper bound of a string prefix: the byte bound, when there is
/// one and it is UTF-8.
pub open spec fn spec_upper_bound_str(p: Seq<u8>) -> Option<Seq<u8>> {
    match spec_upper_bound(p) {
        Some(u) => if valid_utf8(u) {
            Some(u)
        } else {
            None
        },
        None => None,
    }
}

/// Compute the exclusive upper bound for a prefix scan on string keys.
fn prefix_upper_bound_str(prefix: &str) -> (r: Option<String>)
    ensures
        match spec_upper_bound_str(str_bytes(prefix)) {
            Some(u) => r matches Some(s) && encode_utf8(s@) == u,
            None => r is None,
        },
{
    match prefix_upper_bound(prefix.as_bytes()) {
        Some(bytes) => {
            proof {
                assert(bytes@.subrange(0, bytes@.len() as int) == bytes@);
            }
            match utf8_range(bytes.as_slice(), 0, bytes.len()) {
                Ok(s) => Some(s),
                Err(_) => None,
            }
        },
        None => None,
    }
}

/// The keys a range scan from `from`, bounded by `upper` when there is one,
/// covers.
pub open spec fn range_filter(from: Seq<u8>, upper: Option<Seq<u8>>) -> ScanFilterView {
    match upper {
        Some(u) => ScanFilterView::Between(from, u),
        None => ScanFilterView::From(from),
    }
}

/// The range a byte prefix scan covers is exactly the keys with that prefix.
proof fn lemma_byte_range_is_prefix(p: Seq<u8>, k: Seq<u8>)
    ensures
        selects(range_filter(p, spec_upper_bound(p)), k) == selects(ScanFilterView::Prefix(p), k),
{
    law_prefix_upper_bound_range(p, k);
}

proof fn lemma_same_selection(
    r: Seq<(Seq<u8>, Seq<u8>)>,
    m: Map<Seq<u8>, Seq<u8>>,
    f1: ScanFilterView,
    f2: ScanFilterView,
    n: nat,
)
    requires
        forall|k: Seq<u8>| #[trigger] selects(f1, k) == selects(f2, k),
        lists_first_selected(r, m, f1, n),
    ensures
        lists_first_selected(r, m, f2, n),
{
}

/// State pairs as byte strings: the key's UTF-8 bytes and the value.
pub open spec fn state_pairs_view(r: Seq<(String, Vec<u8>)>) -> Seq<(Seq<u8>, Seq<u8>)> {
    r.map_values(|p: (String, Vec<u8>)| (encode_utf8(p.0@), p.1@))
}


// ---------------------------------------------------------------------------
// Write batches
// ---------------------------------------------------------------------------

/// A single write in a batch handed to the engine.
#[derive(Debug)]
pub enum WriteBatchOp {
    PutMessage { key: Vec<u8>, value: Vec<u8> },
    DeleteMessage { key: Vec<u8> },
    PutLease { key: Vec<u8>, value: Vec<u8> },
    DeleteLease { key: Vec<u8> },
    PutLeaseExpiry { key: Vec<u8> },
    DeleteLeaseExpiry { key: Vec<u8> },
    PutQueue { key: Vec<u8>, value: Vec<u8> },
    DeleteQueue { key: Vec<u8> },
    PutState { key: Vec<u8>, value: Vec<u8> },
    DeleteState { key: Vec<u8> },
}

/// The WAL operation a batch write is logged as.
pub open spec fn spec_batch_op(op: WriteBatchOp) -> WalOpView {
    match op {
        WriteBatchOp::PutMessage { key, value } => WalOpView { tag: OpTag::PutMessage, key: key@, value: Some(value@) },
        WriteBatchOp::DeleteMessage { key } => WalOpView { tag: OpTag::DeleteMessage, key: key@, value: None },
        WriteBatchOp::PutLease { key, value } => WalOpView { tag: OpTag::PutLease, key: key@, value: Some(value@) },
        WriteBatchOp::DeleteLease { key } => WalOpView { tag: OpTag::DeleteLease, key: key@, value: None },
        WriteBatchOp::PutLeaseExpiry { key } => WalOpView { tag: OpTag::PutLeaseExpiry, key: key@, value: None },
        WriteBatchOp::DeleteLeaseExpiry { key } => WalOpView {
            tag: OpTag::DeleteLeaseExpiry,
            key: key@,
            value: None,
        },
        WriteBatchOp::PutQueue { key, value } => WalOpView { tag: OpTag::PutQueue, key: key@, value: Some(value@) },
        WriteBatchOp::DeleteQueue { key } => WalOpView { tag: OpTag::DeleteQueue, key: key@, value: None },
        WriteBatchOp::PutState { key, value } => WalOpView { tag: OpTag::PutState, key: key@, value: Some(value@) },
        WriteBatchOp::DeleteState { key } => WalOpView { tag: OpTag::DeleteState, key: key@, value: None },
    }
}

/// Convert a batch write into the WAL operation it is logged as.
pub fn batch_op_to_wal_op(op: WriteBatchOp) -> (r: WalOp)
    ensures
        r@ == spec_batch_op(op),
{
    match op {
        WriteBatchOp::PutMessage { key, value } => WalOp { tag: OpTag::PutMessage, key, value: Some(value) },
        WriteBatchOp::DeleteMessage { key } => WalOp { tag: OpTag::DeleteMessage, key, value: None },
        WriteBatchOp::PutLease { key, value } => WalOp { tag: OpTag::PutLease, key, value: Some(value) },
        WriteBatchOp::DeleteLease { key } => WalOp { tag: OpTag::DeleteLease, key, value: None },
        WriteBatchOp::PutLeaseExpiry { key } => WalOp { tag: OpTag::PutLeaseExpiry, key, value: None },
        WriteBatchOp::DeleteLeaseExpiry { key } => WalOp { tag: OpTag::DeleteLeaseExpiry, key, value: None },
        WriteBatchOp::PutQueue { key, value } => WalOp { tag: OpTag::PutQueue, key, value: Some(value) },
        WriteBatchOp::DeleteQueue { key } => WalOp { tag: OpTag::DeleteQueue, key, value: None },
        WriteBatchOp::PutState { key, value } => WalOp { tag: OpTag::PutState, key, value: Some(value) },
        WriteBatchOp::DeleteState { key } => WalOp { tag: OpTag::DeleteState, key, value: None },
    }
}

/// The WAL entry a batch is logged as: its writes in order. An empty batch
/// is not logged at all.
pub fn batch_to_entry(ops: Vec<WriteBatchOp>) -> (r: Option<WalEntry>)
    ensures
        ops@.len() == 0 ==> r is None,
        ops@.len() > 0 ==> (r matches Some(e) && e@ == ops@.map_values(|o: WriteBatchOp| spec_batch_op(o))),
{
    if ops.len() == 0 {
        return None;
    }
    let ghost all = ops@;
    let mut rest = ops;
    let mut wal_ops: Vec<WalOp> = Vec::new();
    while rest.len() > 0
        invariant
            all.len() == wal_ops@.len() + rest@.len(),
            forall|j: int| 0 <= j < wal_ops@.len() ==> #[trigger] wal_ops@[j]@ == spec_batch_op(all[j]),
            rest@ == all.subrange(wal_ops@.len() as int, all.len() as int),
        decreases rest@.len(),
    {
        let op = rest.remove(0);
        let w = batch_op_to_wal_op(op);
        wal_ops.push(w);
        proof {
            assert(rest@ =~= all.subrange(wal_ops@.len() as int, all.len() as int));
        }
    }
    let entry = WalEntry { ops: wal_ops };
    assert(entry@ =~= all.map_values(|o: WriteBatchOp| spec_batch_op(o)));
    Some(entry)
}

// ---------------------------------------------------------------------------
// In-memory indexes
// ---------------------------------------------------------------------------

/// In-memory indexes rebuilt from WAL replay and maintained incrementally.
pub struct Indexes {
    messages: ByteMap<Vec<u8>>,
    leases: ByteMap<Vec<u8>>,
    lease_expiries: ByteMap<Vec<u8>>,
    queues: ByteMap<Vec<u8>>,
    state: ByteMap<Vec<u8>>,
}

fn text_key_bytes(key: &[u8]) -> (r: Vec<u8>)
    ensures
        r@ == text_key(key@),
{
    proof {
        assert(key@.subrange(0, key@.len() as int) == key@);
    }
    match utf8_range(key, 0, key.len()) {
        Ok(_) => bytes_to_vec(key),
        Err(_) => Vec::new(),
    }
}

impl Indexes {
    /// The indexes' contents.
    pub closed spec fn view(&self) -> IndexesView {
        IndexesView {
            messages: values_view(self.messages.view()),
            leases: values_view(self.leases.view()),
            lease_expiries: self.lease_expiries.view().dom(),
            queues: values_view(self.queues.view()),
            state: values_view(self.state.view()),
        }
    }

    /// The maps are well formed, the expiry map holds no values, and every
    /// state key is UTF-8.
    pub closed spec fn wf(&self) -> bool {
        &&& self.messages.wf()
        &&& self.leases.wf()
        &&& self.lease_expiries.wf()
        &&& self.queues.wf()
        &&& self.state.wf()
        &&& forall|k: Seq<u8>| #[trigger] self.lease_expiries.view().contains_key(k) ==> self.lease_expiries.view()[k]@
            == Seq::<u8>::empty()
        &&& forall|k: Seq<u8>| #[trigger] self.state.view().contains_key(k) ==> valid_utf8(k)
    }

    /// Empty indexes.
    pub fn new() -> (r: Self)
        ensures
            r.wf(),
            r.view() == empty_indexes(),
    {
        let r = Self {
            messages: ByteMap::new(),
            leases: ByteMap::new(),
            lease_expiries: ByteMap::new(),
            queues: ByteMap::new(),
            state: ByteMap::new(),
        };
        assert(r.view().messages =~= Map::<Seq<u8>, Seq<u8>>::empty());
        assert(r.view().leases =~= Map::<Seq<u8>, Seq<u8>>::empty());
        assert(r.view().lease_expiries =~= Set::<Seq<u8>>::empty());
        assert(r.view().queues =~= Map::<Seq<u8>, Seq<u8>>::empty());
        assert(r.view().state =~= Map::<Seq<u8>, Seq<u8>>::empty());
        r
    }

    /// Apply a single WAL operation to the indexes. `decodes` says whether
    /// the operation's value decodes as the record its tag names (a message
    /// or a queue config); other operations ignore it.
    pub fn apply_op(&mut self, op: &WalOp, decodes: bool)
        requires
            old(self).wf(),
        ensures
            final(self).wf(),
            final(self).view() == index_op(old(self).view(), op@, decodes),
    {
        let ghost v0 = self.view();
        match op.tag {
            OpTag::PutMessage => {
                if let Some(value) = &op.value {
                    if decodes {
                        let v = bytes_to_vec(value.as_slice());
                        let ghost vi = v;
                        self.messages.insert(bytes_to_vec(op.key.as_slice()), v);
                        proof {
                            lemma_values_view_insert(old(self).messages.view(), op.key@, vi);
                        }
                    }
                }
            },
            OpTag::DeleteMessage => {
                self.messages.remove(op.key.as_slice());
                proof {
                    lemma_values_view_remove(old(self).messages.view(), op.key@);
                }
            },
            OpTag::PutLease => {
                if let Some(value) = &op.value {
                    let v = bytes_to_vec(value.as_slice());
                    let ghost vi = v;
                    self.leases.insert(bytes_to_vec(op.key.as_slice()), v);
                    proof {
                        lemma_values_view_insert(old(self).leases.view(), op.key@, vi);
                    }
                }
            },
            OpTag::DeleteLease => {
                self.leases.remove(op.key.as_slice());
                proof {
                    lemma_values_view_remove(old(self).leases.view(), op.key@);
                }
            },
            OpTag::PutLeaseExpiry => {
                self.lease_expiries.insert(bytes_to_vec(op.key.as_slice()), Vec::new());
                proof {
                    assert(self.view().lease_expiries =~= v0.lease_expiries.insert(op.key@));
                }
            },
            OpTag::DeleteLeaseExpiry => {
                self.lease_expiries.remove(op.key.as_slice());
                proof {
                    assert(self.view().lease_expiries =~= v0.lease_expiries.remove(op.key@));
                }
            },
            OpTag::PutQueue => {
                if let Some(value) = &op.value {
                    if decodes {
                        let k = text_key_bytes(op.key.as_slice());
                        let v = bytes_to_vec(value.as_slice());
                        let ghost vi = v;
                        self.queues.insert(k, v);
                        proof {
                            lemma_values_view_insert(old(self).queues.view(), text_key(op.key@), vi);
                        }
                    }
                }
            },
            OpTag::DeleteQueue => {
                let k = text_key_bytes(op.key.as_slice());
                self.queues.remove(k.as_slice());
                proof {
                    lemma_values_view_remove(old(self).queues.view(), text_key(op.key@));
                }
            },
            OpTag::PutState => {
                if let Some(value) = &op.value {
                    let k = text_key_bytes(op.key.as_slice());
                    let v = bytes_to_vec(value.as_slice());
                    let ghost vi = v;
                    proof {
                        if !valid_utf8(op.key@) {
                            assert(valid_utf8(Seq::<u8>::empty())) by {
                                encode_utf8_valid_utf8(Seq::<char>::empty());
                                assert(encode_utf8(Seq::<char>::empty()) =~= Seq::<u8>::empty());
                            }
                        }
                    }
                    self.state.insert(k, v);
                    proof {
                        lemma_values_view_insert(old(self).state.view(), text_key(op.key@), vi);
                    }
                }
            },
            OpTag::DeleteState => {
                let k = text_key_bytes(op.key.as_slice());
                self.state.remove(k.as_slice());
                proof {
                    lemma_values_view_remove(old(self).state.view(), text_key(op.key@));
                }
            },
        }
    }

    /// Apply all operations in a WAL entry to the indexes, in order;
    /// `decodes[i]` goes with the entry's `i`-th operation.
    pub fn apply_entry(&mut self, entry: &WalEntry, decodes: &[bool])
        requires
            old(self).wf(),
            decodes@.len() == entry.ops@.len(),
        ensures
            final(self).wf(),
            final(self).view() == index_entry(old(self).view(), entry@, decodes@),
    {
        let n = entry.ops.len();
        let mut i: usize = 0;
        while i < n
            invariant
                n == entry.ops@.len() == decodes@.len(),
                i <= n,
                self.wf(),
                self.view() == index_entry(old(self).view(), entry@.subrange(0, i as int), decodes@),
            decreases n - i,
        {
            assert(entry@.subrange(0, i + 1).drop_last() == entry@.subrange(0, i as int));
            self.apply_op(&entry.ops[i], decodes[i]);
            i = i + 1;
        }
        assert(entry@.subrange(0, n as int) == entry@);
    }

    /// The indexes that opening the store rebuilds: the replayed entries
    /// applied in order to empty indexes, `decodes[i][j]` telling whether the
    /// value of operation `j` of entry `i` decodes as the record its tag names.
    pub fn from_replay(entries: &Vec<WalEntry>, decodes: &Vec<Vec<bool>>) -> (r: Self)
        requires
            decodes@.len() == entries@.len(),
            forall|i: int| 0 <= i < entries@.len() ==> (#[trigger] decodes@[i])@.len() == entries@[i].ops@.len(),
        ensures
            r.wf(),
            r.view() == rebuild_flagged(empty_indexes(), entries_view(entries@), flags_view(decodes@)),
    {
        let mut idx = Indexes::new();
        let mut i: usize = 0;
        while i < entries.len()
            invariant
                i <= entries@.len(),
                decodes@.len() == entries@.len(),
                forall|k: int| 0 <= k < entries@.len() ==> (#[trigger] decodes@[k])@.len() == entries@[k].ops@.len(),
                idx.wf(),
                idx.view() == rebuild_flagged(
                    empty_indexes(),
                    entries_view(entries@).take(i as int),
                    flags_view(decodes@).take(i as int),
                ),
            decreases entries@.len() - i,
        {
            assert(decodes@[i as int]@.len() == entries@[i as int].ops@.len());
            idx.apply_entry(&entries[i], decodes[i].as_slice());
            proof {
                assert(entries_view(entries@).take(i + 1).drop_last() == entries_view(entries@).take(i as int));
                assert(flags_view(decodes@).take(i + 1).drop_last() == flags_view(decodes@).take(i as int));
                assert(entries_view(entries@).take(i + 1).last() == entries@[i as int]@);
                assert(flags_view(decodes@).take(i + 1).last() == decodes@[i as int]@);
            }
            i = i + 1;
        }
        assert(entries_view(entries@).take(entries@.len() as int) == entries_view(entries@));
        assert(flags_view(decodes@).take(entries@.len() as int) == flags_view(decodes@));
        idx
    }

    /// Drop the messages stored under `keys` from the index, as compaction
    /// does with messages that outlived their TTL.
    pub fn remove_messages(&mut self, keys: &Vec<Vec<u8>>)
        requires
            old(self).wf(),
        ensures
            final(self).wf(),
            final(self).view() == (IndexesView {
                messages: old(self).view().messages.remove_keys(keys@.map_values(|k: Vec<u8>| k@).to_set()),
                ..old(self).view()
            }),
    {
        let ghost ks = keys@.map_values(|k: Vec<u8>| k@);
        let mut i: usize = 0;
        assert(ks.subrange(0, 0).to_set() =~= Set::<Seq<u8>>::empty());
        assert(old(self).view().messages.remove_keys(Set::<Seq<u8>>::empty()) =~= old(self).view().messages);
        while i < keys.len()
            invariant
                i <= keys@.len(),
                ks == keys@.map_values(|k: Vec<u8>| k@),
                self.wf(),
                self.view() == (IndexesView {
                    messages: old(self).view().messages.remove_keys(ks.subrange(0, i as int).to_set()),
                    ..old(self).view()
                }),
            decreases keys@.len() - i,
        {
            let ghost before = self.view();
            let ghost before_messages_map = self.messages.view();
            assert(keys@[i as int]@ == ks[i as int]);
            self.messages.remove(keys[i].as_slice());
            proof {
                let k = ks[i as int];
                let set0 = ks.subrange(0, i as int).to_set();
                lemma_values_view_remove(before_messages_map, k);
                ks.subrange(0, i as int).lemma_push_to_set_commute(k);
                assert(ks.subrange(0, i + 1) == ks.subrange(0, i as int).push(k));
                assert(ks.subrange(0, i + 1).to_set() == set0.insert(k));
                assert(self.view().messages == before.messages.remove(k));
                assert(self.view().messages =~= old(self).view().messages.remove_keys(set0.insert(k)));
            }
            i = i + 1;
        }
        assert(ks.subrange(0, keys@.len() as int) == ks);
    }

    // --- Message store ---

    /// The encoded message stored under `key`.
    pub fn get_message(&self, key: &[u8]) -> (r: Option<Vec<u8>>)
        requires
            self.wf(),
        ensures
            match r {
                Some(v) => self.view().messages.contains_key(key@) && self.view().messages[key@] == v@,
                None => !self.view().messages.contains_key(key@),
            },
    {
        copy_opt(self.messages.get(key))
    }

    /// Messages whose keys start with `prefix`, in lexicographic key order.
    pub fn list_messages(&self, prefix: &[u8]) -> (r: Vec<(Vec<u8>, Vec<u8>)>)
        requires
            self.wf(),
        ensures
            lists_first_selected(
                pairs_view(r@),
                self.view().messages,
                ScanFilterView::Prefix(prefix@),
                self.view().messages.len(),
            ),
    {
        let from = bytes_to_vec(prefix);
        let filter = match prefix_upper_bound(prefix) {
            Some(end) => ScanFilter::Between(from, end),
            None => ScanFilter::From(from),
        };
        proof {
            lemma_values_view_dom(self.messages.view());
            assert(filter.view() == range_filter(prefix@, spec_upper_bound(prefix@)));
            assert forall|k: Seq<u8>| #[trigger] selects(filter.view(), k) == selects(ScanFilterView::Prefix(prefix@), k) by {
                lemma_byte_range_is_prefix(prefix@, k);
            }
        }
        let r = self.messages.scan(&filter, None);
        proof {
            lemma_same_selection(
                pairs_view(r@),
                self.view().messages,
                filter.view(),
                ScanFilterView::Prefix(prefix@),
                self.view().messages.len(),
            );
        }
        r
    }

    // --- Lease store ---

    /// The lease value stored under `key`.
    pub fn get_lease(&self, key: &[u8]) -> (r: Option<Vec<u8>>)
        requires
            self.wf(),
        ensures
            match r {
                Some(v) => self.view().leases.contains_key(key@) && self.view().leases[key@] == v@,
                None => !self.view().leases.contains_key(key@),
            },
    {
        copy_opt(self.leases.get(key))
    }

    /// Lease-expiry keys at or before `up_to_key`, earliest first.
    pub fn list_expired_leases(&self, up_to_key: &[u8]) -> (r: Vec<Vec<u8>>)
        requires
            self.wf(),
        ensures
            lists_first_selected(
                keys_view(r@),
                set_as_map(self.view().lease_expiries),
                ScanFilterView::UpTo(up_to_key@),
                self.view().lease_expiries.len(),
            ),
    {
        let filter = ScanFilter::UpTo(bytes_to_vec(up_to_key));
        let pairs = self.lease_expiries.scan(&filter, None);
        let keys = first_of_pairs(&pairs);
        proof {
            lemma_values_view_dom(self.lease_expiries.view());
            assert(set_as_map(self.view().lease_expiries) =~= values_view(self.lease_expiries.view()));
            assert(self.view().lease_expiries.len() == self.lease_expiries.view().len());
            assert(keys_view(keys@) =~= pairs_view(pairs@)) by {
                assert forall|i: int| 0 <= i < pairs@.len() implies #[trigger] pairs_view(pairs@)[i].1
                    == Seq::<u8>::empty() by {
                    let k = pairs_view(pairs@)[i].0;
                    assert(values_view(self.lease_expiries.view())[k] == pairs_view(pairs@)[i].1);
                }
                assert forall|i: int| 0 <= i < pairs@.len() implies #[trigger] keys_view(keys@)[i] == pairs_view(
                    pairs@,
                )[i] by {
                    assert(keys@[i]@ == pairs@[i].0@);
                }
            }
        }
        keys
    }

    // --- Queue config store ---

    /// The encoded queue config stored under `queue_id`.
    pub fn get_queue(&self, queue_id: &str) -> (r: Option<Vec<u8>>)
        requires
            self.wf(),
        ensures
            match r {
                Some(v) => self.view().queues.contains_key(str_bytes(queue_id)) && self.view().queues[str_bytes(
                    queue_id,
                )] == v@,
                None => !self.view().queues.contains_key(str_bytes(queue_id)),
            },
    {
        copy_opt(self.queues.get(queue_id.as_bytes()))
    }

    /// All encoded queue configs, in order of queue id.
    pub fn list_queues(&self) -> (r: Vec<Vec<u8>>)
        requires
            self.wf(),
        ensures
            r@.len() == self.view().queues.len(),
            exists|ids: Seq<Seq<u8>>| #[trigger] values_in_key_order(ids, vec_views(r@), self.view().queues),
    {
        let r = self.queues.values_in_order();
        proof {
            let ids = choose|ids: Seq<Seq<u8>>| #[trigger] values_in_key_order(ids, vec_views(r@), values_view(self.queues.view()));
            assert(values_in_key_order(ids, vec_views(r@), self.view().queues));
        }
        r
    }

    // --- State store ---

    /// The state value stored under `key`.
    pub fn get_state(&self, key: &str) -> (r: Option<Vec<u8>>)
        requires
            self.wf(),
        ensures
            match r {
                Some(v) => self.view().state.contains_key(str_bytes(key)) && self.view().state[str_bytes(key)]
                    == v@,
                None => !self.view().state.contains_key(str_bytes(key)),
            },
    {
        copy_opt(self.state.get(key.as_bytes()))
    }

    /// The first `limit` state entries whose keys start with `prefix`, in key
    /// order. The scan runs up to the prefix's string upper bound, or, when
    /// that bound is not a string, over the keys with the prefix.
    pub fn list_state_by_prefix(&self, prefix: &str, limit: usize) -> (r: Vec<(String, Vec<u8>)>)
        requires
            self.wf(),
        ensures
            lists_first_selected(
                state_pairs_view(r@),
                self.view().state,
                ScanFilterView::Prefix(str_bytes(prefix)),
                limit as nat,
            ),
    {
        let from = str_to_vec(prefix);
        let filter = match prefix_upper_bound_str(prefix) {
            Some(end) => ScanFilter::Between(from, str_to_vec(end.as_str())),
            None => ScanFilter::Prefix(from),
        };
        let ghost p = str_bytes(prefix);
        proof {
            assert forall|k: Seq<u8>| #[trigger] selects(filter.view(), k) == selects(ScanFilterView::Prefix(p), k) by {
                if spec_upper_bound_str(p) is Some {
                    lemma_byte_range_is_prefix(p, k);
                }
            }
        }
        let pairs = self.state.scan_take(&filter, limit);
        proof {
            lemma_same_selection(pairs_view(pairs@), self.view().state, filter.view(), ScanFilterView::Prefix(p), limit as nat);
        }
        let ghost m = self.view().state;
        let mut out: Vec<(String, Vec<u8>)> = Vec::new();
        let mut i: usize = 0;
        while i < pairs.len()
            invariant
                self.wf(),
                m == self.view().state,
                lists_first_selected(pairs_view(pairs@), m, ScanFilterView::Prefix(str_bytes(prefix)), limit as nat),
                i <= pairs@.len(),
                state_pairs_view(out@) == pairs_view(pairs@).subrange(0, i as int),
            decreases pairs@.len() - i,
        {
            let key = &pairs[i].0;
            proof {
                assert(m.contains_key(pairs_view(pairs@)[i as int].0));
                lemma_values_view_dom(self.state.view());
                assert(valid_utf8(key@));
                assert(key@.subrange(0, key@.len() as int) == key@);
            }
            let name = match utf8_range(key.as_slice(), 0, key.len()) {
                Ok(s) => s,
                Err(_) => {
                    assert(false);
                    String::new()
                },
            };
            let value = bytes_to_vec(pairs[i].1.as_slice());
            let ghost before = out@;
            let ghost entry = (encode_utf8(name@), value@);
            assert(entry == pairs_view(pairs@)[i as int]);
            assert(state_pairs_view(before).len() == before.len());
            assert(before.len() == i);
            let item = (name, value);
            let ghost gitem = item;
            out.push(item);
            proof {
                assert(out@ == before.push(gitem));
                assert(state_pairs_view(out@)[i as int] == entry);
                assert forall|j: int| 0 <= j < i + 1 implies #[trigger] state_pairs_view(out@)[j] == pairs_view(pairs@).subrange(0, i + 1)[j] by {
                    if j < i {
                        assert(out@[j] == before[j]);
                        assert(state_pairs_view(before)[j] == pairs_view(pairs@).subrange(0, i as int)[j]);
                    }
                }
                assert(state_pairs_view(out@) =~= pairs_view(pairs@).subrange(0, i + 1));
            }
            i = i + 1;
        }
        assert(pairs_view(pairs@).subrange(0, pairs@.len() as int) == pairs_view(pairs@));
        out
    }

}



// ---------------------------------------------------------------------------
// Liveness
// ---------------------------------------------------------------------------

/// Which keys of each store are live.
pub struct LivenessView {
    pub messages: Set<Seq<u8>>,
    pub leases: Set<Seq<u8>>,
    pub lease_expiries: Set<Seq<u8>>,
    pub queues: Set<Seq<u8>>,
    pub state: Set<Seq<u8>>,
}

/// The live keys of a state of the indexes.
pub open spec fn liveness_of(v: IndexesView) -> LivenessView {
    LivenessView {
        messages: v.messages.dom(),
        leases: v.leases.dom(),
        lease_expiries: v.lease_expiries,
        queues: v.queues.dom(),
        state: v.state.dom(),
    }
}

/// Whether a WAL operation still stands for live data: a put whose key its
/// store still holds. Deletes are never live.
pub open spec fn spec_is_live(l: LivenessView, op: WalOpView) -> bool {
    match op.tag {
        OpTag::PutMessage => l.messages.contains(op.key),
        OpTag::PutLease => l.leases.contains(op.key),
        OpTag::PutLeaseExpiry => l.lease_expiries.contains(op.key),
        OpTag::PutQueue => l.queues.contains(text_key(op.key)),
        OpTag::PutState => l.state.contains(text_key(op.key)),
        _ => false,
    }
}

/// In-memory snapshot of what's live, used for liveness checks during
/// compaction. Only the keys are kept, not the values.
pub struct LivenessSnapshot {
    message_keys: ByteMap<Vec<u8>>,
    lease_keys: ByteMap<Vec<u8>>,
    lease_expiry_keys: ByteMap<Vec<u8>>,
    queue_keys: ByteMap<Vec<u8>>,
    state_keys: ByteMap<Vec<u8>>,
}

impl LivenessSnapshot {
    /// The live keys.
    pub closed spec fn view(&self) -> LivenessView {
        LivenessView {
            messages: self.message_keys.view().dom(),
            leases: self.lease_keys.view().dom(),
            lease_expiries: self.lease_expiry_keys.view().dom(),
            queues: self.queue_keys.view().dom(),
            state: self.state_keys.view().dom(),
        }
    }

    /// The key maps are well formed.
    pub closed spec fn wf(&self) -> bool {
        &&& self.message_keys.wf()
        &&& self.lease_keys.wf()
        &&& self.lease_expiry_keys.wf()
        &&& self.queue_keys.wf()
        &&& self.state_keys.wf()
    }

    /// Build a liveness snapshot from the current indexes.
    pub fn from_indexes(idx: &Indexes) -> (r: Self)
        requires
            idx.wf(),
        ensures
            r.wf(),
            r.view() == liveness_of(idx.view()),
    {
        let r = LivenessSnapshot {
            message_keys: idx.messages.keys_only(),
            lease_keys: idx.leases.keys_only(),
            lease_expiry_keys: idx.lease_expiries.keys_only(),
            queue_keys: idx.queues.keys_only(),
            state_keys: idx.state.keys_only(),
        };
        proof {
            lemma_values_view_dom(idx.messages.view());
            lemma_values_view_dom(idx.leases.view());
            lemma_values_view_dom(idx.queues.view());
            lemma_values_view_dom(idx.state.view());
        }
        r
    }

    /// Check if a WAL operation references a live key.
    pub fn is_live(&self, op: &WalOp) -> (r: bool)
        requires
            self.wf(),
        ensures
            r == spec_is_live(self.view(), op@),
    {
        match op.tag {
            OpTag::PutMessage => self.message_keys.contains_key(op.key.as_slice()),
            OpTag::PutLease => self.lease_keys.contains_key(op.key.as_slice()),
            OpTag::PutLeaseExpiry => self.lease_expiry_keys.contains_key(op.key.as_slice()),
            OpTag::PutQueue => {
                let k = text_key_bytes(op.key.as_slice());
                self.queue_keys.contains_key(k.as_slice())
            },
            OpTag::PutState => {
                let k = text_key_bytes(op.key.as_slice());
                self.state_keys.contains_key(k.as_slice())
            },
            _ => false,
        }
    }
}

// ---------------------------------------------------------------------------
// Laws
// ---------------------------------------------------------------------------

/// The indexes rebuilt by applying whole entries in order, where `dec` says
/// which operations' values decode as their records.
pub open spec fn rebuild(v: IndexesView, es: Seq<Seq<WalOpView>>, dec: spec_fn(WalOpView) -> bool) -> IndexesView
    decreases es.len(),
{
    if es.len() == 0 {
        v
    } else {
        index_entry(rebuild(v, es.drop_last(), dec), es.last(), es.last().map_values(dec))
    }
}

/// Decode flags as sequences.
pub open spec fn flags_view(d: Seq<Vec<bool>>) -> Seq<Seq<bool>> {
    d.map_values(|f: Vec<bool>| f@)
}

/// The indexes after applying `es` in order to `v`, with `flags[i][j]`
/// telling whether the value of operation `j` of entry `i` decodes.
pub open spec fn rebuild_flagged(v: IndexesView, es: Seq<Seq<WalOpView>>, flags: Seq<Seq<bool>>) -> IndexesView
    decreases es.len(),
{
    if es.len() == 0 {
        v
    } else {
        index_entry(rebuild_flagged(v, es.drop_last(), flags.drop_last()), es.last(), flags.last())
    }
}

/// Flags that a decoder gives rebuild the indexes as that decoder does.
pub proof fn lemma_flags_follow_decoder(
    v: IndexesView,
    es: Seq<Seq<WalOpView>>,
    flags: Seq<Seq<bool>>,
    dec: spec_fn(WalOpView) -> bool,
)
    requires
        flags.len() == es.len(),
        forall|i: int| 0 <= i < es.len() ==> #[trigger] flags[i] == es[i].map_values(dec),
    ensures
        rebuild_flagged(v, es, flags) == rebuild(v, es, dec),
    decreases es.len(),
{
    if es.len() > 0 {
        assert forall|i: int| 0 <= i < es.drop_last().len() implies #[trigger] flags.drop_last()[i]
            == es.drop_last()[i].map_values(dec) by {
            assert(flags.drop_last()[i] == flags[i]);
        }
        lemma_flags_follow_decoder(v, es.drop_last(), flags.drop_last(), dec);
        assert(flags.last() == flags[es.len() - 1]);
    }
}

/// A read gives back what the last write stored: after a put, the key holds
/// the put's value (a message or queue put only when its value decodes),
/// and after a delete the key is gone.
pub proof fn law_read_after_write(v: IndexesView, key: Seq<u8>, val: Seq<u8>, decodes: bool)
    ensures
        index_op(v, WalOpView { tag: OpTag::PutMessage, key, value: Some(val) }, true).messages[key] == val,
        index_op(v, WalOpView { tag: OpTag::PutMessage, key, value: Some(val) }, true).messages.contains_key(key),
        index_op(v, WalOpView { tag: OpTag::PutMessage, key, value: Some(val) }, false) == v,
        index_op(v, WalOpView { tag: OpTag::PutLease, key, value: Some(val) }, decodes).leases[key] == val,
        index_op(v, WalOpView { tag: OpTag::PutLease, key, value: Some(val) }, decodes).leases.contains_key(key),
        index_op(v, WalOpView { tag: OpTag::PutLeaseExpiry, key, value: None }, decodes).lease_expiries.contains(key),
        index_op(v, WalOpView { tag: OpTag::PutQueue, key, value: Some(val) }, true).queues[text_key(key)] == val,
        index_op(v, WalOpView { tag: OpTag::PutQueue, key, value: Some(val) }, true).queues.contains_key(
            text_key(key),
        ),
        index_op(v, WalOpView { tag: OpTag::PutQueue, key, value: Some(val) }, false) == v,
        index_op(v, WalOpView { tag: OpTag::PutState, key, value: Some(val) }, decodes).state[text_key(key)] == val,
        index_op(v, WalOpView { tag: OpTag::PutState, key, value: Some(val) }, decodes).state.contains_key(
            text_key(key),
        ),
        !index_op(v, WalOpView { tag: OpTag::DeleteMessage, key, value: None }, decodes).messages.contains_key(key),
        !index_op(v, WalOpView { tag: OpTag::DeleteLease, key, value: None }, decodes).leases.contains_key(key),
        !index_op(v, WalOpView { tag: OpTag::DeleteLeaseExpiry, key, value: None }, decodes).lease_expiries.contains(
            key,
        ),
        !index_op(v, WalOpView { tag: OpTag::DeleteQueue, key, value: None }, decodes).queues.contains_key(
            text_key(key),
        ),
        !index_op(v, WalOpView { tag: OpTag::DeleteState, key, value: None }, decodes).state.contains_key(
            text_key(key),
        ),
{
}

/// A write touches only its own key: every other key of every store keeps
/// what it held.
pub proof fn law_write_leaves_other_keys(v: IndexesView, op: WalOpView, decodes: bool, other: Seq<u8>)
    requires
        other != op.key,
        other != text_key(op.key),
    ensures
        index_op(v, op, decodes).messages.contains_key(other) == v.messages.contains_key(other),
        index_op(v, op, decodes).messages[other] == v.messages[other],
        index_op(v, op, decodes).leases.contains_key(other) == v.leases.contains_key(other),
        index_op(v, op, decodes).leases[other] == v.leases[other],
        index_op(v, op, decodes).lease_expiries.contains(other) == v.lease_expiries.contains(other),
        index_op(v, op, decodes).queues.contains_key(other) == v.queues.contains_key(other),
        index_op(v, op, decodes).queues[other] == v.queues[other],
        index_op(v, op, decodes).state.contains_key(other) == v.state.contains_key(other),
        index_op(v, op, decodes).state[other] == v.state[other],
{
}


/// A put that the indexes have just applied stands for live data: in the
/// liveness snapshot of the indexes after the put, the operation is live. So
/// compaction keeps the latest put of every message, lease, lease expiry,
/// queue and state key that is still stored (a message put only while
/// within the TTL), and a compacted log still rebuilds each store.
pub proof fn law_applied_put_is_live(v: IndexesView, op: WalOpView)
    requires
        op.tag == OpTag::PutMessage || op.tag == OpTag::PutLease || op.tag == OpTag::PutLeaseExpiry
            || op.tag == OpTag::PutQueue || op.tag == OpTag::PutState,
        op.tag == OpTag::PutLeaseExpiry || op.value is Some,
    ensures
        spec_is_live(liveness_of(index_op(v, op, true)), op),
{
}

/// A queue or state put is live exactly while the queue or state store
/// holds its key, and a lease or message put while its own store holds its
/// key: whether the other stores hold the same key makes no difference.
/// Deletes are never live.
pub proof fn law_liveness_follows_own_store(l: LivenessView, m: LivenessView, op: WalOpView)
    requires
        op.tag == OpTag::PutQueue ==> (l.queues.contains(text_key(op.key)) == m.queues.contains(text_key(op.key))),
        op.tag == OpTag::PutState ==> (l.state.contains(text_key(op.key)) == m.state.contains(text_key(op.key))),
        op.tag == OpTag::PutMessage ==> (l.messages.contains(op.key) == m.messages.contains(op.key)),
        op.tag == OpTag::PutLease ==> (l.leases.contains(op.key) == m.leases.contains(op.key)),
        op.tag == OpTag::PutLeaseExpiry ==> (l.lease_expiries.contains(op.key) == m.lease_expiries.contains(op.key)),
    ensures
        spec_is_live(l, op) == spec_is_live(m, op),
        op.tag == OpTag::DeleteMessage || op.tag == OpTag::DeleteLease || op.tag == OpTag::DeleteLeaseExpiry
            || op.tag == OpTag::DeleteQueue || op.tag == OpTag::DeleteState ==> !spec_is_live(l, op),
{
}

/// Restarting rebuilds the indexes that the committed batches built: the
/// indexes replayed from a segment holding the appended batches, followed by
/// a batch torn by a crash, are those of the appended batches alone. A batch
/// is thus applied whole or not at all.
pub proof fn law_replay_rebuilds_indexes(
    created_ns: u64,
    es: Seq<Seq<WalOpView>>,
    torn: Seq<WalOpView>,
    partial: Seq<u8>,
    dec: spec_fn(WalOpView) -> bool,
)
    requires
        forall|i: int| 0 <= i < es.len() ==> entry_replayable(#[trigger] es[i]),
        entry_replayable(torn) || partial.len() == 0,
        partial.len() < spec_entry_record(torn).len(),
        partial == spec_entry_record(torn).subrange(0, partial.len() as int),
    ensures
        rebuild(empty_indexes(), spec_replay_segment(spec_segment_header(created_ns) + spec_records(es) + partial), dec)
            == rebuild(empty_indexes(), es, dec),
{
    law_replay_survives_torn_tail(created_ns, es, torn, partial);
}

/// Reopening the store rebuilds the indexes across all its segment files:
/// the indexes replayed from the segments, in sequence order, are those that
/// the batches appended to them built, in the order they were written.
pub proof fn law_reopen_rebuilds_indexes(
    created: Seq<u64>,
    parts: Seq<Seq<Seq<WalOpView>>>,
    dec: spec_fn(WalOpView) -> bool,
)
    requires
        created.len() == parts.len(),
        forall|i: int, j: int| 0 <= i < parts.len() && 0 <= j < parts[i].len() ==> entry_replayable(#[trigger] parts[i][j]),
    ensures
        rebuild(empty_indexes(), spec_replay_segments(spec_segment_files(created, parts)), dec) == rebuild(
            empty_indexes(),
            flatten_entries(parts),
            dec,
        ),
{
    law_replay_across_segments(created, parts);
}

/// Opening the store restores what was written: the indexes that
/// `from_replay` builds from the entries replayed across the segment files,
/// with the decode flags that the value decoder gives, are those that the
/// batches appended to the segments built, in the order they were written.
pub proof fn law_open_restores_indexes(
    created: Seq<u64>,
    parts: Seq<Seq<Seq<WalOpView>>>,
    flags: Seq<Seq<bool>>,
    dec: spec_fn(WalOpView) -> bool,
)
    requires
        created.len() == parts.len(),
        forall|i: int, j: int| 0 <= i < parts.len() && 0 <= j < parts[i].len() ==> entry_replayable(#[trigger] parts[i][j]),
        flags.len() == spec_replay_segments(spec_segment_files(created, parts)).len(),
        forall|i: int| 0 <= i < flags.len() ==> #[trigger] flags[i] == spec_replay_segments(
            spec_segment_files(created, parts),
        )[i].map_values(dec),
    ensures
        rebuild_flagged(empty_indexes(), spec_replay_segments(spec_segment_files(created, parts)), flags) == rebuild(
            empty_indexes(),
            flatten_entries(parts),
            dec,
        ),
{
    let es = spec_replay_segments(spec_segment_files(created, parts));
    lemma_flags_follow_decoder(empty_indexes(), es, flags, dec);
    law_reopen_rebuilds_indexes(created, parts, dec);
}

} // verus!
