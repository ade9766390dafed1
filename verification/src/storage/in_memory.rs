//! In-memory storage engine for profiling and testing.
//!
//! All data is stored in sorted maps keyed by bytes. Message and queue
//! records are stored as the encoded bytes the caller hands in.

use vstd::prelude::*;
use vstd::utf8::valid_utf8;
use crate::error::{StorageError, StorageResult};
use crate::storage::ordered::{
    lemma_values_view_dom, lemma_values_view_insert, lemma_values_view_remove,
    first_of_pairs, keys_view, lists_first_selected, values_in_key_order, vec_views, pairs_view, set_as_map, values_view, ByteMap,
    ScanFilter, ScanFilterView,
};
use crate::text::{lossy_key, lossy_key_bytes, str_bytes, str_to_vec};

verus! {

/// A single mutation to apply atomically as part of a batch.
///
/// In a Raft-replicated system, committed log entries are applied to the
/// local state machine via a batch of `Mutation`s.
#[derive(Debug)]
pub enum Mutation {
    PutMessage { key: Vec<u8>, value: Vec<u8> },
    DeleteMessage { key: Vec<u8> },
    PutLease { key: Vec<u8>, value: Vec<u8> },
    DeleteLease { key: Vec<u8> },
    PutLeaseExpiry { key: Vec<u8> },
    DeleteLeaseExpiry { key: Vec<u8> },
    PutQueue { key: Vec<u8>, value: Vec<u8> },
    DeleteQueue { key: Vec<u8> },
    PutState { key: Vec<u8>, value: Vec<u8> },
    DeleteState { key: Vec<u8> },
    PutMsgIndex { key: Vec<u8>, value: Vec<u8> },
    DeleteMsgIndex { key: Vec<u8> },
}

/// The content of a mutation as byte strings.
pub enum MutationView {
    PutMessage(Seq<u8>, Seq<u8>),
    DeleteMessage(Seq<u8>),
    PutLease(Seq<u8>, Seq<u8>),
    DeleteLease(Seq<u8>),
    PutLeaseExpiry(Seq<u8>),
    DeleteLeaseExpiry(Seq<u8>),
    PutQueue(Seq<u8>, Seq<u8>),
    DeleteQueue(Seq<u8>),
    PutState(Seq<u8>, Seq<u8>),
    DeleteState(Seq<u8>),
    PutMsgIndex(Seq<u8>, Seq<u8>),
    DeleteMsgIndex(Seq<u8>),
}

impl View for Mutation {
    type V = MutationView;

    open spec fn view(&self) -> MutationView {
        match self {
            Mutation::PutMessage { key, value } => MutationView::PutMessage(key@, value@),
            Mutation::DeleteMessage { key } => MutationView::DeleteMessage(key@),
            Mutation::PutLease { key, value } => MutationView::PutLease(key@, value@),
            Mutation::DeleteLease { key } => MutationView::DeleteLease(key@),
            Mutation::PutLeaseExpiry { key } => MutationView::PutLeaseExpiry(key@),
            Mutation::DeleteLeaseExpiry { key } => MutationView::DeleteLeaseExpiry(key@),
            Mutation::PutQueue { key, value } => MutationView::PutQueue(key@, value@),
            Mutation::DeleteQueue { key } => MutationView::DeleteQueue(key@),
            Mutation::PutState { key, value } => MutationView::PutState(key@, value@),
            Mutation::DeleteState { key } => MutationView::DeleteState(key@),
            Mutation::PutMsgIndex { key, value } => MutationView::PutMsgIndex(key@, value@),
            Mutation::DeleteMsgIndex { key } => MutationView::DeleteMsgIndex(key@),
        }
    }
}

/// The contents of the engine's stores. Queue and state stores are keyed by
/// the UTF-8 bytes of their string keys; the lease-expiry store holds keys only.
pub struct EngineView {
    pub messages: Map<Seq<u8>, Seq<u8>>,
    pub leases: Map<Seq<u8>, Seq<u8>>,
    pub lease_expiry: Set<Seq<u8>>,
    pub queues: Map<Seq<u8>, Seq<u8>>,
    pub state: Map<Seq<u8>, Seq<u8>>,
    pub msg_index: Map<Seq<u8>, Seq<u8>>,
}

/// A queue or state key that is valid UTF-8 is stored as it is: the lossy
/// conversion leaves it unchanged.
pub open spec fn string_key_kept(m: MutationView) -> bool {
    match m {
        MutationView::PutQueue(k, _) => valid_utf8(k) ==> lossy_key(k) == k,
        MutationView::DeleteQueue(k) => valid_utf8(k) ==> lossy_key(k) == k,
        MutationView::PutState(k, _) => valid_utf8(k) ==> lossy_key(k) == k,
        MutationView::DeleteState(k) => valid_utf8(k) ==> lossy_key(k) == k,
        _ => true,
    }
}

/// The effect of one mutation. Queue and state keys go through the lossy
/// UTF-8 conversion, as string keys.
pub open spec fn apply_mutation(v: EngineView, m: MutationView) -> EngineView {
    match m {
        MutationView::PutMessage(k, val) => EngineView { messages: v.messages.insert(k, val), ..v },
        MutationView::DeleteMessage(k) => EngineView { messages: v.messages.remove(k), ..v },
        MutationView::PutLease(k, val) => EngineView { leases: v.leases.insert(k, val), ..v },
        MutationView::DeleteLease(k) => EngineView { leases: v.leases.remove(k), ..v },
        MutationView::PutLeaseExpiry(k) => EngineView { lease_expiry: v.lease_expiry.insert(k), ..v },
        MutationView::DeleteLeaseExpiry(k) => EngineView {
            lease_expiry: v.lease_expiry.remove(k),
            ..v
        },
        MutationView::PutQueue(k, val) => EngineView {
            queues: v.queues.insert(lossy_key(k), val),
            ..v
        },
        MutationView::DeleteQueue(k) => EngineView { queues: v.queues.remove(lossy_key(k)), ..v },
        MutationView::PutState(k, val) => EngineView {
            state: v.state.insert(lossy_key(k), val),
            ..v
        },
        MutationView::DeleteState(k) => EngineView { state: v.state.remove(lossy_key(k)), ..v },
        MutationView::PutMsgIndex(k, val) => EngineView { msg_index: v.msg_index.insert(k, val), ..v },
        MutationView::DeleteMsgIndex(k) => EngineView { msg_index: v.msg_index.remove(k), ..v },
    }
}

/// The effect of a batch of mutations, applied in order.
pub open spec fn apply_mutations_spec(v: EngineView, ms: Seq<MutationView>) -> EngineView
    decreases ms.len(),
{
    if ms.len() == 0 {
        v
    } else {
        apply_mutation(apply_mutations_spec(v, ms.drop_last()), ms.last())
    }
}

/// In-memory storage engine for profiling and testing.
pub struct InMemoryEngine {
    messages: ByteMap<Vec<u8>>,
    leases: ByteMap<Vec<u8>>,
    lease_expiry: ByteMap<Vec<u8>>,
    queues: ByteMap<Vec<u8>>,
    state: ByteMap<Vec<u8>>,
    msg_index: ByteMap<Vec<u8>>,
}

impl InMemoryEngine {
    /// The engine's contents.
    pub closed spec fn view(&self) -> EngineView {
        EngineView {
            messages: values_view(self.messages.view()),
            leases: values_view(self.leases.view()),
            lease_expiry: self.lease_expiry.view().dom(),
            queues: values_view(self.queues.view()),
            state: values_view(self.state.view()),
            msg_index: values_view(self.msg_index.view()),
        }
    }

    /// The engine's internal maps are well formed.
    pub closed spec fn wf(&self) -> bool {
        &&& self.messages.wf()
        &&& self.leases.wf()
        &&& self.lease_expiry.wf()
        &&& self.queues.wf()
        &&& self.state.wf()
        &&& self.msg_index.wf()
        &&& forall|k: Seq<u8>| #[trigger] self.lease_expiry.view().contains_key(k) ==> self.lease_expiry.view()[k]@
            == Seq::<u8>::empty()
    }

    /// An empty engine.
    pub fn new() -> (r: Self)
        ensures
            r.wf(),
            r.view().messages == Map::<Seq<u8>, Seq<u8>>::empty(),
            r.view().leases == Map::<Seq<u8>, Seq<u8>>::empty(),
            r.view().lease_expiry == Set::<Seq<u8>>::empty(),
            r.view().queues == Map::<Seq<u8>, Seq<u8>>::empty(),
            r.view().state == Map::<Seq<u8>, Seq<u8>>::empty(),
            r.view().msg_index == Map::<Seq<u8>, Seq<u8>>::empty(),
    {
        let r = Self {
            messages: ByteMap::new(),
            leases: ByteMap::new(),
            lease_expiry: ByteMap::new(),
            queues: ByteMap::new(),
            state: ByteMap::new(),
            msg_index: ByteMap::new(),
        };
        assert(r.view().messages =~= Map::<Seq<u8>, Seq<u8>>::empty());
        assert(r.view().leases =~= Map::<Seq<u8>, Seq<u8>>::empty());
        assert(r.view().lease_expiry =~= Set::<Seq<u8>>::empty());
        assert(r.view().queues =~= Map::<Seq<u8>, Seq<u8>>::empty());
        assert(r.view().state =~= Map::<Seq<u8>, Seq<u8>>::empty());
        assert(r.view().msg_index =~= Map::<Seq<u8>, Seq<u8>>::empty());
        r
    }

    // --- Message store ---

    /// Store an encoded message under its key.
    pub fn put_message(&mut self, key: &[u8], message: &[u8]) -> (r: StorageResult<()>)
        requires
            old(self).wf(),
        ensures
            final(self).wf(),
            r is Ok,
            final(self).view() == apply_mutation(old(self).view(), MutationView::PutMessage(key@, message@)),
    {
        let k = crate::text::bytes_to_vec(key);
        let v = crate::text::bytes_to_vec(message);
        let ghost v_ins = v;
        self.messages.insert(k, v);
        proof {
            lemma_values_view_insert(old(self).messages.view(), key@, v_ins);
        }
        Ok(())
    }

    /// The encoded message stored under `key`.
    pub fn get_message(&self, key: &[u8]) -> (r: StorageResult<Option<Vec<u8>>>)
        requires
            self.wf(),
        ensures
            match r {
                Ok(Some(v)) => self.view().messages.contains_key(key@) && self.view().messages[key@] == v@,
                Ok(None) => !self.view().messages.contains_key(key@),
                Err(_) => false,
            },
    {
        Ok(copy_opt(self.messages.get(key)))
    }

    /// Delete the message stored under `key`.
    pub fn delete_message(&mut self, key: &[u8]) -> (r: StorageResult<()>)
        requires
            old(self).wf(),
        ensures
            final(self).wf(),
            r is Ok,
            final(self).view() == apply_mutation(old(self).view(), MutationView::DeleteMessage(key@)),
    {
        self.messages.remove(key);
        proof {
            lemma_values_view_remove(old(self).messages.view(), key@);
        }
        Ok(())
    }

    /// Messages whose keys start with `prefix`, in lexicographic key order.
    pub fn list_messages(&self, prefix: &[u8]) -> (r: StorageResult<Vec<(Vec<u8>, Vec<u8>)>>)
        requires
            self.wf(),
        ensures
            r matches Ok(v) && lists_first_selected(
                pairs_view(v@),
                self.view().messages,
                ScanFilterView::Prefix(prefix@),
                self.view().messages.len(),
            ),
    {
        let filter = ScanFilter::Prefix(crate::text::bytes_to_vec(prefix));
        proof {
            lemma_values_view_dom(self.messages.view());
        }
        Ok(self.messages.scan(&filter, None))
    }

    // --- Lease store ---

    /// Store a lease record.
    pub fn put_lease(&mut self, key: &[u8], value: &[u8]) -> (r: StorageResult<()>)
        requires
            old(self).wf(),
        ensures
            final(self).wf(),
            r is Ok,
            final(self).view() == apply_mutation(old(self).view(), MutationView::PutLease(key@, value@)),
    {
        let k = crate::text::bytes_to_vec(key);
        let v = crate::text::bytes_to_vec(value);
        let ghost v_ins = v;
        self.leases.insert(k, v);
        proof {
            lemma_values_view_insert(old(self).leases.view(), key@, v_ins);
        }
        Ok(())
    }

    /// The lease value stored under `key`.
    pub fn get_lease(&self, key: &[u8]) -> (r: StorageResult<Option<Vec<u8>>>)
        requires
            self.wf(),
        ensures
            match r {
                Ok(Some(v)) => self.view().leases.contains_key(key@) && self.view().leases[key@] == v@,
                Ok(None) => !self.view().leases.contains_key(key@),
                Err(_) => false,
            },
    {
        Ok(copy_opt(self.leases.get(key)))
    }

    /// Delete a lease by key.
    pub fn delete_lease(&mut self, key: &[u8]) -> (r: StorageResult<()>)
        requires
            old(self).wf(),
        ensures
            final(self).wf(),
            r is Ok,
            final(self).view() == apply_mutation(old(self).view(), MutationView::DeleteLease(key@)),
    {
        self.leases.remove(key);
        proof {
            lemma_values_view_remove(old(self).leases.view(), key@);
        }
        Ok(())
    }

    /// Lease-expiry keys at or before `up_to_key`, earliest first.
    pub fn list_expired_leases(&self, up_to_key: &[u8]) -> (r: StorageResult<Vec<Vec<u8>>>)
        requires
            self.wf(),
        ensures
            r matches Ok(v) && lists_first_selected(
                keys_view(v@),
                set_as_map(self.view().lease_expiry),
                ScanFilterView::UpTo(up_to_key@),
                self.view().lease_expiry.len(),
            ),
    {
        let filter = ScanFilter::UpTo(crate::text::bytes_to_vec(up_to_key));
        let pairs = self.lease_expiry.scan(&filter, None);
        let keys = first_of_pairs(&pairs);
        proof {
            lemma_values_view_dom(self.lease_expiry.view());
            assert(set_as_map(self.view().lease_expiry) =~= values_view(self.lease_expiry.view()));
            assert(self.view().lease_expiry.len() == self.lease_expiry.view().len());
            assert(keys_view(keys@) =~= pairs_view(pairs@)) by {
                assert forall|i: int| 0 <= i < pairs@.len() implies #[trigger] pairs_view(pairs@)[i].1
                    == Seq::<u8>::empty() by {
                    let k = pairs_view(pairs@)[i].0;
                    assert(values_view(self.lease_expiry.view())[k] == pairs_view(pairs@)[i].1);
                }
                assert forall|i: int| 0 <= i < pairs@.len() implies #[trigger] keys_view(keys@)[i] == pairs_view(pairs@)[i] by {
                    assert(keys@[i]@ == pairs@[i].0@);
                }
            }
        }
        Ok(keys)
    }

    // --- Queue config store ---

    /// Store an encoded queue config under its id.
    pub fn put_queue(&mut self, queue_id: &str, config: &[u8]) -> (r: StorageResult<()>)
        requires
            old(self).wf(),
        ensures
            final(self).wf(),
            r is Ok,
            final(self).view() == (EngineView {
                queues: old(self).view().queues.insert(str_bytes(queue_id), config@),
                ..old(self).view()
            }),
    {
        let k = str_to_vec(queue_id);
        let v = crate::text::bytes_to_vec(config);
        let ghost v_ins = v;
        self.queues.insert(k, v);
        proof {
            lemma_values_view_insert(old(self).queues.view(), str_bytes(queue_id), v_ins);
        }
        Ok(())
    }

    /// The encoded queue config stored under `queue_id`.
    pub fn get_queue(&self, queue_id: &str) -> (r: StorageResult<Option<Vec<u8>>>)
        requires
            self.wf(),
        ensures
            match r {
                Ok(Some(v)) => self.view().queues.contains_key(str_bytes(queue_id)) && self.view().queues[str_bytes(queue_id)] == v@,
                Ok(None) => !self.view().queues.contains_key(str_bytes(queue_id)),
                Err(_) => false,
            },
    {
        Ok(copy_opt(self.queues.get(queue_id.as_bytes())))
    }

    /// Delete a queue config.
    pub fn delete_queue(&mut self, queue_id: &str) -> (r: StorageResult<()>)
        requires
            old(self).wf(),
        ensures
            final(self).wf(),
            r is Ok,
            final(self).view() == (EngineView {
                queues: old(self).view().queues.remove(str_bytes(queue_id)),
                ..old(self).view()
            }),
    {
        self.queues.remove(queue_id.as_bytes());
        proof {
            lemma_values_view_remove(old(self).queues.view(), str_bytes(queue_id));
        }
        Ok(())
    }

    /// All encoded queue configs, in order of queue id.
    pub fn list_queues(&self) -> (r: StorageResult<Vec<Vec<u8>>>)
        requires
            self.wf(),
        ensures
            r matches Ok(v) && v@.len() == self.view().queues.len() && exists|ids: Seq<Seq<u8>>|
                #[trigger] values_in_key_order(ids, vec_views(v@), self.view().queues),
    {
        let vals = self.queues.values();
        proof {
            self.queues.lemma_listing();
            self.queues.lemma_len();
            assert(values_view(self.queues.view()).dom() =~= self.queues.view().dom());
            let ids = self.queues.listing().map_values(|e: (Seq<u8>, Vec<u8>)| e.0);
            let vs = vec_views(vals@);
            assert(ids.len() == vals@.len());
            assert forall|i: int| 0 <= i < ids.len() implies self.view().queues.contains_key(#[trigger] ids[i]) && self.view().queues[ids[i]] == vs[i] by {
                assert(ids[i] == self.queues.listing()[i].0);
            }
            assert forall|i: int, j: int| 0 <= i < j < ids.len() implies crate::encoding::lex_lt(#[trigger] ids[i], #[trigger] ids[j]) by {
                assert(ids[i] == self.queues.listing()[i].0);
                assert(ids[j] == self.queues.listing()[j].0);
            }
            assert forall|k: Seq<u8>| #[trigger] self.view().queues.contains_key(k) implies exists|i: int| 0 <= i < ids.len() && #[trigger] ids[i] == k by {
                let i = choose|i: int| 0 <= i < self.queues.listing().len() && #[trigger] self.queues.listing()[i].0 == k;
                assert(ids[i] == k);
            }
            assert(values_in_key_order(ids, vs, self.view().queues));
        }
        Ok(vals)
    }

    // --- State store ---

    /// Store a state key-value pair.
    pub fn put_state(&mut self, key: &str, value: &[u8]) -> (r: StorageResult<()>)
        requires
            old(self).wf(),
        ensures
            final(self).wf(),
            r is Ok,
            final(self).view() == (EngineView {
                state: old(self).view().state.insert(str_bytes(key), value@),
                ..old(self).view()
            }),
    {
        let k = str_to_vec(key);
        let v = crate::text::bytes_to_vec(value);
        let ghost v_ins = v;
        self.state.insert(k, v);
        proof {
            lemma_values_view_insert(old(self).state.view(), str_bytes(key), v_ins);
        }
        Ok(())
    }

    /// The state value stored under `key`.
    pub fn get_state(&self, key: &str) -> (r: StorageResult<Option<Vec<u8>>>)
        requires
            self.wf(),
        ensures
            match r {
                Ok(Some(v)) => self.view().state.contains_key(str_bytes(key)) && self.view().state[str_bytes(key)] == v@,
                Ok(None) => !self.view().state.contains_key(str_bytes(key)),
                Err(_) => false,
            },
    {
        Ok(copy_opt(self.state.get(key.as_bytes())))
    }

    /// Delete a state key.
    pub fn delete_state(&mut self, key: &str) -> (r: StorageResult<()>)
        requires
            old(self).wf(),
        ensures
            final(self).wf(),
            r is Ok,
            final(self).view() == (EngineView {
                state: old(self).view().state.remove(str_bytes(key)),
                ..old(self).view()
            }),
    {
        self.state.remove(key.as_bytes());
        proof {
            lemma_values_view_remove(old(self).state.view(), str_bytes(key));
        }
        Ok(())
    }

    /// State entries whose keys start with `prefix`, in key order: the first
    /// `limit` of them, so none for a limit of 0.
    pub fn list_state_by_prefix(&self, prefix: &str, limit: usize) -> (r: StorageResult<Vec<(Vec<u8>, Vec<u8>)>>)
        requires
            self.wf(),
        ensures
            r matches Ok(v) && lists_first_selected(
                pairs_view(v@),
                self.view().state,
                ScanFilterView::Prefix(str_bytes(prefix)),
                limit as nat,
            ),
    {
        let filter = ScanFilter::Prefix(str_to_vec(prefix));
        proof {
            lemma_values_view_dom(self.state.view());
        }
        Ok(self.state.scan_take(&filter, limit))
    }

    // --- Message index ---

    /// Store a message-index entry.
    pub fn put_msg_index(&mut self, key: &[u8], msg_key: &[u8]) -> (r: StorageResult<()>)
        requires
            old(self).wf(),
        ensures
            final(self).wf(),
            r is Ok,
            final(self).view() == apply_mutation(old(self).view(), MutationView::PutMsgIndex(key@, msg_key@)),
    {
        let k = crate::text::bytes_to_vec(key);
        let v = crate::text::bytes_to_vec(msg_key);
        let ghost v_ins = v;
        self.msg_index.insert(k, v);
        proof {
            lemma_values_view_insert(old(self).msg_index.view(), key@, v_ins);
        }
        Ok(())
    }

    /// The message key an index entry points to.
    pub fn get_msg_index(&self, key: &[u8]) -> (r: StorageResult<Option<Vec<u8>>>)
        requires
            self.wf(),
        ensures
            match r {
                Ok(Some(v)) => self.view().msg_index.contains_key(key@) && self.view().msg_index[key@] == v@,
                Ok(None) => !self.view().msg_index.contains_key(key@),
                Err(_) => false,
            },
    {
        Ok(copy_opt(self.msg_index.get(key)))
    }

    /// Delete a message-index entry.
    pub fn delete_msg_index(&mut self, key: &[u8]) -> (r: StorageResult<()>)
        requires
            old(self).wf(),
        ensures
            final(self).wf(),
            r is Ok,
            final(self).view() == apply_mutation(old(self).view(), MutationView::DeleteMsgIndex(key@)),
    {
        self.msg_index.remove(key);
        proof {
            lemma_values_view_remove(old(self).msg_index.view(), key@);
        }
        Ok(())
    }

    // --- Batch mutations ---

    fn apply_one(&mut self, m: &Mutation)
        requires
            old(self).wf(),
        ensures
            final(self).wf(),
            final(self).view() == apply_mutation(old(self).view(), m@),
            string_key_kept(m@),
    {
        match m {
            Mutation::PutMessage { key, value } => {
                let _ = self.put_message(key.as_slice(), value.as_slice());
            },
            Mutation::DeleteMessage { key } => {
                let _ = self.delete_message(key.as_slice());
            },
            Mutation::PutLease { key, value } => {
                let _ = self.put_lease(key.as_slice(), value.as_slice());
            },
            Mutation::DeleteLease { key } => {
                let _ = self.delete_lease(key.as_slice());
            },
            Mutation::PutLeaseExpiry { key } => {
                let k = crate::text::bytes_to_vec(key.as_slice());
                let e: Vec<u8> = Vec::new();
                let ghost ev = e;
                self.lease_expiry.insert(k, e);
                proof {
                    assert(self.lease_expiry.view() == old(self).lease_expiry.view().insert(key@, ev));
                    assert(self.lease_expiry.view().dom() =~= old(self).lease_expiry.view().dom().insert(key@));
                }
            },
            Mutation::DeleteLeaseExpiry { key } => {
                self.lease_expiry.remove(key.as_slice());
                proof {
                    assert(self.lease_expiry.view().dom() =~= old(self).lease_expiry.view().dom().remove(key@));
                }
            },
            Mutation::PutQueue { key, value } => {
                let k = lossy_key_bytes(key.as_slice());
                let v = crate::text::bytes_to_vec(value.as_slice());
        let ghost v_ins = v;
                self.queues.insert(k, v);
                proof {
                    lemma_values_view_insert(old(self).queues.view(), lossy_key(key@), v_ins);
                }
            },
            Mutation::DeleteQueue { key } => {
                let k = lossy_key_bytes(key.as_slice());
                self.queues.remove(k.as_slice());
                proof {
                    lemma_values_view_remove(old(self).queues.view(), lossy_key(key@));
                }
            },
            Mutation::PutState { key, value } => {
                let k = lossy_key_bytes(key.as_slice());
                let v = crate::text::bytes_to_vec(value.as_slice());
        let ghost v_ins = v;
                self.state.insert(k, v);
                proof {
                    lemma_values_view_insert(old(self).state.view(), lossy_key(key@), v_ins);
                }
            },
            Mutation::DeleteState { key } => {
                let k = lossy_key_bytes(key.as_slice());
                self.state.remove(k.as_slice());
                proof {
                    lemma_values_view_remove(old(self).state.view(), lossy_key(key@));
                }
            },
            Mutation::PutMsgIndex { key, value } => {
                let _ = self.put_msg_index(key.as_slice(), value.as_slice());
            },
            Mutation::DeleteMsgIndex { key } => {
                let _ = self.delete_msg_index(key.as_slice());
            },
        }
    }

    /// Apply a batch of mutations in order.
    pub fn apply_mutations(&mut self, mutations: Vec<Mutation>) -> (r: StorageResult<()>)
        requires
            old(self).wf(),
        ensures
            final(self).wf(),
            r is Ok,
            final(self).view() == apply_mutations_spec(old(self).view(), mutations@.map_values(|m: Mutation| m@)),
            forall|i: int| 0 <= i < mutations@.len() ==> string_key_kept(#[trigger] mutations@[i]@),
    {
        let ghost ms = mutations@.map_values(|m: Mutation| m@);
        let mut i: usize = 0;
        while i < mutations.len()
            invariant
                self.wf(),
                i <= mutations@.len(),
                ms == mutations@.map_values(|m: Mutation| m@),
                self.view() == apply_mutations_spec(old(self).view(), ms.take(i as int)),
                forall|j: int| 0 <= j < i ==> string_key_kept(#[trigger] mutations@[j]@),
            decreases mutations@.len() - i,
        {
            self.apply_one(&mutations[i]);
            proof {
                assert(ms.take(i + 1).drop_last() == ms.take(i as int));
                assert(ms.take(i + 1).last() == mutations@[i as int]@);
            }
            i = i + 1;
        }
        assert(ms.take(mutations@.len() as int) == ms);
        Ok(())
    }

    /// Flush is a no-op for the in-memory engine.
    pub fn flush(&self) -> (r: StorageResult<()>)
        ensures
            r is Ok,
    {
        Ok(())
    }
}

/// Copies an optional byte vector.
pub(crate) fn copy_opt(v: Option<&Vec<u8>>) -> (r: Option<Vec<u8>>)
    ensures
        match v {
            Some(b) => r matches Some(c) && c@ == b@,
            None => r is None,
        },
{
    match v {
        Some(b) => Some(crate::text::bytes_to_vec(b.as_slice())),
        None => None,
    }
}

} // verus!
