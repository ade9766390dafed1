//! Storage keys of Raft data: the vote, the log entries and the purge
//! marker of each Raft group.
//!
//! The meta Raft group uses no prefix (keys `vote`, `log:...`,
//! `meta:last_purged`). Each queue Raft group has a prefix of its own: `q:`,
//! the byte length of the queue id as eight big-endian bytes, the id, and
//! `:`. The length makes the prefixes of different queues diverge before
//! either ends, so every group has its own key space within one column
//! family, whatever bytes the queue ids hold.

use vstd::prelude::*;
use crate::encoding::{be64, be_bytes, has_prefix, lemma_be_value_of_bytes, lex_lt, lemma_be_bytes_len, lemma_be_order, lemma_lex_common_prefix, lemma_pow256_small, push_be};
use crate::text::{copy_range, str_bytes};

verus! {

/// `vote`
pub open spec fn vote_suffix() -> Seq<u8> {
    seq![0x76u8, 0x6f, 0x74, 0x65]
}

/// `log:`
pub open spec fn log_suffix() -> Seq<u8> {
    seq![0x6cu8, 0x6f, 0x67, 0x3a]
}

/// `meta:last_purged`
pub open spec fn last_purged_suffix() -> Seq<u8> {
    seq![0x6du8, 0x65, 0x74, 0x61, 0x3a, 0x6c, 0x61, 0x73, 0x74, 0x5f, 0x70, 0x75, 0x72, 0x67, 0x65, 0x64]
}

/// The key prefix of a queue's Raft group: `q:`, the id's length as eight
/// big-endian bytes, the id, `:`.
pub open spec fn queue_group_prefix(queue_id: Seq<u8>) -> Seq<u8> {
    seq![0x71u8, 0x3a] + be_bytes(queue_id.len(), 8) + queue_id + seq![0x3au8]
}

/// The key of the vote of the group with key prefix `p`.
pub open spec fn spec_vote_key(p: Seq<u8>) -> Seq<u8> {
    p + vote_suffix()
}

/// The prefix shared by all log entry keys of the group with key prefix `p`.
pub open spec fn spec_log_prefix(p: Seq<u8>) -> Seq<u8> {
    p + log_suffix()
}

/// The key of log entry `index` of the group with key prefix `p`.
pub open spec fn spec_log_key(p: Seq<u8>, index: u64) -> Seq<u8> {
    spec_log_prefix(p) + be64(index)
}

/// The key of the last-purged marker of the group with key prefix `p`.
pub open spec fn spec_last_purged_key(p: Seq<u8>) -> Seq<u8> {
    p + last_purged_suffix()
}

/// Builds storage keys with an optional group prefix for multi-Raft isolation.
#[derive(Debug, Clone)]
pub struct KeyBuilder {
    prefix: Vec<u8>,
}

impl View for KeyBuilder {
    type V = Seq<u8>;

    /// The key prefix of the group.
    closed spec fn view(&self) -> Seq<u8> {
        self.prefix@
    }
}

fn push_bytes4(dst: &mut Vec<u8>, a: u8, b: u8, c: u8, d: u8)
    ensures
        final(dst)@ == old(dst)@ + seq![a, b, c, d],
{
    dst.push(a);
    dst.push(b);
    dst.push(c);
    dst.push(d);
    assert(dst@ =~= old(dst)@ + seq![a, b, c, d]);
}

impl KeyBuilder {
    /// Create a key builder for the meta Raft group (no prefix).
    pub fn meta() -> (r: Self)
        ensures
            r@ == Seq::<u8>::empty(),
    {
        Self { prefix: Vec::new() }
    }

    /// Create a key builder for a queue Raft group.
    pub fn for_queue(queue_id: &str) -> (r: Self)
        ensures
            r@ == queue_group_prefix(str_bytes(queue_id)),
    {
        let id = queue_id.as_bytes();
        let mut prefix: Vec<u8> = Vec::new();
        prefix.push(0x71);
        prefix.push(0x3a);
        push_be(&mut prefix, id.len() as u64, 8);
        crate::encoding::append_bytes(&mut prefix, id);
        prefix.push(0x3a);
        assert(prefix@ =~= queue_group_prefix(str_bytes(queue_id)));
        Self { prefix }
    }

    fn prefix_copy(&self) -> (r: Vec<u8>)
        ensures
            r@ == self@,
    {
        copy_range(self.prefix.as_slice(), 0, self.prefix.len())
    }

    pub fn vote_key(&self) -> (r: Vec<u8>)
        ensures
            r@ == spec_vote_key(self@),
    {
        let mut key = self.prefix_copy();
        push_bytes4(&mut key, 0x76, 0x6f, 0x74, 0x65);
        key
    }

    pub fn log_key(&self, index: u64) -> (r: Vec<u8>)
        ensures
            r@ == spec_log_key(self@, index),
    {
        let mut key = self.log_prefix();
        push_be(&mut key, index, 8);
        key
    }

    pub fn last_purged_key(&self) -> (r: Vec<u8>)
        ensures
            r@ == spec_last_purged_key(self@),
    {
        let mut key = self.prefix_copy();
        push_bytes4(&mut key, 0x6d, 0x65, 0x74, 0x61);
        push_bytes4(&mut key, 0x3a, 0x6c, 0x61, 0x73);
        push_bytes4(&mut key, 0x74, 0x5f, 0x70, 0x75);
        push_bytes4(&mut key, 0x72, 0x67, 0x65, 0x64);
        assert(key@ =~= spec_last_purged_key(self@));
        key
    }

    pub fn log_prefix(&self) -> (r: Vec<u8>)
        ensures
            r@ == spec_log_prefix(self@),
    {
        let mut key = self.prefix_copy();
        push_bytes4(&mut key, 0x6c, 0x6f, 0x67, 0x3a);
        key
    }
}

/// Log entry keys sort in the order of their indexes, so a scan of a
/// group's log prefix walks its entries in log order.
pub proof fn law_log_keys_ordered_by_index(p: Seq<u8>, i: u64, j: u64)
    requires
        i < j,
    ensures
        lex_lt(spec_log_key(p, i), spec_log_key(p, j)),
{
    lemma_pow256_small();
    lemma_be_order(i as nat, j as nat, 8);
    lemma_lex_common_prefix(spec_log_prefix(p), be64(i), be64(j));
}

/// Every log entry key lies under the group's log prefix.
pub proof fn law_log_key_under_log_prefix(p: Seq<u8>, index: u64)
    ensures
        has_prefix(spec_log_key(p, index), spec_log_prefix(p)),
{
    lemma_be_bytes_len(index as nat, 8);
    assert(spec_log_key(p, index).subrange(0, spec_log_prefix(p).len() as int) =~= spec_log_prefix(p));
}

/// Within one group, the vote, each log entry and the purge marker have
/// keys of their own.
pub proof fn law_group_keys_distinct(p: Seq<u8>, i: u64, j: u64)
    ensures
        spec_vote_key(p) != spec_log_key(p, i),
        spec_vote_key(p) != spec_last_purged_key(p),
        spec_log_key(p, i) != spec_last_purged_key(p),
        spec_log_key(p, i) == spec_log_key(p, j) ==> i == j,
{
    let n = p.len() as int;
    assert(spec_vote_key(p)[n] == 0x76u8);
    assert(spec_log_key(p, i)[n] == 0x6cu8);
    assert(spec_last_purged_key(p)[n] == 0x6du8);
    if i != j {
        if i < j {
            law_log_keys_ordered_by_index(p, i, j);
            crate::encoding::lemma_lex_irreflexive(spec_log_key(p, i));
        } else {
            law_log_keys_ordered_by_index(p, j, i);
            crate::encoding::lemma_lex_irreflexive(spec_log_key(p, j));
        }
    }
}

/// The keys of the meta group never meet the keys of a queue group: the
/// former start with `v`, `l` or `m`, the latter with `q`.
pub proof fn law_meta_and_queue_keys_disjoint(queue_id: Seq<u8>, i: u64, j: u64)
    ensures
        ({
            let q = queue_group_prefix(queue_id);
            let e = Seq::<u8>::empty();
            let meta_keys = set![spec_vote_key(e), spec_log_key(e, i), spec_last_purged_key(e)];
            &&& !meta_keys.contains(spec_vote_key(q))
            &&& !meta_keys.contains(spec_log_key(q, j))
            &&& !meta_keys.contains(spec_last_purged_key(q))
        }),
{
    let q = queue_group_prefix(queue_id);
    let e = Seq::<u8>::empty();
    assert(spec_vote_key(e)[0] == 0x76u8);
    assert(spec_log_key(e, i)[0] == 0x6cu8);
    assert(spec_last_purged_key(e)[0] == 0x6du8);
    assert(spec_vote_key(q)[0] == 0x71u8);
    assert(spec_log_key(q, j)[0] == 0x71u8);
    assert(spec_last_purged_key(q)[0] == 0x71u8);
}

/// Different queues have isolated key spaces: no key under one queue's
/// group prefix begins with another queue's group prefix, so in particular
/// no key of one group is a key of the other.
pub proof fn law_queue_groups_isolated(a: Seq<u8>, b: Seq<u8>, x: Seq<u8>, y: Seq<u8>)
    requires
        a != b,
        a.len() <= u64::MAX,
        b.len() <= u64::MAX,
    ensures
        !has_prefix(queue_group_prefix(a) + x, queue_group_prefix(b)),
        queue_group_prefix(a) + x != queue_group_prefix(b) + y,
{
    let pa = queue_group_prefix(a);
    let pb = queue_group_prefix(b);
    let ka = pa + x;
    lemma_pow256_small();
    lemma_be_bytes_len(a.len(), 8);
    lemma_be_bytes_len(b.len(), 8);
    if has_prefix(ka, pb) {
        assert(ka.subrange(2, 10) =~= be_bytes(a.len(), 8));
        assert(pb.subrange(2, 10) =~= be_bytes(b.len(), 8));
        assert(ka.subrange(2, 10) =~= pb.subrange(2, 10)) by {
            assert forall|i: int| 0 <= i < 8 implies ka.subrange(2, 10)[i] == pb.subrange(2, 10)[i] by {
                assert(ka[2 + i] == pb[2 + i]);
            }
        }
        lemma_be_value_of_bytes(a.len(), 8);
        lemma_be_value_of_bytes(b.len(), 8);
        assert(a.len() == b.len());
        assert(a =~= b) by {
            assert forall|i: int| 0 <= i < a.len() implies a[i] == b[i] by {
                assert(ka[10 + i] == a[i]);
                assert(pb[10 + i] == b[i]);
            }
        }
    }
    let kb = pb + y;
    if ka == kb {
        assert(has_prefix(ka, pb)) by {
            assert(ka.subrange(0, pb.len() as int) =~= pb);
        }
    }
}

} // verus!
