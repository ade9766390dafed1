//! Compaction planning for sealed WAL segments.
//!
//! A sealed segment is rewritten holding only the operations that still stand
//! for live data. Message puts older than the message TTL are dropped too,
//! and their messages leave the index. Reading and writing the segment files
//! is left to the caller; everything here works on replayed entries.

use vstd::prelude::*;
use crate::storage::fila::wal::{OpTag, WalEntry, WalOp, WalOpView};
use crate::storage::fila::{spec_is_live, LivenessSnapshot, LivenessView};

verus! {

/// `now - then`, or 0 when `then` is later.
pub open spec fn saturating_sub(now: u64, then: u64) -> u64 {
    if now >= then {
        (now - then) as u64
    } else {
        0
    }
}

/// Whether a message put has outlived the TTL: there is a TTL, the put
/// carries a value that decodes as a message enqueued at `enqueued_at`, and
/// more than the TTL has passed since then.
pub open spec fn ttl_expired(op: WalOpView, enqueued_at: Option<u64>, ttl_ns: Option<u64>, now_ns: u64) -> bool {
    &&& op.tag == OpTag::PutMessage
    &&& op.value is Some
    &&& ttl_ns matches Some(ttl) && enqueued_at matches Some(at) && saturating_sub(now_ns, at) > ttl
}

/// Whether compaction keeps an operation: it is live and not TTL-expired.
pub open spec fn keeps(l: LivenessView, op: WalOpView, enqueued_at: Option<u64>, ttl_ns: Option<u64>, now_ns: u64) -> bool {
    !ttl_expired(op, enqueued_at, ttl_ns, now_ns) && spec_is_live(l, op)
}

/// The operations of an entry that compaction keeps, in order; `enq[i]` is
/// when the message put as `ops[i]` was enqueued, if it decodes as one.
pub open spec fn kept_ops(
    l: LivenessView,
    ops: Seq<WalOpView>,
    enq: Seq<Option<u64>>,
    ttl_ns: Option<u64>,
    now_ns: u64,
) -> Seq<WalOpView>
    decreases ops.len(),
{
    if ops.len() == 0 {
        Seq::empty()
    } else {
        let rest = kept_ops(l, ops.drop_last(), enq, ttl_ns, now_ns);
        if keeps(l, ops.last(), enq[ops.len() - 1], ttl_ns, now_ns) {
            rest.push(ops.last())
        } else {
            rest
        }
    }
}

/// The keys of the message puts of an entry that outlived the TTL, in order.
pub open spec fn expired_keys(ops: Seq<WalOpView>, enq: Seq<Option<u64>>, ttl_ns: Option<u64>, now_ns: u64) -> Seq<
    Seq<u8>,
>
    decreases ops.len(),
{
    if ops.len() == 0 {
        Seq::empty()
    } else {
        let rest = expired_keys(ops.drop_last(), enq, ttl_ns, now_ns);
        if ttl_expired(ops.last(), enq[ops.len() - 1], ttl_ns, now_ns) {
            rest.push(ops.last().key)
        } else {
            rest
        }
    }
}

/// The entries of a segment after compaction: each entry keeps its kept
/// operations, and entries left with none are dropped.
pub open spec fn kept_entries(
    l: LivenessView,
    es: Seq<Seq<WalOpView>>,
    enq: Seq<Seq<Option<u64>>>,
    ttl_ns: Option<u64>,
    now_ns: u64,
) -> Seq<Seq<WalOpView>>
    decreases es.len(),
{
    if es.len() == 0 {
        Seq::empty()
    } else {
        let rest = kept_entries(l, es.drop_last(), enq, ttl_ns, now_ns);
        let k = kept_ops(l, es.last(), enq[es.len() - 1], ttl_ns, now_ns);
        if k.len() > 0 {
            rest.push(k)
        } else {
            rest
        }
    }
}

/// The TTL-expired message keys of a segment, entry by entry.
pub open spec fn segment_expired_keys(
    es: Seq<Seq<WalOpView>>,
    enq: Seq<Seq<Option<u64>>>,
    ttl_ns: Option<u64>,
    now_ns: u64,
) -> Seq<Seq<u8>>
    decreases es.len(),
{
    if es.len() == 0 {
        Seq::empty()
    } else {
        segment_expired_keys(es.drop_last(), enq, ttl_ns, now_ns) + expired_keys(
            es.last(),
            enq[es.len() - 1],
            ttl_ns,
            now_ns,
        )
    }
}

/// Whether some operation of the segment is dropped.
pub open spec fn has_dead_op(
    l: LivenessView,
    es: Seq<Seq<WalOpView>>,
    enq: Seq<Seq<Option<u64>>>,
    ttl_ns: Option<u64>,
    now_ns: u64,
) -> bool {
    exists|i: int, j: int|
        0 <= i < es.len() && 0 <= j < es[i].len() && !keeps(l, #[trigger] es[i][j], enq[i][j], ttl_ns, now_ns)
}

/// The per-operation enqueue times line up with the entries.
pub open spec fn enqueue_times_match(es: Seq<Seq<WalOpView>>, enq: Seq<Seq<Option<u64>>>) -> bool {
    &&& enq.len() == es.len()
    &&& forall|i: int| 0 <= i < es.len() ==> #[trigger] enq[i].len() == es[i].len()
}

/// What compacting a sealed segment comes to.
pub struct SegmentPlan {
    /// The entries to keep, with only their live operations.
    pub live_entries: Vec<WalEntry>,
    /// Keys of messages dropped for their age, to leave the index as well.
    pub expired_keys: Vec<Vec<u8>>,
    /// Whether anything is dropped; when nothing is, the segment stays as it is.
    pub has_dead_entries: bool,
}

/// Byte strings as sequences.
pub open spec fn keys_seq(v: Seq<Vec<u8>>) -> Seq<Seq<u8>> {
    v.map_values(|k: Vec<u8>| k@)
}

/// Entries as sequences of operations.
pub open spec fn entries_seq(v: Seq<WalEntry>) -> Seq<Seq<WalOpView>> {
    v.map_values(|e: WalEntry| e@)
}

/// The TTL in nanoseconds for a TTL in milliseconds.
pub fn ttl_nanos(message_ttl_ms: Option<u64>) -> (r: Option<u64>)
    requires
        message_ttl_ms matches Some(ms) ==> ms * 1_000_000 <= u64::MAX,
    ensures
        r == (match message_ttl_ms {
            Some(ms) => Some((ms * 1_000_000) as u64),
            None => None::<u64>,
        }),
{
    match message_ttl_ms {
        Some(ms) => Some(ms * 1_000_000),
        None => None,
    }
}

fn is_ttl_expired(op: &WalOp, enqueued_at: Option<u64>, ttl_ns: Option<u64>, now_ns: u64) -> (r: bool)
    ensures
        r == ttl_expired(op@, enqueued_at, ttl_ns, now_ns),
{
    if op.tag != OpTag::PutMessage || op.value.is_none() {
        return false;
    }
    match (ttl_ns, enqueued_at) {
        (Some(ttl), Some(at)) => {
            let age = if now_ns >= at {
                now_ns - at
            } else {
                0
            };
            age > ttl
        },
        _ => false,
    }
}

fn copy_op(op: &WalOp) -> (r: WalOp)
    ensures
        r@ == op@,
{
    let value = match &op.value {
        Some(v) => Some(crate::text::bytes_to_vec(v.as_slice())),
        None => None,
    };
    WalOp { tag: op.tag, key: crate::text::bytes_to_vec(op.key.as_slice()), value }
}

/// Decide, for one entry, which operations stay and which message keys
/// outlived the TTL.
fn plan_entry(
    snapshot: &LivenessSnapshot,
    entry: &WalEntry,
    enqueued_at: &Vec<Option<u64>>,
    ttl_ns: Option<u64>,
    now_ns: u64,
) -> (r: (Vec<WalOp>, Vec<Vec<u8>>, bool))
    requires
        snapshot.wf(),
        enqueued_at@.len() == entry.ops@.len(),
    ensures
        r.0@.map_values(|o: WalOp| o@) == kept_ops(snapshot.view(), entry@, enqueued_at@, ttl_ns, now_ns),
        keys_seq(r.1@) == expired_keys(entry@, enqueued_at@, ttl_ns, now_ns),
        r.2 == exists|j: int|
            0 <= j < entry@.len() && !keeps(snapshot.view(), #[trigger] entry@[j], enqueued_at@[j], ttl_ns, now_ns),
{
    let ghost l = snapshot.view();
    let ghost ops = entry@;
    let ghost enq = enqueued_at@;
    let mut kept: Vec<WalOp> = Vec::new();
    let mut expired: Vec<Vec<u8>> = Vec::new();
    let mut dead = false;
    let n = entry.ops.len();
    let mut i: usize = 0;
    while i < n
        invariant
            n == ops.len() == enq.len(),
            ops == entry@,
            enq == enqueued_at@,
            l == snapshot.view(),
            snapshot.wf(),
            i <= n,
            kept@.map_values(|o: WalOp| o@) == kept_ops(l, ops.subrange(0, i as int), enq, ttl_ns, now_ns),
            keys_seq(expired@) == expired_keys(ops.subrange(0, i as int), enq, ttl_ns, now_ns),
            dead == exists|j: int| 0 <= j < i && !keeps(l, #[trigger] ops[j], enq[j], ttl_ns, now_ns),
        decreases n - i,
    {
        let op = &entry.ops[i];
        proof {
            assert(ops.subrange(0, i + 1).drop_last() == ops.subrange(0, i as int));
            assert(ops.subrange(0, i + 1).last() == ops[i as int]);
            assert(op@ == ops[i as int]);
        }
        let ghost kept_before = kept@;
        let ghost expired_before = expired@;
        if is_ttl_expired(op, enqueued_at[i], ttl_ns, now_ns) {
            dead = true;
            expired.push(crate::text::bytes_to_vec(op.key.as_slice()));
            proof {
                assert(keys_seq(expired@) =~= keys_seq(expired_before).push(op.key@));
            }
        } else if snapshot.is_live(op) {
            kept.push(copy_op(op));
            proof {
                assert(kept@.map_values(|o: WalOp| o@) =~= kept_before.map_values(|o: WalOp| o@).push(op@));
            }
        } else {
            dead = true;
        }
        proof {
            assert(dead == exists|j: int| 0 <= j < i + 1 && !keeps(l, #[trigger] ops[j], enq[j], ttl_ns, now_ns)) by {
                if !keeps(l, ops[i as int], enq[i as int], ttl_ns, now_ns) {
                    assert(dead);
                }
            }
        }
        i = i + 1;
    }
    assert(ops.subrange(0, n as int) == ops);
    (kept, expired, dead)
}

/// Plan the compaction of a sealed segment from the entries replayed from
/// it. `enqueued_at[i][j]` is when the message put by operation `j` of entry
/// `i` was enqueued, when its value decodes as a message; `ended_cleanly`
/// says the segment read to its end without a truncated or damaged record,
/// which otherwise counts as dead data.
pub fn plan_segment(
    snapshot: &LivenessSnapshot,
    entries: &Vec<WalEntry>,
    enqueued_at: &Vec<Vec<Option<u64>>>,
    ended_cleanly: bool,
    ttl_ns: Option<u64>,
    now_ns: u64,
) -> (r: SegmentPlan)
    requires
        snapshot.wf(),
        enqueued_at@.len() == entries@.len(),
        forall|i: int| 0 <= i < entries@.len() ==> #[trigger] enqueued_at@[i]@.len() == entries@[i].ops@.len(),
    ensures
        entries_seq(r.live_entries@) == kept_entries(
            snapshot.view(),
            entries_seq(entries@),
            enqueued_at@.map_values(|v: Vec<Option<u64>>| v@),
            ttl_ns,
            now_ns,
        ),
        keys_seq(r.expired_keys@) == segment_expired_keys(
            entries_seq(entries@),
            enqueued_at@.map_values(|v: Vec<Option<u64>>| v@),
            ttl_ns,
            now_ns,
        ),
        r.has_dead_entries == (!ended_cleanly || has_dead_op(
            snapshot.view(),
            entries_seq(entries@),
            enqueued_at@.map_values(|v: Vec<Option<u64>>| v@),
            ttl_ns,
            now_ns,
        )),
{
    let ghost l = snapshot.view();
    let ghost es = entries_seq(entries@);
    let ghost enq = enqueued_at@.map_values(|v: Vec<Option<u64>>| v@);
    let mut live: Vec<WalEntry> = Vec::new();
    let mut expired: Vec<Vec<u8>> = Vec::new();
    let mut dead = false;
    let n = entries.len();
    let mut i: usize = 0;
    while i < n
        invariant
            n == es.len() == enq.len() == entries@.len() == enqueued_at@.len(),
            es == entries_seq(entries@),
            enq == enqueued_at@.map_values(|v: Vec<Option<u64>>| v@),
            forall|x: int| 0 <= x < entries@.len() ==> #[trigger] enqueued_at@[x]@.len() == entries@[x].ops@.len(),
            l == snapshot.view(),
            snapshot.wf(),
            i <= n,
            entries_seq(live@) == kept_entries(l, es.subrange(0, i as int), enq, ttl_ns, now_ns),
            keys_seq(expired@) == segment_expired_keys(es.subrange(0, i as int), enq, ttl_ns, now_ns),
            dead == exists|a: int, b: int|
                0 <= a < i && 0 <= b < es[a].len() && !keeps(l, #[trigger] es[a][b], enq[a][b], ttl_ns, now_ns),
        decreases n - i,
    {
        proof {
            assert(es.subrange(0, i + 1).drop_last() == es.subrange(0, i as int));
            assert(es.subrange(0, i + 1).last() == es[i as int]);
            assert(es[i as int] == entries@[i as int]@);
            assert(enq[i as int] == enqueued_at@[i as int]@);
        }
        let (kept, exp, entry_dead) = plan_entry(snapshot, &entries[i], &enqueued_at[i], ttl_ns, now_ns);
        let ghost live_before = live@;
        let ghost expired_before = expired@;
        if kept.len() > 0 {
            let ghost kv = kept@.map_values(|o: WalOp| o@);
            let e = WalEntry { ops: kept };
            assert(e@ == kv);
            live.push(e);
            proof {
                assert(entries_seq(live@) =~= entries_seq(live_before).push(kv));
            }
        } else {
            proof {
                assert(kept@.map_values(|o: WalOp| o@).len() == 0);
            }
        }
        let mut exp = exp;
        let ghost exp_keys = keys_seq(exp@);
        expired.append(&mut exp);
        proof {
            assert(keys_seq(expired@) =~= keys_seq(expired_before) + exp_keys);
        }
        if entry_dead {
            dead = true;
        }
        proof {
            if entry_dead {
                let j = choose|j: int|
                    0 <= j < entries@[i as int]@.len() && !keeps(l, #[trigger] entries@[i as int]@[j], enqueued_at@[i as int]@[j], ttl_ns, now_ns);
                assert(!keeps(l, es[i as int][j], enq[i as int][j], ttl_ns, now_ns));
            }
            if exists|a: int, b: int|
                0 <= a < i + 1 && 0 <= b < es[a].len() && !keeps(l, #[trigger] es[a][b], enq[a][b], ttl_ns, now_ns) {
                let (a, b) = choose|a: int, b: int|
                    0 <= a < i + 1 && 0 <= b < es[a].len() && !keeps(l, #[trigger] es[a][b], enq[a][b], ttl_ns, now_ns);
                if a == i {
                    assert(!keeps(l, entries@[i as int]@[b], enqueued_at@[i as int]@[b], ttl_ns, now_ns));
                    assert(entry_dead);
                }
            }
        }
        i = i + 1;
    }
    assert(es.subrange(0, n as int) == es);
    SegmentPlan { live_entries: live, expired_keys: expired, has_dead_entries: dead || !ended_cleanly }
}


// ---------------------------------------------------------------------------
// Idempotence
// ---------------------------------------------------------------------------

/// The enqueue times that go with the operations compaction keeps.
pub open spec fn kept_enq(
    l: LivenessView,
    ops: Seq<WalOpView>,
    enq: Seq<Option<u64>>,
    ttl_ns: Option<u64>,
    now_ns: u64,
) -> Seq<Option<u64>>
    decreases ops.len(),
{
    if ops.len() == 0 {
        Seq::empty()
    } else {
        let rest = kept_enq(l, ops.drop_last(), enq, ttl_ns, now_ns);
        if keeps(l, ops.last(), enq[ops.len() - 1], ttl_ns, now_ns) {
            rest.push(enq[ops.len() - 1])
        } else {
            rest
        }
    }
}

/// The enqueue times that go with the entries compaction keeps.
pub open spec fn kept_entries_enq(
    l: LivenessView,
    es: Seq<Seq<WalOpView>>,
    enq: Seq<Seq<Option<u64>>>,
    ttl_ns: Option<u64>,
    now_ns: u64,
) -> Seq<Seq<Option<u64>>>
    decreases es.len(),
{
    if es.len() == 0 {
        Seq::empty()
    } else {
        let rest = kept_entries_enq(l, es.drop_last(), enq, ttl_ns, now_ns);
        if kept_ops(l, es.last(), enq[es.len() - 1], ttl_ns, now_ns).len() > 0 {
            rest.push(kept_enq(l, es.last(), enq[es.len() - 1], ttl_ns, now_ns))
        } else {
            rest
        }
    }
}

proof fn lemma_kept_ops_all_keep(l: LivenessView, ops: Seq<WalOpView>, enq: Seq<Option<u64>>, ttl_ns: Option<u64>, now_ns: u64)
    requires
        enq.len() >= ops.len(),
    ensures
        kept_enq(l, ops, enq, ttl_ns, now_ns).len() == kept_ops(l, ops, enq, ttl_ns, now_ns).len(),
        forall|j: int|
            0 <= j < kept_ops(l, ops, enq, ttl_ns, now_ns).len() ==> keeps(
                l,
                #[trigger] kept_ops(l, ops, enq, ttl_ns, now_ns)[j],
                kept_enq(l, ops, enq, ttl_ns, now_ns)[j],
                ttl_ns,
                now_ns,
            ),
    decreases ops.len(),
{
    if ops.len() > 0 {
        lemma_kept_ops_all_keep(l, ops.drop_last(), enq, ttl_ns, now_ns);
    }
}

proof fn lemma_kept_ops_fixpoint(l: LivenessView, ops: Seq<WalOpView>, enq: Seq<Option<u64>>, ttl_ns: Option<u64>, now_ns: u64)
    requires
        enq.len() >= ops.len(),
        forall|j: int| 0 <= j < ops.len() ==> keeps(l, #[trigger] ops[j], enq[j], ttl_ns, now_ns),
    ensures
        kept_ops(l, ops, enq, ttl_ns, now_ns) == ops,
        kept_enq(l, ops, enq, ttl_ns, now_ns) == enq.subrange(0, ops.len() as int),
        expired_keys(ops, enq, ttl_ns, now_ns) == Seq::<Seq<u8>>::empty(),
    decreases ops.len(),
{
    if ops.len() > 0 {
        let d = ops.drop_last();
        assert forall|j: int| 0 <= j < d.len() implies keeps(l, #[trigger] d[j], enq[j], ttl_ns, now_ns) by {
            assert(d[j] == ops[j]);
        }
        lemma_kept_ops_fixpoint(l, d, enq, ttl_ns, now_ns);
        assert(keeps(l, ops[ops.len() - 1], enq[ops.len() - 1], ttl_ns, now_ns));
        assert(d.push(ops.last()) == ops);
        assert(enq.subrange(0, d.len() as int).push(enq[ops.len() - 1]) == enq.subrange(0, ops.len() as int));
    }
}

proof fn lemma_kept_entries_all_keep(
    l: LivenessView,
    es: Seq<Seq<WalOpView>>,
    enq: Seq<Seq<Option<u64>>>,
    ttl_ns: Option<u64>,
    now_ns: u64,
)
    requires
        enq.len() >= es.len(),
        forall|i: int| 0 <= i < es.len() ==> #[trigger] enq[i].len() >= es[i].len(),
    ensures
        kept_entries_enq(l, es, enq, ttl_ns, now_ns).len() == kept_entries(l, es, enq, ttl_ns, now_ns).len(),
        forall|i: int|
            0 <= i < kept_entries(l, es, enq, ttl_ns, now_ns).len() ==> {
                let k = #[trigger] kept_entries(l, es, enq, ttl_ns, now_ns)[i];
                let ke = kept_entries_enq(l, es, enq, ttl_ns, now_ns)[i];
                &&& k.len() > 0
                &&& ke.len() >= k.len()
                &&& forall|j: int| 0 <= j < k.len() ==> keeps(l, #[trigger] k[j], ke[j], ttl_ns, now_ns)
            },
    decreases es.len(),
{
    if es.len() > 0 {
        let d = es.drop_last();
        assert forall|i: int| 0 <= i < d.len() implies #[trigger] enq[i].len() >= d[i].len() by {
            assert(d[i] == es[i]);
        }
        lemma_kept_entries_all_keep(l, d, enq, ttl_ns, now_ns);
        assert(enq[es.len() - 1].len() >= es[es.len() - 1].len());
        lemma_kept_ops_all_keep(l, es.last(), enq[es.len() - 1], ttl_ns, now_ns);
    }
}

proof fn lemma_kept_entries_fixpoint(
    l: LivenessView,
    es: Seq<Seq<WalOpView>>,
    enq: Seq<Seq<Option<u64>>>,
    ttl_ns: Option<u64>,
    now_ns: u64,
)
    requires
        enq.len() >= es.len(),
        forall|i: int|
            0 <= i < es.len() ==> {
                let e = #[trigger] es[i];
                &&& e.len() > 0
                &&& enq[i].len() >= e.len()
                &&& forall|j: int| 0 <= j < e.len() ==> keeps(l, #[trigger] e[j], enq[i][j], ttl_ns, now_ns)
            },
    ensures
        kept_entries(l, es, enq, ttl_ns, now_ns) == es,
        segment_expired_keys(es, enq, ttl_ns, now_ns) == Seq::<Seq<u8>>::empty(),
        !has_dead_op(l, es, enq, ttl_ns, now_ns),
    decreases es.len(),
{
    if es.len() > 0 {
        let d = es.drop_last();
        assert forall|i: int| 0 <= i < d.len() implies {
            let e = #[trigger] d[i];
            &&& e.len() > 0
            &&& enq[i].len() >= e.len()
            &&& forall|j: int| 0 <= j < e.len() ==> keeps(l, #[trigger] e[j], enq[i][j], ttl_ns, now_ns)
        } by {
            assert(d[i] == es[i]);
        }
        lemma_kept_entries_fixpoint(l, d, enq, ttl_ns, now_ns);
        let last = es[es.len() - 1];
        assert(last.len() > 0);
        lemma_kept_ops_fixpoint(l, last, enq[es.len() - 1], ttl_ns, now_ns);
        assert(d.push(es.last()) == es);
        assert(Seq::<Seq<u8>>::empty() + Seq::<Seq<u8>>::empty() == Seq::<Seq<u8>>::empty());
    }
    assert(!has_dead_op(l, es, enq, ttl_ns, now_ns)) by {
        if has_dead_op(l, es, enq, ttl_ns, now_ns) {
            let (a, b) = choose|a: int, b: int|
                0 <= a < es.len() && 0 <= b < es[a].len() && !keeps(l, #[trigger] es[a][b], enq[a][b], ttl_ns, now_ns);
            let e = es[a];
            assert(keeps(l, e[b], enq[a][b], ttl_ns, now_ns));
        }
    }
}

/// Compaction is idempotent: compacting an already compacted segment again,
/// with the same live keys, TTL and clock, finds nothing to drop and keeps
/// every entry as it is.
pub proof fn law_compaction_is_idempotent(
    l: LivenessView,
    es: Seq<Seq<WalOpView>>,
    enq: Seq<Seq<Option<u64>>>,
    ttl_ns: Option<u64>,
    now_ns: u64,
)
    requires
        enqueue_times_match(es, enq),
    ensures
        ({
            let k = kept_entries(l, es, enq, ttl_ns, now_ns);
            let ke = kept_entries_enq(l, es, enq, ttl_ns, now_ns);
            &&& !has_dead_op(l, k, ke, ttl_ns, now_ns)
            &&& kept_entries(l, k, ke, ttl_ns, now_ns) == k
            &&& segment_expired_keys(k, ke, ttl_ns, now_ns) == Seq::<Seq<u8>>::empty()
        }),
{
    let k = kept_entries(l, es, enq, ttl_ns, now_ns);
    let ke = kept_entries_enq(l, es, enq, ttl_ns, now_ns);
    assert forall|i: int| 0 <= i < es.len() implies #[trigger] enq[i].len() >= es[i].len() by {}
    lemma_kept_entries_all_keep(l, es, enq, ttl_ns, now_ns);
    assert forall|i: int| 0 <= i < k.len() implies {
        let e = #[trigger] k[i];
        &&& e.len() > 0
        &&& ke[i].len() >= e.len()
        &&& forall|j: int| 0 <= j < e.len() ==> keeps(l, #[trigger] e[j], ke[i][j], ttl_ns, now_ns)
    } by {
        let e = k[i];
        assert(e.len() > 0);
        assert forall|j: int| 0 <= j < e.len() implies keeps(l, #[trigger] e[j], ke[i][j], ttl_ns, now_ns) by {
        }
    }
    lemma_kept_entries_fixpoint(l, k, ke, ttl_ns, now_ns);
}


// ---------------------------------------------------------------------------
// Expiry
// ---------------------------------------------------------------------------

/// The number of operations in a run of entries.
pub open spec fn op_count(es: Seq<Seq<WalOpView>>) -> int
    decreases es.len(),
{
    if es.len() == 0 {
        0
    } else {
        op_count(es.drop_last()) + es.last().len()
    }
}

proof fn lemma_expired_keys_hold(ops: Seq<WalOpView>, enq: Seq<Option<u64>>, ttl_ns: Option<u64>, now_ns: u64, j: int)
    requires
        0 <= j < ops.len(),
        ttl_expired(ops[j], enq[j], ttl_ns, now_ns),
    ensures
        expired_keys(ops, enq, ttl_ns, now_ns).contains(ops[j].key),
    decreases ops.len(),
{
    let rest = expired_keys(ops.drop_last(), enq, ttl_ns, now_ns);
    if j == ops.len() - 1 {
        assert(rest.push(ops.last().key)[rest.len() as int] == ops[j].key);
    } else {
        assert(ops.drop_last()[j] == ops[j]);
        lemma_expired_keys_hold(ops.drop_last(), enq, ttl_ns, now_ns, j);
        let k = choose|k: int| 0 <= k < rest.len() && rest[k] == ops[j].key;
        if ttl_expired(ops.last(), enq[ops.len() - 1], ttl_ns, now_ns) {
            assert(rest.push(ops.last().key)[k] == ops[j].key);
        }
    }
}

proof fn lemma_segment_expired_keys_hold(
    es: Seq<Seq<WalOpView>>,
    enq: Seq<Seq<Option<u64>>>,
    ttl_ns: Option<u64>,
    now_ns: u64,
    i: int,
    j: int,
)
    requires
        0 <= i < es.len(),
        0 <= j < es[i].len(),
        ttl_expired(es[i][j], enq[i][j], ttl_ns, now_ns),
    ensures
        segment_expired_keys(es, enq, ttl_ns, now_ns).contains(es[i][j].key),
    decreases es.len(),
{
    let rest = segment_expired_keys(es.drop_last(), enq, ttl_ns, now_ns);
    let last = expired_keys(es.last(), enq[es.len() - 1], ttl_ns, now_ns);
    if i == es.len() - 1 {
        lemma_expired_keys_hold(es.last(), enq[i], ttl_ns, now_ns, j);
        let k = choose|k: int| 0 <= k < last.len() && last[k] == es[i][j].key;
        assert((rest + last)[rest.len() + k] == es[i][j].key);
    } else {
        assert(es.drop_last()[i] == es[i]);
        lemma_segment_expired_keys_hold(es.drop_last(), enq, ttl_ns, now_ns, i, j);
        let k = choose|k: int| 0 <= k < rest.len() && rest[k] == es[i][j].key;
        assert((rest + last)[k] == es[i][j].key);
    }
}

proof fn lemma_kept_ops_fewer(l: LivenessView, ops: Seq<WalOpView>, enq: Seq<Option<u64>>, ttl_ns: Option<u64>, now_ns: u64)
    ensures
        kept_ops(l, ops, enq, ttl_ns, now_ns).len() <= ops.len(),
        (exists|j: int| 0 <= j < ops.len() && !keeps(l, #[trigger] ops[j], enq[j], ttl_ns, now_ns)) ==> kept_ops(
            l,
            ops,
            enq,
            ttl_ns,
            now_ns,
        ).len() < ops.len(),
    decreases ops.len(),
{
    if ops.len() > 0 {
        let d = ops.drop_last();
        lemma_kept_ops_fewer(l, d, enq, ttl_ns, now_ns);
        if exists|j: int| 0 <= j < ops.len() && !keeps(l, #[trigger] ops[j], enq[j], ttl_ns, now_ns) {
            let j = choose|j: int| 0 <= j < ops.len() && !keeps(l, #[trigger] ops[j], enq[j], ttl_ns, now_ns);
            if j < ops.len() - 1 {
                assert(d[j] == ops[j]);
                assert(!keeps(l, d[j], enq[j], ttl_ns, now_ns));
            }
        }
    }
}

proof fn lemma_kept_entries_fewer(
    l: LivenessView,
    es: Seq<Seq<WalOpView>>,
    enq: Seq<Seq<Option<u64>>>,
    ttl_ns: Option<u64>,
    now_ns: u64,
)
    ensures
        op_count(kept_entries(l, es, enq, ttl_ns, now_ns)) <= op_count(es),
        has_dead_op(l, es, enq, ttl_ns, now_ns) ==> op_count(kept_entries(l, es, enq, ttl_ns, now_ns)) < op_count(es),
    decreases es.len(),
{
    if es.len() > 0 {
        let d = es.drop_last();
        let n = es.len() - 1;
        lemma_kept_entries_fewer(l, d, enq, ttl_ns, now_ns);
        let rest = kept_entries(l, d, enq, ttl_ns, now_ns);
        let k = kept_ops(l, es.last(), enq[n], ttl_ns, now_ns);
        lemma_kept_ops_fewer(l, es.last(), enq[n], ttl_ns, now_ns);
        if k.len() > 0 {
            assert(rest.push(k).drop_last() == rest);
            assert(op_count(rest.push(k)) == op_count(rest) + k.len());
        }
        if has_dead_op(l, es, enq, ttl_ns, now_ns) {
            let (a, b) = choose|a: int, b: int|
                0 <= a < es.len() && 0 <= b < es[a].len() && !keeps(l, #[trigger] es[a][b], enq[a][b], ttl_ns, now_ns);
            if a < n {
                assert(d[a] == es[a]);
                assert(!keeps(l, d[a][b], enq[a][b], ttl_ns, now_ns));
                assert(has_dead_op(l, d, enq, ttl_ns, now_ns));
            } else {
                assert(!keeps(l, es.last()[b], enq[n][b], ttl_ns, now_ns));
            }
        }
    }
}

/// A message put older than the TTL is expired by compaction: when the
/// put's message was enqueued at `a`, no later than `now_ns`, and more than
/// the TTL `t` before it, its key is among the expired keys, the segment
/// counts as holding dead data, and compaction keeps fewer operations than
/// the segment holds.
pub proof fn law_old_message_puts_expire(
    l: LivenessView,
    es: Seq<Seq<WalOpView>>,
    enq: Seq<Seq<Option<u64>>>,
    ttl_ns: Option<u64>,
    now_ns: u64,
    i: int,
    j: int,
)
    requires
        enqueue_times_match(es, enq),
        0 <= i < es.len(),
        0 <= j < es[i].len(),
        es[i][j].tag == OpTag::PutMessage,
        es[i][j].value is Some,
        ttl_ns is Some,
        enq[i][j] is Some,
        enq[i][j]->0 <= now_ns,
        now_ns - enq[i][j]->0 > ttl_ns->0,
    ensures
        segment_expired_keys(es, enq, ttl_ns, now_ns).contains(es[i][j].key),
        has_dead_op(l, es, enq, ttl_ns, now_ns),
        op_count(kept_entries(l, es, enq, ttl_ns, now_ns)) < op_count(es),
{
    assert(ttl_expired(es[i][j], enq[i][j], ttl_ns, now_ns));
    lemma_segment_expired_keys_hold(es, enq, ttl_ns, now_ns, i, j);
    assert(!keeps(l, es[i][j], enq[i][j], ttl_ns, now_ns));
    assert(has_dead_op(l, es, enq, ttl_ns, now_ns));
    lemma_kept_entries_fewer(l, es, enq, ttl_ns, now_ns);
}

/// A message put within the TTL, or any put when there is no TTL, is not
/// expired: its key joins the expired keys only if another expired put
/// shares it.
pub proof fn law_young_message_puts_stay(
    op: WalOpView,
    enqueued_at: Option<u64>,
    ttl_ns: Option<u64>,
    now_ns: u64,
)
    requires
        ttl_ns is None || enqueued_at is None || (enqueued_at->0 <= now_ns && now_ns - enqueued_at->0 <= ttl_ns->0)
            || enqueued_at->0 > now_ns,
    ensures
        !ttl_expired(op, enqueued_at, ttl_ns, now_ns),
{
}

} // verus!
