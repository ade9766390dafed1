//! Decisions of the admin requests: validating a queue creation, mapping
//! config errors, and placing a new queue's Raft group on the least-loaded
//! nodes of the cluster.
//!
//! Asking the cluster which node leads each group, and sending the request
//! on, is left to the caller.

use vstd::prelude::*;
use crate::error::ConfigError;
use crate::fibp::error::FibpError;
use crate::queue::QueueConfig;

verus! {

broadcast use vstd::seq_lib::group_to_multiset_ensures;

// ---------------------------------------------------------------------------
// Request validation
// ---------------------------------------------------------------------------

/// Refuse an admin request whose named field (`queue name`, `dlq_queue
/// name`, `config key`) is empty.
pub fn check_not_empty(value: &str, what: &str) -> (r: Result<(), FibpError>)
    ensures
        value@.len() == 0 ==> (r matches Err(FibpError::InvalidPayload { reason }) && reason@ == what@
            + " must not be empty"@),
        value@.len() > 0 ==> r is Ok,
{
    if value.unicode_len() == 0 {
        let mut reason = String::from_str(what);
        reason.append(" must not be empty");
        Err(FibpError::InvalidPayload { reason })
    } else {
        Ok(())
    }
}

/// The configuration of a queue created by an admin request: a visibility
/// timeout of 0 asks for the default, one under a second is refused, and an
/// empty script means none.
pub fn create_queue_config(
    name: String,
    on_enqueue_script: String,
    on_failure_script: String,
    visibility_timeout_ms: u64,
) -> (r: Result<QueueConfig, FibpError>)
    ensures
        0 < visibility_timeout_ms < 1000 ==> (r matches Err(FibpError::InvalidPayload { reason }) && reason@
            == "visibility_timeout_ms must be at least 1000 (1 second)"@),
        !(0 < visibility_timeout_ms < 1000) ==> r == Ok::<QueueConfig, FibpError>(
            QueueConfig {
                name,
                on_enqueue_script: if on_enqueue_script@.len() == 0 {
                    None
                } else {
                    Some(on_enqueue_script)
                },
                on_failure_script: if on_failure_script@.len() == 0 {
                    None
                } else {
                    Some(on_failure_script)
                },
                visibility_timeout_ms: if visibility_timeout_ms == 0 {
                    30_000
                } else {
                    visibility_timeout_ms
                },
                dlq_queue_id: None,
                lua_timeout_ms: None,
                lua_memory_limit_bytes: None,
            },
        ),
{
    let visibility_timeout_ms = if visibility_timeout_ms == 0 {
        QueueConfig::DEFAULT_VISIBILITY_TIMEOUT_MS
    } else if visibility_timeout_ms < 1_000 {
        return Err(
            FibpError::InvalidPayload {
                reason: String::from_str("visibility_timeout_ms must be at least 1000 (1 second)"),
            },
        );
    } else {
        visibility_timeout_ms
    };
    let on_enqueue_script = if on_enqueue_script.unicode_len() == 0 {
        None
    } else {
        Some(on_enqueue_script)
    };
    let on_failure_script = if on_failure_script.unicode_len() == 0 {
        None
    } else {
        Some(on_failure_script)
    };
    Ok(
        QueueConfig {
            name,
            on_enqueue_script,
            on_failure_script,
            visibility_timeout_ms,
            dlq_queue_id: None,
            lua_timeout_ms: None,
            lua_memory_limit_bytes: None,
        },
    )
}

/// A config request's failure as a protocol error: an invalid value is a
/// payload error with its message, a storage failure stays one.
pub fn config_error_to_fibp(e: ConfigError) -> (r: FibpError)
    ensures
        e matches ConfigError::InvalidValue(msg) ==> r == (FibpError::InvalidPayload { reason: msg }),
        e matches ConfigError::Storage(s) ==> r == FibpError::Storage(s),
{
    match e {
        ConfigError::InvalidValue(msg) => FibpError::InvalidPayload { reason: msg },
        ConfigError::Storage(s) => FibpError::Storage(s),
    }
}

/// The expiry an API key is created with: 0 means it never expires.
pub fn api_key_expiry(expires_at_ms: u64) -> (r: Option<u64>)
    ensures
        r == (if expires_at_ms == 0 {
            None
        } else {
            Some(expires_at_ms)
        }),
{
    if expires_at_ms == 0 {
        None
    } else {
        Some(expires_at_ms)
    }
}

/// The permission kinds an ACL may grant.
pub open spec fn is_permission_kind(kind: Seq<char>) -> bool {
    kind == "produce"@ || kind == "consume"@ || kind == "admin"@
}

/// Check the `(kind, pattern)` grants of an ACL request: each kind must be
/// `produce`, `consume` or `admin`; the first that is not is named in the
/// refusal.
pub fn validate_acl_permissions(grants: &[(String, String)]) -> (r: Result<(), FibpError>)
    ensures
        (forall|i: int| 0 <= i < grants@.len() ==> is_permission_kind(#[trigger] grants@[i].0@)) ==> r is Ok,
        forall|i: int|
            0 <= i < grants@.len() && !is_permission_kind(#[trigger] grants@[i].0@) && (forall|j: int|
                0 <= j < i ==> is_permission_kind(#[trigger] grants@[j].0@)) ==> (r matches Err(
                FibpError::InvalidPayload { reason },
            ) && reason@ == "invalid permission kind: "@ + grants@[i].0@),
{
    let mut i: usize = 0;
    while i < grants.len()
        invariant
            i <= grants@.len(),
            forall|j: int| 0 <= j < i ==> is_permission_kind(#[trigger] grants@[j].0@),
        decreases grants@.len() - i,
    {
        let kind = grants[i].0.as_str();
        if !(crate::lua::results::str_eq(kind, "produce") || crate::lua::results::str_eq(kind, "consume")
            || crate::lua::results::str_eq(kind, "admin")) {
            let mut reason = String::from_str("invalid permission kind: ");
            reason.append(kind);
            proof {
                assert forall|k: int|
                    0 <= k < grants@.len() && !is_permission_kind(#[trigger] grants@[k].0@) && (forall|j: int|
                        0 <= j < k ==> is_permission_kind(#[trigger] grants@[j].0@)) implies k == i by {
                    if k < i {
                    } else if k > i {
                        assert(is_permission_kind(grants@[i as int].0@));
                    }
                }
            }
            return Err(FibpError::InvalidPayload { reason });
        }
        i = i + 1;
    }
    Ok(())
}

/// The refusal of an ACL change for a key that does not exist.
pub fn key_not_found(key_id: &str) -> (r: FibpError)
    ensures
        r matches FibpError::InvalidPayload { reason } && reason@ == "api key not found: "@ + key_id@,
{
    let mut reason = String::from_str("api key not found: ");
    reason.append(key_id);
    FibpError::InvalidPayload { reason }
}

// ---------------------------------------------------------------------------
// Placement of a queue's Raft group
// ---------------------------------------------------------------------------

/// How many of the groups are led by `id`.
pub open spec fn leader_count(leaders: Seq<Option<u64>>, id: u64) -> nat
    decreases leaders.len(),
{
    if leaders.len() == 0 {
        0
    } else {
        leader_count(leaders.drop_last(), id) + if leaders.last() == Some(id) {
            1nat
        } else {
            0nat
        }
    }
}

proof fn lemma_leader_count_bound(leaders: Seq<Option<u64>>, id: u64)
    ensures
        leader_count(leaders, id) <= leaders.len(),
    decreases leaders.len(),
{
    if leaders.len() > 0 {
        lemma_leader_count_bound(leaders.drop_last(), id);
    }
}

/// The leadership count that `counts` records for `id`: that of its first
/// entry for `id`, or 0 when it has none.
pub open spec fn count_of(counts: Seq<(u64, usize)>, id: u64) -> usize
    decreases counts.len(),
{
    if counts.len() == 0 {
        0
    } else if counts[0].0 == id {
        counts[0].1
    } else {
        count_of(counts.drop_first(), id)
    }
}

/// `a` is at most as loaded as `b`: fewer leaderships, or as many and a
/// lower or equal node id.
pub open spec fn load_le(counts: Seq<(u64, usize)>, a: u64, b: u64) -> bool {
    count_of(counts, a) < count_of(counts, b) || (count_of(counts, a) == count_of(counts, b) && a <= b)
}

/// Count, for each candidate node, the groups it currently leads, given the
/// current leader of each group (`None` for a group without one).
pub fn count_leaderships(candidates: &[u64], group_leaders: &[Option<u64>]) -> (r: Vec<(u64, usize)>)
    ensures
        r@.len() == candidates@.len(),
        forall|i: int| 0 <= i < candidates@.len() ==> #[trigger] r@[i] == (candidates@[i], leader_count(group_leaders@, candidates@[i]) as usize),
        forall|id: u64| candidates@.contains(id) ==> #[trigger] count_of(r@, id) == leader_count(group_leaders@, id),
        forall|id: u64| !candidates@.contains(id) ==> #[trigger] count_of(r@, id) == 0,
{
    let mut out: Vec<(u64, usize)> = Vec::new();
    let mut i: usize = 0;
    while i < candidates.len()
        invariant
            i <= candidates@.len(),
            out@.len() == i,
            forall|k: int| 0 <= k < i ==> #[trigger] out@[k] == (candidates@[k], leader_count(group_leaders@, candidates@[k]) as usize),
        decreases candidates@.len() - i,
    {
        let id = candidates[i];
        let mut n: usize = 0;
        let mut j: usize = 0;
        while j < group_leaders.len()
            invariant
                j <= group_leaders@.len(),
                n == leader_count(group_leaders@.take(j as int), id),
            decreases group_leaders@.len() - j,
        {
            proof {
                assert(group_leaders@.take(j + 1).drop_last() == group_leaders@.take(j as int));
                lemma_leader_count_bound(group_leaders@.take(j as int), id);
            }
            if group_leaders[j] == Some(id) {
                n = n + 1;
            }
            j = j + 1;
        }
        assert(group_leaders@.take(group_leaders@.len() as int) == group_leaders@);
        out.push((id, n));
        i = i + 1;
    }
    let n_groups = group_leaders.len();
    proof {
        assert(group_leaders@.len() == n_groups);
        assert forall|id: u64| #[trigger] count_of(out@, id) == if candidates@.contains(id) {
            leader_count(group_leaders@, id)
        } else {
            0
        } by {
            lemma_count_of_tally(out@, candidates@, group_leaders@, id);
        }
    }
    out
}

proof fn lemma_count_of_tally(out: Seq<(u64, usize)>, candidates: Seq<u64>, leaders: Seq<Option<u64>>, id: u64)
    requires
        leaders.len() <= usize::MAX,
        out.len() == candidates.len(),
        forall|k: int| 0 <= k < candidates.len() ==> #[trigger] out[k] == (candidates[k], leader_count(leaders, candidates[k]) as usize),
    ensures
        count_of(out, id) == if candidates.contains(id) {
            leader_count(leaders, id)
        } else {
            0
        },
    decreases out.len(),
{
    if out.len() > 0 {
        lemma_leader_count_bound(leaders, id);
        assert forall|k: int| 0 <= k < candidates.drop_first().len() implies #[trigger] out.drop_first()[k] == (
            candidates.drop_first()[k],
            leader_count(leaders, candidates.drop_first()[k]) as usize,
        ) by {
            assert(out.drop_first()[k] == out[k + 1]);
        }
        lemma_count_of_tally(out.drop_first(), candidates.drop_first(), leaders, id);
        if candidates[0] != id {
            if candidates.drop_first().contains(id) {
                let k = choose|k: int| 0 <= k < candidates.drop_first().len() && candidates.drop_first()[k] == id;
                assert(candidates[k + 1] == id);
            }
            if candidates.contains(id) {
                let k = choose|k: int| 0 <= k < candidates.len() && candidates[k] == id;
                assert(candidates.drop_first()[k - 1] == id);
            }
        } else {
            assert(out[0] == (candidates[0], leader_count(leaders, candidates[0]) as usize));
            assert(candidates.contains(candidates[0]));
        }
    }
}

fn lookup_count(counts: &[(u64, usize)], id: u64) -> (r: usize)
    ensures
        r == count_of(counts@, id),
{
    let mut i: usize = 0;
    assert(counts@.skip(0) == counts@);
    while i < counts.len()
        invariant
            i <= counts@.len(),
            count_of(counts@, id) == count_of(counts@.skip(i as int), id),
        decreases counts@.len() - i,
    {
        assert(counts@.skip(i as int)[0] == counts@[i as int]);
        if counts[i].0 == id {
            return counts[i].1;
        }
        assert(counts@.skip(i as int).drop_first() == counts@.skip(i + 1));
        i = i + 1;
    }
    0
}

fn less_or_equally_loaded(counts: &[(u64, usize)], a: u64, b: u64) -> (r: bool)
    ensures
        r == load_le(counts@, a, b),
{
    let ca = lookup_count(counts, a);
    let cb = lookup_count(counts, b);
    ca < cb || (ca == cb && a <= b)
}

/// The position of a least-loaded node among `nodes`.
fn least_loaded(nodes: &Vec<u64>, counts: &[(u64, usize)]) -> (m: usize)
    requires
        nodes@.len() > 0,
    ensures
        m < nodes@.len(),
        forall|j: int| 0 <= j < nodes@.len() ==> load_le(counts@, nodes@[m as int], #[trigger] nodes@[j]),
{
    let mut best: usize = 0;
    let mut i: usize = 1;
    while i < nodes.len()
        invariant
            1 <= i <= nodes@.len(),
            best < i,
            forall|j: int| 0 <= j < i ==> load_le(counts@, nodes@[best as int], #[trigger] nodes@[j]),
        decreases nodes@.len() - i,
    {
        if !less_or_equally_loaded(counts, nodes[best], nodes[i]) {
            best = i;
        }
        i = i + 1;
    }
    best
}

/// Choose the members of a new queue's Raft group and its preferred leader.
/// When the cluster has more nodes than `replication_factor` (and the factor
/// is not 0), the group takes the `replication_factor` least-loaded nodes,
/// least loaded first; otherwise it takes every node, in order. The
/// preferred leader is the least-loaded member, or node 1 when there is
/// none. Load is the number of groups a node leads, ties going to the lower
/// node id.
pub fn select_members_and_leader(all_members: &[u64], counts: &[(u64, usize)], replication_factor: usize) -> (r: (
    Vec<u64>,
    u64,
))
    ensures
        all_members@.len() > replication_factor && replication_factor > 0 ==> {
            let sel = r.0@;
            let all = all_members@;
            &&& sel.len() == replication_factor
            &&& forall|i: int, j: int| 0 <= i < j < sel.len() ==> load_le(counts@, #[trigger] sel[i], #[trigger] sel[j])
            &&& forall|x: u64| #[trigger] sel.to_multiset().count(x) <= all.to_multiset().count(x)
            &&& forall|x: u64, i: int|
                0 <= i < sel.len() && #[trigger] sel.to_multiset().count(x) < all.to_multiset().count(x) ==> load_le(
                    counts@,
                    #[trigger] sel[i],
                    x,
                )
        },
        !(all_members@.len() > replication_factor && replication_factor > 0) ==> r.0@ == all_members@,
        r.0@.len() > 0 ==> r.0@.contains(r.1) && forall|i: int| 0 <= i < r.0@.len() ==> load_le(counts@, r.1, #[trigger] r.0@[i]),
        r.0@.len() == 0 ==> r.1 == 1,
{
    let mut pool: Vec<u64> = Vec::new();
    let mut k: usize = 0;
    while k < all_members.len()
        invariant
            k <= all_members@.len(),
            pool@ == all_members@.take(k as int),
        decreases all_members@.len() - k,
    {
        pool.push(all_members[k]);
        k = k + 1;
        assert(pool@ == all_members@.take(k as int));
    }
    assert(all_members@.take(all_members@.len() as int) == all_members@);
    let selected: Vec<u64> = if all_members.len() > replication_factor && replication_factor > 0 {
        let ghost all = all_members@;
        let mut sel: Vec<u64> = Vec::new();
        while sel.len() < replication_factor
            invariant
                replication_factor < all.len(),
                sel@.len() <= replication_factor,
                sel@.len() + pool@.len() == all.len(),
                sel@.to_multiset().add(pool@.to_multiset()) == all.to_multiset(),
                forall|i: int, j: int| 0 <= i < j < sel@.len() ==> load_le(counts@, #[trigger] sel@[i], #[trigger] sel@[j]),
                forall|i: int, j: int|
                    0 <= i < sel@.len() && 0 <= j < pool@.len() ==> load_le(counts@, #[trigger] sel@[i], #[trigger] pool@[j]),
            decreases replication_factor - sel@.len(),
        {
            let m = least_loaded(&pool, counts);
            let ghost old_pool = pool@;
            let ghost old_sel = sel@;
            let x = pool.remove(m);
            sel.push(x);
            proof {
                assert(pool@ == old_pool.remove(m as int));
                assert(sel@ == old_sel.push(x));
                assert(sel@.to_multiset().add(pool@.to_multiset()) =~= all.to_multiset());
                assert forall|i: int, j: int| 0 <= i < j < sel@.len() implies load_le(counts@, #[trigger] sel@[i], #[trigger] sel@[j]) by {
                    if j == sel@.len() - 1 {
                        assert(old_pool[m as int] == x);
                        assert(load_le(counts@, old_sel[i], old_pool[m as int]));
                    }
                }
                assert forall|i: int, j: int| 0 <= i < sel@.len() && 0 <= j < pool@.len() implies load_le(
                    counts@,
                    #[trigger] sel@[i],
                    #[trigger] pool@[j],
                ) by {
                    let oj = if j < m { j } else { j + 1 };
                    assert(pool@[j] == old_pool[oj]);
                    if i < old_sel.len() {
                        assert(load_le(counts@, old_sel[i], old_pool[oj]));
                    } else {
                        assert(load_le(counts@, old_pool[m as int], old_pool[oj]));
                    }
                }
            }
        }
        proof {
            assert forall|x: u64| #[trigger] sel@.to_multiset().count(x) <= all.to_multiset().count(x) by {
                assert(all.to_multiset().count(x) == sel@.to_multiset().count(x) + pool@.to_multiset().count(x));
            }
            assert forall|x: u64, i: int|
                0 <= i < sel@.len() && #[trigger] sel@.to_multiset().count(x) < all.to_multiset().count(x) implies load_le(
                counts@,
                #[trigger] sel@[i],
                x,
            ) by {
                assert(all.to_multiset().count(x) == sel@.to_multiset().count(x) + pool@.to_multiset().count(x));
                assert(pool@.contains(x));
                let j = choose|j: int| 0 <= j < pool@.len() && pool@[j] == x;
                assert(load_le(counts@, sel@[i], pool@[j]));
            }
        }
        sel
    } else {
        pool
    };
    let preferred = if selected.len() > 0 {
        let m = least_loaded(&selected, counts);
        selected[m]
    } else {
        1
    };
    (selected, preferred)
}

} // verus!
