//! Exclusive upper bounds for prefix scans over byte-ordered key spaces.

use vstd::prelude::*;
use crate::encoding::{has_prefix, lemma_lex_common_prefix, lemma_lex_transitive, lemma_prefix_lex_le, lex_le, lex_lt};

verus! {

/// The first byte string past every key that starts with `p`: the last
/// byte below 0xFF is incremented and everything after it dropped. Empty
/// when `p` is all 0xFF (or empty), meaning no bound exists.
pub open spec fn spec_prefix_upper_bound(p: Seq<u8>) -> Seq<u8>
    decreases p.len(),
{
    if p.len() == 0 {
        Seq::empty()
    } else if p.last() < 0xFF {
        p.drop_last().push((p.last() + 1) as u8)
    } else {
        spec_prefix_upper_bound(p.drop_last())
    }
}

/// Compute the exclusive upper bound for a byte prefix.
///
/// Increments the last non-0xFF byte to produce the first key that does
/// *not* match the prefix. Returns an empty `Vec` when the prefix is all
/// 0xFF (meaning the prefix covers the remainder of the keyspace).
pub fn prefix_upper_bound(prefix: &[u8]) -> (r: Vec<u8>)
    ensures
        r@ == spec_prefix_upper_bound(prefix@),
{
    let mut n: usize = prefix.len();
    assert(prefix@.subrange(0, n as int) == prefix@);
    while n > 0
        invariant
            n <= prefix@.len(),
            spec_prefix_upper_bound(prefix@) == spec_prefix_upper_bound(prefix@.subrange(0, n as int)),
        decreases n,
    {
        let last = prefix[n - 1];
        let ghost cur = prefix@.subrange(0, n as int);
        assert(cur.drop_last() == prefix@.subrange(0, n - 1));
        if last < 0xFF {
            let mut upper = crate::text::copy_range(prefix, 0, n - 1);
            upper.push(last + 1);
            return upper;
        }
        n = n - 1;
    }
    Vec::new()
}

/// Keys that start with `p` lie in `[p, upper)`.
proof fn lemma_upper_bound_sound(p: Seq<u8>, k: Seq<u8>)
    requires
        has_prefix(k, p),
        spec_prefix_upper_bound(p).len() > 0,
    ensures
        lex_lt(k, spec_prefix_upper_bound(p)),
    decreases p.len(),
{
    let d = p.drop_last();
    assert(has_prefix(k, d)) by {
        assert(k.subrange(0, d.len() as int) == p.subrange(0, d.len() as int));
    }
    if p.last() < 0xFF {
        let u = spec_prefix_upper_bound(p);
        let rest = k.subrange(d.len() as int, k.len() as int);
        assert(k == d + rest);
        assert(u == d + seq![(p.last() + 1) as u8]);
        assert(rest[0] == p.last());
        lemma_lex_common_prefix(d, rest, seq![(p.last() + 1) as u8]);
    } else {
        lemma_upper_bound_sound(d, k);
    }
}

proof fn lemma_lex_le_drop_first(p: Seq<u8>, k: Seq<u8>)
    requires
        lex_le(p, k),
        p.len() > 0,
    ensures
        k.len() > 0,
        p[0] <= k[0],
        p[0] == k[0] ==> lex_le(p.drop_first(), k.drop_first()),
{
}

proof fn lemma_bump_last_complete(d: Seq<u8>, c: u8, k: Seq<u8>)
    requires
        c < 0xFF,
        lex_le(d.push(c), k),
        lex_lt(k, d.push((c + 1) as u8)),
    ensures
        has_prefix(k, d.push(c)),
    decreases d.len(),
{
    let p = d.push(c);
    let u = d.push((c + 1) as u8);
    lemma_lex_le_drop_first(p, k);
    if d.len() == 0 {
        assert(u.len() == 1);
        assert(u[0] == c + 1);
        assert(u.drop_first().len() == 0);
        assert(!lex_lt(k.drop_first(), u.drop_first()));
        assert(k[0] < c + 1);
        assert(k[0] == c);
        assert(k.subrange(0, 1) == p);
    } else {
        assert(u[0] == d[0]);
        assert(p[0] == d[0]);
        assert(k[0] == d[0]);
        assert(p.drop_first() == d.drop_first().push(c));
        assert(u.drop_first() == d.drop_first().push((c + 1) as u8));
        lemma_bump_last_complete(d.drop_first(), c, k.drop_first());
        assert(k.subrange(0, p.len() as int) == p) by {
            assert(k.drop_first().subrange(0, p.len() - 1) == p.drop_first());
            assert forall|i: int| 0 <= i < p.len() implies k.subrange(0, p.len() as int)[i] == p[i] by {
                if i > 0 {
                    assert(k.drop_first().subrange(0, p.len() - 1)[i - 1] == p.drop_first()[i - 1]);
                }
            }
        }
    }
}

/// Keys in `[p, upper)` (or at or past `p` when there is no bound) start with `p`.
proof fn lemma_upper_bound_complete(p: Seq<u8>, k: Seq<u8>)
    requires
        lex_le(p, k),
        spec_prefix_upper_bound(p).len() == 0 || lex_lt(k, spec_prefix_upper_bound(p)),
    ensures
        has_prefix(k, p),
    decreases p.len(),
{
    if p.len() == 0 {
        assert(k.subrange(0, 0) == p);
    } else if p.last() < 0xFF {
        let d = p.drop_last();
        assert(p == d.push(p.last()));
        lemma_bump_last_complete(d, p.last(), k);
    } else {
        let d = p.drop_last();
        assert(has_prefix(p, d)) by {
            assert(p.subrange(0, d.len() as int) == d);
        }
        lemma_prefix_lex_le(d, p);
        if lex_lt(d, p) && lex_lt(p, k) {
            lemma_lex_transitive(d, p, k);
        }
        lemma_upper_bound_complete(d, k);
        let rest = k.subrange(d.len() as int, k.len() as int);
        assert(k == d + rest);
        assert(p == d + seq![0xFFu8]);
        lemma_lex_common_prefix(d, seq![0xFFu8], rest);
        assert(rest.len() > 0 && rest[0] == 0xFF) by {
            if rest.len() == 0 {
                assert(k == d + rest);
                assert(!lex_lt(p, k));
                assert(p != k);
            }
        }
        assert(k.subrange(0, p.len() as int) == p);
    }
}

/// A key starts with `prefix` exactly when it lies in the scan range that
/// `prefix_upper_bound` gives: at or past the prefix, and before the bound
/// when there is one.
pub proof fn law_prefix_upper_bound_range(prefix: Seq<u8>, key: Seq<u8>)
    ensures
        has_prefix(key, prefix) <==> (lex_le(prefix, key) && (spec_prefix_upper_bound(prefix).len()
            == 0 || lex_lt(key, spec_prefix_upper_bound(prefix)))),
{
    if has_prefix(key, prefix) {
        lemma_prefix_lex_le(prefix, key);
        if spec_prefix_upper_bound(prefix).len() > 0 {
            lemma_upper_bound_sound(prefix, key);
        }
    }
    if lex_le(prefix, key) && (spec_prefix_upper_bound(prefix).len() == 0 || lex_lt(
        key,
        spec_prefix_upper_bound(prefix),
    )) {
        lemma_upper_bound_complete(prefix, key);
    }
}

} // verus!
