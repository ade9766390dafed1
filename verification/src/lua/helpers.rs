//! Logic of the `fila.helpers` functions offered to Lua scripts. Reading
//! the script's tables is left to the caller, which hands over their
//! contents as plain values.

use vstd::prelude::*;
use crate::fibp::wire::{header_lookup, header_value, headers_view};

verus! {

/// The first position at or after `from` that holds `c`, or -1.
pub open spec fn find_char(s: Seq<char>, c: char, from: int) -> int
    decreases s.len() - from,
{
    if from < 0 || from >= s.len() {
        -1
    } else if s[from] == c {
        from
    } else {
        find_char(s, c, from + 1)
    }
}

/// Where `find_char` lands: on a match at or after the start, with no match
/// before it, or nowhere when none follows.
pub proof fn lemma_find_char(s: Seq<char>, c: char, from: int)
    requires
        0 <= from,
    ensures
        find_char(s, c, from) == -1 || (from <= find_char(s, c, from) < s.len() && s[find_char(s, c, from)] == c),
        find_char(s, c, from) == -1 ==> forall|i: int| from <= i < s.len() ==> s[i] != c,
        find_char(s, c, from) >= 0 ==> forall|i: int| from <= i < find_char(s, c, from) ==> s[i] != c,
    decreases s.len() - from,
{
    if from < s.len() && s[from] != c {
        lemma_find_char(s, c, from + 1);
    }
}

/// `pattern` with its `{placeholder}`s, from position `from` on, replaced by
/// the values of the headers they name, left to right; a replaced value is
/// not searched again. An opening brace without a closing one after it ends
/// the replacing. `None` when a placeholder names a missing header.
pub open spec fn spec_resolve(s: Seq<char>, from: int, h: Seq<(Seq<char>, Seq<char>)>) -> Option<Seq<char>>
    decreases s.len() - from,
{
    if from < 0 {
        None
    } else {
        let start = find_char(s, '{', from);
        if start < 0 {
            Some(s)
        } else {
            let end = find_char(s, '}', start);
            if end < 0 {
                Some(s)
            } else {
                match header_lookup(h, s.subrange(start + 1, end)) {
                    None => None,
                    Some(v) => {
                        proof {
                            lemma_find_char(s, '{', from);
                            lemma_find_char(s, '}', start);
                        }
                        spec_resolve(s.subrange(0, start) + v + s.subrange(end + 1, s.len() as int), start + v.len(), h)
                    },
                }
            }
        }
    }
}

fn find_char_exec(s: &str, c: char, from: usize, n: usize) -> (r: Option<usize>)
    requires
        n == s@.len(),
        from <= n,
    ensures
        match r {
            Some(i) => i == find_char(s@, c, from as int),
            None => find_char(s@, c, from as int) == -1,
        },
{
    let mut i = from;
    while i < n
        invariant
            from <= i <= n == s@.len(),
            find_char(s@, c, from as int) == find_char(s@, c, i as int),
        decreases n - i,
    {
        if s.get_char(i) == c {
            return Some(i);
        }
        i = i + 1;
    }
    None
}

/// Resolve one rate-limit key pattern against a message's headers.
pub fn resolve_pattern(pattern: &str, headers: &[(String, String)]) -> (r: Option<String>)
    ensures
        match spec_resolve(pattern@, 0, headers_view(headers@)) {
            Some(k) => r matches Some(s) && s@ == k,
            None => r is None,
        },
{
    let ghost h = headers_view(headers@);
    let mut resolved = String::from_str(pattern);
    let mut search_from: usize = 0;
    loop
        invariant
            h == headers_view(headers@),
            search_from <= resolved@.len(),
            spec_resolve(pattern@, 0, h) == spec_resolve(resolved@, search_from as int, h),
        decreases resolved@.len() - search_from,
    {
        let n = resolved.as_str().unicode_len();
        let start = match find_char_exec(resolved.as_str(), '{', search_from, n) {
            Some(i) => i,
            None => return Some(resolved),
        };
        proof {
            lemma_find_char(resolved@, '{', search_from as int);
        }
        let end = match find_char_exec(resolved.as_str(), '}', start, n) {
            Some(i) => i,
            None => return Some(resolved),
        };
        proof {
            lemma_find_char(resolved@, '}', start as int);
        }
        let key = resolved.as_str().substring_char(start + 1, end);
        let value = match header_value(headers, key) {
            Some(v) => v,
            None => return None,
        };
        let mut next = String::from_str(resolved.as_str().substring_char(0, start));
        next.append(value.as_str());
        next.append(resolved.as_str().substring_char(end + 1, n));
        let ghost old_resolved = resolved@;
        let vlen = value.as_str().unicode_len();
        let _total = next.as_str().unicode_len();
        proof {
            assert(next@ == old_resolved.subrange(0, start as int) + value@ + old_resolved.subrange(end + 1, n as int));
        }
        resolved = next;
        search_from = start + vlen;
    }
}

/// The throttle keys a message gets from rate-limit patterns: each pattern
/// with its placeholders replaced by header values, in pattern order;
/// patterns that name a missing header are left out, and a message without
/// headers gets none.
pub fn rate_limit_keys(headers: Option<&[(String, String)]>, patterns: &[String]) -> (r: Vec<String>)
    ensures
        headers is None ==> r@.len() == 0,
        headers matches Some(h) ==> r@.map_values(|s: String| s@) == resolved_keys(
            patterns@.map_values(|p: String| p@),
            headers_view(h@),
        ),
{
    let mut out: Vec<String> = Vec::new();
    let h = match headers {
        Some(h) => h,
        None => return out,
    };
    let ghost ps = patterns@.map_values(|p: String| p@);
    let mut i: usize = 0;
    while i < patterns.len()
        invariant
            i <= patterns@.len(),
            ps == patterns@.map_values(|p: String| p@),
            out@.map_values(|s: String| s@) == resolved_keys(ps.subrange(0, i as int), headers_view(h@)),
        decreases patterns@.len() - i,
    {
        proof {
            assert(ps.subrange(0, i + 1).drop_last() == ps.subrange(0, i as int));
            assert(ps.subrange(0, i + 1).last() == patterns@[i as int]@);
        }
        let ghost before = out@.map_values(|s: String| s@);
        match resolve_pattern(patterns[i].as_str(), h) {
            Some(k) => {
                let ghost kv = k@;
                out.push(k);
                assert(out@.map_values(|s: String| s@) =~= before.push(kv));
            },
            None => {},
        }
        i = i + 1;
    }
    assert(ps.subrange(0, patterns@.len() as int) == ps);
    out
}

/// The keys of the patterns that resolve, in order.
pub open spec fn resolved_keys(ps: Seq<Seq<char>>, h: Seq<(Seq<char>, Seq<char>)>) -> Seq<Seq<char>>
    decreases ps.len(),
{
    if ps.len() == 0 {
        Seq::empty()
    } else {
        let rest = resolved_keys(ps.drop_last(), h);
        match spec_resolve(ps.last(), 0, h) {
            Some(k) => rest.push(k),
            None => rest,
        }
    }
}

} // verus!
