//! Byte-level building blocks shared by the key, WAL and wire encodings:
//! big-endian and little-endian integer layouts, lexicographic order on
//! byte strings, and prefix relations.

use vstd::prelude::*;

verus! {

/// `256^n`.
pub open spec fn pow256(n: nat) -> nat
    decreases n,
{
    if n == 0 {
        1
    } else {
        256 * pow256((n - 1) as nat)
    }
}

/// The `n` low-order bytes of `v`, most significant first.
pub open spec fn be_bytes(v: nat, n: nat) -> Seq<u8>
    decreases n,
{
    if n == 0 {
        Seq::empty()
    } else {
        be_bytes(v / 256, (n - 1) as nat).push((v % 256) as u8)
    }
}

/// The unsigned value of a big-endian byte string.
pub open spec fn be_value(s: Seq<u8>) -> nat
    decreases s.len(),
{
    if s.len() == 0 {
        0
    } else {
        be_value(s.drop_last()) * 256 + s.last() as nat
    }
}

/// The `n` low-order bytes of `v`, least significant first.
pub open spec fn le_bytes(v: nat, n: nat) -> Seq<u8>
    decreases n,
{
    if n == 0 {
        Seq::empty()
    } else {
        seq![(v % 256) as u8] + le_bytes(v / 256, (n - 1) as nat)
    }
}

/// The unsigned value of a little-endian byte string.
pub open spec fn le_value(s: Seq<u8>) -> nat
    decreases s.len(),
{
    if s.len() == 0 {
        0
    } else {
        s[0] as nat + 256 * le_value(s.drop_first())
    }
}

/// Two big-endian bytes of a `u16`.
pub open spec fn be16(v: u16) -> Seq<u8> {
    be_bytes(v as nat, 2)
}

/// Four big-endian bytes of a `u32`.
pub open spec fn be32(v: u32) -> Seq<u8> {
    be_bytes(v as nat, 4)
}

/// Eight big-endian bytes of a `u64`.
pub open spec fn be64(v: u64) -> Seq<u8> {
    be_bytes(v as nat, 8)
}

/// Four little-endian bytes of a `u32`.
pub open spec fn le32(v: u32) -> Seq<u8> {
    le_bytes(v as nat, 4)
}

/// Eight little-endian bytes of a `u64`.
pub open spec fn le64(v: u64) -> Seq<u8> {
    le_bytes(v as nat, 8)
}

/// Strict lexicographic order on byte strings, as `Ord` on `[u8]` defines it:
/// the first differing byte decides, and a proper prefix sorts first.
pub open spec fn lex_lt(a: Seq<u8>, b: Seq<u8>) -> bool
    decreases a.len(),
{
    if b.len() == 0 {
        false
    } else if a.len() == 0 {
        true
    } else if a[0] < b[0] {
        true
    } else if a[0] > b[0] {
        false
    } else {
        lex_lt(a.drop_first(), b.drop_first())
    }
}

/// Non-strict lexicographic order.
pub open spec fn lex_le(a: Seq<u8>, b: Seq<u8>) -> bool {
    lex_lt(a, b) || a == b
}

/// `p` is a prefix of `s`.
pub open spec fn has_prefix(s: Seq<u8>, p: Seq<u8>) -> bool {
    p.len() <= s.len() && s.subrange(0, p.len() as int) == p
}

pub proof fn lemma_pow256_positive(n: nat)
    ensures
        pow256(n) >= 1,
    decreases n,
{
    if n > 0 {
        lemma_pow256_positive((n - 1) as nat);
    }
}

pub proof fn lemma_be_bytes_len(v: nat, n: nat)
    ensures
        be_bytes(v, n).len() == n,
    decreases n,
{
    if n > 0 {
        lemma_be_bytes_len(v / 256, (n - 1) as nat);
    }
}

pub proof fn lemma_le_bytes_len(v: nat, n: nat)
    ensures
        le_bytes(v, n).len() == n,
    decreases n,
{
    if n > 0 {
        lemma_le_bytes_len(v / 256, (n - 1) as nat);
    }
}

/// Decoding a big-endian encoding gives the value back.
pub proof fn lemma_be_value_of_bytes(v: nat, n: nat)
    requires
        v < pow256(n),
    ensures
        be_value(be_bytes(v, n)) == v,
    decreases n,
{
    if n > 0 {
        let n1 = (n - 1) as nat;
        assert(v / 256 < pow256(n1));
        lemma_be_value_of_bytes(v / 256, n1);
        let s = be_bytes(v, n);
        assert(s.drop_last() == be_bytes(v / 256, n1));
    }
}

/// Decoding a little-endian encoding gives the value back.
pub proof fn lemma_le_value_of_bytes(v: nat, n: nat)
    requires
        v < pow256(n),
    ensures
        le_value(le_bytes(v, n)) == v,
    decreases n,
{
    if n > 0 {
        let n1 = (n - 1) as nat;
        assert(v / 256 < pow256(n1));
        lemma_le_value_of_bytes(v / 256, n1);
        let s = le_bytes(v, n);
        assert(s.drop_first() == le_bytes(v / 256, n1));
    }
}

/// A value is bounded by the width of its encoding.
pub proof fn lemma_be_value_bound(s: Seq<u8>)
    ensures
        be_value(s) < pow256(s.len()),
    decreases s.len(),
{
    if s.len() > 0 {
        lemma_be_value_bound(s.drop_last());
        assert(be_value(s.drop_last()) * 256 + s.last() < pow256(s.len())) by (nonlinear_arith)
            requires
                be_value(s.drop_last()) < pow256((s.len() - 1) as nat),
                pow256(s.len()) == 256 * pow256((s.len() - 1) as nat),
                s.last() < 256,
        ;
    }
}

/// A value is bounded by the width of its encoding.
pub proof fn lemma_le_value_bound(s: Seq<u8>)
    ensures
        le_value(s) < pow256(s.len()),
    decreases s.len(),
{
    if s.len() > 0 {
        lemma_le_value_bound(s.drop_first());
        assert(s[0] + 256 * le_value(s.drop_first()) < pow256(s.len())) by (nonlinear_arith)
            requires
                le_value(s.drop_first()) < pow256((s.len() - 1) as nat),
                pow256(s.len()) == 256 * pow256((s.len() - 1) as nat),
                s[0] < 256,
        ;
    }
}

/// Encoding a decoded byte string gives the byte string back.
pub proof fn lemma_be_bytes_of_value(s: Seq<u8>)
    ensures
        be_bytes(be_value(s), s.len()) == s,
    decreases s.len(),
{
    if s.len() > 0 {
        let d = s.drop_last();
        lemma_be_bytes_of_value(d);
        let v = be_value(s);
        assert(v / 256 == be_value(d));
        assert(v % 256 == s.last());
        assert(be_bytes(v, s.len()) == be_bytes(be_value(d), d.len()).push(s.last()));
        assert(s == d.push(s.last()));
    }
}

/// Encoding a decoded byte string gives the byte string back.
pub proof fn lemma_le_bytes_of_value(s: Seq<u8>)
    ensures
        le_bytes(le_value(s), s.len()) == s,
    decreases s.len(),
{
    if s.len() > 0 {
        let d = s.drop_first();
        lemma_le_bytes_of_value(d);
        let v = le_value(s);
        assert(v / 256 == le_value(d));
        assert(v % 256 == s[0]);
        assert(le_bytes(v, s.len()) == seq![s[0]] + le_bytes(le_value(d), d.len()));
        assert(s == seq![s[0]] + d);
    }
}

pub proof fn lemma_pow256_small()
    ensures
        pow256(2) == 0x1_0000,
        pow256(4) == 0x1_0000_0000,
        pow256(8) == 0x1_0000_0000_0000_0000,
{
    reveal_with_fuel(pow256, 9);
}


/// A shared prefix does not change the order of two byte strings.
pub proof fn lemma_lex_common_prefix(p: Seq<u8>, a: Seq<u8>, b: Seq<u8>)
    ensures
        lex_lt(p + a, p + b) == lex_lt(a, b),
    decreases p.len(),
{
    if p.len() > 0 {
        let p1 = p.drop_first();
        lemma_lex_common_prefix(p1, a, b);
        assert((p + a).drop_first() == p1 + a);
        assert((p + b).drop_first() == p1 + b);
    } else {
        assert(p + a == a);
        assert(p + b == b);
    }
}

/// Between strings of equal length, the order survives any suffixes.
pub proof fn lemma_lex_extend(a: Seq<u8>, b: Seq<u8>, x: Seq<u8>, y: Seq<u8>)
    requires
        a.len() == b.len(),
        lex_lt(a, b),
    ensures
        lex_lt(a + x, b + y),
    decreases a.len(),
{
    if a[0] == b[0] {
        lemma_lex_extend(a.drop_first(), b.drop_first(), x, y);
        assert((a + x).drop_first() == a.drop_first() + x);
        assert((b + y).drop_first() == b.drop_first() + y);
    }
    assert((a + x)[0] == a[0]);
    assert((b + y)[0] == b[0]);
}

/// Order of two equal-length strings each extended by one byte.
pub proof fn lemma_lex_push(a: Seq<u8>, b: Seq<u8>, x: u8, y: u8)
    requires
        a.len() == b.len(),
    ensures
        lex_lt(a.push(x), b.push(y)) == (lex_lt(a, b) || (a == b && x < y)),
    decreases a.len(),
{
    if a.len() == 0 {
        assert(a == b);
        assert(a.push(x)[0] == x);
        assert(b.push(y)[0] == y);
        assert(a.push(x).drop_first().len() == 0);
        assert(b.push(y).drop_first().len() == 0);
        assert(!lex_lt(a.push(x).drop_first(), b.push(y).drop_first()));
        assert(!lex_lt(a, b));
    } else {
        assert(a.push(x)[0] == a[0]);
        assert(b.push(y)[0] == b[0]);
        lemma_lex_push(a.drop_first(), b.drop_first(), x, y);
        assert(a.push(x).drop_first() == a.drop_first().push(x));
        assert(b.push(y).drop_first() == b.drop_first().push(y));
        if a[0] == b[0] && a.drop_first() == b.drop_first() {
            assert(a == b) by {
                assert(a =~= seq![a[0]] + a.drop_first());
                assert(b =~= seq![b[0]] + b.drop_first());
            }
        }
        if a == b {
            assert(a.drop_first() == b.drop_first());
        }
    }
}

/// Big-endian encodings of equal width order as the values do.
pub proof fn lemma_be_order(v1: nat, v2: nat, n: nat)
    requires
        v1 < v2,
        v2 < pow256(n),
    ensures
        lex_lt(be_bytes(v1, n), be_bytes(v2, n)),
    decreases n,
{
    let n1 = (n - 1) as nat;
    assert(n > 0) by {
        if n == 0 {
            assert(pow256(n) == 1);
        }
    }
    lemma_be_bytes_len(v1 / 256, n1);
    lemma_be_bytes_len(v2 / 256, n1);
    lemma_lex_push(be_bytes(v1 / 256, n1), be_bytes(v2 / 256, n1), (v1 % 256) as u8, (v2 % 256) as u8);
    if v1 / 256 < v2 / 256 {
        lemma_be_order(v1 / 256, v2 / 256, n1);
    }
}

/// Lexicographic order is irreflexive.
pub proof fn lemma_lex_irreflexive(a: Seq<u8>)
    ensures
        !lex_lt(a, a),
    decreases a.len(),
{
    if a.len() > 0 {
        lemma_lex_irreflexive(a.drop_first());
    }
}

/// Lexicographic order is transitive.
pub proof fn lemma_lex_transitive(a: Seq<u8>, b: Seq<u8>, c: Seq<u8>)
    requires
        lex_lt(a, b),
        lex_lt(b, c),
    ensures
        lex_lt(a, c),
    decreases a.len(),
{
    if a.len() > 0 && b.len() > 0 && c.len() > 0 && a[0] == b[0] && b[0] == c[0] {
        lemma_lex_transitive(a.drop_first(), b.drop_first(), c.drop_first());
    }
}

/// Lexicographic order is total.
pub proof fn lemma_lex_total(a: Seq<u8>, b: Seq<u8>)
    ensures
        lex_lt(a, b) || a == b || lex_lt(b, a),
    decreases a.len(),
{
    if a.len() > 0 && b.len() > 0 && a[0] == b[0] {
        lemma_lex_total(a.drop_first(), b.drop_first());
        if a.drop_first() == b.drop_first() {
            assert(a =~= seq![a[0]] + a.drop_first());
            assert(b =~= seq![b[0]] + b.drop_first());
        }
    } else if a.len() == 0 && b.len() == 0 {
        assert(a =~= b);
    }
}

/// A string sorts no later than any string it is a prefix of.
pub proof fn lemma_prefix_lex_le(p: Seq<u8>, s: Seq<u8>)
    requires
        has_prefix(s, p),
    ensures
        lex_le(p, s),
{
    let rest = s.subrange(p.len() as int, s.len() as int);
    assert(s =~= p + rest);
    assert(p =~= p + Seq::<u8>::empty());
    lemma_lex_common_prefix(p, Seq::<u8>::empty(), rest);
    if rest.len() == 0 {
        assert(s =~= p);
    }
}


pub proof fn lemma_pow256_monotone(a: nat, b: nat)
    requires
        a <= b,
    ensures
        pow256(a) <= pow256(b),
    decreases b,
{
    if a < b {
        lemma_pow256_monotone(a, (b - 1) as nat);
        lemma_pow256_positive((b - 1) as nat);
    }
}

/// Appends `src` to `dst`.
pub fn append_bytes(dst: &mut Vec<u8>, src: &[u8])
    ensures
        final(dst)@ == old(dst)@ + src@,
{
    let mut i: usize = 0;
    while i < src.len()
        invariant
            i <= src@.len(),
            dst@ == old(dst)@ + src@.subrange(0, i as int),
        decreases src@.len() - i,
    {
        dst.push(src[i]);
        i = i + 1;
        assert(src@.subrange(0, i as int) == src@.subrange(0, (i - 1) as int).push(src@[i - 1]));
    }
    assert(src@.subrange(0, src@.len() as int) == src@);
}

/// The `n` low-order bytes of `v`, most significant first.
pub fn be_encode(v: u64, n: usize) -> (r: Vec<u8>)
    ensures
        r@ == be_bytes(v as nat, n as nat),
    decreases n,
{
    if n == 0 {
        Vec::new()
    } else {
        let mut r = be_encode(v / 256, n - 1);
        r.push((v % 256) as u8);
        r
    }
}

/// The `n` low-order bytes of `v`, least significant first.
pub fn le_encode(v: u64, n: usize) -> (r: Vec<u8>)
    ensures
        r@ == le_bytes(v as nat, n as nat),
    decreases n,
{
    if n == 0 {
        Vec::new()
    } else {
        let mut r = Vec::new();
        r.push((v % 256) as u8);
        let mut rest = le_encode(v / 256, n - 1);
        r.append(&mut rest);
        r
    }
}

/// Appends the `n`-byte big-endian encoding of `v`.
pub fn push_be(dst: &mut Vec<u8>, v: u64, n: usize)
    ensures
        final(dst)@ == old(dst)@ + be_bytes(v as nat, n as nat),
{
    let mut b = be_encode(v, n);
    dst.append(&mut b);
}

/// Appends the `n`-byte little-endian encoding of `v`.
pub fn push_le(dst: &mut Vec<u8>, v: u64, n: usize)
    ensures
        final(dst)@ == old(dst)@ + le_bytes(v as nat, n as nat),
{
    let mut b = le_encode(v, n);
    dst.append(&mut b);
}

/// Reads an `n`-byte big-endian unsigned integer at `start`.
pub fn read_be(s: &[u8], start: usize, n: usize) -> (r: u64)
    requires
        n <= 8,
        start + n <= s@.len(),
    ensures
        r as nat == be_value(s@.subrange(start as int, start + n)),
        r as nat <= 0xFFFF || n > 2,
{
    let mut acc: u64 = 0;
    let mut i: usize = 0;
    let len = s.len();
    while i < n
        invariant
            len == s@.len(),
            n <= 8,
            i <= n,
            start + n <= s@.len(),
            acc as nat == be_value(s@.subrange(start as int, start + i)),
        decreases n - i,
    {
        let ghost prev = s@.subrange(start as int, start + i);
        let ghost next = s@.subrange(start as int, start + i + 1);
        proof {
            lemma_be_value_bound(prev);
            lemma_pow256_monotone(i as nat, 7);
            lemma_pow256_small();
            reveal_with_fuel(pow256, 8);
            assert(acc * 256 + 255 < 0x1_0000_0000_0000_0000) by (nonlinear_arith)
                requires
                    acc < pow256(i as nat),
                    pow256(i as nat) <= pow256(7),
                    pow256(7) == 0x100_0000_0000_0000,
            ;
            assert(next.drop_last() == prev);
        }
        acc = acc * 256 + s[start + i] as u64;
        i = i + 1;
    }
    proof {
        lemma_be_value_bound(s@.subrange(start as int, start + n));
        lemma_pow256_small();
        if n <= 2 {
            lemma_pow256_monotone(n as nat, 2);
        }
    }
    acc
}

/// Reads an `n`-byte little-endian unsigned integer at `start`.
pub fn read_le(s: &[u8], start: usize, n: usize) -> (r: u64)
    requires
        n <= 8,
        start + n <= s@.len(),
    ensures
        r as nat == le_value(s@.subrange(start as int, start + n)),
        r as nat <= 0xFFFF_FFFF || n > 4,
{
    let mut acc: u64 = 0;
    let mut i: usize = n;
    assert(s@.subrange(start + n, start + n).len() == 0);
    let len = s.len();
    while i > 0
        invariant
            len == s@.len(),
            n <= 8,
            i <= n,
            start + n <= s@.len(),
            acc as nat == le_value(s@.subrange(start + i, start + n)),
        decreases i,
    {
        let ghost prev = s@.subrange(start + i, start + n);
        let ghost next = s@.subrange(start + i - 1, start + n);
        proof {
            lemma_le_value_bound(prev);
            lemma_pow256_monotone(prev.len(), 7);
            lemma_pow256_small();
            reveal_with_fuel(pow256, 8);
            assert(255 + 256 * acc < 0x1_0000_0000_0000_0000) by (nonlinear_arith)
                requires
                    acc < pow256(prev.len()),
                    pow256(prev.len()) <= pow256(7),
                    pow256(7) == 0x100_0000_0000_0000,
            ;
            assert(next.drop_first() == prev);
        }
        acc = s[start + i - 1] as u64 + 256 * acc;
        i = i - 1;
    }
    proof {
        lemma_le_value_bound(s@.subrange(start as int, start + n));
        lemma_pow256_small();
        if n <= 4 {
            lemma_pow256_monotone(n as nat, 4);
        }
    }
    acc
}

} // verus!
