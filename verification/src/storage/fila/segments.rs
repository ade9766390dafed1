//! Segment files of the write-ahead log: their names, their order, and the
//! writer's position in the active one.
//!
//! Segments are named `segment-NNNNNNNNNN.wal` by sequence number. The writer
//! appends to the highest-numbered segment and seals it, starting the next,
//! once it reaches the configured size. Opening, writing and syncing the
//! files is left to the caller, which follows the plans made here.

use vstd::prelude::*;
use vstd::utf8::*;
use crate::storage::fila::config::SyncMode;
use crate::storage::fila::wal::SEGMENT_HEADER_SIZE;
use crate::text::str_bytes;

verus! {

// ---------------------------------------------------------------------------
// Names
// ---------------------------------------------------------------------------

/// The ASCII bytes of `segment-`.
pub open spec fn name_prefix() -> Seq<u8> {
    seq![0x73u8, 0x65, 0x67, 0x6D, 0x65, 0x6E, 0x74, 0x2D]
}

/// The ASCII bytes of `.wal`.
pub open spec fn name_suffix() -> Seq<u8> {
    seq![0x2Eu8, 0x77, 0x61, 0x6C]
}

/// The decimal digits of `n` as ASCII bytes, most significant first.
pub open spec fn decimal_digits(n: nat) -> Seq<u8>
    decreases n,
{
    if n < 10 {
        seq![(n + 48) as u8]
    } else {
        decimal_digits(n / 10).push((n % 10 + 48) as u8)
    }
}

/// `d` with ASCII zeros in front, to a length of at least `w`.
pub open spec fn zero_pad(d: Seq<u8>, w: nat) -> Seq<u8> {
    if d.len() >= w {
        d
    } else {
        Seq::new((w - d.len()) as nat, |i: int| 48u8) + d
    }
}

/// The file name of segment `seq`: `segment-`, the number in decimal padded
/// with zeros to ten digits, `.wal`.
pub open spec fn spec_segment_filename(seq: u64) -> Seq<u8> {
    name_prefix() + zero_pad(decimal_digits(seq as nat), 10) + name_suffix()
}

/// The decimal digits of `n` as ASCII bytes.
fn decimal_bytes(n: u64) -> (r: Vec<u8>)
    ensures
        r@ == decimal_digits(n as nat),
    decreases n,
{
    if n < 10 {
        let mut v: Vec<u8> = Vec::new();
        v.push((n + 48) as u8);
        v
    } else {
        let mut v = decimal_bytes(n / 10);
        v.push((n % 10 + 48) as u8);
        v
    }
}

/// The file name of segment `seq`: `segment-`, the sequence number in
/// decimal zero-padded to ten digits, `.wal`.
fn segment_filename(seq: u64) -> (r: String)
    ensures
        encode_utf8(r@) == spec_segment_filename(seq),
{
    let digits = decimal_bytes(seq);
    proof {
        lemma_decimal_digits(seq as nat);
    }
    let mut b: Vec<u8> = Vec::new();
    b.push(0x73);
    b.push(0x65);
    b.push(0x67);
    b.push(0x6D);
    b.push(0x65);
    b.push(0x6E);
    b.push(0x74);
    b.push(0x2D);
    assert(b@ =~= name_prefix());
    let mut pad: Vec<u8> = Vec::new();
    while pad.len() + digits.len() < 10
        invariant
            pad@.len() + digits@.len() <= 10 || pad@.len() == 0,
            forall|i: int| 0 <= i < pad@.len() ==> pad@[i] == 48u8,
            digits@ == decimal_digits(seq as nat),
        decreases 10 - pad@.len(),
    {
        pad.push(48);
    }
    assert(pad@ + digits@ =~= zero_pad(decimal_digits(seq as nat), 10));
    crate::encoding::append_bytes(&mut b, pad.as_slice());
    crate::encoding::append_bytes(&mut b, digits.as_slice());
    b.push(0x2E);
    b.push(0x77);
    b.push(0x61);
    b.push(0x6C);
    let ghost bytes = b@;
    proof {
        assert(bytes =~= spec_segment_filename(seq));
        assert forall|i: int| 0 <= i < bytes.len() implies #[trigger] bytes[i] < 128 by {
            let pl = pad@.len() as int;
            if 8 <= i < 8 + pl {
                assert(bytes[i] == pad@[i - 8]);
            } else if 8 + pl <= i < 8 + pl + digits@.len() {
                assert(bytes[i] == digits@[i - 8 - pl]);
            }
        }
        let chars = bytes.map_values(|x: u8| x as char);
        assert(is_ascii_chars(chars));
        is_ascii_chars_encode_utf8(chars);
        assert(encode_utf8(chars) =~= bytes);
        encode_utf8_valid_utf8(chars);
        decode_utf8_encode_utf8(bytes);
    }
    match crate::text::string_from_utf8(b) {
        Ok(s) => s,
        Err(_) => {
            assert(false);
            String::new()
        },
    }
}

/// Every byte is an ASCII digit.
pub open spec fn all_digits(s: Seq<u8>) -> bool {
    forall|i: int| 0 <= i < s.len() ==> 48 <= #[trigger] s[i] <= 57
}

/// The number a run of ASCII digits spells.
pub open spec fn digits_value(s: Seq<u8>) -> nat
    decreases s.len(),
{
    if s.len() == 0 {
        0
    } else {
        digits_value(s.drop_last()) * 10 + (s.last() - 48) as nat
    }
}

/// How `u64::from_str` reads a string: an optional `+`, then one or more
/// decimal digits whose value fits in 64 bits.
pub open spec fn spec_parse_u64(s: Seq<u8>) -> Option<u64> {
    let d = if s.len() > 0 && s[0] == 0x2B {
        s.drop_first()
    } else {
        s
    };
    if d.len() > 0 && all_digits(d) && digits_value(d) <= u64::MAX {
        Some(digits_value(d) as u64)
    } else {
        None
    }
}

/// The sequence number a segment file name carries: the name is `segment-`,
/// a number as `u64::from_str` reads it, and `.wal`.
pub open spec fn spec_parse_segment_seq(name: Seq<u8>) -> Option<u64> {
    if name.len() >= 12 && name.subrange(0, 8) == name_prefix() && name.subrange(name.len() - 4, name.len() as int)
        == name_suffix() {
        spec_parse_u64(name.subrange(8, name.len() - 4))
    } else {
        None
    }
}

fn parse_u64_digits(s: &[u8], start: usize, end: usize) -> (r: Option<u64>)
    requires
        start <= end <= s@.len(),
    ensures
        r == spec_parse_u64(s@.subrange(start as int, end as int)),
{
    let ghost full = s@.subrange(start as int, end as int);
    let mut i = start;
    if i < end && s[i] == 0x2B {
        i = i + 1;
    }
    let ghost d = s@.subrange(i as int, end as int);
    assert(d == (if full.len() > 0 && full[0] == 0x2B {
        full.drop_first()
    } else {
        full
    }));
    if i == end {
        return None;
    }
    let first = i;
    let mut acc: u64 = 0;
    while i < end
        invariant
            first <= i <= end <= s@.len(),
            d == s@.subrange(first as int, end as int),
            all_digits(s@.subrange(first as int, i as int)),
            acc == digits_value(s@.subrange(first as int, i as int)),
            d.len() > 0,
            full == s@.subrange(start as int, end as int),
            spec_parse_u64(full) == (if all_digits(d) && digits_value(d) <= u64::MAX {
                Some(digits_value(d) as u64)
            } else {
                None
            }),
        decreases end - i,
    {
        let c = s[i];
        let ghost pre = s@.subrange(first as int, i as int);
        let ghost next = s@.subrange(first as int, i + 1);
        assert(next.drop_last() == pre);
        assert(next.last() == c);
        if c < 48 || c > 57 {
            assert(!all_digits(d)) by {
                assert(d[i - first] == c);
                assert(!(48 <= d[(i - first) as int] <= 57));
            }
            return None;
        }
        let digit = (c - 48) as u64;
        if acc > (u64::MAX - digit) / 10 {
            assert(digits_value(next) > u64::MAX) by (nonlinear_arith)
                requires
                    digits_value(next) == acc * 10 + digit,
                    acc > (u64::MAX - digit) / 10,
                    digit <= 9,
            ;
            proof {
                if all_digits(d) {
                    assert(d.subrange(0, (i + 1 - first) as int) == next);
                    lemma_digits_value_grows(d, (i + 1 - first) as int);
                }
            }
            return None;
        }
        assert(acc * 10 + digit <= u64::MAX) by (nonlinear_arith)
            requires
                acc <= (u64::MAX - digit) / 10,
                digit <= 9,
        ;
        acc = acc * 10 + digit;
        i = i + 1;
    }
    Some(acc)
}

/// A longer run of digits spells at least as much as its front part.
proof fn lemma_digits_value_grows(d: Seq<u8>, n: int)
    requires
        0 <= n <= d.len(),
        all_digits(d),
    ensures
        digits_value(d.subrange(0, n)) <= digits_value(d),
    decreases d.len() - n,
{
    if n < d.len() {
        lemma_digits_value_grows(d, n + 1);
        assert(d.subrange(0, n + 1).drop_last() == d.subrange(0, n));
        assert(d.subrange(0, n + 1).last() == d[n]);
    } else {
        assert(d.subrange(0, n) == d);
    }
}

/// The sequence number in a segment file name, if it is one.
pub fn parse_segment_seq(filename: &str) -> (r: Option<u64>)
    ensures
        r == spec_parse_segment_seq(str_bytes(filename)),
{
    let b = filename.as_bytes();
    let n = b.len();
    if n < 12 {
        return None;
    }
    if !(b[0] == 0x73 && b[1] == 0x65 && b[2] == 0x67 && b[3] == 0x6D && b[4] == 0x65 && b[5] == 0x6E && b[6]
        == 0x74 && b[7] == 0x2D) {
        assert(b@.subrange(0, 8) != name_prefix()) by {
            if b@.subrange(0, 8) == name_prefix() {
                assert forall|j: int| 0 <= j < 8 implies b@[j] == name_prefix()[j] by {
                    assert(b@.subrange(0, 8)[j] == b@[j]);
                }
            }
        }
        return None;
    }
    assert(b@.subrange(0, 8) =~= name_prefix());
    if !(b[n - 4] == 0x2E && b[n - 3] == 0x77 && b[n - 2] == 0x61 && b[n - 1] == 0x6C) {
        assert(b@.subrange(n - 4, n as int) != name_suffix()) by {
            if b@.subrange(n - 4, n as int) == name_suffix() {
                assert forall|j: int| 0 <= j < 4 implies b@[n - 4 + j] == name_suffix()[j] by {
                    assert(b@.subrange(n - 4, n as int)[j] == b@[n - 4 + j]);
                }
            }
        }
        return None;
    }
    assert(b@.subrange(n - 4, n as int) =~= name_suffix());
    parse_u64_digits(b, 8, n - 4)
}

proof fn lemma_decimal_digits(n: nat)
    ensures
        decimal_digits(n).len() > 0,
        all_digits(decimal_digits(n)),
        digits_value(decimal_digits(n)) == n,
    decreases n,
{
    if n >= 10 {
        lemma_decimal_digits(n / 10);
        let d = decimal_digits(n);
        assert(d.drop_last() == decimal_digits(n / 10));
        assert(d.last() == (n % 10 + 48) as u8);
        assert((d.last() - 48) as nat == n % 10);
        assert((n / 10) * 10 + n % 10 == n);
        assert(digits_value(d) == digits_value(d.drop_last()) * 10 + (d.last() - 48) as nat);
    } else {
        let d = decimal_digits(n);
        assert(d.drop_last() == Seq::<u8>::empty());
        assert(digits_value(d) == digits_value(d.drop_last()) * 10 + (d.last() - 48) as nat);
        assert forall|i: int| 0 <= i < d.len() implies 48 <= #[trigger] d[i] <= 57 by {
            if i < d.len() - 1 {
                assert(d[i] == decimal_digits(n / 10)[i]);
            }
        }
    }
}

proof fn lemma_zero_pad_value(d: Seq<u8>, w: nat)
    requires
        all_digits(d),
    ensures
        all_digits(zero_pad(d, w)),
        digits_value(zero_pad(d, w)) == digits_value(d),
{
    if d.len() < w {
        let z = Seq::new((w - d.len()) as nat, |i: int| 48u8);
        lemma_zeros_then(z, d);
    }
}

/// Leading zeros add nothing to the value of a run of digits.
proof fn lemma_zeros_then(z: Seq<u8>, d: Seq<u8>)
    requires
        forall|i: int| 0 <= i < z.len() ==> #[trigger] z[i] == 48u8,
        all_digits(d),
    ensures
        all_digits(z + d),
        digits_value(z + d) == digits_value(d),
    decreases d.len(),
{
    let s = z + d;
    assert forall|i: int| 0 <= i < s.len() implies 48 <= #[trigger] s[i] <= 57 by {
        if i < z.len() {
            assert(s[i] == z[i]);
        } else {
            assert(s[i] == d[i - z.len()]);
        }
    }
    if d.len() == 0 {
        assert(s == z);
        lemma_zeros_value(z);
    } else {
        assert forall|i: int| 0 <= i < d.drop_last().len() implies 48 <= #[trigger] d.drop_last()[i] <= 57 by {
            assert(d.drop_last()[i] == d[i]);
        }
        lemma_zeros_then(z, d.drop_last());
        assert(s.drop_last() == z + d.drop_last());
    }
}

proof fn lemma_zeros_value(z: Seq<u8>)
    requires
        forall|i: int| 0 <= i < z.len() ==> #[trigger] z[i] == 48u8,
    ensures
        digits_value(z) == 0,
    decreases z.len(),
{
    if z.len() > 0 {
        assert forall|i: int| 0 <= i < z.drop_last().len() implies #[trigger] z.drop_last()[i] == 48u8 by {
            assert(z.drop_last()[i] == z[i]);
        }
        lemma_zeros_value(z.drop_last());
        assert(z.last() == z[z.len() - 1]);
    }
}

/// Segment names read back as the sequence numbers they were made from.
pub proof fn law_segment_filename_roundtrip(seq: u64)
    ensures
        spec_parse_segment_seq(spec_segment_filename(seq)) == Some(seq),
{
    let digits = zero_pad(decimal_digits(seq as nat), 10);
    lemma_decimal_digits(seq as nat);
    lemma_zero_pad_value(decimal_digits(seq as nat), 10);
    let name = spec_segment_filename(seq);
    let n = name.len();
    assert(name.subrange(0, 8) =~= name_prefix());
    assert(name.subrange(n - 4, n as int) =~= name_suffix());
    assert(name.subrange(8, n - 4) =~= digits);
    assert(digits[0] != 0x2B);
}

// ---------------------------------------------------------------------------
// Order of segments
// ---------------------------------------------------------------------------

/// The segments found among directory entry names, in listing order: each
/// name that parses, with its sequence number and its position.
pub open spec fn found_segments(names: Seq<Seq<u8>>) -> Seq<(u64, int)>
    decreases names.len(),
{
    if names.len() == 0 {
        Seq::empty()
    } else {
        let rest = found_segments(names.drop_last());
        match spec_parse_segment_seq(names.last()) {
            Some(seq) => rest.push((seq, names.len() - 1)),
            None => rest,
        }
    }
}

/// `a` comes before `b`: a lower sequence number, or the same one found
/// earlier in the listing.
pub open spec fn segment_before(a: (u64, int), b: (u64, int)) -> bool {
    a.0 < b.0 || (a.0 == b.0 && a.1 < b.1)
}

/// `r` holds the same segments as `found`, ordered by sequence number, ties
/// in listing order.
pub open spec fn ordered_segments(r: Seq<(u64, int)>, found: Seq<(u64, int)>) -> bool {
    &&& r.to_set() == found.to_set()
    &&& r.len() == found.len()
    &&& forall|i: int, j: int| 0 <= i < j < r.len() ==> segment_before(#[trigger] r[i], #[trigger] r[j])
}

/// Positions in a listing as integers.
pub open spec fn positions(v: Seq<(u64, usize)>) -> Seq<(u64, int)> {
    v.map_values(|p: (u64, usize)| (p.0, p.1 as int))
}

proof fn lemma_found_positions(names: Seq<Seq<u8>>)
    ensures
        forall|i: int| 0 <= i < found_segments(names).len() ==> 0 <= #[trigger] found_segments(names)[i].1 < names.len(),
        forall|i: int, j: int|
            0 <= i < j < found_segments(names).len() ==> #[trigger] found_segments(names)[i].1 < #[trigger] found_segments(
                names,
            )[j].1,
    decreases names.len(),
{
    if names.len() > 0 {
        let d = names.drop_last();
        lemma_found_positions(d);
        let rest = found_segments(d);
        let f = found_segments(names);
        if let Some(seq) = spec_parse_segment_seq(names.last()) {
            assert(f == rest.push((seq, names.len() - 1)));
            assert forall|i: int| 0 <= i < f.len() implies 0 <= #[trigger] f[i].1 < names.len() by {
                if i < rest.len() {
                    assert(f[i] == rest[i]);
                }
            }
            assert forall|i: int, j: int| 0 <= i < j < f.len() implies #[trigger] f[i].1 < #[trigger] f[j].1 by {
                assert(f[i] == rest[i]);
                if j < rest.len() {
                    assert(f[j] == rest[j]);
                }
            }
        }
    }
}

/// Insert `item` into the sorted `v`, after everything that comes before it.
fn insert_sorted(v: &mut Vec<(u64, usize)>, item: (u64, usize))
    requires
        forall|i: int, j: int|
            0 <= i < j < old(v)@.len() ==> segment_before(#[trigger] positions(old(v)@)[i], #[trigger] positions(old(v)@)[j]),
        forall|i: int| 0 <= i < old(v)@.len() ==> #[trigger] old(v)@[i].1 < item.1,
    ensures
        forall|i: int, j: int|
            0 <= i < j < final(v)@.len() ==> segment_before(#[trigger] positions(final(v)@)[i], #[trigger] positions(final(v)@)[j]),
        positions(final(v)@).to_set() == positions(old(v)@).to_set().insert((item.0, item.1 as int)),
        final(v)@.len() == old(v)@.len() + 1,
        forall|i: int| 0 <= i < final(v)@.len() ==> #[trigger] final(v)@[i].1 <= item.1,
{
    let ghost ov = v@;
    let n = v.len();
    let mut k: usize = n;
    while k > 0 && v[k - 1].0 > item.0
        invariant
            k <= n == ov.len(),
            v@ == ov,
            forall|i: int| k <= i < n ==> #[trigger] ov[i].0 > item.0,
        decreases k,
    {
        k = k - 1;
    }
    v.insert(k, item);
    proof {
        let nv = v@;
        let p = positions(nv);
        let op = positions(ov);
        let it = (item.0, item.1 as int);
        assert(nv == ov.insert(k as int, item));
        assert forall|i: int, j: int| 0 <= i < j < nv.len() implies segment_before(#[trigger] p[i], #[trigger] p[j]) by {
            if j < k {
                assert(p[i] == op[i] && p[j] == op[j]);
            } else if i > k {
                assert(p[i] == op[i - 1] && p[j] == op[j - 1]);
            } else if i == k {
                assert(p[j] == op[j - 1]);
                assert(ov[j - 1].0 > item.0);
            } else if j == k {
                assert(p[i] == op[i]);
                if k > 0 {
                    assert(ov[k - 1].0 <= item.0);
                    if i < k - 1 {
                        assert(segment_before(op[i], op[k - 1]));
                    }
                }
                assert(ov[i].1 < item.1);
            } else {
                assert(p[i] == op[i] && p[j] == op[j - 1]);
                if j - 1 > i {
                    assert(segment_before(op[i], op[j - 1]));
                } else {
                    assert(false);
                }
            }
        }
        assert(p.to_set() =~= op.to_set().insert(it)) by {
            assert forall|x: (u64, int)| p.to_set().contains(x) implies op.to_set().insert(it).contains(x) by {
                let i = choose|i: int| 0 <= i < p.len() && p[i] == x;
                if i < k {
                    assert(op[i] == x);
                } else if i > k {
                    assert(op[i - 1] == x);
                }
            }
            assert forall|x: (u64, int)| op.to_set().insert(it).contains(x) implies p.to_set().contains(x) by {
                if x == it {
                    assert(p[k as int] == x);
                } else {
                    let i = choose|i: int| 0 <= i < op.len() && op[i] == x;
                    if i < k {
                        assert(p[i] == x);
                    } else {
                        assert(p[i + 1] == x);
                    }
                }
            }
        }
        assert forall|i: int| 0 <= i < nv.len() implies #[trigger] nv[i].1 <= item.1 by {
            if i < k {
                assert(nv[i] == ov[i]);
            } else if i > k {
                assert(nv[i] == ov[i - 1]);
            }
        }
    }
}

/// Order the segment files found in a directory listing by sequence number
/// (ties keep listing order): each comes with its sequence number and its
/// position in `names`. Names that are not segment names are skipped.
pub fn list_segments(names: &Vec<String>) -> (r: Vec<(u64, usize)>)
    ensures
        ordered_segments(positions(r@), found_segments(names@.map_values(|s: String| encode_utf8(s@)))),
{
    let ghost nb = names@.map_values(|s: String| encode_utf8(s@));
    let mut r: Vec<(u64, usize)> = Vec::new();
    let mut i: usize = 0;
    while i < names.len()
        invariant
            i <= names@.len(),
            nb == names@.map_values(|s: String| encode_utf8(s@)),
            forall|a: int, b: int| 0 <= a < b < r@.len() ==> segment_before(#[trigger] positions(r@)[a], #[trigger] positions(r@)[b]),
            positions(r@).to_set() == found_segments(nb.subrange(0, i as int)).to_set(),
            r@.len() == found_segments(nb.subrange(0, i as int)).len(),
            forall|a: int| 0 <= a < r@.len() ==> #[trigger] r@[a].1 < i,
        decreases names@.len() - i,
    {
        let ghost pre = nb.subrange(0, i as int);
        let ghost next = nb.subrange(0, i + 1);
        proof {
            assert(next.drop_last() == pre);
            assert(next.last() == nb[i as int]);
        }
        match parse_segment_seq(names[i].as_str()) {
            Some(seq) => {
                let ghost before = positions(r@).to_set();
                insert_sorted(&mut r, (seq, i));
                proof {
                    assert(found_segments(next) == found_segments(pre).push((seq, i as int)));
                    found_segments(pre).lemma_push_to_set_commute((seq, i as int));
                }
            },
            None => {
                assert(found_segments(next) == found_segments(pre));
            },
        }
        i = i + 1;
    }
    assert(nb.subrange(0, names@.len() as int) == nb);
    r
}

/// The sealed segments: all but the active one, in order.
pub fn sealed_segments(segments: &Vec<(u64, usize)>, current_seq: u64) -> (r: Vec<(u64, usize)>)
    ensures
        r@ == segments@.filter(|p: (u64, usize)| p.0 != current_seq),
{
    let mut r: Vec<(u64, usize)> = Vec::new();
    let mut i: usize = 0;
    while i < segments.len()
        invariant
            i <= segments@.len(),
            r@ == segments@.subrange(0, i as int).filter(|p: (u64, usize)| p.0 != current_seq),
        decreases segments@.len() - i,
    {
        proof {
            let s = segments@.subrange(0, i + 1);
            assert(s.drop_last() == segments@.subrange(0, i as int));
            reveal(Seq::filter);
        }
        if segments[i].0 != current_seq {
            r.push(segments[i]);
        }
        i = i + 1;
    }
    assert(segments@.subrange(0, segments@.len() as int) == segments@);
    r
}

// ---------------------------------------------------------------------------
// The writer's position
// ---------------------------------------------------------------------------

/// The writer's position in the log: the active segment and how many bytes
/// it holds, with the limit that seals it and how writes are synced.
#[derive(Debug, Clone)]
pub struct SegmentCursor {
    pub current_seq: u64,
    pub current_size: u64,
    pub segment_size_bytes: u64,
    pub sync_mode: SyncMode,
}

/// How the writer starts.
#[derive(Debug)]
pub enum OpenPlan {
    /// Append to the last segment found.
    Reopen,
    /// No segment exists: create this first one and write its header.
    CreateFirst { file_name: String },
}

/// What the writer does after appending a record.
#[derive(Debug)]
pub struct AppendPlan {
    /// Sync the segment to disk now.
    pub fsync: bool,
    /// Seal the segment and start this next one.
    pub rotate_to: Option<String>,
}

impl SegmentCursor {
    /// Where a writer starts: on the last segment found (its sequence number
    /// and size), or on a new first segment holding only its header.
    pub fn open(last_segment: Option<(u64, u64)>, sync_mode: SyncMode, segment_size_bytes: u64) -> (r: (
        Self,
        OpenPlan,
    ))
        ensures
            r.0.sync_mode == sync_mode,
            r.0.segment_size_bytes == segment_size_bytes,
            match last_segment {
                Some((seq, size)) => r.0.current_seq == seq && r.0.current_size == size && r.1 is Reopen,
                None => r.0.current_seq == 1 && r.0.current_size == SEGMENT_HEADER_SIZE && (r.1 matches OpenPlan::CreateFirst {
                    file_name,
                } && encode_utf8(file_name@) == spec_segment_filename(1)),
            },
    {
        match last_segment {
            Some((seq, size)) => (
                SegmentCursor { current_seq: seq, current_size: size, segment_size_bytes, sync_mode },
                OpenPlan::Reopen,
            ),
            None => (
                SegmentCursor { current_seq: 1, current_size: SEGMENT_HEADER_SIZE, segment_size_bytes, sync_mode },
                OpenPlan::CreateFirst { file_name: segment_filename(1) },
            ),
        }
    }

    /// Account for a record of `record_len` bytes appended to the active
    /// segment: sync after every batch when so configured, and seal the
    /// segment once it holds at least the configured size.
    pub fn record_appended(&mut self, record_len: u64) -> (r: AppendPlan)
        requires
            old(self).current_size + record_len <= u64::MAX,
            old(self).current_seq < u64::MAX,
        ensures
            final(self).current_size == old(self).current_size + record_len,
            final(self).current_seq == old(self).current_seq,
            final(self).segment_size_bytes == old(self).segment_size_bytes,
            final(self).sync_mode == old(self).sync_mode,
            r.fsync == (old(self).sync_mode == SyncMode::EveryBatch),
            final(self).current_size >= old(self).segment_size_bytes ==> (r.rotate_to matches Some(name)
                && encode_utf8(name@) == spec_segment_filename((old(self).current_seq + 1) as u64)),
            final(self).current_size < old(self).segment_size_bytes ==> r.rotate_to is None,
    {
        self.current_size = self.current_size + record_len;
        let fsync = match self.sync_mode {
            SyncMode::EveryBatch => true,
            SyncMode::Interval(_) => false,
        };
        let rotate_to = if self.current_size >= self.segment_size_bytes {
            Some(segment_filename(self.current_seq + 1))
        } else {
            None
        };
        AppendPlan { fsync, rotate_to }
    }

    /// The next segment has been created with its header: it becomes the
    /// active one.
    pub fn rotated(&mut self)
        requires
            old(self).current_seq < u64::MAX,
        ensures
            final(self).current_seq == old(self).current_seq + 1,
            final(self).current_size == SEGMENT_HEADER_SIZE,
            final(self).segment_size_bytes == old(self).segment_size_bytes,
            final(self).sync_mode == old(self).sync_mode,
    {
        self.current_seq = self.current_seq + 1;
        self.current_size = SEGMENT_HEADER_SIZE;
    }

    /// Returns the current (active) segment sequence number.
    pub fn current_seq(&self) -> (r: u64)
        ensures
            r == self.current_seq,
    {
        self.current_seq
    }
}

} // verus!
