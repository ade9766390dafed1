//! Conversions between byte strings and Rust strings.

use vstd::prelude::*;
use vstd::utf8::*;

verus! {

/// The UTF-8 bytes of a string slice.
pub open spec fn str_bytes(s: &str) -> Seq<u8> {
    encode_utf8(s@)
}

/// The display text of the error `String::from_utf8` gives for `bytes`.
pub uninterp spec fn utf8_error_text(bytes: Seq<u8>) -> Seq<char>;

/// Wraps `String::from_utf8`: the conversion succeeds exactly when the bytes
/// are valid UTF-8, and the string then holds the characters those bytes
/// encode. On failure the error's display text is handed back: it is a
/// function of the bytes, and what it says is left unsaid.
#[verifier::external_body]
pub(crate) fn string_from_utf8(bytes: Vec<u8>) -> (r: Result<String, String>)
    ensures
        r is Ok <==> valid_utf8(bytes@),
        r matches Ok(s) ==> s@ == decode_utf8(bytes@),
        r matches Err(e) ==> e@ == utf8_error_text(bytes@),
{
    String::from_utf8(bytes).map_err(|e| e.to_string())
}

/// Copies a byte range into a fresh vector.
pub fn copy_range(s: &[u8], start: usize, end: usize) -> (r: Vec<u8>)
    requires
        start <= end <= s@.len(),
    ensures
        r@ == s@.subrange(start as int, end as int),
{
    let mut r: Vec<u8> = Vec::new();
    let mut i: usize = start;
    while i < end
        invariant
            start <= i <= end <= s@.len(),
            r@ == s@.subrange(start as int, i as int),
        decreases end - i,
    {
        r.push(s[i]);
        i = i + 1;
        assert(s@.subrange(start as int, i as int) == s@.subrange(start as int, (i - 1) as int).push(
            s@[i - 1],
        ));
    }
    r
}

/// Copies a byte slice into a fresh vector.
pub fn bytes_to_vec(s: &[u8]) -> (r: Vec<u8>)
    ensures
        r@ == s@,
{
    let r = copy_range(s, 0, s.len());
    assert(s@.subrange(0, s@.len() as int) == s@);
    r
}

/// Decodes the UTF-8 string held in `s[start..end]`, if it is one; on
/// failure the decoder's error text comes back.
pub fn utf8_range(s: &[u8], start: usize, end: usize) -> (r: Result<String, String>)
    requires
        start <= end <= s@.len(),
    ensures
        r is Ok <==> valid_utf8(s@.subrange(start as int, end as int)),
        r matches Ok(t) ==> encode_utf8(t@) == s@.subrange(start as int, end as int)
            && t@ == decode_utf8(s@.subrange(start as int, end as int)),
        r matches Err(e) ==> e@ == utf8_error_text(s@.subrange(start as int, end as int)),
{
    let bytes = copy_range(s, start, end);
    let r = string_from_utf8(bytes);
    proof {
        if valid_utf8(s@.subrange(start as int, end as int)) {
            decode_utf8_encode_utf8(s@.subrange(start as int, end as int));
        }
    }
    r
}

/// The bytes of a string literal or slice as a vector.
pub fn str_to_vec(s: &str) -> (r: Vec<u8>)
    ensures
        r@ == str_bytes(s),
{
    let b = s.as_bytes();
    let mut r: Vec<u8> = Vec::new();
    crate::encoding::append_bytes(&mut r, b);
    r
}


/// The characters `String::from_utf8_lossy` makes of a byte string.
pub uninterp spec fn utf8_lossy(bytes: Seq<u8>) -> Seq<char>;

/// Wraps `String::from_utf8_lossy`: the result is a function of the bytes,
/// and valid UTF-8 comes through unchanged. How invalid sequences are
/// replaced is left unsaid.
#[verifier::external_body]
pub(crate) fn string_from_utf8_lossy(bytes: &[u8]) -> (r: String)
    ensures
        r@ == utf8_lossy(bytes@),
        valid_utf8(bytes@) ==> r@ == decode_utf8(bytes@),
{
    String::from_utf8_lossy(bytes).into_owned()
}

/// The key bytes that the lossy string conversion of `bytes` stands for.
pub open spec fn lossy_key(bytes: Seq<u8>) -> Seq<u8> {
    encode_utf8(utf8_lossy(bytes))
}

/// The UTF-8 bytes of the lossy string conversion of `bytes`.
pub fn lossy_key_bytes(bytes: &[u8]) -> (r: Vec<u8>)
    ensures
        r@ == lossy_key(bytes@),
        valid_utf8(bytes@) ==> r@ == bytes@,
{
    let s = string_from_utf8_lossy(bytes);
    proof {
        if valid_utf8(bytes@) {
            decode_utf8_encode_utf8(bytes@);
        }
    }
    str_to_vec(s.as_str())
}

} // verus!
