//! Bridging between byte sequences and strings.
//!
//! The wire format is bytes; header names and several record fields are
//! strings. These helpers relate the two: ASCII byte/char conversions,
//! UTF-8 decoding, and case folding of ASCII letters.

use vstd::prelude::*;
use vstd::utf8::{
    decode_utf8, encode_utf8, is_ascii_chars, is_ascii_chars_encode_utf8, valid_utf8,
};

verus! {

/// The chars that a sequence of ASCII bytes spells.
pub open spec fn chars_of_ascii(b: Seq<u8>) -> Seq<char> {
    Seq::new(b.len(), |i: int| b[i] as char)
}

/// The bytes that a sequence of ASCII chars occupies on the wire.
pub open spec fn ascii_bytes_of(s: Seq<char>) -> Seq<u8> {
    Seq::new(s.len(), |i: int| s[i] as u8)
}

/// Every byte is in the ASCII range.
pub open spec fn is_ascii_bytes(b: Seq<u8>) -> bool {
    forall|i: int| 0 <= i < b.len() ==> b[i] < 128
}

/// An ASCII byte sequence is valid UTF-8 and decodes to its own chars.
pub proof fn lemma_ascii_bytes_utf8(b: Seq<u8>)
    requires
        is_ascii_bytes(b),
    ensures
        valid_utf8(b),
        decode_utf8(b) == chars_of_ascii(b),
        is_ascii_chars(chars_of_ascii(b)),
        encode_utf8(chars_of_ascii(b)) == b,
{
    let cs = chars_of_ascii(b);
    assert forall|i: int| 0 <= i < cs.len() implies (cs[i] as nat) < 128 by {
        assert(b[i] < 128);
    }
    assert(is_ascii_chars(cs));
    is_ascii_chars_encode_utf8(cs);
    assert(encode_utf8(cs) =~= b);
    vstd::utf8::encode_utf8_valid_utf8(cs);
    vstd::utf8::encode_utf8_decode_utf8(cs);
}

/// Conversely, the bytes of an ASCII char sequence decode back to it.
pub proof fn lemma_ascii_chars_utf8(s: Seq<char>)
    requires
        is_ascii_chars(s),
    ensures
        encode_utf8(s) == ascii_bytes_of(s),
        is_ascii_bytes(ascii_bytes_of(s)),
        chars_of_ascii(ascii_bytes_of(s)) == s,
{
    is_ascii_chars_encode_utf8(s);
    assert forall|i: int| 0 <= i < s.len() implies (s[i] as nat) < 128 by {}
    assert(encode_utf8(s) =~= ascii_bytes_of(s));
    assert(chars_of_ascii(ascii_bytes_of(s)) =~= s);
}

/// Equality of two strings, by comparing their UTF-8 bytes.
pub fn str_eq(a: &str, b: &str) -> (r: bool)
    ensures
        r == (a@ == b@),
{
    proof {
        vstd::utf8::encode_utf8_decode_utf8(a@);
        vstd::utf8::encode_utf8_decode_utf8(b@);
    }
    bytes_eq(a.as_bytes(), b.as_bytes())
}

/// Relies on `core::str::from_utf8`: it accepts exactly the valid UTF-8
/// byte sequences, and decodes them.
#[verifier::external_body]
pub fn bytes_to_string(v: &[u8]) -> (r: Option<String>)
    ensures
        r matches Some(s) ==> valid_utf8(v@) && s@ == decode_utf8(v@),
        r is None ==> !valid_utf8(v@),
{
    core::str::from_utf8(v).ok().map(|s| s.to_owned())
}

/// Relies on `String::from_utf8_lossy`: valid UTF-8 decodes to its own
/// chars. What it returns for invalid bytes is not relied on.
#[verifier::external_body]
pub fn bytes_to_string_lossy(v: &[u8]) -> (r: String)
    ensures
        valid_utf8(v@) ==> r@ == decode_utf8(v@),
{
    String::from_utf8_lossy(v).into_owned()
}

/// Equality of two byte slices.
pub fn bytes_eq(a: &[u8], b: &[u8]) -> (r: bool)
    ensures
        r == (a@ == b@),
{
    if a.len() != b.len() {
        return false;
    }
    let n: usize = a.len();
    let mut i: usize = 0;
    while i < n
        invariant
            n == a@.len() == b@.len(),
            i <= n,
            forall|j: int| 0 <= j < i ==> a@[j] == b@[j],
        decreases n - i,
    {
        if *vstd::slice::slice_index_get(a, i) != *vstd::slice::slice_index_get(b, i) {
            return false;
        }
        i = i + 1;
    }
    proof {
        assert(a@ =~= b@);
    }
    true
}

/// Case folding of one ASCII letter.
pub open spec fn lower_char(c: char) -> char {
    if 'A' <= c && c <= 'Z' {
        ((c as u8) + 32) as char
    } else {
        c
    }
}

/// Case folding of every ASCII letter in a char sequence.
pub open spec fn lower_chars(s: Seq<char>) -> Seq<char> {
    Seq::new(s.len(), |i: int| lower_char(s[i]))
}

/// Case folding of one ASCII letter, at the byte level.
pub open spec fn lower_byte(b: u8) -> u8 {
    if 65 <= b && b <= 90 {
        (b + 32) as u8
    } else {
        b
    }
}

/// Case folding of every ASCII letter in a byte sequence.
pub open spec fn lower_bytes(b: Seq<u8>) -> Seq<u8> {
    Seq::new(b.len(), |i: int| lower_byte(b[i]))
}

/// Case folding commutes with reading ASCII bytes as chars.
pub proof fn lemma_lower_ascii(b: Seq<u8>)
    requires
        is_ascii_bytes(b),
    ensures
        is_ascii_bytes(lower_bytes(b)),
        chars_of_ascii(lower_bytes(b)) == lower_chars(chars_of_ascii(b)),
{
    assert(chars_of_ascii(lower_bytes(b)) =~= lower_chars(chars_of_ascii(b)));
}

/// Fold the ASCII letters of a byte vector to lower case.
pub fn ascii_lower(v: &[u8]) -> (r: Vec<u8>)
    ensures
        r@ == lower_bytes(v@),
{
    let mut r: Vec<u8> = Vec::new();
    let n: usize = v.len();
    let mut i: usize = 0;
    while i < n
        invariant
            n == v@.len(),
            i <= n,
            r@ == lower_bytes(v@.take(i as int)),
        decreases n - i,
    {
        let b: u8 = *vstd::slice::slice_index_get(v, i);
        if 65 <= b && b <= 90 {
            r.push(b + 32);
        } else {
            r.push(b);
        }
        i = i + 1;
        proof {
            assert(r@ =~= lower_bytes(v@.take(i as int)));
        }
    }
    proof {
        assert(v@.take(n as int) =~= v@);
    }
    r
}

/// What `str::to_lowercase` returns: Unicode case folding, a function
/// of the characters alone.
pub uninterp spec fn unicode_lower_of(s: Seq<char>) -> Seq<char>;

/// The canonical form of a name: its lower-case folding — ASCII by the
/// ASCII rule, anything beyond by Unicode case folding.
pub open spec fn canon_chars(s: Seq<char>) -> Seq<char> {
    if is_ascii_chars(s) {
        lower_chars(s)
    } else {
        unicode_lower_of(s)
    }
}

/// Canonicalize a name: fold it to lower case.
pub fn canon_string(s: &str) -> (r: String)
    ensures
        r@ == canon_chars(s@),
{
    if s.is_ascii() {
        proof {
            lemma_ascii_chars_utf8(s@);
        }
        let bytes = s.as_bytes();
        let lowered = ascii_lower(bytes);
        proof {
            lemma_lower_ascii(bytes@);
            assert(chars_of_ascii(bytes@) == s@);
            assert(chars_of_ascii(lower_bytes(bytes@)) == lower_chars(s@));
        }
        let r = ascii_to_string(lowered.as_slice());
        r
    } else {
        to_lowercase_string(s)
    }
}

/// Relies on `str::to_lowercase`: the result depends on the characters
/// alone, and ASCII characters fold as ASCII case folding does.
#[verifier::external_body]
fn to_lowercase_string(s: &str) -> (r: String)
    ensures
        r@ == unicode_lower_of(s@),
        is_ascii_chars(s@) ==> r@ == lower_chars(s@),
{
    s.to_lowercase()
}

/// Build a `String` from ASCII bytes.
pub fn ascii_to_string(v: &[u8]) -> (r: String)
    requires
        is_ascii_bytes(v@),
    ensures
        r@ == chars_of_ascii(v@),
{
    proof {
        lemma_ascii_bytes_utf8(v@);
    }
    let s = bytes_to_string(v);
    match s {
        Some(s) => s,
        None => {
            proof {
                assert(false);
            }
            String::new()
        },
    }
}

} // verus!
