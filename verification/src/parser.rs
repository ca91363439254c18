//! The grammar of a WARC header block.
//!
//! Pure functions over byte slices: a version line, `token: value` header
//! lines, and whole records. Input may be incomplete; every function tells
//! "need more input" apart from "malformed" so a streaming caller can read
//! more bytes and retry.

use vstd::prelude::*;

use crate::strings::chars_of_ascii;

verus! {

/// Why a parse did not produce a value.
#[derive(PartialEq, Eq, Structural, Clone, Copy, Debug)]
pub enum ParseStatus {
    /// The input ended before the construct was complete.
    Incomplete,
    /// The input cannot be part of the construct.
    Invalid,
}

/// The spec-level outcome of parsing one construct.
pub enum SpecParse<T> {
    /// The construct was recognized: its value, and the bytes consumed.
    Found { v: T, used: int },
    /// The input ended before the construct was complete.
    More,
    /// The input cannot be part of the construct.
    Bad,
}

/// The index of the first byte satisfying `p`, or the length if none does.
pub open spec fn first_where(s: Seq<u8>, p: spec_fn(u8) -> bool) -> int
    decreases s.len(),
{
    if s.len() == 0 {
        0
    } else if p(s[0]) {
        0
    } else {
        1 + first_where(s.drop_first(), p)
    }
}

/// What `first_where` finds.
pub proof fn lemma_first_where(s: Seq<u8>, p: spec_fn(u8) -> bool)
    ensures
        0 <= first_where(s, p) <= s.len(),
        first_where(s, p) < s.len() ==> p(s[first_where(s, p)]),
        forall|j: int| 0 <= j < first_where(s, p) ==> !p(s[j]),
    decreases s.len(),
{
    if s.len() != 0 && !p(s[0]) {
        lemma_first_where(s.drop_first(), p);
        let f = first_where(s.drop_first(), p);
        assert forall|j: int| 0 <= j < 1 + f implies !p(s[j]) by {
            if j > 0 {
                assert(s.drop_first()[j - 1] == s[j]);
            }
        }
        if 1 + f < s.len() {
            assert(s.drop_first()[f] == s[1 + f]);
        }
    }
}

/// Whether a byte ends a line.
pub open spec fn spec_is_eol(b: u8) -> bool {
    b == 13 || b == 10
}

/// Whether a byte may appear in a header token: not a control byte, not
/// beyond ASCII, and none of the delimiters `()<>@,;:\"/[]?={}`, space
/// or backslash.
pub open spec fn spec_token_byte(b: u8) -> bool {
    !(b <= 31 || b >= 128 || b == 40 || b == 41 || b == 60 || b == 62 || b == 64 || b == 44 || b
        == 59 || b == 58 || b == 34 || b == 47 || b == 91 || b == 93 || b == 63 || b == 61 || b
        == 123 || b == 125 || b == 32 || b == 92)
}

/// Whether a byte is linear whitespace: space or horizontal tab.
pub open spec fn spec_space_byte(b: u8) -> bool {
    b == 32 || b == 9
}

/// The line-ending predicate, as one value for use with `first_where`.
pub open spec fn eol_pred() -> spec_fn(u8) -> bool {
    |b: u8| spec_is_eol(b)
}

/// The not-a-token-byte predicate, as one value for use with `first_where`.
pub open spec fn not_token_pred() -> spec_fn(u8) -> bool {
    |b: u8| !spec_token_byte(b)
}

/// The not-whitespace predicate, as one value for use with `first_where`.
pub open spec fn not_space_pred() -> spec_fn(u8) -> bool {
    |b: u8| !spec_space_byte(b)
}

/// One line: its content up to the line ending, and the bytes consumed
/// including the ending. A line ends with CRLF or a bare LF; a CR not
/// followed by LF is malformed; input that ends before the line ending is
/// incomplete.
pub open spec fn spec_parse_line(s: Seq<u8>) -> SpecParse<Seq<u8>> {
    let i = first_where(s, eol_pred());
    if i == s.len() {
        SpecParse::More
    } else if s[i] == 10 {
        SpecParse::Found { v: s.take(i), used: i + 1 }
    } else if i + 1 == s.len() {
        SpecParse::More
    } else if s[i + 1] == 10 {
        SpecParse::Found { v: s.take(i), used: i + 2 }
    } else {
        SpecParse::Bad
    }
}

/// One line ending: CRLF or a bare LF.
pub open spec fn spec_parse_eol(s: Seq<u8>) -> SpecParse<()> {
    if s.len() == 0 {
        SpecParse::More
    } else if s[0] == 10 {
        SpecParse::Found { v: (), used: 1 }
    } else if s[0] == 13 {
        if s.len() == 1 {
            SpecParse::More
        } else if s[1] == 10 {
            SpecParse::Found { v: (), used: 2 }
        } else {
            SpecParse::Bad
        }
    } else {
        SpecParse::Bad
    }
}

/// The five bytes of the literal `WARC/`.
pub open spec fn spec_warc_tag() -> Seq<u8> {
    seq![87u8, 65u8, 82u8, 67u8, 47u8]
}

/// A version line: the literal `WARC/`, the version bytes, and a line
/// ending. The version bytes must be valid UTF-8.
pub open spec fn spec_parse_version(s: Seq<u8>) -> SpecParse<Seq<u8>> {
    if s.len() < 5 {
        if s == spec_warc_tag().take(s.len() as int) {
            SpecParse::More
        } else {
            SpecParse::Bad
        }
    } else if s.take(5) != spec_warc_tag() {
        SpecParse::Bad
    } else {
        match spec_parse_line(s.skip(5)) {
            SpecParse::Found { v, used } => {
                if vstd::utf8::valid_utf8(v) {
                    SpecParse::Found { v, used: used + 5 }
                } else {
                    SpecParse::Bad
                }
            },
            SpecParse::More => SpecParse::More,
            SpecParse::Bad => SpecParse::Bad,
        }
    }
}

/// One header line: a nonempty token, optional whitespace, a colon,
/// optional whitespace, the value (the rest of the line), and a line
/// ending. Input that ends while any of these could still grow is
/// incomplete.
pub open spec fn spec_parse_header(s: Seq<u8>) -> SpecParse<(Seq<u8>, Seq<u8>)> {
    let t = first_where(s, not_token_pred());
    if t == s.len() {
        SpecParse::More
    } else if t == 0 {
        SpecParse::Bad
    } else {
        let s1 = s.skip(t);
        let sp1 = first_where(s1, not_space_pred());
        if sp1 == s1.len() {
            SpecParse::More
        } else if s1[sp1] != 58 {
            SpecParse::Bad
        } else {
            let s2 = s1.skip(sp1 + 1);
            let sp2 = first_where(s2, not_space_pred());
            if sp2 == s2.len() {
                SpecParse::More
            } else {
                match spec_parse_line(s2.skip(sp2)) {
                    SpecParse::Found { v, used } => SpecParse::Found {
                        v: (s.take(t), v),
                        used: t + sp1 + 1 + sp2 + used,
                    },
                    SpecParse::More => SpecParse::More,
                    SpecParse::Bad => SpecParse::Bad,
                }
            }
        }
    }
}

/// Header lines, one after another, as many as parse. Stops before the
/// first line that is not a header; incomplete input anywhere makes the
/// whole sequence incomplete.
pub open spec fn spec_parse_header_seq(s: Seq<u8>) -> SpecParse<Seq<(Seq<u8>, Seq<u8>)>>
    decreases s.len(),
    via spec_parse_header_seq_dec
{
    match spec_parse_header(s) {
        SpecParse::More => SpecParse::More,
        SpecParse::Bad => SpecParse::Found { v: Seq::empty(), used: 0 },
        SpecParse::Found { v, used } => match spec_parse_header_seq(s.skip(used)) {
            SpecParse::More => SpecParse::More,
            SpecParse::Bad => SpecParse::Bad,
            SpecParse::Found { v: rest, used: used2 } => SpecParse::Found {
                v: seq![v] + rest,
                used: used + used2,
            },
        },
    }
}

#[via_fn]
proof fn spec_parse_header_seq_dec(s: Seq<u8>) {
    lemma_parse_header_used(s);
}

/// A recognized header line consumes at least one byte, and no more than
/// the input.
pub proof fn lemma_parse_header_used(s: Seq<u8>)
    ensures
        spec_parse_header(s) matches SpecParse::Found { v, used } ==> 1 <= used <= s.len(),
{
    lemma_first_where(s, not_token_pred());
    let t = first_where(s, not_token_pred());
    if 0 < t < s.len() {
        let s1 = s.skip(t);
        lemma_first_where(s1, not_space_pred());
        let sp1 = first_where(s1, not_space_pred());
        if sp1 < s1.len() && s1[sp1] == 58 {
            let s2 = s1.skip(sp1 + 1);
            lemma_first_where(s2, not_space_pred());
            let sp2 = first_where(s2, not_space_pred());
            if sp2 < s2.len() {
                let s3 = s2.skip(sp2);
                lemma_first_where(s3, eol_pred());
            }
        }
    }
}

/// The numeric value of a run of ASCII digits, most significant first.
pub open spec fn spec_digits_val(s: Seq<u8>) -> nat
    decreases s.len(),
{
    if s.len() == 0 {
        0
    } else {
        spec_digits_val(s.drop_last()) * 10 + (s.last() - 48) as nat
    }
}

/// Whether every byte is an ASCII digit.
pub open spec fn spec_all_digits(s: Seq<u8>) -> bool {
    forall|i: int| 0 <= i < s.len() ==> 48 <= #[trigger] s[i] <= 57
}

/// The integer that `str::parse::<u64>` reads from these bytes: an
/// optional leading `+`, then one or more digits, valued below 2^64.
pub open spec fn spec_parse_u64(b: Seq<u8>) -> Option<u64> {
    let ds = if b.len() > 0 && b[0] == 43 {
        b.drop_first()
    } else {
        b
    };
    if ds.len() == 0 || !spec_all_digits(ds) || spec_digits_val(ds) > u64::MAX {
        None
    } else {
        Some(spec_digits_val(ds) as u64)
    }
}

/// The value of the first header whose token, case-folded, is
/// `content-length`, if any.
pub open spec fn spec_first_cl(list: Seq<(Seq<u8>, Seq<u8>)>) -> Option<Seq<u8>>
    decreases list.len(),
{
    if list.len() == 0 {
        None
    } else if crate::strings::lower_bytes(list[0].0) == crate::strings::ascii_bytes_of(
        "content-length"@,
    ) {
        Some(list[0].1)
    } else {
        spec_first_cl(list.drop_first())
    }
}

/// A whole header block: a version line and at least one header line. The
/// declared content length is read from the first `content-length` header,
/// or zero where there is none; a `content-length` value that is not a
/// number makes the block malformed.
pub open spec fn spec_parse_headers(s: Seq<u8>) -> SpecParse<
    (Seq<u8>, Seq<(Seq<u8>, Seq<u8>)>, u64),
> {
    match spec_parse_version(s) {
        SpecParse::More => SpecParse::More,
        SpecParse::Bad => SpecParse::Bad,
        SpecParse::Found { v: ver, used: u1 } => match spec_parse_header_seq(s.skip(u1)) {
            SpecParse::More => SpecParse::More,
            SpecParse::Bad => SpecParse::Bad,
            SpecParse::Found { v: list, used: u2 } => {
                if list.len() == 0 {
                    SpecParse::Bad
                } else {
                    match spec_first_cl(list) {
                        None => SpecParse::Found { v: (ver, list, 0u64), used: u1 + u2 },
                        Some(vb) => match spec_parse_u64(vb) {
                            None => SpecParse::Bad,
                            Some(n) => SpecParse::Found { v: (ver, list, n), used: u1 + u2 },
                        },
                    }
                }
            },
        },
    }
}

/// A whole record: a header block, a blank line, exactly the declared
/// number of body bytes, and a two-line-ending trailer.
pub open spec fn spec_parse_record(s: Seq<u8>) -> SpecParse<
    (Seq<u8>, Seq<(Seq<u8>, Seq<u8>)>, Seq<u8>),
> {
    match spec_parse_headers(s) {
        SpecParse::More => SpecParse::More,
        SpecParse::Bad => SpecParse::Bad,
        SpecParse::Found { v: (ver, list, cl), used: u1 } => match spec_parse_eol(s.skip(u1)) {
            SpecParse::More => SpecParse::More,
            SpecParse::Bad => SpecParse::Bad,
            SpecParse::Found { v: _, used: u2 } => {
                let s2 = s.skip(u1 + u2);
                if s2.len() < cl {
                    SpecParse::More
                } else {
                    let body = s2.take(cl as int);
                    match spec_parse_eol(s2.skip(cl as int)) {
                        SpecParse::More => SpecParse::More,
                        SpecParse::Bad => SpecParse::Bad,
                        SpecParse::Found { v: _, used: u3 } => {
                            match spec_parse_eol(s2.skip(cl as int + u3)) {
                                SpecParse::More => SpecParse::More,
                                SpecParse::Bad => SpecParse::Bad,
                                SpecParse::Found { v: _, used: u4 } => SpecParse::Found {
                                    v: (ver, list, body),
                                    used: u1 + u2 + cl + u3 + u4,
                                },
                            }
                        },
                    }
                }
            },
        },
    }
}

/// Whether `chr` may appear in a header token.
pub fn is_header_token_char(chr: u8) -> (r: bool)
    ensures
        r == spec_token_byte(chr),
{
    match chr {
        0..=31 | 128..=255 | 40 | 41 | 60 | 62 | 64 | 44 | 59 | 58 | 34 | 47 | 91 | 93 | 63 | 61
            | 123 | 125 | 32 | 92 => false,
        _ => true,
    }
}

/// The index of the first line-ending byte, or the length if none.
fn scan_eol(s: &[u8]) -> (r: usize)
    ensures
        r == first_where(s@, eol_pred()),
        r <= s@.len(),
{
    let n: usize = s.len();
    let mut i: usize = 0;
    while i < n
        invariant
            n == s@.len(),
            i <= n,
            forall|j: int| 0 <= j < i ==> !eol_pred()(s@[j]),
        decreases n - i,
    {
        let b: u8 = *vstd::slice::slice_index_get(s, i);
        if b == 13 || b == 10 {
            proof {
                lemma_first_where(s@, eol_pred());
            }
            return i;
        }
        i = i + 1;
    }
    proof {
        lemma_first_where(s@, eol_pred());
    }
    i
}

/// The index of the first byte that cannot be part of a token, or the
/// length if every byte can.
fn scan_token(s: &[u8]) -> (r: usize)
    ensures
        r == first_where(s@, not_token_pred()),
        r <= s@.len(),
{
    let n: usize = s.len();
    let mut i: usize = 0;
    while i < n
        invariant
            n == s@.len(),
            i <= n,
            forall|j: int| 0 <= j < i ==> !not_token_pred()(s@[j]),
        decreases n - i,
    {
        let b: u8 = *vstd::slice::slice_index_get(s, i);
        if !is_header_token_char(b) {
            proof {
                lemma_first_where(s@, not_token_pred());
            }
            return i;
        }
        i = i + 1;
    }
    proof {
        lemma_first_where(s@, not_token_pred());
    }
    i
}

/// The index of the first byte that is not linear whitespace, or the
/// length if all of it is.
fn scan_space(s: &[u8]) -> (r: usize)
    ensures
        r == first_where(s@, not_space_pred()),
        r <= s@.len(),
{
    let n: usize = s.len();
    let mut i: usize = 0;
    while i < n
        invariant
            n == s@.len(),
            i <= n,
            forall|j: int| 0 <= j < i ==> !not_space_pred()(s@[j]),
        decreases n - i,
    {
        let b: u8 = *vstd::slice::slice_index_get(s, i);
        if !(b == 32 || b == 9) {
            proof {
                lemma_first_where(s@, not_space_pred());
            }
            return i;
        }
        i = i + 1;
    }
    proof {
        lemma_first_where(s@, not_space_pred());
    }
    i
}

/// Parse one line: its content, and the bytes consumed including the
/// line ending.
pub fn parse_line(s: &[u8]) -> (r: Result<(usize, Vec<u8>), ParseStatus>)
    ensures
        match r {
            Ok((used, v)) => spec_parse_line(s@) == (SpecParse::Found { v: v@, used: used as int })
                && used <= s@.len(),
            Err(st) => (st == ParseStatus::Incomplete <==> spec_parse_line(s@) is More) && (st
                == ParseStatus::Invalid <==> spec_parse_line(s@) is Bad),
        },
{
    let i = scan_eol(s);
    proof {
        lemma_first_where(s@, eol_pred());
    }
    if i == s.len() {
        Err(ParseStatus::Incomplete)
    } else if *vstd::slice::slice_index_get(s, i) == 10 {
        Ok((i + 1, vstd::slice::slice_to_vec(vstd::slice::slice_subrange(s, 0, i))))
    } else if i + 1 == s.len() {
        Err(ParseStatus::Incomplete)
    } else if *vstd::slice::slice_index_get(s, i + 1) == 10 {
        Ok((i + 2, vstd::slice::slice_to_vec(vstd::slice::slice_subrange(s, 0, i))))
    } else {
        Err(ParseStatus::Invalid)
    }
}

/// Parse one line ending: CRLF or a bare LF.
fn parse_eol(s: &[u8]) -> (r: Result<usize, ParseStatus>)
    ensures
        match r {
            Ok(used) => spec_parse_eol(s@) == (SpecParse::Found { v: (), used: used as int })
                && used <= s@.len(),
            Err(st) => (st == ParseStatus::Incomplete <==> spec_parse_eol(s@) is More) && (st
                == ParseStatus::Invalid <==> spec_parse_eol(s@) is Bad),
        },
{
    if s.len() == 0 {
        Err(ParseStatus::Incomplete)
    } else if *vstd::slice::slice_index_get(s, 0) == 10 {
        Ok(1)
    } else if *vstd::slice::slice_index_get(s, 0) == 13 {
        if s.len() == 1 {
            Err(ParseStatus::Incomplete)
        } else if *vstd::slice::slice_index_get(s, 1) == 10 {
            Ok(2)
        } else {
            Err(ParseStatus::Invalid)
        }
    } else {
        Err(ParseStatus::Invalid)
    }
}

/// Parse a version line: the bytes consumed, and the version text.
pub fn version(input: &[u8]) -> (r: Result<(usize, String), ParseStatus>)
    ensures
        match r {
            Ok((used, ver)) => spec_parse_version(input@) matches SpecParse::Found {
                v,
                used: u,
            } && used == u && ver@ == vstd::utf8::decode_utf8(v) && used <= input@.len(),
            Err(st) => (st == ParseStatus::Incomplete <==> spec_parse_version(input@) is More) && (
            st == ParseStatus::Invalid <==> spec_parse_version(input@) is Bad),
        },
{
    let n: usize = input.len();
    if n < 5 {
        let mut i: usize = 0;
        while i < n
            invariant
                n == input@.len(),
                n < 5,
                i <= n,
                input@.take(i as int) =~= spec_warc_tag().take(i as int),
            decreases n - i,
        {
            if *vstd::slice::slice_index_get(input, i) != warc_tag_byte(i) {
                proof {
                    assert(input@ != spec_warc_tag().take(n as int)) by {
                        assert(spec_warc_tag().take(n as int)[i as int] == spec_warc_tag()[
                            i as int
                        ]);
                    }
                }
                return Err(ParseStatus::Invalid);
            }
            i = i + 1;
            proof {
                assert(input@.take(i as int) =~= spec_warc_tag().take(i as int));
            }
        }
        proof {
            assert(input@.take(n as int) =~= input@);
        }
        return Err(ParseStatus::Incomplete);
    }
    let mut i: usize = 0;
    while i < 5
        invariant
            n == input@.len(),
            n >= 5,
            i <= 5,
            input@.take(i as int) =~= spec_warc_tag().take(i as int),
        decreases 5 - i,
    {
        if *vstd::slice::slice_index_get(input, i) != warc_tag_byte(i) {
            proof {
                assert(input@.take(5) != spec_warc_tag()) by {
                    assert(input@.take(5)[i as int] == input@[i as int]);
                }
            }
            return Err(ParseStatus::Invalid);
        }
        i = i + 1;
        proof {
            assert(input@.take(i as int) =~= spec_warc_tag().take(i as int));
        }
    }
    proof {
        assert(input@.take(5) =~= spec_warc_tag());
    }
    let rest = vstd::slice::slice_subrange(input, 5, n);
    proof {
        assert(rest@ == input@.skip(5));
    }
    match parse_line(rest) {
        Err(st) => Err(st),
        Ok((used, v)) => {
            match crate::strings::bytes_to_string(v.as_slice()) {
                None => Err(ParseStatus::Invalid),
                Some(ver) => Ok((5 + used, ver)),
            }
        },
    }
}

/// One byte of the literal `WARC/`.
fn warc_tag_byte(i: usize) -> (r: u8)
    requires
        i < 5,
    ensures
        r == spec_warc_tag()[i as int],
{
    if i == 0 {
        87
    } else if i == 1 {
        65
    } else if i == 2 {
        82
    } else if i == 3 {
        67
    } else {
        47
    }
}

/// Parse one header line: the bytes consumed, and the raw token and value.
pub fn header(input: &[u8]) -> (r: Result<(usize, (Vec<u8>, Vec<u8>)), ParseStatus>)
    ensures
        match r {
            Ok((used, tv)) => spec_parse_header(input@) == (SpecParse::Found {
                v: (tv.0@, tv.1@),
                used: used as int,
            }) && 1 <= used <= input@.len(),
            Err(st) => (st == ParseStatus::Incomplete <==> spec_parse_header(input@) is More) && (
            st == ParseStatus::Invalid <==> spec_parse_header(input@) is Bad),
        },
{
    let n: usize = input.len();
    let t = scan_token(input);
    if t == n {
        return Err(ParseStatus::Incomplete);
    }
    if t == 0 {
        return Err(ParseStatus::Invalid);
    }
    let s1 = vstd::slice::slice_subrange(input, t, n);
    proof {
        assert(s1@ == input@.skip(t as int));
    }
    let sp1 = scan_space(s1);
    if sp1 == s1.len() {
        return Err(ParseStatus::Incomplete);
    }
    if *vstd::slice::slice_index_get(s1, sp1) != 58 {
        return Err(ParseStatus::Invalid);
    }
    let s2 = vstd::slice::slice_subrange(s1, sp1 + 1, s1.len());
    proof {
        assert(s2@ == s1@.skip(sp1 as int + 1));
    }
    let sp2 = scan_space(s2);
    if sp2 == s2.len() {
        return Err(ParseStatus::Incomplete);
    }
    let s3 = vstd::slice::slice_subrange(s2, sp2, s2.len());
    proof {
        assert(s3@ == s2@.skip(sp2 as int));
    }
    match parse_line(s3) {
        Err(st) => Err(st),
        Ok((used, v)) => {
            let token = vstd::slice::slice_to_vec(vstd::slice::slice_subrange(input, 0, t));
            proof {
                assert(token@ == input@.take(t as int));
            }
            Ok((t + sp1 + 1 + sp2 + used, (token, v)))
        },
    }
}

/// Growing a digit run never shrinks its value.
proof fn lemma_digits_val_mono(s: Seq<u8>, k: int, m: int)
    requires
        0 <= k <= m <= s.len(),
    ensures
        spec_digits_val(s.take(k)) <= spec_digits_val(s.take(m)),
    decreases m - k,
{
    if k < m {
        lemma_digits_val_mono(s, k, m - 1);
        assert(s.take(m).drop_last() =~= s.take(m - 1));
        assert(spec_digits_val(s.take(m)) == spec_digits_val(s.take(m - 1)) * 10 + (s.take(m).last()
            - 48) as nat);
    }
}

/// Read an unsigned integer the way `str::parse::<u64>` does: an optional
/// leading `+`, then one or more digits; `None` on anything else or on
/// overflow.
pub fn parse_u64(b: &[u8]) -> (r: Option<u64>)
    ensures
        r == spec_parse_u64(b@),
{
    let n: usize = b.len();
    let start: usize = if n > 0 && *vstd::slice::slice_index_get(b, 0) == 43 {
        1
    } else {
        0
    };
    let ghost ds = if start == 1 {
        b@.drop_first()
    } else {
        b@
    };
    proof {
        assert forall|j: int| 0 <= j < ds.len() implies ds[j] == b@[j + start] by {}
    }
    if start == n {
        return None;
    }
    let mut acc: u64 = 0;
    let mut i: usize = start;
    while i < n
        invariant
            start <= i <= n,
            n == b@.len(),
            start == 1 ==> ds == b@.drop_first(),
            start == 0 ==> ds == b@,
            start <= 1,
            (start == 1) == (n > 0 && b@[0] == 43),
            ds.len() == n - start,
            forall|j: int| 0 <= j < ds.len() ==> ds[j] == b@[j + start],
            spec_all_digits(ds.take(i - start)),
            acc == spec_digits_val(ds.take(i - start)),
        decreases n - i,
    {
        let d: u8 = *vstd::slice::slice_index_get(b, i);
        if !(48 <= d && d <= 57) {
            proof {
                assert(ds[i - start] == d);
                assert(!spec_all_digits(ds));
            }
            return None;
        }
        let next = match acc.checked_mul(10) {
            Some(x) => x.checked_add((d - 48) as u64),
            None => None,
        };
        proof {
            assert(ds.take(i + 1 - start).drop_last() =~= ds.take(i - start));
            assert(ds.take(i + 1 - start).last() == d);
            assert(spec_digits_val(ds.take(i + 1 - start)) == acc * 10 + (d - 48) as nat);
            assert(spec_all_digits(ds.take(i + 1 - start)));
        }
        match next {
            None => {
                proof {
                    lemma_digits_val_mono(ds, i + 1 - start, ds.len() as int);
                    assert(ds.take(ds.len() as int) =~= ds);
                    assert(spec_digits_val(ds) > u64::MAX);
                }
                return None;
            },
            Some(x) => {
                acc = x;
            },
        }
        i = i + 1;
    }
    proof {
        assert(ds.take(ds.len() as int) =~= ds);
    }
    Some(acc)
}

/// A recognized header token is nonempty ASCII.
pub proof fn lemma_parse_header_token(s: Seq<u8>)
    ensures
        spec_parse_header(s) matches SpecParse::Found { v, used } ==> {
            &&& v.0.len() >= 1
            &&& crate::strings::is_ascii_bytes(v.0)
            &&& forall|j: int| 0 <= j < v.0.len() ==> spec_token_byte(#[trigger] v.0[j])
        },
{
    lemma_first_where(s, not_token_pred());
    let t = first_where(s, not_token_pred());
    if spec_parse_header(s) is Found {
        let v0 = s.take(t);
        assert forall|j: int| 0 <= j < v0.len() implies spec_token_byte(#[trigger] v0[j]) by {
            assert(!not_token_pred()(s[j]));
        }
        assert forall|j: int| 0 <= j < v0.len() implies v0[j] < 128 by {
            assert(spec_token_byte(v0[j]));
        }
    }
}

/// Where the first `content-length` header sits, seen from a scan.
proof fn lemma_first_cl_at(l: Seq<(Seq<u8>, Seq<u8>)>, i: int)
    requires
        0 <= i <= l.len(),
        forall|j: int|
            0 <= j < i ==> crate::strings::lower_bytes(#[trigger] l[j].0)
                != crate::strings::ascii_bytes_of("content-length"@),
    ensures
        i == l.len() ==> spec_first_cl(l) is None,
        i < l.len() && crate::strings::lower_bytes(l[i].0) == crate::strings::ascii_bytes_of(
            "content-length"@,
        ) ==> spec_first_cl(l) == Some(l[i].1),
    decreases i + 1,
{
    if l.len() > 0 && i > 0 {
        assert(crate::strings::lower_bytes(l[0].0) != crate::strings::ascii_bytes_of(
            "content-length"@,
        ));
        let ld = l.drop_first();
        assert forall|j: int|
            0 <= j < i - 1 implies crate::strings::lower_bytes(#[trigger] ld[j].0)
            != crate::strings::ascii_bytes_of("content-length"@) by {
            assert(ld[j] == l[j + 1]);
        }
        lemma_first_cl_at(ld, i - 1);
        if i - 1 < ld.len() {
            assert(ld[i - 1] == l[i]);
        }
    }
}

/// Reading ASCII bytes as chars is injective.
proof fn lemma_chars_of_ascii_inj(a: Seq<u8>, b: Seq<u8>)
    ensures
        (chars_of_ascii(a) == chars_of_ascii(b)) == (a == b),
{
    assert(chars_of_ascii(a).len() == a.len());
    assert(chars_of_ascii(b).len() == b.len());
    if chars_of_ascii(a) == chars_of_ascii(b) {
        assert forall|j: int| 0 <= j < a.len() implies a[j] == b[j] by {
            assert(chars_of_ascii(a)[j] == chars_of_ascii(b)[j]);
            assert(a[j] as char == b[j] as char);
        }
        assert(a =~= b);
    }
}

/// Parse a whole header block: the bytes consumed, the version text, the
/// header lines in order, and the declared content length (zero when no
/// `content-length` header is present).
pub fn headers(input: &[u8]) -> (r: Result<
    (usize, String, Vec<(String, Vec<u8>)>, u64),
    ParseStatus,
>)
    ensures
        match r {
            Ok((used, ver, list, cl)) => {
                &&& spec_parse_headers(input@) matches SpecParse::Found { v, used: su } && used
                    == su && ver@ == vstd::utf8::decode_utf8(v.0) && cl == v.2 && list@.len()
                    == v.1.len() && (forall|i: int|
                    0 <= i < v.1.len() ==> (#[trigger] list@[i]).0@ == chars_of_ascii(v.1[i].0)
                        && list@[i].1@ == v.1[i].1)
                &&& used <= input@.len()
            },
            Err(st) => (st == ParseStatus::Incomplete <==> spec_parse_headers(input@) is More) && (
            st == ParseStatus::Invalid <==> spec_parse_headers(input@) is Bad),
        },
{
    let n: usize = input.len();
    let (u1, ver) = match version(input) {
        Err(st) => {
            return Err(st);
        },
        Ok(p) => p,
    };
    let mut list: Vec<(String, Vec<u8>)> = Vec::new();
    let ghost mut slist: Seq<(Seq<u8>, Seq<u8>)> = Seq::empty();
    let mut off: usize = u1;
    loop
        invariant
            n == input@.len(),
            u1 <= off <= n,
            spec_parse_version(input@) matches SpecParse::Found { v: vver, used: vu } && vu == u1
                && ver@ == vstd::utf8::decode_utf8(vver),
            list@.len() == slist.len(),
            forall|i: int|
                0 <= i < slist.len() ==> (#[trigger] list@[i]).0@ == chars_of_ascii(slist[i].0)
                    && list@[i].1@ == slist[i].1,
            forall|i: int|
                0 <= i < slist.len() ==> crate::strings::is_ascii_bytes(#[trigger] slist[i].0),
            match spec_parse_header_seq(input@.skip(off as int)) {
                SpecParse::Found { v: rest, used: u2 } => spec_parse_header_seq(
                    input@.skip(u1 as int),
                ) == (SpecParse::Found { v: slist + rest, used: (off - u1) + u2 }),
                SpecParse::More => spec_parse_header_seq(input@.skip(u1 as int)) is More,
                SpecParse::Bad => spec_parse_header_seq(input@.skip(u1 as int)) is Bad,
            },
        ensures
            spec_parse_header_seq(input@.skip(u1 as int)) == (SpecParse::Found {
                v: slist,
                used: (off - u1) as int,
            }),
            u1 <= off <= n,
            list@.len() == slist.len(),
            forall|i: int|
                0 <= i < slist.len() ==> (#[trigger] list@[i]).0@ == chars_of_ascii(slist[i].0)
                    && list@[i].1@ == slist[i].1,
            forall|i: int|
                0 <= i < slist.len() ==> crate::strings::is_ascii_bytes(#[trigger] slist[i].0),
        decreases n - off,
    {
        let rem = vstd::slice::slice_subrange(input, off, n);
        proof {
            assert(rem@ == input@.skip(off as int));
        }
        match header(rem) {
            Err(ParseStatus::Incomplete) => {
                return Err(ParseStatus::Incomplete);
            },
            Err(ParseStatus::Invalid) => {
                break ;
            },
            Ok((u, tv)) => {
                let (tok, val) = tv;
                let ghost old_off = off as int;
                let ghost old_slist = slist;
                let ghost hv = (tok@, val@);
                proof {
                    lemma_parse_header_token(rem@);
                    assert(input@.skip(old_off).skip(u as int) =~= input@.skip(old_off + u));
                }
                let tok_s = crate::strings::ascii_to_string(tok.as_slice());
                list.push((tok_s, val));
                off = off + u;
                proof {
                    slist = slist + seq![hv];
                    let tail = input@.skip(off as int);
                    assert(spec_parse_header(input@.skip(old_off)) == (SpecParse::Found {
                        v: hv,
                        used: u as int,
                    }));
                    match spec_parse_header_seq(tail) {
                        SpecParse::Found { v: rest, used: u2 } => {
                            assert(spec_parse_header_seq(input@.skip(old_off))
                                == (SpecParse::Found { v: seq![hv] + rest, used: u + u2 }));
                            assert(old_slist + (seq![hv] + rest) =~= slist + rest);
                        },
                        SpecParse::More => {
                            assert(spec_parse_header_seq(input@.skip(old_off)) is More);
                        },
                        SpecParse::Bad => {
                            assert(spec_parse_header_seq(input@.skip(old_off)) is Bad);
                        },
                    }
                }
            },
        }
    }
    if list.len() == 0 {
        return Err(ParseStatus::Invalid);
    }
    let m: usize = list.len();
    let mut cl: u64 = 0;
    let mut k: usize = 0;
    loop
        invariant
            m == list@.len(),
            m == slist.len(),
            0 <= k <= m,
            forall|i: int|
                0 <= i < slist.len() ==> (#[trigger] list@[i]).0@ == chars_of_ascii(slist[i].0)
                    && list@[i].1@ == slist[i].1,
            forall|i: int|
                0 <= i < slist.len() ==> crate::strings::is_ascii_bytes(#[trigger] slist[i].0),
            forall|j: int|
                0 <= j < k ==> crate::strings::lower_bytes(#[trigger] slist[j].0)
                    != crate::strings::ascii_bytes_of("content-length"@),
        ensures
            m == slist.len(),
            match spec_first_cl(slist) {
                None => k == m,
                Some(vb) => k < m && slist[k as int].1 == vb && list@[k as int].1@ == vb,
            },
        decreases m - k,
    {
        if k == m {
            proof {
                lemma_first_cl_at(slist, m as int);
            }
            break ;
        }
        let pair = &list[k];
        let canon = crate::strings::canon_string(pair.0.as_str());
        if crate::strings::str_eq(canon.as_str(), "content-length") {
            proof {
                let tb = slist[k as int].0;
                reveal_strlit("content-length");
                lemma_ascii_lit_cl();
                lemma_parse_token_ascii_of(tb, pair.0@);
                crate::strings::lemma_ascii_chars_utf8("content-length"@);
                crate::strings::lemma_lower_ascii(tb);
                lemma_chars_of_ascii_inj(
                    crate::strings::lower_bytes(tb),
                    crate::strings::ascii_bytes_of("content-length"@),
                );
                lemma_first_cl_at(slist, k as int);
            }
            break ;
        }
        proof {
            let tb = slist[k as int].0;
            reveal_strlit("content-length");
            lemma_ascii_lit_cl();
            lemma_parse_token_ascii_of(tb, pair.0@);
            crate::strings::lemma_ascii_chars_utf8("content-length"@);
            crate::strings::lemma_lower_ascii(tb);
            lemma_chars_of_ascii_inj(
                crate::strings::lower_bytes(tb),
                crate::strings::ascii_bytes_of("content-length"@),
            );
        }
        k = k + 1;
    }
    if k < m {
        match parse_u64(list[k].1.as_slice()) {
            None => {
                return Err(ParseStatus::Invalid);
            },
            Some(v) => {
                cl = v;
            },
        }
    }
    Ok((off, ver, list, cl))
}

/// The header list a scan sees under a token read back from its string
/// form: canonicalizing the string matches folding the bytes.
proof fn lemma_parse_token_ascii_of(tb: Seq<u8>, tc: Seq<char>)
    requires
        tc == chars_of_ascii(tb),
        crate::strings::is_ascii_bytes(tb),
    ensures
        crate::strings::canon_chars(tc) == chars_of_ascii(crate::strings::lower_bytes(tb)),
{
    crate::strings::lemma_ascii_bytes_utf8(tb);
    crate::strings::lemma_lower_ascii(tb);
    assert(vstd::utf8::is_ascii_chars(tc));
}

/// Parse one whole record: the bytes consumed, the version text, the
/// header lines in order, and the body.
pub fn record(input: &[u8]) -> (r: Result<
    (usize, String, Vec<(String, Vec<u8>)>, Vec<u8>),
    ParseStatus,
>)
    ensures
        match r {
            Ok((used, ver, list, body)) => {
                &&& spec_parse_record(input@) matches SpecParse::Found { v, used: su } && used
                    == su && ver@ == vstd::utf8::decode_utf8(v.0) && body@ == v.2 && list@.len()
                    == v.1.len() && (forall|i: int|
                    0 <= i < v.1.len() ==> (#[trigger] list@[i]).0@ == chars_of_ascii(v.1[i].0)
                        && list@[i].1@ == v.1[i].1)
                &&& used <= input@.len()
            },
            Err(st) => (st == ParseStatus::Incomplete <==> spec_parse_record(input@) is More) && (st
                == ParseStatus::Invalid <==> spec_parse_record(input@) is Bad),
        },
{
    let n: usize = input.len();
    let (u1, ver, list, cl) = match headers(input) {
        Err(st) => {
            return Err(st);
        },
        Ok(p) => p,
    };
    let rem1 = vstd::slice::slice_subrange(input, u1, n);
    proof {
        assert(rem1@ == input@.skip(u1 as int));
    }
    let u2 = match parse_eol(rem1) {
        Err(st) => {
            return Err(st);
        },
        Ok(u) => u,
    };
    let avail: usize = n - u1 - u2;
    if (avail as u64) < cl {
        proof {
            assert(input@.skip(u1 + u2 as int).len() == avail as int);
        }
        return Err(ParseStatus::Incomplete);
    }
    let clu: usize = cl as usize;
    let ghost s2 = input@.skip(u1 + u2 as int);
    proof {
        assert(s2.len() == avail as int);
    }
    let body = vstd::slice::slice_to_vec(
        vstd::slice::slice_subrange(input, u1 + u2, u1 + u2 + clu),
    );
    proof {
        assert(body@ =~= s2.take(cl as int));
    }
    let rem3 = vstd::slice::slice_subrange(input, u1 + u2 + clu, n);
    proof {
        assert(rem3@ =~= s2.skip(cl as int));
    }
    let u3 = match parse_eol(rem3) {
        Err(st) => {
            return Err(st);
        },
        Ok(u) => u,
    };
    let rem4 = vstd::slice::slice_subrange(input, u1 + u2 + clu + u3, n);
    proof {
        assert(rem4@ =~= s2.skip(cl as int + u3));
    }
    let u4 = match parse_eol(rem4) {
        Err(st) => {
            return Err(st);
        },
        Ok(u) => u,
    };
    Ok((u1 + u2 + clu + u3 + u4, ver, list, body))
}

/// Every token of a recognized header block is nonempty ASCII.
pub proof fn lemma_parse_header_seq_tokens(s: Seq<u8>)
    ensures
        spec_parse_header_seq(s) matches SpecParse::Found { v, used } ==> forall|i: int|
            0 <= i < v.len() ==> crate::strings::is_ascii_bytes(#[trigger] v[i].0) && v[i].0.len()
                >= 1,
    decreases s.len(),
{
    lemma_parse_header_used(s);
    lemma_parse_header_token(s);
    if spec_parse_header_seq(s) is Found {
        match spec_parse_header(s) {
            SpecParse::Found { v: hv, used } => {
                lemma_parse_header_seq_tokens(s.skip(used));
                match spec_parse_header_seq(s.skip(used)) {
                    SpecParse::Found { v: rest, used: u2 } => {
                        let whole = seq![hv] + rest;
                        assert forall|i: int|
                            0 <= i < whole.len() implies crate::strings::is_ascii_bytes(
                            #[trigger] whole[i].0,
                        ) && whole[i].0.len() >= 1 by {
                            if i == 0 {
                                assert(whole[0] == hv);
                            } else {
                                assert(whole[i] == rest[i - 1]);
                            }
                        }
                    },
                    _ => {},
                }
            },
            _ => {},
        }
    }
}

/// Every token of a recognized whole block is nonempty ASCII.
pub proof fn lemma_parse_headers_tokens(s: Seq<u8>)
    ensures
        spec_parse_headers(s) matches SpecParse::Found { v, used } ==> forall|i: int|
            0 <= i < v.1.len() ==> crate::strings::is_ascii_bytes(#[trigger] v.1[i].0)
                && v.1[i].0.len() >= 1,
{
    if spec_parse_headers(s) is Found {
        match spec_parse_version(s) {
            SpecParse::Found { v: ver, used: u1 } => {
                lemma_parse_header_seq_tokens(s.skip(u1));
            },
            _ => {},
        }
    }
}

/// The literal `content-length` is ASCII.
pub proof fn lemma_ascii_lit_cl()
    ensures
        vstd::utf8::is_ascii_chars("content-length"@),
{
    reveal_strlit("content-length");
    assert(vstd::utf8::is_ascii_chars("content-length"@)) by {
        assert("content-length"@.len() == 14);
        assert(forall|i: int|
            0 <= i < 14 ==> ("content-length"@[i] as nat) < 128) by {
            reveal_strlit("content-length");
        }
    }
}

} // verus!
