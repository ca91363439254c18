//! Laws that hold across the parser, the writer and the readers.

use vstd::prelude::*;

use crate::header_map::{map_has, map_idx, map_unique, map_val, HeaderEntries};
use crate::parser::{
    eol_pred, first_where, lemma_first_where, spec_parse_eol, spec_parse_header,
    spec_parse_header_seq, spec_parse_headers, spec_parse_line, spec_parse_record,
    spec_parse_u64, spec_parse_version, spec_token_byte, spec_warc_tag, SpecParse,
};
use crate::strings::{ascii_bytes_of, chars_of_ascii, lower_bytes};
use crate::warc_writer::{spec_encode_entries, spec_encode_entry, spec_encode_raw};

verus! {

/// Pin down `first_where`: it is the position of the known first match.
proof fn lemma_first_where_at(s: Seq<u8>, p: spec_fn(u8) -> bool, k: int)
    requires
        0 <= k < s.len(),
        p(s[k]),
        forall|j: int| 0 <= j < k ==> !p(s[j]),
    ensures
        first_where(s, p) == k,
{
    lemma_first_where(s, p);
    let f = first_where(s, p);
    if f < k {
        assert(!p(s[f]));
    }
}

/// Bytes that never end a line.
pub open spec fn line_safe(b: Seq<u8>) -> bool {
    forall|j: int| 0 <= j < b.len() ==> #[trigger] b[j] != 13 && b[j] != 10
}

/// A line parse on known content: the content, the CRLF, and whatever
/// follows.
proof fn lemma_parse_line_on(content: Seq<u8>, rest: Seq<u8>)
    requires
        line_safe(content),
    ensures
        spec_parse_line(content + seq![13u8, 10u8] + rest) == (SpecParse::Found {
            v: content,
            used: content.len() as int + 2,
        }),
{
    let s = content + seq![13u8, 10u8] + rest;
    assert forall|j: int| 0 <= j < content.len() implies !eol_pred()(s[j]) by {
        assert(s[j] == content[j]);
    }
    assert(s[content.len() as int] == 13);
    assert(eol_pred()(s[content.len() as int]));
    lemma_first_where_at(s, eol_pred(), content.len() as int);
    assert(s[content.len() as int + 1] == 10);
    assert(s.take(content.len() as int) =~= content);
}

/// Reading an unsigned integer back from its own decimal digits.
proof fn lemma_parse_u64_digits(n: u64)
    ensures
        spec_parse_u64(crate::spec_u64_digits(n as nat)) == Some(n),
{
    let ds = crate::spec_u64_digits(n as nat);
    lemma_digits_shape(n as nat);
    assert(ds[0] != 43);
    lemma_digits_val_roundtrip(n as nat);
    assert(spec_digits_ok(ds));
    assert(crate::parser::spec_all_digits(ds));
}

/// Digits are in the digit range and start with one.
pub open spec fn spec_digits_ok(ds: Seq<u8>) -> bool {
    ds.len() >= 1 && crate::parser::spec_all_digits(ds)
}

proof fn lemma_digits_shape(n: nat)
    ensures
        spec_digits_ok(crate::spec_u64_digits(n)),
    decreases n,
{
    if n >= 10 {
        lemma_digits_shape(n / 10);
        let s = crate::spec_u64_digits(n / 10);
        let w = crate::spec_u64_digits(n);
        assert forall|i: int| 0 <= i < w.len() implies 48 <= #[trigger] w[i] <= 57 by {
            if i < s.len() {
                assert(48 <= s[i] <= 57);
            }
        }
    }
}

proof fn lemma_digits_val_roundtrip(n: nat)
    ensures
        crate::parser::spec_digits_val(crate::spec_u64_digits(n)) == n,
    decreases n,
{
    let w = crate::spec_u64_digits(n);
    if n < 10 {
        assert(w =~= seq![(48 + n) as u8]);
        assert(w.last() == 48 + n);
        assert(w.drop_last() =~= Seq::<u8>::empty());
        assert(crate::parser::spec_digits_val(w.drop_last()) == 0);
    } else {
        lemma_digits_val_roundtrip(n / 10);
        assert(w.drop_last() =~= crate::spec_u64_digits(n / 10));
        assert(w.last() == (48 + n % 10) as u8);
    }
}

/// A name and value that a header line can carry and give back: the name
/// nonempty, canonical, and made of token chars; the value free of line
/// endings and not opening with whitespace.
pub open spec fn entry_ok(name: Seq<char>, value: Seq<u8>) -> bool {
    &&& name.len() >= 1
    &&& vstd::utf8::is_ascii_chars(name)
    &&& (forall|j: int|
        0 <= j < name.len() ==> spec_token_byte(#[trigger] ascii_bytes_of(name)[j]))
    &&& crate::strings::lower_chars(name) == name
    &&& line_safe(value)
    &&& value.len() > 0 ==> !crate::parser::spec_space_byte(value[0])
}

/// The raw token/value pairs that parsing gives back for a header map.
pub open spec fn spec_pairs(m: HeaderEntries) -> Seq<(Seq<u8>, Seq<u8>)> {
    Seq::new(m.len(), |i: int| (ascii_bytes_of(m[i].0), m[i].1))
}

/// A header-line parse on one encoded entry.
proof fn lemma_parse_header_on(name: Seq<char>, value: Seq<u8>, rest: Seq<u8>)
    requires
        entry_ok(name, value),
    ensures
        spec_parse_header(spec_encode_entry(name, value) + rest) == (SpecParse::Found {
            v: (ascii_bytes_of(name), value),
            used: spec_encode_entry(name, value).len() as int,
        }),
{
    crate::strings::lemma_ascii_chars_utf8(name);
    let nb = ascii_bytes_of(name);
    let s = spec_encode_entry(name, value) + rest;
    assert(s =~= nb + seq![58u8, 32u8] + value + seq![13u8, 10u8] + rest);
    assert forall|j: int|
        0 <= j < nb.len() implies !crate::parser::not_token_pred()(s[j]) by {
        assert(s[j] == nb[j]);
        assert(spec_token_byte(nb[j]));
    }
    assert(s[nb.len() as int] == 58);
    assert(crate::parser::not_token_pred()(s[nb.len() as int])) by {
        assert(!spec_token_byte(58u8));
    }
    lemma_first_where_at(s, crate::parser::not_token_pred(), nb.len() as int);
    let t = nb.len() as int;
    let s1 = s.skip(t);
    assert(s1 =~= seq![58u8, 32u8] + value + seq![13u8, 10u8] + rest);
    assert(s1[0] == 58);
    assert(crate::parser::not_space_pred()(s1[0]));
    lemma_first_where_at(s1, crate::parser::not_space_pred(), 0);
    let s2 = s1.skip(1);
    assert(s2 =~= seq![32u8] + value + seq![13u8, 10u8] + rest);
    assert(s2[0] == 32);
    assert(!crate::parser::not_space_pred()(s2[0]));
    if value.len() > 0 {
        assert(s2[1] == value[0]);
        assert(crate::parser::not_space_pred()(s2[1]));
    } else {
        assert(s2[1] == 13);
        assert(crate::parser::not_space_pred()(s2[1]));
    }
    lemma_first_where_at(s2, crate::parser::not_space_pred(), 1);
    let s3 = s2.skip(1);
    assert(s3 =~= value + seq![13u8, 10u8] + rest);
    lemma_parse_line_on(value, rest);
    assert(s.take(t) =~= nb);
}

/// A header-sequence parse on a run of encoded entries closed by a blank
/// line: all the entries, in order.
proof fn lemma_parse_entries_on(m: HeaderEntries, rest: Seq<u8>)
    requires
        forall|i: int| 0 <= i < m.len() ==> entry_ok((#[trigger] m[i]).0, m[i].1),
    ensures
        spec_parse_header_seq(spec_encode_entries(m) + seq![13u8, 10u8] + rest) == (
        SpecParse::Found { v: spec_pairs(m), used: spec_encode_entries(m).len() as int }),
    decreases m.len(),
{
    let s = spec_encode_entries(m) + seq![13u8, 10u8] + rest;
    if m.len() == 0 {
        assert(s =~= seq![13u8, 10u8] + rest);
        assert(s[0] == 13);
        assert(crate::parser::not_token_pred()(s[0])) by {
            assert(!spec_token_byte(13u8));
        }
        lemma_first_where_at(s, crate::parser::not_token_pred(), 0);
        assert(spec_parse_header(s) is Bad);
        assert(spec_pairs(m) =~= Seq::<(Seq<u8>, Seq<u8>)>::empty());
    } else {
        let e0 = spec_encode_entry(m[0].0, m[0].1);
        let md = m.drop_first();
        let tail = spec_encode_entries(md) + seq![13u8, 10u8] + rest;
        assert(s =~= e0 + tail);
        lemma_parse_header_on(m[0].0, m[0].1, tail);
        assert(spec_parse_header(s) == (SpecParse::Found {
            v: (ascii_bytes_of(m[0].0), m[0].1),
            used: e0.len() as int,
        }));
        lemma_parse_entries_on(md, rest);
        assert(s.skip(e0.len() as int) =~= tail);
        assert(seq![(ascii_bytes_of(m[0].0), m[0].1)] + spec_pairs(md) =~= spec_pairs(m));
    }
}

/// Canonical ASCII names give their own bytes back through case folding,
/// and two such names share bytes only if they are the same name.
proof fn lemma_canon_name_bytes(name: Seq<char>)
    requires
        vstd::utf8::is_ascii_chars(name),
        crate::strings::lower_chars(name) == name,
    ensures
        lower_bytes(ascii_bytes_of(name)) == ascii_bytes_of(name),
        chars_of_ascii(ascii_bytes_of(name)) == name,
{
    crate::strings::lemma_ascii_chars_utf8(name);
    crate::strings::lemma_lower_ascii(ascii_bytes_of(name));
    assert(chars_of_ascii(lower_bytes(ascii_bytes_of(name))) == crate::strings::lower_chars(
        chars_of_ascii(ascii_bytes_of(name)),
    ));
    assert(lower_bytes(ascii_bytes_of(name)) =~= ascii_bytes_of(
        chars_of_ascii(lower_bytes(ascii_bytes_of(name))),
    ));
    assert(ascii_bytes_of(crate::strings::lower_chars(name)) =~= ascii_bytes_of(name));
}

/// The first `content-length` header among the encoded pairs is the one
/// the map holds.
proof fn lemma_first_cl_map(m: HeaderEntries)
    requires
        forall|i: int| 0 <= i < m.len() ==> entry_ok((#[trigger] m[i]).0, m[i].1),
    ensures
        crate::parser::spec_first_cl(spec_pairs(m)) == if map_has(m, "content-length"@) {
            Some(map_val(m, "content-length"@))
        } else {
            Option::<Seq<u8>>::None
        },
    decreases m.len(),
{
    crate::parser::lemma_ascii_lit_cl();
    crate::header_map::lemma_map_idx(m, "content-length"@);
    let ps = spec_pairs(m);
    if m.len() == 0 {
    } else {
        lemma_canon_name_bytes(m[0].0);
        crate::strings::lemma_ascii_chars_utf8("content-length"@);
        if lower_bytes(ps[0].0) == ascii_bytes_of("content-length"@) {
            assert(ascii_bytes_of(m[0].0) == ascii_bytes_of("content-length"@));
            assert(m[0].0 == "content-length"@) by {
                assert(chars_of_ascii(ascii_bytes_of("content-length"@)) == "content-length"@);
            }
            assert(map_idx(m, "content-length"@) == 0);
        } else {
            assert(m[0].0 != "content-length"@) by {
                if m[0].0 == "content-length"@ {
                    assert(lower_bytes(ps[0].0) == ascii_bytes_of("content-length"@));
                }
            }
            let md = m.drop_first();
            assert forall|i: int|
                0 <= i < md.len() implies entry_ok((#[trigger] md[i]).0, md[i].1) by {
                assert(md[i] == m[i + 1]);
            }
            lemma_first_cl_map(md);
            assert(ps.drop_first() =~= spec_pairs(md));
            crate::header_map::lemma_map_idx(md, "content-length"@);
            if map_has(md, "content-length"@) {
                let j = map_idx(md, "content-length"@);
                assert(m[j + 1] == md[j]);
                assert(map_has(m, "content-length"@));
                assert(map_val(m, "content-length"@) == map_val(md, "content-length"@)) by {
                    assert(map_idx(m, "content-length"@) == map_idx(md, "content-length"@) + 1);
                }
            } else {
                if map_has(m, "content-length"@) {
                    let j = map_idx(m, "content-length"@);
                    assert(j > 0);
                    assert(md[j - 1] == m[j]);
                }
            }
        }
    }
}

/// Collecting the encoded pairs of a unique, canonical map gives the map
/// back.
proof fn lemma_collect_pairs(m: HeaderEntries)
    requires
        map_unique(m),
        forall|i: int| 0 <= i < m.len() ==> entry_ok((#[trigger] m[i]).0, m[i].1),
    ensures
        crate::warc_reader::spec_collect(spec_pairs(m)) == m,
    decreases m.len(),
{
    let ps = spec_pairs(m);
    if m.len() == 0 {
        assert(ps =~= Seq::<(Seq<u8>, Seq<u8>)>::empty());
        assert(crate::warc_reader::spec_collect(ps) =~= m);
    } else {
        let md = m.drop_last();
        assert forall|i: int|
            0 <= i < md.len() implies entry_ok((#[trigger] md[i]).0, md[i].1) by {
            assert(md[i] == m[i]);
        }
        lemma_collect_pairs(md);
        assert(ps.drop_last() =~= spec_pairs(md));
        assert(ps.last() == (ascii_bytes_of(m.last().0), m.last().1));
        lemma_canon_name_bytes(m.last().0);
        assert(crate::warc_reader::spec_token_key(ps.last().0) == m.last().0);
        crate::header_map::lemma_map_idx(md, m.last().0);
        assert(!map_has(md, m.last().0)) by {
            if map_has(md, m.last().0) {
                let j = map_idx(md, m.last().0);
                assert(m[j].0 == m[m.len() - 1].0);
            }
        }
        assert(crate::header_map::map_insert(md, m.last().0, m.last().1) =~= m);
    }
}

/// A version-line parse on its own encoding.
proof fn lemma_parse_version_on(version: Seq<char>, rest: Seq<u8>)
    requires
        line_safe(vstd::utf8::encode_utf8(version)),
    ensures
        spec_parse_version(
            spec_warc_tag() + vstd::utf8::encode_utf8(version) + seq![13u8, 10u8] + rest,
        ) == (SpecParse::Found {
            v: vstd::utf8::encode_utf8(version),
            used: 7 + vstd::utf8::encode_utf8(version).len() as int,
        }),
{
    let vb = vstd::utf8::encode_utf8(version);
    let s = spec_warc_tag() + vb + seq![13u8, 10u8] + rest;
    assert(s.take(5) =~= spec_warc_tag());
    assert(s.skip(5) =~= vb + seq![13u8, 10u8] + rest);
    lemma_parse_line_on(vb, rest);
    vstd::utf8::encode_utf8_valid_utf8(version);
}

/// A whole-header-block parse on its own encoding.
proof fn lemma_parse_headers_on(version: Seq<char>, m: HeaderEntries, clv: u64, rest: Seq<u8>)
    requires
        line_safe(vstd::utf8::encode_utf8(version)),
        m.len() >= 1,
        forall|i: int| 0 <= i < m.len() ==> entry_ok((#[trigger] m[i]).0, m[i].1),
        map_has(m, "content-length"@),
        spec_parse_u64(map_val(m, "content-length"@)) == Some(clv),
    ensures
        spec_parse_headers(
            spec_warc_tag() + vstd::utf8::encode_utf8(version) + seq![13u8, 10u8]
                + spec_encode_entries(m) + seq![13u8, 10u8] + rest,
        ) == (SpecParse::Found {
            v: (vstd::utf8::encode_utf8(version), spec_pairs(m), clv),
            used: 7 + vstd::utf8::encode_utf8(version).len() + spec_encode_entries(m).len() as int,
        }),
{
    let vb = vstd::utf8::encode_utf8(version);
    let s = spec_warc_tag() + vb + seq![13u8, 10u8] + spec_encode_entries(m) + seq![13u8, 10u8]
        + rest;
    let tail = spec_encode_entries(m) + seq![13u8, 10u8] + rest;
    assert(s =~= (spec_warc_tag() + vb + seq![13u8, 10u8]) + tail);
    lemma_parse_version_on(version, tail);
    assert(spec_parse_version(s) == (SpecParse::Found { v: vb, used: 7 + vb.len() as int }));
    assert(s.skip(7 + vb.len() as int) =~= tail);
    lemma_parse_entries_on(m, rest);
    lemma_first_cl_map(m);
    assert(spec_pairs(m).len() >= 1);
}

/// A whole-record parse on its own encoding: the version, every header
/// line, and the body, consuming the encoding exactly.
proof fn lemma_parse_record_on(version: Seq<char>, m: HeaderEntries, body: Seq<u8>)
    requires
        line_safe(vstd::utf8::encode_utf8(version)),
        m.len() >= 1,
        forall|i: int| 0 <= i < m.len() ==> entry_ok((#[trigger] m[i]).0, m[i].1),
        map_has(m, "content-length"@),
        body.len() <= u64::MAX - 4,
        spec_parse_u64(map_val(m, "content-length"@)) == Some(body.len() as u64),
    ensures
        spec_parse_record(spec_encode_raw(version, m, body)) == (SpecParse::Found {
            v: (vstd::utf8::encode_utf8(version), spec_pairs(m), body),
            used: spec_encode_raw(version, m, body).len() as int,
        }),
{
    let vb = vstd::utf8::encode_utf8(version);
    let bytes = spec_encode_raw(version, m, body);
    let tail1 = body + seq![13u8, 10u8, 13u8, 10u8];
    assert(bytes =~= spec_warc_tag() + vb + seq![13u8, 10u8] + spec_encode_entries(m) + seq![
        13u8,
        10u8,
    ] + tail1);
    lemma_parse_headers_on(version, m, body.len() as u64, tail1);
    let u1 = 7 + vb.len() + spec_encode_entries(m).len() as int;
    assert(bytes.skip(u1) =~= seq![13u8, 10u8] + tail1);
    assert(spec_parse_eol(bytes.skip(u1)) == (SpecParse::Found { v: (), used: 2 })) by {
        assert(bytes.skip(u1)[0] == 13);
        assert(bytes.skip(u1)[1] == 10);
        assert(bytes.skip(u1).len() >= 2);
    }
    let s2 = bytes.skip(u1 + 2);
    assert(s2 =~= tail1);
    let cl = body.len() as int;
    assert(s2.take(cl) =~= body);
    assert(s2.skip(cl) =~= seq![13u8, 10u8, 13u8, 10u8]);
    assert(spec_parse_eol(s2.skip(cl)) == (SpecParse::Found { v: (), used: 2 }));
    assert(s2.skip(cl + 2) =~= seq![13u8, 10u8]);
    assert(spec_parse_eol(s2.skip(cl + 2)) == (SpecParse::Found { v: (), used: 2 }));
}

/// One read of a line whose only line feed ends it.
proof fn lemma_line_take_on(x: Seq<u8>, rest: Seq<u8>)
    requires
        forall|j: int| 0 <= j < x.len() ==> (#[trigger] x[j]) != 10,
    ensures
        crate::source::line_take(x + seq![10u8] + rest) == x + seq![10u8],
{
    let s = x + seq![10u8] + rest;
    assert forall|j: int| 0 <= j < x.len() implies !crate::source::lf_pred()(s[j]) by {
        assert(s[j] == x[j]);
    }
    assert(s[x.len() as int] == 10);
    assert(crate::source::lf_pred()(s[x.len() as int]));
    lemma_first_where_at(s, crate::source::lf_pred(), x.len() as int);
    assert(s.take(x.len() as int + 1) =~= x + seq![10u8]);
}

/// The header-block read on a run of encoded entries closed by a blank
/// line takes exactly those bytes.
proof fn lemma_block_take_entries(m: HeaderEntries, rest: Seq<u8>)
    requires
        forall|i: int| 0 <= i < m.len() ==> entry_ok((#[trigger] m[i]).0, m[i].1),
    ensures
        crate::warc_reader::header_block_take(
            spec_encode_entries(m) + seq![13u8, 10u8] + rest,
        ) == Some(spec_encode_entries(m) + seq![13u8, 10u8]),
    decreases m.len(),
{
    let s = spec_encode_entries(m) + seq![13u8, 10u8] + rest;
    if m.len() == 0 {
        assert(s =~= seq![13u8] + seq![10u8] + rest);
        lemma_line_take_on(seq![13u8], rest);
        assert(crate::source::line_take(s) =~= seq![13u8, 10u8]);
        assert(spec_encode_entries(m) + seq![13u8, 10u8] =~= seq![13u8, 10u8]);
    } else {
        lemma_canon_name_bytes(m[0].0);
        crate::strings::lemma_ascii_chars_utf8(m[0].0);
        let nb = ascii_bytes_of(m[0].0);
        let e0 = spec_encode_entry(m[0].0, m[0].1);
        let md = m.drop_first();
        let tail = spec_encode_entries(md) + seq![13u8, 10u8] + rest;
        assert(s =~= e0 + tail);
        let x = nb + seq![58u8, 32u8] + m[0].1 + seq![13u8];
        assert(e0 =~= x + seq![10u8]);
        assert(s =~= x + seq![10u8] + tail);
        assert forall|j: int| 0 <= j < x.len() implies (#[trigger] x[j]) != 10 by {
            if j < nb.len() {
                assert(x[j] == nb[j]);
                assert(spec_token_byte(nb[j]));
            } else if j >= nb.len() + 2 && j < nb.len() + 2 + m[0].1.len() {
                assert(x[j] == m[0].1[j - nb.len() - 2]);
            }
        }
        lemma_line_take_on(x, tail);
        assert(crate::source::line_take(s) == e0);
        assert(e0.len() >= 5);
        assert(e0 != seq![13u8, 10u8]);
        assert forall|i: int|
            0 <= i < md.len() implies entry_ok((#[trigger] md[i]).0, md[i].1) by {
            assert(md[i] == m[i + 1]);
        }
        lemma_block_take_entries(md, rest);
        assert(s.skip(e0.len() as int) =~= tail);
        assert(e0 + (spec_encode_entries(md) + seq![13u8, 10u8]) =~= spec_encode_entries(m)
            + seq![13u8, 10u8]);
    }
}

/// The header-block read on a whole encoded block takes exactly its
/// bytes, whatever follows.
proof fn lemma_block_take_on(version: Seq<char>, m: HeaderEntries, rest: Seq<u8>)
    requires
        line_safe(vstd::utf8::encode_utf8(version)),
        forall|i: int| 0 <= i < m.len() ==> entry_ok((#[trigger] m[i]).0, m[i].1),
    ensures
        crate::warc_reader::header_block_take(spec_block_of(version, m) + rest) == Some(
            spec_block_of(version, m),
        ),
{
    let vb = vstd::utf8::encode_utf8(version);
    let block = spec_block_of(version, m);
    let s = block + rest;
    let x = spec_warc_tag() + vb + seq![13u8];
    let tail = spec_encode_entries(m) + seq![13u8, 10u8] + rest;
    assert(s =~= x + seq![10u8] + tail);
    assert forall|j: int| 0 <= j < x.len() implies (#[trigger] x[j]) != 10 by {
        if 5 <= j < 5 + vb.len() {
            assert(x[j] == vb[j - 5]);
        }
    }
    lemma_line_take_on(x, tail);
    let l1 = x + seq![10u8];
    assert(crate::source::line_take(s) == l1);
    assert(l1.len() >= 7);
    assert(l1 != seq![13u8, 10u8]);
    lemma_block_take_entries(m, rest);
    assert(s.skip(l1.len() as int) =~= tail);
    assert(l1 + (spec_encode_entries(m) + seq![13u8, 10u8]) =~= block);
}

/// The encoded header block of a version line and header lines.
pub open spec fn spec_block_of(version: Seq<char>, m: HeaderEntries) -> Seq<u8> {
    spec_warc_tag() + vstd::utf8::encode_utf8(version) + seq![13u8, 10u8] + spec_encode_entries(m)
        + seq![13u8, 10u8]
}

/// Framing a body and its trailer on the wire always lands exactly.
proof fn lemma_frame_wire(u: Seq<u8>, rest: Seq<u8>)
    ensures
        crate::warc_reader::spec_body_frame(
            u + seq![13u8, 10u8, 13u8, 10u8] + rest,
            u.len() as int + 4,
        ) is Done,
    decreases u.len(),
{
    let s = u + seq![13u8, 10u8, 13u8, 10u8] + rest;
    lemma_first_where(u, crate::source::lf_pred());
    let k = first_where(u, crate::source::lf_pred());
    if k < u.len() {
        assert(crate::source::line_take(s) == u.take(k + 1)) by {
            assert(s.take(k + 1) =~= u.take(k + 1));
            assert forall|j: int| 0 <= j < k implies !crate::source::lf_pred()(s[j]) by {
                assert(s[j] == u[j]);
            }
            assert(s[k] == u[k]);
            lemma_first_where_at(s, crate::source::lf_pred(), k);
        }
        let l = u.take(k + 1);
        assert(l.len() >= 1);
        if l.len() == 2 && u.len() as int + 4 == 2 {
        } else {
            assert(l.len() <= u.len() < u.len() + 4);
            lemma_frame_wire(u.skip(k + 1), rest);
            assert(s.skip(k + 1) =~= u.skip(k + 1) + seq![13u8, 10u8, 13u8, 10u8] + rest);
        }
    } else {
        let x = u + seq![13u8];
        let tail = seq![13u8, 10u8] + rest;
        assert(s =~= x + seq![10u8] + tail);
        assert forall|j: int| 0 <= j < x.len() implies (#[trigger] x[j]) != 10 by {
            if j < u.len() {
                assert(x[j] == u[j]);
                assert(!crate::source::lf_pred()(u[j]));
            }
        }
        lemma_line_take_on(x, tail);
        let l = x + seq![10u8];
        assert(crate::source::line_take(s) == l);
        assert(l.len() == u.len() + 2);
        if u.len() == 0 {
            assert(l.len() == 2);
            assert(u.len() + 4 == 4);
            assert(l.len() <= u.len() + 4);
            lemma_frame_final(rest);
            assert(s.skip(2) =~= seq![13u8, 10u8] + rest);
        } else {
            assert(l.len() < u.len() + 4);
            lemma_frame_final(rest);
            assert(s.skip(l.len() as int) =~= seq![13u8, 10u8] + rest);
        }
    }
}

/// The final trailer line lands the frame exactly.
proof fn lemma_frame_final(rest: Seq<u8>)
    ensures
        crate::warc_reader::spec_body_frame(seq![13u8, 10u8] + rest, 2) is Done,
{
    let s = seq![13u8, 10u8] + rest;
    assert(s =~= seq![13u8] + seq![10u8] + rest);
    lemma_line_take_on(seq![13u8], rest);
    assert(crate::source::line_take(s) =~= seq![13u8, 10u8]);
    assert(crate::source::line_take(s).len() == 2);
}

/// Bytes a header value can carry on the wire: no line endings, and no
/// leading whitespace.
pub open spec fn value_ok(b: Seq<u8>) -> bool {
    line_safe(b) && (b.len() > 0 ==> !crate::parser::spec_space_byte(b[0]))
}

/// The five promoted names are sound header-line names.
proof fn lemma_promoted_names_ok()
    ensures
        promoted_name_ok("content-length"@),
        promoted_name_ok("warc-type"@),
        promoted_name_ok("warc-record-id"@),
        promoted_name_ok("warc-date"@),
        promoted_name_ok("warc-truncated"@),
{
    reveal_strlit("content-length");
    reveal_strlit("warc-type");
    reveal_strlit("warc-record-id");
    reveal_strlit("warc-date");
    reveal_strlit("warc-truncated");
    assert(promoted_name_ok("content-length"@)) by {
        lemma_lit_name_ok("content-length"@);
    }
    assert(promoted_name_ok("warc-type"@)) by {
        lemma_lit_name_ok("warc-type"@);
    }
    assert(promoted_name_ok("warc-record-id"@)) by {
        lemma_lit_name_ok("warc-record-id"@);
    }
    assert(promoted_name_ok("warc-date"@)) by {
        lemma_lit_name_ok("warc-date"@);
    }
    assert(promoted_name_ok("warc-truncated"@)) by {
        lemma_lit_name_ok("warc-truncated"@);
    }
}

/// The name side of `entry_ok`.
pub open spec fn promoted_name_ok(name: Seq<char>) -> bool {
    &&& name.len() >= 1
    &&& vstd::utf8::is_ascii_chars(name)
    &&& (forall|j: int|
        0 <= j < name.len() ==> spec_token_byte(#[trigger] ascii_bytes_of(name)[j]))
    &&& crate::strings::lower_chars(name) == name
}

/// A name of lower-case letters and hyphens is a sound header-line name.
proof fn lemma_lit_name_ok(name: Seq<char>)
    requires
        name.len() >= 1,
        forall|j: int|
            0 <= j < name.len() ==> ('a' <= #[trigger] name[j] <= 'z' || name[j] == '-'),
    ensures
        promoted_name_ok(name),
{
    assert forall|j: int| 0 <= j < name.len() implies (name[j] as nat) < 128 by {}
    assert(vstd::utf8::is_ascii_chars(name));
    assert forall|j: int|
        0 <= j < name.len() implies spec_token_byte(#[trigger] ascii_bytes_of(name)[j]) by {
        assert(ascii_bytes_of(name)[j] == name[j] as u8);
    }
    assert(crate::strings::lower_chars(name) =~= name);
}

/// A date's wire bytes are a sound header value.
proof fn lemma_date_value_ok(d: crate::date::WarcDate)
    ensures
        value_ok(crate::date::spec_date_bytes(d)),
{
    let b = crate::date::spec_date_bytes(d);
    assert(b.len() == 20);
    assert forall|j: int| 0 <= j < b.len() implies #[trigger] b[j] != 13 && b[j] != 10 && (j == 0
        ==> !crate::parser::spec_space_byte(b[j])) by {
        assert(b.len() == 20);
    }
}

/// Decimal digits are a sound header value.
proof fn lemma_digits_value_ok(n: nat)
    ensures
        value_ok(crate::spec_u64_digits(n)),
{
    lemma_digits_shape(n);
    let b = crate::spec_u64_digits(n);
    assert forall|j: int| 0 <= j < b.len() implies #[trigger] b[j] != 13 && b[j] != 10 by {
        assert(48 <= b[j] <= 57);
    }
    assert(48 <= b[0] <= 57);
}

/// What a buffered record needs of its parts to survive the wire: a
/// version without line endings, canonical token-char header names,
/// header and promoted-field values without line endings or leading
/// whitespace, and a body whose length the framing arithmetic can carry.
pub open spec fn record_wire_safe(rec: crate::record::Record<crate::record::BufferedBody>) -> bool {
    &&& line_safe(vstd::utf8::encode_utf8(rec.spec_version()))
    &&& (forall|i: int|
        0 <= i < rec.spec_headers()@.len() ==> entry_ok(
            (#[trigger] rec.spec_headers()@[i]).0,
            rec.spec_headers()@[i].1,
        ))
    &&& value_ok(vstd::utf8::encode_utf8(rec.spec_type()))
    &&& value_ok(vstd::utf8::encode_utf8(rec.spec_id()))
    &&& (rec.spec_truncated() matches Some(t) ==> value_ok(vstd::utf8::encode_utf8(t)))
    &&& rec.spec_body().0@.len() <= u64::MAX - 4
}

/// The shape of the raw entries a record writes: its own map with the
/// five promoted entries appended.
proof fn lemma_into_raw_shape(rec: crate::record::Record<crate::record::BufferedBody>)
    requires
        rec.wf(),
    ensures
        crate::record::spec_into_raw(rec) == rec.spec_headers()@ + promoted_entries(rec),
{
    let m0 = rec.spec_headers()@;
    let ents = promoted_entries(rec);
    crate::header_map::lemma_map_insert_props(
        m0,
        "content-length"@,
        crate::spec_u64_digits(rec.spec_body().0@.len()),
    );
    let m1 = crate::header_map::map_insert(
        m0,
        "content-length"@,
        crate::spec_u64_digits(rec.spec_body().0@.len()),
    );
    crate::record::lemma_promoted_distinct();
    crate::header_map::lemma_map_insert_props(
        m1,
        "warc-type"@,
        vstd::utf8::encode_utf8(rec.spec_type()),
    );
    let m2 = crate::header_map::map_insert(
        m1,
        "warc-type"@,
        vstd::utf8::encode_utf8(rec.spec_type()),
    );
    crate::header_map::lemma_map_insert_props(
        m2,
        "warc-record-id"@,
        vstd::utf8::encode_utf8(rec.spec_id()),
    );
    let m3 = crate::header_map::map_insert(
        m2,
        "warc-record-id"@,
        vstd::utf8::encode_utf8(rec.spec_id()),
    );
    crate::header_map::lemma_map_idx(m0, "content-length"@);
    crate::header_map::lemma_map_idx(m1, "warc-type"@);
    crate::header_map::lemma_map_idx(m2, "warc-record-id"@);
    match rec.spec_truncated() {
        Some(t) => {
            crate::header_map::lemma_map_insert_props(
                m3,
                "warc-truncated"@,
                vstd::utf8::encode_utf8(t),
            );
            let m4 = crate::header_map::map_insert(m3, "warc-truncated"@, vstd::utf8::encode_utf8(t));
            crate::header_map::lemma_map_idx(m3, "warc-truncated"@);
            crate::header_map::lemma_map_insert_props(
                m4,
                "warc-date"@,
                crate::date::spec_date_bytes(rec.spec_date()),
            );
            crate::header_map::lemma_map_idx(m4, "warc-date"@);
            assert(crate::record::spec_into_raw(rec) =~= m0 + ents);
        },
        None => {
            crate::header_map::lemma_map_insert_props(
                m3,
                "warc-date"@,
                crate::date::spec_date_bytes(rec.spec_date()),
            );
            crate::header_map::lemma_map_idx(m3, "warc-date"@);
            assert(crate::record::spec_into_raw(rec) =~= m0 + ents);
        },
    }
}

/// The five promoted entries a record writes back, in order.
pub open spec fn promoted_entries(
    rec: crate::record::Record<crate::record::BufferedBody>,
) -> HeaderEntries {
    let head = seq![
        ("content-length"@, crate::spec_u64_digits(rec.spec_body().0@.len())),
        ("warc-type"@, vstd::utf8::encode_utf8(rec.spec_type())),
        ("warc-record-id"@, vstd::utf8::encode_utf8(rec.spec_id())),
    ];
    let tail = seq![("warc-date"@, crate::date::spec_date_bytes(rec.spec_date()))];
    match rec.spec_truncated() {
        Some(t) => head + seq![("warc-truncated"@, vstd::utf8::encode_utf8(t))] + tail,
        None => head + tail,
    }
}

/// The raw entries a well-formed, wire-safe record writes are themselves
/// sound for the wire.
proof fn lemma_into_raw_entries_ok(rec: crate::record::Record<crate::record::BufferedBody>)
    requires
        rec.wf(),
        record_wire_safe(rec),
    ensures
        ({
            let m = crate::record::spec_into_raw(rec);
            &&& m.len() >= 1
            &&& map_unique(m)
            &&& (forall|i: int| 0 <= i < m.len() ==> entry_ok((#[trigger] m[i]).0, m[i].1))
            &&& map_has(m, "content-length"@)
            &&& spec_parse_u64(map_val(m, "content-length"@)) == Some(
                rec.spec_body().0@.len() as u64,
            )
        }),
{
    lemma_into_raw_shape(rec);
    lemma_promoted_names_ok();
    crate::record::lemma_promoted_distinct();
    let m0 = rec.spec_headers()@;
    let ents = promoted_entries(rec);
    let m = crate::record::spec_into_raw(rec);
    lemma_digits_value_ok(rec.spec_body().0@.len());
    lemma_date_value_ok(rec.spec_date());
    assert forall|i: int| 0 <= i < m.len() implies entry_ok((#[trigger] m[i]).0, m[i].1) by {
        if i < m0.len() {
            assert(m[i] == m0[i]);
        } else {
            assert(m[i] == ents[i - m0.len()]);
        }
    }
    crate::header_map::lemma_map_idx(m, "content-length"@);
    crate::header_map::lemma_map_idx(m0, "content-length"@);
    assert(m[m0.len() as int].0 == "content-length"@);
    assert(map_has(m, "content-length"@));
    assert(map_idx(m, "content-length"@) == m0.len()) by {
        let j = map_idx(m, "content-length"@);
        if j < m0.len() {
            assert(m[j] == m0[j]);
        }
    }
    assert(map_val(m, "content-length"@) == crate::spec_u64_digits(rec.spec_body().0@.len()));
    lemma_parse_u64_digits(rec.spec_body().0@.len() as u64);
    crate::header_map::lemma_map_idx(m0, "warc-type"@);
    crate::header_map::lemma_map_idx(m0, "warc-record-id"@);
    crate::header_map::lemma_map_idx(m0, "warc-date"@);
    crate::header_map::lemma_map_idx(m0, "warc-truncated"@);
    assert forall|k: int|
        0 <= k < ents.len() implies crate::record::promoted_name(#[trigger] ents[k].0) by {
        match rec.spec_truncated() {
            Some(t) => {
                assert(ents.len() == 5);
            },
            None => {
                assert(ents.len() == 4);
            },
        }
    }
    assert forall|k1: int, k2: int| 0 <= k1 < k2 < ents.len() implies ents[k1].0 != ents[k2].0 by {
        match rec.spec_truncated() {
            Some(t) => {
                assert(ents.len() == 5);
            },
            None => {
                assert(ents.len() == 4);
            },
        }
    }
    assert forall|a: int, b: int| 0 <= a < b < m.len() implies m[a].0 != m[b].0 by {
        if b < m0.len() {
            assert(m[a] == m0[a] && m[b] == m0[b]);
        } else if a >= m0.len() {
            assert(m[a] == ents[a - m0.len()] && m[b] == ents[b - m0.len()]);
        } else {
            assert(m[a] == m0[a] && m[b] == ents[b - m0.len()]);
            assert(crate::record::promoted_name(m[b].0));
            assert(m0[a].0 != "content-length"@);
            assert(m0[a].0 != "warc-type"@);
            assert(m0[a].0 != "warc-record-id"@);
            assert(m0[a].0 != "warc-date"@);
            assert(m0[a].0 != "warc-truncated"@);
        }
    }
}

/// Round trip: parsing what the writer emits for a well-formed,
/// wire-safe buffered record gives back exactly what was written — the
/// version bytes, the body, a header map equal to the record's own raw
/// map, and each promoted field as the bytes of its typed value.
///
/// A record whose header values carry line endings or leading
/// whitespace, or whose names are not canonical tokens, cannot be framed
/// back intact; those records are left out by `record_wire_safe`.
pub proof fn lemma_round_trip(rec: crate::record::Record<crate::record::BufferedBody>)
    requires
        rec.wf(),
        record_wire_safe(rec),
    ensures
        ({
            let bytes = crate::warc_writer::spec_encode_record(rec);
            let raw = crate::record::spec_into_raw(rec);
            let body = rec.spec_body().0@;
            &&& spec_parse_record(bytes) == (SpecParse::Found {
                v: (vstd::utf8::encode_utf8(rec.spec_version()), spec_pairs(raw), body),
                used: bytes.len() as int,
            })
            &&& crate::warc_reader::spec_next_record(bytes) == (
            crate::warc_reader::StepSpec::Rec {
                version: vstd::utf8::encode_utf8(rec.spec_version()),
                lines: spec_pairs(raw),
                cl: body.len() as u64,
                body,
                rest: bytes.skip(bytes.len() as int),
            })
            &&& crate::warc_reader::spec_collect(spec_pairs(raw)) == raw
            &&& crate::record::spec_promote_leftover(raw) == rec.spec_headers()@
            &&& map_val(raw, "content-length"@) == crate::spec_u64_digits(body.len())
            &&& map_val(raw, "warc-type"@) == vstd::utf8::encode_utf8(rec.spec_type())
            &&& map_val(raw, "warc-record-id"@) == vstd::utf8::encode_utf8(rec.spec_id())
            &&& map_val(raw, "warc-date"@) == crate::date::spec_date_bytes(rec.spec_date())
            &&& (match rec.spec_truncated() {
                Some(t) => map_has(raw, "warc-truncated"@) && map_val(raw, "warc-truncated"@)
                    == vstd::utf8::encode_utf8(t),
                None => !map_has(raw, "warc-truncated"@),
            })
        }),
{
    lemma_wire_step(rec, Seq::empty());
    let bytes = crate::warc_writer::spec_encode_record(rec);
    assert(bytes + Seq::<u8>::empty() =~= bytes);
    assert(bytes.skip(bytes.len() as int) =~= Seq::<u8>::empty());
    lemma_into_raw_entries_ok(rec);
    let raw = crate::record::spec_into_raw(rec);
    lemma_parse_record_on(rec.spec_version(), raw, rec.spec_body().0@);
    lemma_collect_pairs(raw);
    lemma_promoted_values(rec);
}

/// The promoted values read back from the written map.
proof fn lemma_promoted_values(rec: crate::record::Record<crate::record::BufferedBody>)
    requires
        rec.wf(),
    ensures
        ({
            let raw = crate::record::spec_into_raw(rec);
            &&& map_val(raw, "content-length"@) == crate::spec_u64_digits(rec.spec_body().0@.len())
            &&& map_val(raw, "warc-type"@) == vstd::utf8::encode_utf8(rec.spec_type())
            &&& map_val(raw, "warc-record-id"@) == vstd::utf8::encode_utf8(rec.spec_id())
            &&& map_val(raw, "warc-date"@) == crate::date::spec_date_bytes(rec.spec_date())
            &&& (match rec.spec_truncated() {
                Some(t) => map_has(raw, "warc-truncated"@) && map_val(raw, "warc-truncated"@)
                    == vstd::utf8::encode_utf8(t),
                None => !map_has(raw, "warc-truncated"@),
            })
            &&& crate::record::spec_promote_leftover(raw) == rec.spec_headers()@
        }),
{
    lemma_into_raw_shape(rec);
    crate::record::lemma_promoted_distinct();
    let m0 = rec.spec_headers()@;
    let ents = promoted_entries(rec);
    let raw = m0 + ents;
    crate::header_map::lemma_map_idx(m0, "content-length"@);
    crate::header_map::lemma_map_idx(m0, "warc-type"@);
    crate::header_map::lemma_map_idx(m0, "warc-record-id"@);
    crate::header_map::lemma_map_idx(m0, "warc-date"@);
    crate::header_map::lemma_map_idx(m0, "warc-truncated"@);
    match rec.spec_truncated() {
        Some(t) => {
            assert(ents.len() == 5);
            assert(ents[0] == ("content-length"@, crate::spec_u64_digits(
                rec.spec_body().0@.len(),
            )));
            assert(ents[1] == ("warc-type"@, vstd::utf8::encode_utf8(rec.spec_type())));
            assert(ents[2] == ("warc-record-id"@, vstd::utf8::encode_utf8(rec.spec_id())));
            assert(ents[3] == ("warc-truncated"@, vstd::utf8::encode_utf8(t)));
            assert(ents[4] == ("warc-date"@, crate::date::spec_date_bytes(rec.spec_date())));
        },
        None => {
            assert(ents.len() == 4);
            assert(ents[0] == ("content-length"@, crate::spec_u64_digits(
                rec.spec_body().0@.len(),
            )));
            assert(ents[1] == ("warc-type"@, vstd::utf8::encode_utf8(rec.spec_type())));
            assert(ents[2] == ("warc-record-id"@, vstd::utf8::encode_utf8(rec.spec_id())));
            assert(ents[3] == ("warc-date"@, crate::date::spec_date_bytes(rec.spec_date())));
        },
    }
    lemma_lookup_appended(m0, ents, 0);
    lemma_lookup_appended(m0, ents, 1);
    lemma_lookup_appended(m0, ents, 2);
    lemma_lookup_appended(m0, ents, 3);
    if ents.len() == 5 {
        lemma_lookup_appended(m0, ents, 4);
    }
    match rec.spec_truncated() {
        Some(t) => {
            assert(map_val(raw, "warc-truncated"@) == vstd::utf8::encode_utf8(t));
        },
        None => {
            crate::header_map::lemma_map_idx(raw, "warc-truncated"@);
            assert(!map_has(raw, "warc-truncated"@)) by {
                if map_has(raw, "warc-truncated"@) {
                    let j = map_idx(raw, "warc-truncated"@);
                    if j < m0.len() {
                        assert(m0[j].0 == raw[j].0);
                    } else {
                        assert(ents[j - m0.len()].0 == raw[j].0);
                    }
                }
            }
        },
    }
    let r1 = crate::header_map::map_remove(raw, "content-length"@);
    lemma_remove_appended(m0, ents, 0);
    assert(r1 == m0 + ents.remove(0));
    let e1 = ents.remove(0);
    assert(e1[0].0 == "warc-type"@);
    lemma_remove_appended(m0, e1, 0);
    let r2 = crate::header_map::map_remove(r1, "warc-type"@);
    assert(r2 == m0 + e1.remove(0));
    let e2 = e1.remove(0);
    assert(e2[0].0 == "warc-record-id"@);
    lemma_remove_appended(m0, e2, 0);
    let r3 = crate::header_map::map_remove(r2, "warc-record-id"@);
    assert(r3 == m0 + e2.remove(0));
    let e3 = e2.remove(0);
    match rec.spec_truncated() {
        Some(t) => {
            assert(e3.len() == 2);
            assert(e3[0].0 == "warc-truncated"@);
            assert(e3[1].0 == "warc-date"@);
            lemma_remove_appended(m0, e3, 1);
            let r4 = crate::header_map::map_remove(r3, "warc-date"@);
            assert(r4 == m0 + e3.remove(1));
            let e4 = e3.remove(1);
            assert(e4 =~= seq![e3[0]]);
            lemma_remove_appended(m0, e4, 0);
            let r5 = crate::header_map::map_remove(r4, "warc-truncated"@);
            assert(r5 == m0 + e4.remove(0));
            assert(e4.remove(0) =~= Seq::<(Seq<char>, Seq<u8>)>::empty());
            assert(m0 + e4.remove(0) =~= m0);
        },
        None => {
            assert(e3.len() == 1);
            assert(e3[0].0 == "warc-date"@);
            lemma_remove_appended(m0, e3, 0);
            let r4 = crate::header_map::map_remove(r3, "warc-date"@);
            assert(r4 == m0 + e3.remove(0));
            assert(e3.remove(0) =~= Seq::<(Seq<char>, Seq<u8>)>::empty());
            assert(m0 + e3.remove(0) =~= m0);
            crate::header_map::lemma_map_idx(m0, "warc-truncated"@);
            assert(crate::header_map::map_remove(m0, "warc-truncated"@) == m0);
        },
    }
}

/// Looking up the name of an appended entry, when the front lacks it and
/// the earlier appended entries differ: the entry's own value.
proof fn lemma_lookup_appended(m0: HeaderEntries, ents: HeaderEntries, k: int)
    requires
        0 <= k < ents.len(),
        !map_has(m0, ents[k].0),
        forall|j: int| 0 <= j < k ==> (#[trigger] ents[j]).0 != ents[k].0,
    ensures
        map_has(m0 + ents, ents[k].0),
        map_idx(m0 + ents, ents[k].0) == m0.len() + k,
        map_val(m0 + ents, ents[k].0) == ents[k].1,
{
    let m = m0 + ents;
    let n = ents[k].0;
    crate::header_map::lemma_map_idx(m0, n);
    crate::header_map::lemma_map_idx(m, n);
    assert(m[m0.len() + k].0 == n);
    assert(map_has(m, n));
    let j = map_idx(m, n);
    if j < m0.len() {
        assert(m0[j].0 == m[j].0);
    }
    assert(j >= m0.len());
    if j < m0.len() + k {
        assert(ents[j - m0.len()].0 == m[j].0);
    }
    assert(j == m0.len() + k);
}

/// Removing the name of an appended entry removes exactly that entry.
proof fn lemma_remove_appended(m0: HeaderEntries, ents: HeaderEntries, k: int)
    requires
        0 <= k < ents.len(),
        !map_has(m0, ents[k].0),
        forall|j: int| 0 <= j < k ==> (#[trigger] ents[j]).0 != ents[k].0,
    ensures
        crate::header_map::map_remove(m0 + ents, ents[k].0) == m0 + ents.remove(k),
{
    lemma_lookup_appended(m0, ents, k);
    assert((m0 + ents).remove(m0.len() + k) =~= m0 + ents.remove(k));
}

/// One wire record at the front of a stream: the reader's step sees
/// exactly its parts and leaves exactly what follows.
proof fn lemma_wire_step(rec: crate::record::Record<crate::record::BufferedBody>, suffix: Seq<u8>)
    requires
        rec.wf(),
        record_wire_safe(rec),
    ensures
        ({
            let raw = crate::record::spec_into_raw(rec);
            let body = rec.spec_body().0@;
            crate::warc_reader::spec_next_record(
                crate::warc_writer::spec_encode_record(rec) + suffix,
            ) == (crate::warc_reader::StepSpec::Rec {
                version: vstd::utf8::encode_utf8(rec.spec_version()),
                lines: spec_pairs(raw),
                cl: body.len() as u64,
                body,
                rest: suffix,
            })
        }),
{
    lemma_into_raw_entries_ok(rec);
    let raw = crate::record::spec_into_raw(rec);
    let body = rec.spec_body().0@;
    let vb = vstd::utf8::encode_utf8(rec.spec_version());
    let block = spec_block_of(rec.spec_version(), raw);
    let s = crate::warc_writer::spec_encode_record(rec) + suffix;
    let tail = body + seq![13u8, 10u8, 13u8, 10u8] + suffix;
    assert(s =~= block + tail);
    lemma_block_take_on(rec.spec_version(), raw, tail);
    assert(block =~= spec_warc_tag() + vb + seq![13u8, 10u8] + spec_encode_entries(raw) + seq![
        13u8,
        10u8,
    ] + Seq::<u8>::empty());
    lemma_parse_headers_on(rec.spec_version(), raw, body.len() as u64, Seq::<u8>::empty());
    assert(s.skip(block.len() as int) =~= tail);
    lemma_frame_wire(body, suffix);
    assert(tail.subrange(body.len() as int, body.len() as int + 4) =~= seq![
        13u8,
        10u8,
        13u8,
        10u8,
    ]);
    assert(tail.take(body.len() as int) =~= body);
    assert(tail.skip(body.len() as int + 4) =~= suffix);
}

/// One stream of records, wire-encoded back to back.
pub open spec fn cat_records(
    recs: Seq<crate::record::Record<crate::record::BufferedBody>>,
) -> Seq<u8>
    decreases recs.len(),
{
    if recs.len() == 0 {
        Seq::empty()
    } else {
        crate::warc_writer::spec_encode_record(recs[0]) + cat_records(recs.drop_first())
    }
}

/// What a cursor-mode reader that never reads a body does with content
/// `s`: pay the skip it owes, read exactly the next header block, note
/// the new debt, and repeat — yielding exactly `blocks`, then a clean
/// end.
pub open spec fn cursor_yields(s: Seq<u8>, first: bool, pending: u64, blocks: Seq<Seq<u8>>) -> bool
    decreases blocks.len(),
{
    if blocks.len() == 0 {
        crate::warc_reader::spec_cursor_pre(s, first, pending) matches Some(s1) && s1.len() == 0
    } else {
        crate::warc_reader::spec_cursor_pre(s, first, pending) matches Some(s1) && (
        crate::warc_reader::header_block_take(s1) == Some(blocks[0]) && (spec_parse_headers(
            blocks[0],
        ) matches SpecParse::Found { v, used } && cursor_yields(
            s1.skip(blocks[0].len() as int),
            false,
            v.2,
            blocks.drop_first(),
        )))
    }
}

/// Paying the skip first is the same as starting fresh on what is left.
proof fn lemma_cursor_pre_step(s: Seq<u8>, first: bool, pending: u64, blocks: Seq<Seq<u8>>)
    requires
        crate::warc_reader::spec_cursor_pre(s, first, pending) matches Some(s1),
    ensures
        cursor_yields(s, first, pending, blocks) == cursor_yields(
            crate::warc_reader::spec_cursor_pre(s, first, pending)->Some_0,
            true,
            0,
            blocks,
        ),
{
    let s1 = crate::warc_reader::spec_cursor_pre(s, first, pending)->Some_0;
    assert(crate::warc_reader::spec_cursor_pre(s1, true, 0) == Some(s1));
}

/// Deferred skip: a stream of any number of wire-encoded records, read
/// in cursor mode without ever touching a body, still yields every
/// record's header block, in order, and then a clean end.
pub proof fn lemma_deferred_skip(recs: Seq<crate::record::Record<crate::record::BufferedBody>>)
    requires
        forall|i: int|
            0 <= i < recs.len() ==> (#[trigger] recs[i]).wf() && record_wire_safe(recs[i]),
    ensures
        cursor_yields(
            cat_records(recs),
            true,
            0,
            Seq::new(
                recs.len(),
                |i: int|
                    spec_block_of(recs[i].spec_version(), crate::record::spec_into_raw(recs[i])),
            ),
        ),
    decreases recs.len(),
{
    let s = cat_records(recs);
    let blocks = Seq::new(
        recs.len(),
        |i: int| spec_block_of(recs[i].spec_version(), crate::record::spec_into_raw(recs[i])),
    );
    assert(crate::warc_reader::spec_cursor_pre(s, true, 0) == Some(s));
    if recs.len() == 0 {
        assert(s.len() == 0);
    } else {
        let r0 = recs[0];
        let raw0 = crate::record::spec_into_raw(r0);
        let body0 = r0.spec_body().0@;
        let block0 = spec_block_of(r0.spec_version(), raw0);
        let rest = cat_records(recs.drop_first());
        let tail = body0 + seq![13u8, 10u8, 13u8, 10u8] + rest;
        assert(s =~= block0 + tail);
        lemma_into_raw_entries_ok(r0);
        lemma_block_take_on(r0.spec_version(), raw0, tail);
        assert(blocks[0] == block0);
        assert(block0 =~= spec_warc_tag() + vstd::utf8::encode_utf8(r0.spec_version()) + seq![
            13u8,
            10u8,
        ] + spec_encode_entries(raw0) + seq![13u8, 10u8] + Seq::<u8>::empty());
        lemma_parse_headers_on(
            r0.spec_version(),
            raw0,
            body0.len() as u64,
            Seq::<u8>::empty(),
        );
        let s2 = s.skip(block0.len() as int);
        assert(s2 =~= tail);
        assert(crate::warc_reader::spec_cursor_pre(tail, false, body0.len() as u64) == Some(rest))
            by {
            assert(tail.len() >= body0.len() + 4);
            assert(tail.subrange(body0.len() as int, body0.len() as int + 4) =~= seq![
                13u8,
                10u8,
                13u8,
                10u8,
            ]);
            assert(tail.skip(body0.len() as int + 4) =~= rest);
        }
        assert forall|i: int|
            0 <= i < recs.drop_first().len() implies (#[trigger] recs.drop_first()[i]).wf()
            && record_wire_safe(recs.drop_first()[i]) by {
            assert(recs.drop_first()[i] == recs[i + 1]);
        }
        lemma_deferred_skip(recs.drop_first());
        let blocks_rest = Seq::new(
            recs.drop_first().len(),
            |i: int|
                spec_block_of(
                    recs.drop_first()[i].spec_version(),
                    crate::record::spec_into_raw(recs.drop_first()[i]),
                ),
        );
        assert(blocks.drop_first() =~= blocks_rest);
        lemma_cursor_pre_step(tail, false, body0.len() as u64, blocks.drop_first());
    }
}

} // verus!
