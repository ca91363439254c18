//! Reading records from a stream.
//!
//! A [`WarcReader`] consumes one byte source and yields records in one of
//! three modes: raw header/body pairs, fully validated records, or — in
//! cursor mode — records whose body stays on the source until the caller
//! reads it, so a stream can be walked without buffering any body.

use vstd::prelude::*;

use crate::error::Error;
use crate::header_map::{map_insert, HeaderEntries};
use crate::record::{BufferedBody, RawRecordHeader, Record};
use crate::source::{line_take, ByteSource};
use crate::strings::{chars_of_ascii, lower_bytes};

verus! {

/// The header block at the front of `s`: every line up to and including
/// the blank `CRLF` line, or `None` if the input ends first.
pub open spec fn header_block_take(s: Seq<u8>) -> Option<Seq<u8>>
    decreases s.len(),
    via header_block_take_dec
{
    let l = line_take(s);
    if l.len() == 0 {
        None
    } else if l == seq![13u8, 10u8] {
        Some(l)
    } else {
        match header_block_take(s.skip(l.len() as int)) {
            None => None,
            Some(r) => Some(l + r),
        }
    }
}

#[via_fn]
proof fn header_block_take_dec(s: Seq<u8>) {
    crate::source::lemma_line_take(s);
}

/// How framing a body plus its trailer against a byte budget ends.
pub enum FrameSpec {
    /// A line of exactly two bytes landed exactly on the budget.
    Done,
    /// The input ended first.
    Eob,
    /// A line pushed the count past the budget.
    Overflow,
}

/// Read lines until one of exactly two bytes lands exactly on `need`
/// bytes in all: how that ends on content `s`.
pub open spec fn spec_body_frame(s: Seq<u8>, need: int) -> FrameSpec
    decreases s.len(),
    via spec_body_frame_dec
{
    let l = line_take(s);
    if l.len() == 0 {
        FrameSpec::Eob
    } else if l.len() == 2 && need == 2 {
        FrameSpec::Done
    } else if l.len() > need {
        FrameSpec::Overflow
    } else {
        spec_body_frame(s.skip(l.len() as int), need - l.len())
    }
}

#[via_fn]
proof fn spec_body_frame_dec(s: Seq<u8>, need: int) {
    crate::source::lemma_line_take(s);
}

/// The canonical map key of a raw header token.
pub open spec fn spec_token_key(token: Seq<u8>) -> Seq<char> {
    chars_of_ascii(lower_bytes(token))
}

/// The map a list of header lines collects into: each token
/// canonicalized, later values replacing earlier ones under the same
/// name.
pub open spec fn spec_collect(list: Seq<(Seq<u8>, Seq<u8>)>) -> HeaderEntries
    decreases list.len(),
{
    if list.len() == 0 {
        Seq::empty()
    } else {
        map_insert(
            spec_collect(list.drop_last()),
            spec_token_key(list.last().0),
            list.last().1,
        )
    }
}

/// What one record read from content `s` yields.
pub enum StepSpec {
    /// The stream ended cleanly before any header byte.
    End,
    /// One whole record: its version bytes, header lines, declared
    /// length, body bytes, and the content left after its trailer.
    Rec {
        /// The version bytes of the record.
        version: Seq<u8>,
        /// The raw header lines, in order.
        lines: Seq<(Seq<u8>, Seq<u8>)>,
        /// The declared content length.
        cl: u64,
        /// The body bytes.
        body: Seq<u8>,
        /// The content left after the record's trailer.
        rest: Seq<u8>,
    },
    /// The input ended inside a header block, or the block failed to
    /// parse.
    FailParse,
    /// The input ended inside the body or trailer.
    FailEob,
    /// The four bytes after the declared body are not the two-CRLF
    /// trailer.
    FailTrailer,
    /// Line-buffered body reading overran the declared length.
    FailOverflow,
}

/// Whether the record at the front of `s` declares a length within four
/// bytes of the integer limit, which line-buffered framing rejects.
pub open spec fn spec_huge_cl(s: Seq<u8>) -> bool {
    header_block_take(s) matches Some(block) && crate::parser::spec_parse_headers(block)
        matches crate::parser::SpecParse::Found { v, used } && v.2 > u64::MAX - 4
}

/// The outcome of reading one record, with its body, from content `s`.
pub open spec fn spec_next_record(s: Seq<u8>) -> StepSpec {
    match header_block_take(s) {
        None => if s.len() == 0 {
            StepSpec::End
        } else {
            StepSpec::FailParse
        },
        Some(block) => match crate::parser::spec_parse_headers(block) {
            crate::parser::SpecParse::Found { v, used } => {
                let s2 = s.skip(block.len() as int);
                match spec_body_frame(s2, v.2 as int + 4) {
                    FrameSpec::Done => {
                        if s2.subrange(v.2 as int, v.2 as int + 4) == seq![13u8, 10u8, 13u8, 10u8] {
                            StepSpec::Rec {
                                version: v.0,
                                lines: v.1,
                                cl: v.2,
                                body: s2.take(v.2 as int),
                                rest: s2.skip(v.2 as int + 4),
                            }
                        } else {
                            StepSpec::FailTrailer
                        }
                    },
                    FrameSpec::Eob => StepSpec::FailEob,
                    FrameSpec::Overflow => StepSpec::FailOverflow,
                }
            },
            _ => StepSpec::FailParse,
        },
    }
}

/// Read the header block at the front of the source into `buf`.
///
/// Returns `Ok(true)` when a block was read, `Ok(false)` at a clean end
/// of stream.
fn read_header_block<R: std::io::BufRead>(src: &mut ByteSource<R>, buf: &mut Vec<u8>) -> (r: Result<
    bool,
    Error,
>)
    requires
        old(buf)@.len() == 0,
    ensures
        match r {
            Ok(true) => {
                &&& header_block_take(old(src).remaining()) == Some(final(buf)@)
                &&& final(src).remaining() == old(src).remaining().skip(final(buf)@.len() as int)
            },
            Ok(false) => old(src).remaining().len() == 0 && final(src).remaining() == old(src).remaining(),
            Err(e) => e is ReadData || (e is ParseHeaders && header_block_take(
                old(src).remaining(),
            ) is None && old(src).remaining().len() > 0),
        },
{
    let ghost s0 = src.remaining();
    proof {
        assert(buf@ + src.remaining() =~= s0);
        match header_block_take(s0) {
            Some(b) => {
                assert(buf@ + b =~= b);
            },
            None => {},
        }
    }
    loop
        invariant_except_break
            match header_block_take(src.remaining()) {
                None => header_block_take(s0) is None,
                Some(b) => header_block_take(s0) == Some(buf@ + b),
            },
        invariant
            s0 == old(src).remaining(),
            s0 == buf@ + src.remaining(),
            buf@.len() > 0 ==> s0.len() > 0,
        ensures
            header_block_take(s0) == Some(buf@),
            s0 == buf@ + src.remaining(),
        decreases src.remaining().len(),
    {
        proof {
            crate::source::lemma_line_take(src.remaining());
        }
        let ghost rem0 = src.remaining();
        let ghost buf0 = buf@;
        let n = match crate::source::source_read_line(src, buf) {
            Ok(n) => n,
            Err(e) => {
                return Err(e);
            },
        };
        let ghost delta = line_take(rem0);
        proof {
            crate::source::lemma_line_take(rem0);
            assert(rem0 =~= delta + src.remaining());
        }
        if n == 0 {
            proof {
                assert(rem0.len() == 0);
                assert(rem0.skip(0) =~= rem0);
                assert(buf@ =~= buf0);
            }
            if buf.len() == 0 {
                proof {
                    assert(s0 =~= rem0);
                    assert(src.remaining() =~= s0);
                }
                return Ok(false);
            }
            return Err(Error::ParseHeaders);
        }
        if n == 2 {
            let b1 = buf[buf.len() - 2];
            let b2 = buf[buf.len() - 1];
            if b1 == 13 && b2 == 10 {
                proof {
                    assert(delta =~= seq![13u8, 10u8]) by {
                        assert(delta == buf@.skip(buf0.len() as int));
                        assert(delta.len() == 2);
                        assert(delta[0] == buf@[buf@.len() - 2]);
                        assert(delta[1] == buf@[buf@.len() - 1]);
                    }
                    assert(header_block_take(rem0) == Some(delta));
                    assert(s0 =~= buf@ + src.remaining());
                }
                break ;
            }
        }
        proof {
            assert(delta.len() > 0);
            assert(delta != seq![13u8, 10u8]) by {
                if delta.len() == 2 {
                    assert(delta == buf@.skip(buf0.len() as int));
                    assert(delta[0] == buf@[buf@.len() - 2]);
                    assert(delta[1] == buf@[buf@.len() - 1]);
                    if delta[0] == 13 && delta[1] == 10 {
                        assert(seq![13u8, 10u8] =~= delta);
                    }
                }
            }
            assert(s0 =~= buf@ + src.remaining());
            match header_block_take(src.remaining()) {
                None => {},
                Some(b) => {
                    assert(header_block_take(rem0) == Some(delta + b));
                    assert(buf0 + (delta + b) =~= buf@ + b);
                },
            }
        }
    }
    Ok(true)
}

/// Read the body and trailer of one record: exactly `cl` body bytes and
/// four trailer bytes, scanned line by line, demanding that the trailer
/// is exactly the two-CRLF sequence.
///
/// A declared length within four bytes of the integer limit cannot be
/// framed and is rejected as an overflow.
fn read_body_framed<R: std::io::BufRead>(src: &mut ByteSource<R>, cl: u64) -> (r: Result<
    Vec<u8>,
    Error,
>)
    ensures
        cl <= u64::MAX - 4 ==> match r {
            Ok(body) => {
                &&& spec_body_frame(old(src).remaining(), cl as int + 4) is Done
                &&& old(src).remaining().subrange(cl as int, cl as int + 4) == seq![
                    13u8,
                    10u8,
                    13u8,
                    10u8,
                ]
                &&& body@ == old(src).remaining().take(cl as int)
                &&& final(src).remaining() == old(src).remaining().skip(cl as int + 4)
            },
            Err(e) => {
                ||| e is ReadData
                ||| (e is UnexpectedEOB && spec_body_frame(
                    old(src).remaining(),
                    cl as int + 4,
                ) is Eob)
                ||| (e is ReadOverflow && spec_body_frame(
                    old(src).remaining(),
                    cl as int + 4,
                ) is Overflow)
                ||| (e is ParseHeaders && spec_body_frame(old(src).remaining(), cl as int + 4)
                    is Done && old(src).remaining().subrange(cl as int, cl as int + 4) != seq![
                    13u8,
                    10u8,
                    13u8,
                    10u8,
                ])
            },
        },
        cl > u64::MAX - 4 ==> (r matches Err(e) && e is ReadOverflow),
{
    if cl > u64::MAX - 4 {
        return Err(Error::ReadOverflow);
    }
    let need0: u64 = cl + 4;
    let ghost s0 = src.remaining();
    let mut buf: Vec<u8> = Vec::new();
    let mut left: u64 = need0;
    proof {
        assert(buf@ + src.remaining() =~= s0);
    }
    loop
        invariant_except_break
            spec_body_frame(s0, need0 as int) == spec_body_frame(src.remaining(), left as int),
        invariant
            left <= need0,
            s0 == old(src).remaining(),
            need0 == cl + 4,
            s0 == buf@ + src.remaining(),
            buf@.len() == need0 - left,
        ensures
            left == 0,
            spec_body_frame(s0, need0 as int) is Done,
            buf@.len() == need0,
        decreases src.remaining().len(),
    {
        proof {
            crate::source::lemma_line_take(src.remaining());
        }
        let ghost rem0 = src.remaining();
        let n = match crate::source::source_read_line(src, &mut buf) {
            Ok(n) => n,
            Err(e) => {
                return Err(e);
            },
        };
        let ghost delta = line_take(rem0);
        proof {
            crate::source::lemma_line_take(rem0);
            assert(rem0 =~= delta + src.remaining());
            assert(s0 =~= buf@ + src.remaining());
        }
        if n == 0 {
            return Err(Error::UnexpectedEOB);
        }
        if n == 2 && left == 2 {
            left = 0;
            break ;
        }
        if (n as u64) > left {
            return Err(Error::ReadOverflow);
        }
        left = left - (n as u64);
    }
    let blen = buf.len();
    let trailer_ok = buf[blen - 4] == 13 && buf[blen - 3] == 10 && buf[blen - 2] == 13 && buf[blen
        - 1] == 10;
    proof {
        assert(s0.subrange(cl as int, cl as int + 4) =~= seq![
            buf@[blen - 4],
            buf@[blen - 3],
            buf@[blen - 2],
            buf@[blen - 1],
        ]);
    }
    if !trailer_ok {
        return Err(Error::ParseHeaders);
    }
    let body_len = blen - 4;
    buf.truncate(body_len);
    proof {
        assert(buf@ =~= s0.take(cl as int));
        assert(src.remaining() =~= s0.skip(cl as int + 4));
    }
    Ok(buf)
}

/// Build the header map of a record from its parsed header lines: each
/// token canonicalized, later values replacing earlier ones.
fn collect_headers(
    list: Vec<(String, Vec<u8>)>,
    Ghost(slist): Ghost<Seq<(Seq<u8>, Seq<u8>)>>,
) -> (r: crate::header_map::HeaderMap)
    requires
        list@.len() == slist.len(),
        forall|i: int|
            0 <= i < slist.len() ==> (#[trigger] list@[i]).0@ == chars_of_ascii(slist[i].0)
                && list@[i].1@ == slist[i].1,
        forall|i: int| 0 <= i < slist.len() ==> crate::strings::is_ascii_bytes(#[trigger] slist[i].0),
    ensures
        r@ == spec_collect(slist),
        r.wf(),
{
    let mut m = crate::header_map::HeaderMap::new();
    let n: usize = list.len();
    proof {
        assert(slist.take(0) =~= Seq::<(Seq<u8>, Seq<u8>)>::empty());
    }
    let mut i: usize = 0;
    while i < n
        invariant
            n == list@.len() == slist.len(),
            i <= n,
            forall|k: int|
                0 <= k < slist.len() ==> (#[trigger] list@[k]).0@ == chars_of_ascii(slist[k].0)
                    && list@[k].1@ == slist[k].1,
            forall|k: int|
                0 <= k < slist.len() ==> crate::strings::is_ascii_bytes(#[trigger] slist[k].0),
            m@ == spec_collect(slist.take(i as int)),
            m.wf(),
        decreases n - i,
    {
        let pair = &list[i];
        let key = crate::header::WarcHeader::from_name(pair.0.as_str());
        proof {
            crate::strings::lemma_lower_ascii(slist[i as int].0);
            crate::strings::lemma_ascii_bytes_utf8(slist[i as int].0);
        }
        m.insert(key, pair.1.clone());
        i = i + 1;
        proof {
            assert(slist.take(i as int).drop_last() =~= slist.take(i - 1));
            assert(slist.take(i as int).last() == slist[i - 1]);
        }
    }
    proof {
        assert(slist.take(n as int) =~= slist);
    }
    m
}

/// Read one raw record from the source: the header block, parsed and
/// collected into a map, and the body framed by the declared length.
fn next_raw_inner<R: std::io::BufRead>(src: &mut ByteSource<R>) -> (r: Option<
    Result<(RawRecordHeader, Vec<u8>), Error>,
>)
    ensures
        match r {
            None => spec_next_record(old(src).remaining()) is End && final(src).remaining() == old(src).remaining(),
            Some(Ok(p)) => {
                &&& spec_next_record(old(src).remaining()) matches StepSpec::Rec {
                    version,
                    lines,
                    cl,
                    body,
                    rest,
                } && p.0.version@ == vstd::utf8::decode_utf8(version) && p.0.headers@
                    == spec_collect(lines) && p.1@ == body && final(src).remaining() == rest
                &&& p.0.headers.wf()
            },
            Some(Err(e)) => {
                ||| e is ReadData
                ||| (e is ParseHeaders && (spec_next_record(old(src).remaining()) is FailParse
                    || spec_next_record(old(src).remaining()) is FailTrailer))
                ||| (e is UnexpectedEOB && spec_next_record(old(src).remaining()) is FailEob)
                ||| (e is ReadOverflow && (spec_next_record(old(src).remaining()) is FailOverflow
                    || spec_huge_cl(old(src).remaining())))
            },
        },
{
    let ghost s0 = src.remaining();
    let mut hbuf: Vec<u8> = Vec::new();
    match read_header_block(src, &mut hbuf) {
        Ok(false) => {
            proof {
                crate::source::lemma_line_take(s0);
                assert(line_take(s0).len() == 0);
                assert(header_block_take(s0) is None);
            }
            return None;
        },
        Ok(true) => {},
        Err(e) => {
            return Some(Err(e));
        },
    }
    match crate::parser::headers(hbuf.as_slice()) {
        Err(_) => Some(Err(Error::ParseHeaders)),
        Ok((used, ver, list, cl)) => {
            let ghost slist = match crate::parser::spec_parse_headers(hbuf@) {
                crate::parser::SpecParse::Found { v, used } => v.1,
                _ => Seq::empty(),
            };
            proof {
                crate::parser::lemma_parse_headers_tokens(hbuf@);
            }
            let m = collect_headers(list, Ghost(slist));
            let raw = RawRecordHeader { version: ver, headers: m };
            match read_body_framed(src, cl) {
                Ok(body) => Some(Ok((raw, body))),
                Err(e) => Some(Err(e)),
            }
        },
    }
}

/// A reader which iteratively parses WARC records from a stream.
pub struct WarcReader<R> {
    source: ByteSource<R>,
}

impl<R: std::io::BufRead> WarcReader<R> {
    /// The bytes the underlying source will yet deliver.
    pub closed spec fn spec_remaining(&self) -> Seq<u8> {
        self.source.remaining()
    }

    /// Create a new reader.
    pub fn new(r: R) -> (w: Self) {
        WarcReader { source: ByteSource::new(r) }
    }

    /// Create an iterator over all of the raw records read.
    ///
    /// This only does well-formedness checks on the headers. See
    /// `RawRecordHeader` for more information.
    pub fn iter_raw_records(self) -> (r: RawRecordIter<R>)
        ensures
            r.spec_remaining() == self.spec_remaining(),
    {
        RawRecordIter::new(self.source)
    }

    /// Create an iterator over all of the records read.
    ///
    /// This will fully build each record and check it for semantic
    /// correctness. See the `Record` type for more information.
    pub fn iter_records(self) -> (r: RecordIter<R>)
        ensures
            r.spec_remaining() == self.spec_remaining(),
    {
        RecordIter::new(self.source)
    }
}

/// An iterator of raw records streamed from a reader.
pub struct RawRecordIter<R> {
    source: ByteSource<R>,
}

impl<R: std::io::BufRead> RawRecordIter<R> {
    /// The bytes the underlying source will yet deliver.
    pub closed spec fn spec_remaining(&self) -> Seq<u8> {
        self.source.remaining()
    }

    pub(crate) fn new(source: ByteSource<R>) -> (r: RawRecordIter<R>)
        ensures
            r.spec_remaining() == source.remaining(),
    {
        RawRecordIter { source }
    }

    /// Read the next raw record: its header block as a map, and its body.
    ///
    /// `None` means the stream ended cleanly before the record.
    pub fn next(&mut self) -> (r: Option<Result<(RawRecordHeader, Vec<u8>), Error>>)
        ensures
            match r {
                None => spec_next_record(old(self).spec_remaining()) is End && final(self).spec_remaining() == old(self).spec_remaining(),
                Some(Ok(p)) => {
                    &&& spec_next_record(old(self).spec_remaining()) matches StepSpec::Rec {
                        version,
                        lines,
                        cl,
                        body,
                        rest,
                    } && p.0.version@ == vstd::utf8::decode_utf8(version) && p.0.headers@
                        == spec_collect(lines) && p.1@ == body && final(self).spec_remaining()
                        == rest
                    &&& p.0.headers.wf()
                },
                Some(Err(e)) => {
                    ||| e is ReadData
                    ||| (e is ParseHeaders && (spec_next_record(old(self).spec_remaining())
                        is FailParse || spec_next_record(old(self).spec_remaining())
                        is FailTrailer))
                    ||| (e is UnexpectedEOB && spec_next_record(old(self).spec_remaining())
                        is FailEob)
                    ||| (e is ReadOverflow && (spec_next_record(old(self).spec_remaining())
                        is FailOverflow || spec_huge_cl(old(self).spec_remaining())))
                },
            },
    {
        next_raw_inner(&mut self.source)
    }
}

/// An iterator which returns the records read by a reader.
pub struct RecordIter<R> {
    source: ByteSource<R>,
}

impl<R: std::io::BufRead> RecordIter<R> {
    /// The bytes the underlying source will yet deliver.
    pub closed spec fn spec_remaining(&self) -> Seq<u8> {
        self.source.remaining()
    }

    pub(crate) fn new(source: ByteSource<R>) -> (r: RecordIter<R>)
        ensures
            r.spec_remaining() == source.remaining(),
    {
        RecordIter { source }
    }

    /// Read the next record, fully validated, with its body attached.
    ///
    /// `None` means the stream ended cleanly before the record.
    pub fn next(&mut self) -> (r: Option<Result<Record<BufferedBody>, Error>>)
        ensures
            match r {
                None => spec_next_record(old(self).spec_remaining()) is End && final(self).spec_remaining() == old(self).spec_remaining(),
                Some(Ok(rec)) => {
                    &&& spec_next_record(old(self).spec_remaining()) matches StepSpec::Rec {
                        version,
                        lines,
                        cl,
                        body,
                        rest,
                    } && {
                        let m = spec_collect(lines);
                        &&& crate::record::spec_promote_ok(m)
                        &&& rec.wf()
                        &&& rec.spec_version() == vstd::utf8::decode_utf8(version)
                        &&& rec.spec_headers()@ == crate::record::spec_promote_leftover(m)
                        &&& rec.spec_type() == crate::strings::canon_chars(
                            vstd::utf8::decode_utf8(
                                crate::header_map::map_val(m, "warc-type"@),
                            ),
                        )
                        &&& rec.spec_id() == vstd::utf8::decode_utf8(
                            crate::header_map::map_val(m, "warc-record-id"@),
                        )
                        &&& crate::date::rfc3339_fields_of(
                            vstd::utf8::decode_utf8(
                                crate::header_map::map_val(m, "warc-date"@),
                            ),
                        ) == Some(rec.spec_date().spec_fields())
                        &&& rec.spec_truncated() == if crate::header_map::map_has(
                            m,
                            "warc-truncated"@,
                        ) {
                            Some(
                                crate::strings::canon_chars(
                                    vstd::utf8::decode_utf8(
                                        crate::header_map::map_val(m, "warc-truncated"@),
                                    ),
                                ),
                            )
                        } else {
                            Option::<Seq<char>>::None
                        }
                        &&& rec.spec_body().0@ == body
                        &&& final(self).spec_remaining() == rest
                    }
                },
                Some(Err(e)) => {
                    ||| e is ReadData
                    ||| (e is ParseHeaders && (spec_next_record(old(self).spec_remaining())
                        is FailParse || spec_next_record(old(self).spec_remaining())
                        is FailTrailer))
                    ||| (e is UnexpectedEOB && spec_next_record(old(self).spec_remaining())
                        is FailEob)
                    ||| (e is ReadOverflow && (spec_next_record(old(self).spec_remaining())
                        is FailOverflow || spec_huge_cl(old(self).spec_remaining())))
                    ||| ((e is MissingHeader || e is MalformedHeader) && (spec_next_record(
                        old(self).spec_remaining(),
                    ) matches StepSpec::Rec { version, lines, cl, body, rest }
                        && !crate::record::spec_promote_ok(spec_collect(lines))))
                },
            },
    {
        match next_raw_inner(&mut self.source) {
            None => None,
            Some(Err(e)) => Some(Err(e)),
            Some(Ok((raw, body))) => {
                match Record::<crate::record::EmptyBody>::try_from(raw) {
                    Ok(rec) => Some(Ok(rec.add_body(body))),
                    Err(e) => Some(Err(e)),
                }
            },
        }
    }
}

/// Whether the skip a cursor-mode reader owes can be paid from `s`:
/// `pending` unread body bytes followed by the two-CRLF trailer, or no
/// debt at all on the first record.
pub open spec fn spec_cursor_pre(s: Seq<u8>, first: bool, pending: u64) -> Option<Seq<u8>> {
    if first {
        Some(s)
    } else if s.len() >= pending + 4 && s.subrange(pending as int, pending as int + 4) == seq![
        13u8,
        10u8,
        13u8,
        10u8,
    ] {
        Some(s.skip(pending as int + 4))
    } else {
        None
    }
}

/// An iterator-like type to "stream" records from a reader.
///
/// Yields records whose body stays on the source until the caller reads
/// it; advancing first drains whatever the previous record's body left
/// unread, plus the trailer, so a caller may read none, some, or all of
/// each body.
pub struct StreamingIter<'r, R> {
    source: &'r mut ByteSource<R>,
    current_item_size: u64,
    first_record: bool,
}

impl<'r, R: std::io::BufRead> StreamingIter<'r, R> {
    /// The bytes the underlying source will yet deliver.
    pub closed spec fn spec_remaining(&self) -> Seq<u8> {
        (*self.source).remaining()
    }

    /// Whether no record has been yielded yet.
    pub closed spec fn spec_first(&self) -> bool {
        self.first_record
    }

    /// The unread body bytes of the last yielded record.
    pub closed spec fn spec_pending(&self) -> u64 {
        self.current_item_size
    }

    pub(crate) fn new(source: &'r mut ByteSource<R>) -> (r: StreamingIter<'r, R>)
        ensures
            r.spec_remaining() == old(source).remaining(),
            r.spec_first(),
    {
        StreamingIter { source, current_item_size: 0, first_record: true }
    }

    /// Drain the previous record's unread body and its trailer.
    fn skip_body(&mut self) -> (r: Result<(), Error>)
        ensures
            match r {
                Ok(_) => {
                    &&& old(self).spec_remaining().len() >= old(self).spec_pending() + 4
                    &&& old(self).spec_remaining().subrange(
                        old(self).spec_pending() as int,
                        old(self).spec_pending() as int + 4,
                    ) == seq![13u8, 10u8, 13u8, 10u8]
                    &&& final(self).spec_remaining() == old(self).spec_remaining().skip(
                        old(self).spec_pending() as int + 4,
                    )
                    &&& final(self).spec_first() == old(self).spec_first()
                },
                Err(e) => e is ReadData || (e is UnexpectedEOB && old(self).spec_remaining().len()
                    < old(self).spec_pending() + 4) || (e is ParseHeaders && old(
                    self,
                ).spec_remaining().len() >= old(self).spec_pending() + 4 && old(
                    self,
                ).spec_remaining().subrange(
                    old(self).spec_pending() as int,
                    old(self).spec_pending() as int + 4,
                ) != seq![13u8, 10u8, 13u8, 10u8]),
            },
    {
        let ghost s0 = (*self.source).remaining();
        let ghost count0 = self.current_item_size;
        let count = self.current_item_size;
        match crate::source::drain_exact(&mut *self.source, count) {
            Err(e) => {
                return Err(e);
            },
            Ok(_) => {},
        }
        let ghost s_after = (*self.source).remaining();
        let trailer = match crate::source::read_exact(&mut *self.source, 4) {
            Err(e) => {
                proof {
                    if !(e is ReadData) {
                        assert(s_after.len() < 4);
                        assert(s_after == s0.skip(count0 as int));
                        assert(s0.len() < count0 + 4);
                    }
                }
                return Err(e);
            },
            Ok(t) => t,
        };
        let ok = trailer[0] == 13 && trailer[1] == 10 && trailer[2] == 13 && trailer[3] == 10;
        proof {
            assert(s0.subrange(count0 as int, count0 as int + 4) =~= s0.skip(count0 as int).take(
                4,
            ));
        }
        if ok {
            proof {
                assert(s0.subrange(count0 as int, count0 as int + 4) =~= seq![
                    13u8,
                    10u8,
                    13u8,
                    10u8,
                ]);
                assert((*self.source).remaining() =~= s0.skip(count0 as int + 4));
            }
            Ok(())
        } else {
            proof {
                let t4 = s0.skip(count0 as int).take(4);
                if s0.subrange(count0 as int, count0 as int + 4) == seq![13u8, 10u8, 13u8, 10u8] {
                    assert(t4[0] == 13 && t4[1] == 10 && t4[2] == 13 && t4[3] == 10);
                }
            }
            Err(Error::ParseHeaders)
        }
    }

    /// Advance the stream to the next item.
    ///
    /// Returns one of the following:
    /// * `Some(Ok(r))` is the next record read from the stream; its body
    ///   stays on the source until read, and borrows this iterator.
    /// * `Some(Err)` indicates a read, parse or validation error.
    /// * `None` indicates no more records are returned.
    pub fn next_item<'t>(&'t mut self) -> (r: Option<
        Result<Record<crate::record::StreamingBody<'t, R>>, Error>,
    >)
        ensures
            match r {
                None => spec_cursor_pre(
                    old(self).spec_remaining(),
                    old(self).spec_first(),
                    old(self).spec_pending(),
                ) matches Some(s1) && s1.len() == 0,
                Some(Ok(rec)) => spec_cursor_pre(
                    old(self).spec_remaining(),
                    old(self).spec_first(),
                    old(self).spec_pending(),
                ) matches Some(s1) && header_block_take(s1) matches Some(block)
                    && crate::parser::spec_parse_headers(block)
                    matches crate::parser::SpecParse::Found { v, used } && {
                    let m = spec_collect(v.1);
                    &&& crate::record::spec_promote_ok(m)
                    &&& rec.wf()
                    &&& rec.spec_version() == vstd::utf8::decode_utf8(v.0)
                    &&& rec.spec_headers()@ == crate::record::spec_promote_leftover(m)
                    &&& rec.spec_type() == crate::strings::canon_chars(
                        vstd::utf8::decode_utf8(crate::header_map::map_val(m, "warc-type"@)),
                    )
                    &&& rec.spec_id() == vstd::utf8::decode_utf8(
                        crate::header_map::map_val(m, "warc-record-id"@),
                    )
                    &&& crate::date::rfc3339_fields_of(
                        vstd::utf8::decode_utf8(crate::header_map::map_val(m, "warc-date"@)),
                    ) == Some(rec.spec_date().spec_fields())
                    &&& rec.spec_truncated() == if crate::header_map::map_has(
                        m,
                        "warc-truncated"@,
                    ) {
                        Some(
                            crate::strings::canon_chars(
                                vstd::utf8::decode_utf8(
                                    crate::header_map::map_val(m, "warc-truncated"@),
                                ),
                            ),
                        )
                    } else {
                        Option::<Seq<char>>::None
                    }
                    &&& rec.spec_body().spec_count() == v.2
                    &&& rec.spec_body().spec_source_content() == s1.skip(block.len() as int)
                },
                Some(Err(e)) => {
                    ||| e is ReadData
                    ||| (spec_cursor_pre(
                        old(self).spec_remaining(),
                        old(self).spec_first(),
                        old(self).spec_pending(),
                    ) is None && (e is UnexpectedEOB || e is ParseHeaders))
                    ||| (spec_cursor_pre(
                        old(self).spec_remaining(),
                        old(self).spec_first(),
                        old(self).spec_pending(),
                    ) matches Some(s1) && (((e is ParseHeaders) && (header_block_take(s1) is None
                        && s1.len() > 0 || !(spec_parse_headers_found(
                        header_block_take(s1),
                    )))) || ((e is MissingHeader || e is MalformedHeader)
                        && !spec_cursor_promote_ok(s1))))
                },
            },
    {
        if self.first_record {
            self.first_record = false;
        } else {
            match self.skip_body() {
                Err(e) => {
                    return Some(Err(e));
                },
                Ok(_) => {},
            }
        }
        let mut hbuf: Vec<u8> = Vec::new();
        match read_header_block(&mut *self.source, &mut hbuf) {
            Ok(false) => {
                return None;
            },
            Ok(true) => {},
            Err(e) => {
                return Some(Err(e));
            },
        }
        match crate::parser::headers(hbuf.as_slice()) {
            Err(_) => Some(Err(Error::ParseHeaders)),
            Ok((used, ver, list, cl)) => {
                let ghost slist = match crate::parser::spec_parse_headers(hbuf@) {
                    crate::parser::SpecParse::Found { v, used } => v.1,
                    _ => Seq::empty(),
                };
                proof {
                    crate::parser::lemma_parse_headers_tokens(hbuf@);
                }
                let m = collect_headers(list, Ghost(slist));
                let raw = RawRecordHeader { version: ver, headers: m };
                match Record::<crate::record::EmptyBody>::try_from(raw) {
                    Err(e) => Some(Err(e)),
                    Ok(rec) => {
                        self.current_item_size = cl;
                        let rec2 = rec.add_fixed_stream(
                            &mut *self.source,
                            &mut self.current_item_size,
                        );
                        Some(Ok(rec2))
                    },
                }
            },
        }
    }
}

/// Whether a header-block parse outcome found a block.
pub open spec fn spec_parse_headers_found(block: Option<Seq<u8>>) -> bool {
    block matches Some(b) && crate::parser::spec_parse_headers(b)
        matches crate::parser::SpecParse::Found { v, used }
}

/// Whether the record at the front of `s1` promotes cleanly.
pub open spec fn spec_cursor_promote_ok(s1: Seq<u8>) -> bool {
    header_block_take(s1) matches Some(block) && crate::parser::spec_parse_headers(block)
        matches crate::parser::SpecParse::Found { v, used } && crate::record::spec_promote_ok(
        spec_collect(v.1),
    )
}

impl<R: std::io::BufRead> WarcReader<R> {
    /// Create a streaming iterator over all of the records read.
    ///
    /// This will build each record header, and let the caller decide
    /// whether to read the body or not.
    pub fn stream_records(&mut self) -> (r: StreamingIter<'_, R>)
        ensures
            r.spec_remaining() == old(self).spec_remaining(),
            r.spec_first(),
    {
        StreamingIter::new(&mut self.source)
    }
}

} // verus!