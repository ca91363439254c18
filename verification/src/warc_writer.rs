//! Writing records to an output stream.

use vstd::prelude::*;

use crate::header_map::HeaderEntries;
use crate::record::{BufferedBody, RawRecordHeader, Record};

verus! {

/// The wire bytes of one header line: `token: value` and CRLF.
pub open spec fn spec_encode_entry(name: Seq<char>, value: Seq<u8>) -> Seq<u8> {
    vstd::utf8::encode_utf8(name) + seq![58u8, 32u8] + value + seq![13u8, 10u8]
}

/// The wire bytes of a run of header lines, in order.
pub open spec fn spec_encode_entries(m: HeaderEntries) -> Seq<u8>
    decreases m.len(),
{
    if m.len() == 0 {
        Seq::empty()
    } else {
        spec_encode_entry(m[0].0, m[0].1) + spec_encode_entries(m.drop_first())
    }
}

/// The wire bytes of a whole record: the version line, the header lines,
/// a blank line, the body, and the two-CRLF trailer.
pub open spec fn spec_encode_raw(version: Seq<char>, m: HeaderEntries, body: Seq<u8>) -> Seq<u8> {
    crate::parser::spec_warc_tag() + vstd::utf8::encode_utf8(version) + seq![13u8, 10u8]
        + spec_encode_entries(m) + seq![13u8, 10u8] + body + seq![13u8, 10u8, 13u8, 10u8]
}

/// The wire bytes of a buffered record, with its promoted fields written
/// back as header lines and the content length recomputed from the body.
pub open spec fn spec_encode_record(rec: Record<BufferedBody>) -> Seq<u8> {
    spec_encode_raw(rec.spec_version(), crate::record::spec_into_raw(rec), rec.spec_body().0@)
}

/// Serialize a raw header block and body to wire bytes.
pub fn encode_raw(headers: &RawRecordHeader, body: &[u8]) -> (r: Vec<u8>)
    ensures
        r@ == spec_encode_raw(headers.version@, headers.headers@, body@),
{
    let mut out: Vec<u8> = Vec::new();
    out.push(87);
    out.push(65);
    out.push(82);
    out.push(67);
    out.push(47);
    out.extend_from_slice(headers.version.as_str().as_bytes());
    out.push(13);
    out.push(10);
    let ghost m = headers.headers@;
    let ghost prefix = out@;
    proof {
        assert(prefix =~= crate::parser::spec_warc_tag() + vstd::utf8::encode_utf8(
            headers.version@,
        ) + seq![13u8, 10u8]);
        assert(m.skip(0) =~= m);
    }
    let n: usize = headers.headers.len();
    let mut i: usize = 0;
    while i < n
        invariant
            n == m.len(),
            i <= n,
            m == headers.headers@,
            out@ == prefix + spec_encode_entries(m.take(i as int)),
        decreases n - i,
    {
        let pair = headers.headers.entry_at(i);
        let name = pair.0.to_string();
        out.extend_from_slice(name.as_str().as_bytes());
        out.push(58);
        out.push(32);
        out.extend_from_slice(pair.1.as_slice());
        out.push(13);
        out.push(10);
        i = i + 1;
        proof {
            lemma_encode_entries_take(m, i as int);
            assert(out@ =~= prefix + (spec_encode_entries(m.take(i - 1)) + spec_encode_entry(
                m[i - 1].0,
                m[i - 1].1,
            )));
        }
    }
    proof {
        assert(m.take(n as int) =~= m);
    }
    out.push(13);
    out.push(10);
    out.extend_from_slice(body);
    out.push(13);
    out.push(10);
    out.push(13);
    out.push(10);
    proof {
        assert(out@ =~= spec_encode_raw(headers.version@, headers.headers@, body@));
    }
    out
}

/// Encoding one more entry appends its line.
proof fn lemma_encode_entries_take(m: HeaderEntries, i: int)
    requires
        0 < i <= m.len(),
    ensures
        spec_encode_entries(m.take(i)) == spec_encode_entries(m.take(i - 1)) + spec_encode_entry(
            m[i - 1].0,
            m[i - 1].1,
        ),
    decreases i,
{
    if i == 1 {
        assert(m.take(0) =~= Seq::<(Seq<char>, Seq<u8>)>::empty());
        assert(m.take(1).drop_first() =~= Seq::<(Seq<char>, Seq<u8>)>::empty());
        assert(m.take(1)[0] == m[0]);
        assert(spec_encode_entries(m.take(1)) == spec_encode_entry(m[0].0, m[0].1)
            + spec_encode_entries(m.take(1).drop_first()));
        assert(spec_encode_entry(m[0].0, m[0].1) + Seq::<u8>::empty() =~= spec_encode_entry(
            m[0].0,
            m[0].1,
        ));
        assert(spec_encode_entries(m.take(0)) + spec_encode_entry(m[0].0, m[0].1)
            =~= spec_encode_entry(m[0].0, m[0].1));
    } else {
        lemma_encode_entries_take(m.drop_first(), i - 1);
        assert(m.take(i).drop_first() =~= m.drop_first().take(i - 1));
        assert(m.take(i - 1).drop_first() =~= m.drop_first().take(i - 2));
        assert(m.drop_first()[i - 2] == m[i - 1]);
        assert(spec_encode_entries(m.take(i)) == spec_encode_entry(m[0].0, m[0].1)
            + spec_encode_entries(m.drop_first().take(i - 1)));
        assert(spec_encode_entry(m[0].0, m[0].1) + (spec_encode_entries(m.drop_first().take(i - 2))
            + spec_encode_entry(m[i - 1].0, m[i - 1].1)) =~= (spec_encode_entry(m[0].0, m[0].1)
            + spec_encode_entries(m.drop_first().take(i - 2))) + spec_encode_entry(
            m[i - 1].0,
            m[i - 1].1,
        ));
    }
}

/// A writer which writes records to an output stream.
///
/// The bytes handed to the underlying sink so far are tracked, so each
/// write can state exactly what it emits.
pub struct WarcWriter<W> {
    writer: W,
    written: Ghost<Seq<u8>>,
}

impl<W: std::io::Write> WarcWriter<W> {
    /// The bytes handed to the underlying sink so far.
    pub closed spec fn spec_written(&self) -> Seq<u8> {
        self.written@
    }

    /// Create a new writer.
    pub fn new(w: W) -> (r: Self)
        ensures
            r.spec_written() == Seq::<u8>::empty(),
    {
        WarcWriter { writer: w, written: Ghost(Seq::empty()) }
    }

    /// Write a single record.
    ///
    /// The number of bytes written is returned upon success.
    pub fn write(&mut self, record: &Record<BufferedBody>) -> (r: Result<usize, std::io::Error>)
        requires
            record.wf(),
        ensures
            r matches Ok(n) ==> final(self).spec_written() == old(self).spec_written()
                + spec_encode_record(*record) && n == spec_encode_record(*record).len(),
    {
        let (headers, body) = record.clone().into_raw_parts();
        self.write_raw(headers, body.as_slice())
    }

    /// Write a single raw record.
    ///
    /// The number of bytes written is returned upon success.
    pub fn write_raw(&mut self, headers: RawRecordHeader, body: &[u8]) -> (r: Result<
        usize,
        std::io::Error,
    >)
        ensures
            r matches Ok(n) ==> final(self).spec_written() == old(self).spec_written()
                + spec_encode_raw(headers.version@, headers.headers@, body@) && n
                == spec_encode_raw(headers.version@, headers.headers@, body@).len(),
    {
        let bytes = encode_raw(&headers, body);
        match sink_write_all(self, bytes.as_slice()) {
            Ok(_) => Ok(bytes.len()),
            Err(e) => Err(e),
        }
    }

    /// Flush the sink and consume this writer, returning the inner sink.
    ///
    /// Necessary at the end of a gzip-compressed stream: the encoder can
    /// then be finished so its trailer is written. A flush failure
    /// surfaces as the error.
    pub fn into_inner(self) -> (r: Result<W, std::io::Error>) {
        let mut w = self;
        match sink_flush(&mut w) {
            Ok(_) => {
                let WarcWriter { writer, written: _ } = w;
                Ok(writer)
            },
            Err(e) => Err(e),
        }
    }
}

/// Relies on `std::io::Write::flush`: buffered bytes are pushed on to
/// the sink's target, and the bytes handed to the sink are unchanged.
#[verifier::external_body]
fn sink_flush<W: std::io::Write>(w: &mut WarcWriter<W>) -> (r: Result<(), std::io::Error>)
    ensures
        final(w).spec_written() == old(w).spec_written(),
{
    w.writer.flush()
}

/// Relies on `std::io::Write::write_all`: on success the entire buffer
/// was handed to the sink.
#[verifier::external_body]
fn sink_write_all<W: std::io::Write>(w: &mut WarcWriter<W>, buf: &[u8]) -> (r: Result<
    (),
    std::io::Error,
>)
    ensures
        r is Ok ==> final(w).spec_written() == old(w).spec_written() + buf@,
{
    w.writer.write_all(buf)
}

} // verus!
