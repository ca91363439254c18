//! A library for reading and writing WARC (Web ARChive) files.
//!
//! A WARC file is a sequence of self-delimiting records. Each record is a
//! text header block (a version line and `token: value` header lines closed
//! by a blank line) followed by a binary body of declared length and a
//! two-CRLF trailer.

use vstd::prelude::*;

pub mod date;
pub mod error;
pub mod header;
pub mod header_map;
pub mod laws;
pub mod parser;
pub mod record;
pub mod record_type;
pub mod source;
pub mod warc_reader;
pub mod strings;
pub mod truncated_type;
pub mod version;
pub mod warc_writer;

pub use date::WarcDate;
pub use error::Error;
pub use header::WarcHeader;
pub use header_map::HeaderMap;
pub use record::{
    BodyKind, BufferedBody, EmptyBody, RawRecordHeader, Record, RecordBuilder, StreamingBody,
};
pub use record_type::RecordType;
pub use truncated_type::TruncatedType;
pub use version::WarcVersion;
pub use warc_reader::{RawRecordIter, RecordIter, StreamingIter, WarcReader};
pub use warc_writer::WarcWriter;

verus! {

/// Decimal digits of `n`, most significant first, as ASCII bytes.
pub open spec fn spec_u64_digits(n: nat) -> Seq<u8>
    decreases n,
{
    if n < 10 {
        seq![(48 + n) as u8]
    } else {
        spec_u64_digits(n / 10).push((48 + n % 10) as u8)
    }
}

/// Render `n` in decimal, most significant digit first.
pub fn u64_digits(n: u64) -> (r: Vec<u8>)
    ensures
        r@ == spec_u64_digits(n as nat),
{
    let mut rev: Vec<u8> = Vec::new();
    let mut m: u64 = n;
    while m >= 10
        invariant
            spec_u64_digits(n as nat) == spec_u64_digits(m as nat) + rev@.reverse(),
        decreases m,
    {
        let d: u8 = (m % 10) as u8;
        rev.push(48 + d);
        proof {
            assert(rev@.reverse() =~= seq![(48 + (m as nat) % 10) as u8]
                + rev@.drop_last().reverse());
        }
        m = m / 10;
    }
    let d: u8 = m as u8;
    rev.push(48 + d);
    proof {
        assert(rev@.reverse() =~= seq![(48 + (m as nat)) as u8] + rev@.drop_last().reverse());
        assert(spec_u64_digits(m as nat) == seq![(48 + (m as nat)) as u8]);
        assert(spec_u64_digits(n as nat) =~= rev@.reverse());
    }
    let mut r: Vec<u8> = Vec::new();
    let mut i: usize = rev.len();
    while i > 0
        invariant
            i <= rev@.len(),
            r@ == rev@.subrange(i as int, rev@.len() as int).reverse(),
        decreases i,
    {
        i = i - 1;
        r.push(rev[i]);
        proof {
            assert(r@ =~= rev@.subrange(i as int, rev@.len() as int).reverse());
        }
    }
    proof {
        assert(rev@.subrange(0, rev@.len() as int) =~= rev@);
    }
    r
}

/// Decimal digits are ASCII.
pub proof fn lemma_u64_digits_ascii(n: nat)
    ensures
        strings::is_ascii_bytes(spec_u64_digits(n)),
    decreases n,
{
    if n >= 10 {
        lemma_u64_digits_ascii(n / 10);
        let s = spec_u64_digits(n / 10);
        let w = spec_u64_digits(n);
        assert forall|i: int| 0 <= i < w.len() implies w[i] < 128 by {
            if i < s.len() {
                assert(s[i] < 128);
            }
        }
    }
}

} // verus!
