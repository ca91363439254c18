//! The byte source that records are read from.
//!
//! A [`ByteSource`] wraps a reader and carries, as a ghost sequence, the
//! bytes the source will yet deliver. The trusted read operations state
//! how each call relates what comes back to that sequence; everything
//! above them is verified against it.

use vstd::prelude::*;

use crate::error::Error;
use crate::parser::{first_where, lemma_first_where};

verus! {

/// The line-feed predicate, as one value for use with `first_where`.
pub open spec fn lf_pred() -> spec_fn(u8) -> bool {
    |b: u8| b == 10
}

/// What one `read_until` line feed read returns on content `s`: the
/// prefix up to and including the first line feed, or all of `s` if it
/// has none.
pub open spec fn line_take(s: Seq<u8>) -> Seq<u8> {
    let i = first_where(s, lf_pred());
    if i == s.len() {
        s
    } else {
        s.take(i + 1)
    }
}

/// A line read is empty only on empty content, and never longer than it.
pub proof fn lemma_line_take(s: Seq<u8>)
    ensures
        line_take(s).len() <= s.len(),
        s.len() > 0 ==> line_take(s).len() >= 1,
        line_take(s) == s.take(line_take(s).len() as int),
{
    lemma_first_where(s, lf_pred());
    let i = first_where(s, lf_pred());
    if i == s.len() {
        assert(s.take(s.len() as int) =~= s);
    }
}

/// A source of bytes: a reader, and the bytes it will yet deliver.
///
/// The model takes the source's content as fixed: a read hands out the
/// next bytes of it, and a read that returns nothing means the content
/// is exhausted. This holds of files, buffers and pipes read to their
/// end; a source that reports an end and later resumes is outside the
/// model.
pub struct ByteSource<R> {
    inner: R,
    content: Ghost<Seq<u8>>,
}

impl<R> ByteSource<R> {
    /// The bytes this source will yet deliver.
    pub closed spec fn remaining(&self) -> Seq<u8> {
        self.content@
    }

    /// Wrap a reader.
    pub fn new(inner: R) -> (r: ByteSource<R>) {
        let ghost c: Seq<u8> = arbitrary();
        ByteSource { inner, content: Ghost(c) }
    }
}

/// Relies on `std::io::BufRead::read_until`: it appends the bytes up to
/// and including the first line feed — or all remaining bytes if no line
/// feed comes before the end of input — and reports how many.
#[verifier::external_body]
pub(crate) fn source_read_line<R: std::io::BufRead>(
    src: &mut ByteSource<R>,
    buf: &mut Vec<u8>,
) -> (r: Result<usize, Error>)
    ensures
        match r {
            Ok(n) => {
                &&& final(buf)@ == old(buf)@ + line_take(old(src).remaining())
                &&& n == line_take(old(src).remaining()).len()
                &&& final(src).remaining() == old(src).remaining().skip(n as int)
            },
            Err(e) => e is ReadData,
        },
{
    match src.inner.read_until(10, buf) {
        Ok(n) => Ok(n),
        Err(e) => Err(Error::ReadData(e)),
    }
}

/// Relies on `std::io::Read::read`: it fills at most `max` bytes with the
/// next bytes of the input, and returns zero bytes for a positive `max`
/// only at the end of input.
#[verifier::external_body]
pub(crate) fn source_read_at_most<R: std::io::Read>(src: &mut ByteSource<R>, max: usize) -> (r:
    Result<Vec<u8>, Error>)
    ensures
        match r {
            Ok(v) => {
                &&& v@.len() <= max
                &&& v@.len() <= old(src).remaining().len()
                &&& v@ == old(src).remaining().take(v@.len() as int)
                &&& final(src).remaining() == old(src).remaining().skip(v@.len() as int)
                &&& (v@.len() == 0 && max > 0) ==> old(src).remaining().len() == 0
            },
            Err(e) => e is ReadData,
        },
{
    let mut buf = vec![0u8; max];
    match src.inner.read(&mut buf) {
        Ok(n) => {
            buf.truncate(n);
            Ok(buf)
        },
        Err(e) => Err(Error::ReadData(e)),
    }
}

/// Read and discard exactly `count` bytes.
pub(crate) fn drain_exact<R: std::io::Read>(src: &mut ByteSource<R>, count: u64) -> (r: Result<
    (),
    Error,
>)
    ensures
        match r {
            Ok(_) => old(src).remaining().len() >= count && final(src).remaining() == old(
                src,
            ).remaining().skip(count as int),
            Err(e) => e is ReadData || (e is UnexpectedEOB && old(src).remaining().len() < count),
        },
{
    let ghost s0 = src.remaining();
    let mut left: u64 = count;
    proof {
        assert(s0.skip(0) =~= s0);
    }
    loop
        invariant
            left <= count,
            s0 == old(src).remaining(),
            src.remaining() == s0.skip(count as int - left),
            s0.len() >= count - left,
        ensures
            left == 0,
            src.remaining() == s0.skip(count as int),
            s0.len() >= count,
        decreases left,
    {
        if left == 0 {
            break ;
        }
        let want: usize = if left < 65536 {
            left as usize
        } else {
            65536
        };
        let ghost pre = src.remaining();
        let ghost left_old = left;
        match source_read_at_most(src, want) {
            Err(e) => {
                return Err(e);
            },
            Ok(v) => {
                if v.len() == 0 {
                    proof {
                        assert(pre.len() == 0);
                        assert(pre.len() == s0.len() - (count - left));
                    }
                    return Err(Error::UnexpectedEOB);
                }
                left = left - (v.len() as u64);
                proof {
                    assert(pre.len() == s0.len() - (count - left_old));
                    assert(src.remaining() == pre.skip(v@.len() as int));
                    assert(pre.skip(v@.len() as int) =~= s0.skip(count as int - left));
                }
            },
        }
    }
    Ok(())
}

/// Read exactly `count` bytes.
pub(crate) fn read_exact<R: std::io::Read>(src: &mut ByteSource<R>, count: usize) -> (r: Result<
    Vec<u8>,
    Error,
>)
    ensures
        match r {
            Ok(v) => {
                &&& v@.len() == count
                &&& old(src).remaining().len() >= count
                &&& v@ == old(src).remaining().take(count as int)
                &&& final(src).remaining() == old(src).remaining().skip(count as int)
            },
            Err(e) => e is ReadData || (e is UnexpectedEOB && old(src).remaining().len() < count),
        },
{
    let ghost s0 = src.remaining();
    let mut buf: Vec<u8> = Vec::new();
    proof {
        assert(buf@ =~= s0.take(0));
        assert(s0.skip(0) =~= s0);
    }
    loop
        invariant
            buf@.len() <= count,
            buf@.len() <= s0.len(),
            s0 == old(src).remaining(),
            buf@ == s0.take(buf@.len() as int),
            src.remaining() == s0.skip(buf@.len() as int),
        ensures
            buf@.len() == count,
            buf@ == s0.take(count as int),
            s0.len() >= count,
            src.remaining() == s0.skip(count as int),
        decreases count - buf@.len(),
    {
        if buf.len() == count {
            break ;
        }
        let want: usize = count - buf.len();
        let ghost pre = src.remaining();
        let ghost blen_old = buf@.len() as int;
        match source_read_at_most(src, want) {
            Err(e) => {
                return Err(e);
            },
            Ok(v) => {
                if v.len() == 0 {
                    proof {
                        assert(pre.len() == 0);
                        assert(pre.len() == s0.len() - buf@.len());
                    }
                    return Err(Error::UnexpectedEOB);
                }
                buf.extend_from_slice(v.as_slice());
                proof {
                    assert(pre.len() == s0.len() - blen_old);
                    assert(v@ == pre.take(v@.len() as int));
                    assert(buf@ =~= s0.take(buf@.len() as int)) by {
                        assert(forall|j: int|
                            0 <= j < v@.len() ==> pre[j] == s0[blen_old + j]);
                    }
                    assert(src.remaining() == pre.skip(v@.len() as int));
                    assert(pre.skip(v@.len() as int) =~= s0.skip(buf@.len() as int));
                }
            },
        }
    }
    Ok(buf)
}

/// Read up to `count` bytes: all of them, or everything the source still
/// has if that is less.
pub(crate) fn read_up_to<R: std::io::Read>(src: &mut ByteSource<R>, count: u64) -> (r: Result<
    Vec<u8>,
    Error,
>)
    ensures
        match r {
            Ok(v) => {
                &&& v@.len() == if count <= old(src).remaining().len() {
                    count as int
                } else {
                    old(src).remaining().len() as int
                }
                &&& v@ == old(src).remaining().take(v@.len() as int)
                &&& final(src).remaining() == old(src).remaining().skip(v@.len() as int)
            },
            Err(e) => e is ReadData,
        },
{
    let ghost s0 = src.remaining();
    let mut buf: Vec<u8> = Vec::new();
    let mut left: u64 = count;
    proof {
        assert(buf@ =~= s0.take(0));
        assert(s0.skip(0) =~= s0);
    }
    loop
        invariant
            left <= count,
            buf@.len() == count - left,
            buf@.len() <= s0.len(),
            s0 == old(src).remaining(),
            buf@ == s0.take(buf@.len() as int),
            src.remaining() == s0.skip(buf@.len() as int),
        ensures
            buf@.len() == if count <= s0.len() {
                count as int
            } else {
                s0.len() as int
            },
            buf@ == s0.take(buf@.len() as int),
            src.remaining() == s0.skip(buf@.len() as int),
        decreases left,
    {
        if left == 0 {
            break ;
        }
        let want: usize = if left < 65536 {
            left as usize
        } else {
            65536
        };
        let ghost pre = src.remaining();
        let ghost blen_old = buf@.len() as int;
        match source_read_at_most(src, want) {
            Err(e) => {
                return Err(e);
            },
            Ok(v) => {
                if v.len() == 0 {
                    proof {
                        assert(pre.len() == 0);
                        assert(pre.len() == s0.len() - buf@.len());
                    }
                    break ;
                }
                left = left - (v.len() as u64);
                buf.extend_from_slice(v.as_slice());
                proof {
                    assert(pre.len() == s0.len() - blen_old);
                    assert(v@ == pre.take(v@.len() as int));
                    assert(buf@ =~= s0.take(buf@.len() as int)) by {
                        assert(forall|j: int|
                            0 <= j < v@.len() ==> pre[j] == s0[blen_old + j]);
                    }
                    assert(src.remaining() == pre.skip(v@.len() as int));
                    assert(pre.skip(v@.len() as int) =~= s0.skip(buf@.len() as int));
                }
            },
        }
    }
    Ok(buf)
}

} // verus!
