//! Errors returned while reading, building, or validating records.

use vstd::prelude::*;

use crate::header::WarcHeader;

verus! {

#[verifier::external_type_specification]
#[verifier::external_body]
#[allow(missing_docs)]
pub struct ExIoError(std::io::Error);

/// An error found while reading or validating a WARC record.
#[derive(Debug)]
pub enum Error {
    /// The grammar could not recognize a header block, or a record's
    /// trailer was not the expected two CRLF pairs.
    ParseHeaders,
    /// A header required by the standard is missing from the record. The
    /// record was well-formed, but invalid.
    MissingHeader(WarcHeader),
    /// A required header is not well-formed according to the standard.
    MalformedHeader(WarcHeader, String),
    /// The underlying read from the data source failed.
    ReadData(std::io::Error),
    /// More data was read than expected by the header metadata. The record
    /// was well-formed, but invalid.
    ReadOverflow,
    /// The end of the record's body was found unexpectedly.
    UnexpectedEOB,
}

impl Error {
    /// A short description of the error.
    pub fn message(&self) -> (r: String)
        ensures
            self is ParseHeaders ==> r@ == "error parsing headers"@,
            self is MissingHeader ==> r@ == "missing required header"@,
            self is MalformedHeader ==> r@ == "malformed header"@,
            self is ReadData ==> r@ == "error reading data source"@,
            self is ReadOverflow ==> r@ == "read further than expected"@,
            self is UnexpectedEOB ==> r@ == "unexpected end of body"@,
    {
        match self {
            Error::ParseHeaders => "error parsing headers".to_owned(),
            Error::MissingHeader(_) => "missing required header".to_owned(),
            Error::MalformedHeader(_, _) => "malformed header".to_owned(),
            Error::ReadData(_) => "error reading data source".to_owned(),
            Error::ReadOverflow => "read further than expected".to_owned(),
            Error::UnexpectedEOB => "unexpected end of body".to_owned(),
        }
    }
}

} // verus!
