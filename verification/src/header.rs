//! WARC header names.
//!
//! A [`WarcHeader`] identifies one header field of a record. The standard
//! names have dedicated variants; any other token is carried by
//! [`WarcHeader::Unknown`]. A name's view is its canonical (lower-case) wire
//! form, and equality and lookup go by that view.

use vstd::prelude::*;

use crate::strings::{canon_chars, lower_chars};

verus! {

/// A WARC header name.
///
/// All standard names are camel-case versions of their wire form, with the
/// hyphens removed. `Unknown` holds any other name; [`WarcHeader::from_name`]
/// canonicalizes before choosing a variant, so names compare and look up
/// case-insensitively.
#[allow(missing_docs)]
#[derive(Debug)]
pub enum WarcHeader {
    ContentLength,
    ContentType,
    BlockDigest,
    ConcurrentTo,
    Date,
    Filename,
    IdentifiedPayloadType,
    IPAddress,
    PayloadDigest,
    Profile,
    RecordID,
    RefersTo,
    SegmentNumber,
    SegmentOriginID,
    SegmentTotalLength,
    TargetURI,
    Truncated,
    WarcType,
    WarcInfoID,
    Unknown(String),
}

impl View for WarcHeader {
    type V = Seq<char>;

    open spec fn view(&self) -> Seq<char> {
        match self {
            WarcHeader::ContentLength => "content-length"@,
            WarcHeader::ContentType => "content-type"@,
            WarcHeader::BlockDigest => "warc-block-digest"@,
            WarcHeader::ConcurrentTo => "warc-concurrent-to"@,
            WarcHeader::Date => "warc-date"@,
            WarcHeader::Filename => "warc-filename"@,
            WarcHeader::IdentifiedPayloadType => "warc-identified-payload-type"@,
            WarcHeader::IPAddress => "warc-ip-address"@,
            WarcHeader::PayloadDigest => "warc-payload-digest"@,
            WarcHeader::Profile => "warc-profile"@,
            WarcHeader::RecordID => "warc-record-id"@,
            WarcHeader::RefersTo => "warc-refers-to"@,
            WarcHeader::SegmentNumber => "warc-segment-number"@,
            WarcHeader::SegmentOriginID => "warc-segment-origin-id"@,
            WarcHeader::SegmentTotalLength => "warc-segment-total-length"@,
            WarcHeader::TargetURI => "warc-target-uri"@,
            WarcHeader::Truncated => "warc-truncated"@,
            WarcHeader::WarcType => "warc-type"@,
            WarcHeader::WarcInfoID => "warc-warcinfo-id"@,
            WarcHeader::Unknown(s) => s@,
        }
    }
}

impl WarcHeader {
    /// The canonical wire form of this name.
    pub fn to_string(&self) -> (r: String)
        ensures
            r@ == self@,
    {
        match self {
            WarcHeader::ContentLength => "content-length".to_owned(),
            WarcHeader::ContentType => "content-type".to_owned(),
            WarcHeader::BlockDigest => "warc-block-digest".to_owned(),
            WarcHeader::ConcurrentTo => "warc-concurrent-to".to_owned(),
            WarcHeader::Date => "warc-date".to_owned(),
            WarcHeader::Filename => "warc-filename".to_owned(),
            WarcHeader::IdentifiedPayloadType => "warc-identified-payload-type".to_owned(),
            WarcHeader::IPAddress => "warc-ip-address".to_owned(),
            WarcHeader::PayloadDigest => "warc-payload-digest".to_owned(),
            WarcHeader::Profile => "warc-profile".to_owned(),
            WarcHeader::RecordID => "warc-record-id".to_owned(),
            WarcHeader::RefersTo => "warc-refers-to".to_owned(),
            WarcHeader::SegmentNumber => "warc-segment-number".to_owned(),
            WarcHeader::SegmentOriginID => "warc-segment-origin-id".to_owned(),
            WarcHeader::SegmentTotalLength => "warc-segment-total-length".to_owned(),
            WarcHeader::TargetURI => "warc-target-uri".to_owned(),
            WarcHeader::Truncated => "warc-truncated".to_owned(),
            WarcHeader::WarcType => "warc-type".to_owned(),
            WarcHeader::WarcInfoID => "warc-warcinfo-id".to_owned(),
            WarcHeader::Unknown(s) => s.clone(),
        }
    }

    /// Whether this name's canonical form is `name`.
    pub fn is_named(&self, name: &str) -> (r: bool)
        ensures
            r == (self@ == name@),
    {
        let own = self.to_string();
        crate::strings::str_eq(own.as_str(), name)
    }

    /// Whether two names are the same header, by canonical form.
    pub fn same_name(&self, other: &WarcHeader) -> (r: bool)
        ensures
            r == (self@ == other@),
    {
        self.is_named(other.to_string().as_str())
    }

    /// Canonicalize `name` — fold it to lower case — and choose the
    /// matching variant.
    pub fn from_name(name: &str) -> (r: WarcHeader)
        ensures
            r@ == canon_chars(name@),
    {
        let canon = crate::strings::canon_string(name);
        let c = canon.as_str();
        if crate::strings::str_eq(c, "content-length") {
            WarcHeader::ContentLength
        } else if crate::strings::str_eq(c, "content-type") {
            WarcHeader::ContentType
        } else if crate::strings::str_eq(c, "warc-block-digest") {
            WarcHeader::BlockDigest
        } else if crate::strings::str_eq(c, "warc-concurrent-to") {
            WarcHeader::ConcurrentTo
        } else if crate::strings::str_eq(c, "warc-date") {
            WarcHeader::Date
        } else if crate::strings::str_eq(c, "warc-filename") {
            WarcHeader::Filename
        } else if crate::strings::str_eq(c, "warc-identified-payload-type") {
            WarcHeader::IdentifiedPayloadType
        } else if crate::strings::str_eq(c, "warc-ip-address") {
            WarcHeader::IPAddress
        } else if crate::strings::str_eq(c, "warc-payload-digest") {
            WarcHeader::PayloadDigest
        } else if crate::strings::str_eq(c, "warc-profile") {
            WarcHeader::Profile
        } else if crate::strings::str_eq(c, "warc-record-id") {
            WarcHeader::RecordID
        } else if crate::strings::str_eq(c, "warc-refers-to") {
            WarcHeader::RefersTo
        } else if crate::strings::str_eq(c, "warc-segment-number") {
            WarcHeader::SegmentNumber
        } else if crate::strings::str_eq(c, "warc-segment-origin-id") {
            WarcHeader::SegmentOriginID
        } else if crate::strings::str_eq(c, "warc-segment-total-length") {
            WarcHeader::SegmentTotalLength
        } else if crate::strings::str_eq(c, "warc-target-uri") {
            WarcHeader::TargetURI
        } else if crate::strings::str_eq(c, "warc-truncated") {
            WarcHeader::Truncated
        } else if crate::strings::str_eq(c, "warc-type") {
            WarcHeader::WarcType
        } else if crate::strings::str_eq(c, "warc-warcinfo-id") {
            WarcHeader::WarcInfoID
        } else {
            WarcHeader::Unknown(canon)
        }
    }
}

impl Clone for WarcHeader {
    /// A clone is the same name.
    fn clone(&self) -> (r: Self)
        ensures
            r == self,
    {
        match self {
            WarcHeader::ContentLength => WarcHeader::ContentLength,
            WarcHeader::ContentType => WarcHeader::ContentType,
            WarcHeader::BlockDigest => WarcHeader::BlockDigest,
            WarcHeader::ConcurrentTo => WarcHeader::ConcurrentTo,
            WarcHeader::Date => WarcHeader::Date,
            WarcHeader::Filename => WarcHeader::Filename,
            WarcHeader::IdentifiedPayloadType => WarcHeader::IdentifiedPayloadType,
            WarcHeader::IPAddress => WarcHeader::IPAddress,
            WarcHeader::PayloadDigest => WarcHeader::PayloadDigest,
            WarcHeader::Profile => WarcHeader::Profile,
            WarcHeader::RecordID => WarcHeader::RecordID,
            WarcHeader::RefersTo => WarcHeader::RefersTo,
            WarcHeader::SegmentNumber => WarcHeader::SegmentNumber,
            WarcHeader::SegmentOriginID => WarcHeader::SegmentOriginID,
            WarcHeader::SegmentTotalLength => WarcHeader::SegmentTotalLength,
            WarcHeader::TargetURI => WarcHeader::TargetURI,
            WarcHeader::Truncated => WarcHeader::Truncated,
            WarcHeader::WarcType => WarcHeader::WarcType,
            WarcHeader::WarcInfoID => WarcHeader::WarcInfoID,
            WarcHeader::Unknown(s) => WarcHeader::Unknown(s.clone()),
        }
    }
}

impl PartialEq for WarcHeader {
    /// Two names are equal when their canonical forms are.
    fn eq(&self, other: &WarcHeader) -> (r: bool) {
        self.same_name(other)
    }
}

impl vstd::std_specs::cmp::PartialEqSpecImpl for WarcHeader {
    open spec fn obeys_eq_spec() -> bool {
        true
    }

    open spec fn eq_spec(&self, other: &WarcHeader) -> bool {
        self@ == other@
    }
}

} // verus!
