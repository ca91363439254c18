//! The `WARC-Type` field.

use vstd::prelude::*;

use crate::strings::canon_chars;

verus! {

/// The type of a WARC record.
///
/// The standard types have dedicated variants; any other value is carried
/// by `Unknown`. A value's view is its canonical (lower-case) wire form,
/// and equality goes by that view.
#[allow(missing_docs)]
#[derive(Debug)]
pub enum RecordType {
    WarcInfo,
    Response,
    Resource,
    Request,
    Metadata,
    Revisit,
    Conversion,
    Continuation,
    Unknown(String),
}

impl View for RecordType {
    type V = Seq<char>;

    open spec fn view(&self) -> Seq<char> {
        match self {
            RecordType::WarcInfo => "warcinfo"@,
            RecordType::Response => "response"@,
            RecordType::Resource => "resource"@,
            RecordType::Request => "request"@,
            RecordType::Metadata => "metadata"@,
            RecordType::Revisit => "revisit"@,
            RecordType::Conversion => "conversion"@,
            RecordType::Continuation => "continuation"@,
            RecordType::Unknown(s) => s@,
        }
    }
}

impl RecordType {
    /// The canonical wire form of this record type.
    pub fn to_string(&self) -> (r: String)
        ensures
            r@ == self@,
    {
        match self {
            RecordType::WarcInfo => "warcinfo".to_owned(),
            RecordType::Response => "response".to_owned(),
            RecordType::Resource => "resource".to_owned(),
            RecordType::Request => "request".to_owned(),
            RecordType::Metadata => "metadata".to_owned(),
            RecordType::Revisit => "revisit".to_owned(),
            RecordType::Conversion => "conversion".to_owned(),
            RecordType::Continuation => "continuation".to_owned(),
            RecordType::Unknown(s) => s.clone(),
        }
    }

    /// Canonicalize `name` and choose the matching variant.
    pub fn from_name(name: &str) -> (r: RecordType)
        ensures
            r@ == canon_chars(name@),
    {
        let canon = crate::strings::canon_string(name);
        let c = canon.as_str();
        if crate::strings::str_eq(c, "warcinfo") {
            RecordType::WarcInfo
        } else if crate::strings::str_eq(c, "response") {
            RecordType::Response
        } else if crate::strings::str_eq(c, "resource") {
            RecordType::Resource
        } else if crate::strings::str_eq(c, "request") {
            RecordType::Request
        } else if crate::strings::str_eq(c, "metadata") {
            RecordType::Metadata
        } else if crate::strings::str_eq(c, "revisit") {
            RecordType::Revisit
        } else if crate::strings::str_eq(c, "conversion") {
            RecordType::Conversion
        } else if crate::strings::str_eq(c, "continuation") {
            RecordType::Continuation
        } else {
            RecordType::Unknown(canon)
        }
    }
}

impl Clone for RecordType {
    /// A clone is the same record type.
    fn clone(&self) -> (r: Self)
        ensures
            r == self,
    {
        match self {
            RecordType::WarcInfo => RecordType::WarcInfo,
            RecordType::Response => RecordType::Response,
            RecordType::Resource => RecordType::Resource,
            RecordType::Request => RecordType::Request,
            RecordType::Metadata => RecordType::Metadata,
            RecordType::Revisit => RecordType::Revisit,
            RecordType::Conversion => RecordType::Conversion,
            RecordType::Continuation => RecordType::Continuation,
            RecordType::Unknown(s) => RecordType::Unknown(s.clone()),
        }
    }
}

impl PartialEq for RecordType {
    /// Two record types are equal when their canonical forms are.
    fn eq(&self, other: &RecordType) -> (r: bool) {
        crate::strings::str_eq(self.to_string().as_str(), other.to_string().as_str())
    }
}

impl vstd::std_specs::cmp::PartialEqSpecImpl for RecordType {
    open spec fn obeys_eq_spec() -> bool {
        true
    }

    open spec fn eq_spec(&self, other: &RecordType) -> bool {
        self@ == other@
    }
}

} // verus!
