//! The `WARC-Truncated` field.

use vstd::prelude::*;

use crate::strings::canon_chars;

verus! {

/// The reason a record's content was truncated.
///
/// The standard reasons have dedicated variants; any other value is carried
/// by `Unknown`. A value's view is its canonical (lower-case) wire form,
/// and equality goes by that view.
#[allow(missing_docs)]
#[derive(Debug)]
pub enum TruncatedType {
    Length,
    Time,
    Disconnect,
    Unspecified,
    Unknown(String),
}

impl View for TruncatedType {
    type V = Seq<char>;

    open spec fn view(&self) -> Seq<char> {
        match self {
            TruncatedType::Length => "length"@,
            TruncatedType::Time => "time"@,
            TruncatedType::Disconnect => "disconnect"@,
            TruncatedType::Unspecified => "unspecified"@,
            TruncatedType::Unknown(s) => s@,
        }
    }
}

impl TruncatedType {
    /// The canonical wire form of this truncation reason.
    pub fn to_string(&self) -> (r: String)
        ensures
            r@ == self@,
    {
        match self {
            TruncatedType::Length => "length".to_owned(),
            TruncatedType::Time => "time".to_owned(),
            TruncatedType::Disconnect => "disconnect".to_owned(),
            TruncatedType::Unspecified => "unspecified".to_owned(),
            TruncatedType::Unknown(s) => s.clone(),
        }
    }

    /// Canonicalize `name` and choose the matching variant.
    pub fn from_name(name: &str) -> (r: TruncatedType)
        ensures
            r@ == canon_chars(name@),
    {
        let canon = crate::strings::canon_string(name);
        let c = canon.as_str();
        if crate::strings::str_eq(c, "length") {
            TruncatedType::Length
        } else if crate::strings::str_eq(c, "time") {
            TruncatedType::Time
        } else if crate::strings::str_eq(c, "disconnect") {
            TruncatedType::Disconnect
        } else if crate::strings::str_eq(c, "unspecified") {
            TruncatedType::Unspecified
        } else {
            TruncatedType::Unknown(canon)
        }
    }
}

impl Clone for TruncatedType {
    /// A clone is the same truncation reason.
    fn clone(&self) -> (r: Self)
        ensures
            r == self,
    {
        match self {
            TruncatedType::Length => TruncatedType::Length,
            TruncatedType::Time => TruncatedType::Time,
            TruncatedType::Disconnect => TruncatedType::Disconnect,
            TruncatedType::Unspecified => TruncatedType::Unspecified,
            TruncatedType::Unknown(s) => TruncatedType::Unknown(s.clone()),
        }
    }
}

impl PartialEq for TruncatedType {
    /// Two truncation reasons are equal when their canonical forms are.
    fn eq(&self, other: &TruncatedType) -> (r: bool) {
        crate::strings::str_eq(self.to_string().as_str(), other.to_string().as_str())
    }
}

impl vstd::std_specs::cmp::PartialEqSpecImpl for TruncatedType {
    open spec fn obeys_eq_spec() -> bool {
        true
    }

    open spec fn eq_spec(&self, other: &TruncatedType) -> bool {
        self@ == other@
    }
}

} // verus!
