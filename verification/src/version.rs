//! The version token of a record, with its wire prefix.

use vstd::prelude::*;
use vstd::string::StringExecFns;

verus! {

/// A WARC version token, as written at the head of a record.
#[derive(Debug)]
pub struct WarcVersion<'a>(pub &'a str);

impl<'a> WarcVersion<'a> {
    /// The full version line text, `WARC/` followed by the token.
    pub fn to_string(&self) -> (r: String)
        ensures
            r@ == "WARC/"@ + self.0@,
    {
        let mut s = String::new();
        s.append("WARC/");
        s.append(self.0);
        proof {
            assert(s@ =~= "WARC/"@ + self.0@);
        }
        s
    }
}

impl<'a> PartialEq for WarcVersion<'a> {
    /// Two versions are equal when their tokens are.
    fn eq(&self, other: &WarcVersion<'a>) -> (r: bool) {
        crate::strings::str_eq(self.0, other.0)
    }
}

impl<'a> vstd::std_specs::cmp::PartialEqSpecImpl for WarcVersion<'a> {
    open spec fn obeys_eq_spec() -> bool {
        true
    }

    open spec fn eq_spec(&self, other: &WarcVersion<'a>) -> bool {
        self.0@ == other.0@
    }
}

} // verus!
