//! The WARC record model.
//!
//! A [`RawRecordHeader`] is a well-formed but unvalidated header block. A
//! [`Record`] promotes the record id, type, date and truncation reason to
//! typed fields — the raw map never holds those keys, so a header can never
//! disagree with its typed value — and derives the content length from the
//! body itself.

use vstd::prelude::*;

use crate::date::WarcDate;
use crate::error::Error;
use crate::header::WarcHeader;
use crate::header_map::{map_has, map_insert, map_remove, map_val, HeaderMap};
use crate::record_type::RecordType;
use crate::strings::chars_of_ascii;
use crate::truncated_type::TruncatedType;
use vstd::utf8::{decode_utf8, valid_utf8};

verus! {

/// A header block of a single WARC record as parsed from a data stream.
///
/// It is guaranteed to be well-formed, but may not be valid according to
/// the specification.
#[derive(Debug)]
pub struct RawRecordHeader {
    /// The WARC standard version this record reports conformance to.
    pub version: String,
    /// All headers that are part of this record.
    pub headers: HeaderMap,
}

impl RawRecordHeader {
    /// An empty header block carrying `version`.
    pub fn new(version: &str) -> (r: RawRecordHeader)
        ensures
            r.version@ == version@,
            r.headers@.len() == 0,
            r.headers.wf(),
    {
        RawRecordHeader { version: version.to_owned(), headers: HeaderMap::new() }
    }
}

impl Clone for RawRecordHeader {
    /// A clone carries the same version and entries.
    fn clone(&self) -> (r: Self)
        ensures
            r.version@ == self.version@,
            r.headers@ == self.headers@,
    {
        RawRecordHeader { version: self.version.clone(), headers: self.headers.clone() }
    }
}

impl PartialEq for RawRecordHeader {
    /// Two header blocks are equal when version and entries are.
    fn eq(&self, other: &RawRecordHeader) -> (r: bool) {
        crate::strings::str_eq(self.version.as_str(), other.version.as_str()) && self.headers
            == other.headers
    }
}

impl vstd::std_specs::cmp::PartialEqSpecImpl for RawRecordHeader {
    open spec fn obeys_eq_spec() -> bool {
        true
    }

    open spec fn eq_spec(&self, other: &RawRecordHeader) -> bool {
        self.version@ == other.version@ && self.headers@ == other.headers@
    }
}

/// How the body of a record is represented.
pub trait BodyKind {
    /// The number of body bytes this representation stands for.
    spec fn spec_len(&self) -> nat;

    /// The content length of the body.
    fn content_length(&self) -> (r: u64)
        ensures
            r == self.spec_len(),
    ;
}

/// A body buffered fully in memory.
#[derive(Debug)]
pub struct BufferedBody(pub Vec<u8>);

impl BodyKind for BufferedBody {
    open spec fn spec_len(&self) -> nat {
        self.0@.len()
    }

    fn content_length(&self) -> (r: u64)
        ensures
            r == self.spec_len(),
    {
        self.0.len() as u64
    }
}

impl Clone for BufferedBody {
    /// A clone carries the same bytes.
    fn clone(&self) -> (r: Self)
        ensures
            r.0@ == self.0@,
    {
        BufferedBody(self.0.clone())
    }
}

impl PartialEq for BufferedBody {
    /// Two buffered bodies are equal when their bytes are.
    fn eq(&self, other: &BufferedBody) -> (r: bool) {
        crate::strings::bytes_eq(self.0.as_slice(), other.0.as_slice())
    }
}

impl vstd::std_specs::cmp::PartialEqSpecImpl for BufferedBody {
    open spec fn obeys_eq_spec() -> bool {
        true
    }

    open spec fn eq_spec(&self, other: &BufferedBody) -> bool {
        self.0@ == other.0@
    }
}

/// A zero-length body.
#[derive(Clone, Copy, Debug)]
pub struct EmptyBody();

impl BodyKind for EmptyBody {
    open spec fn spec_len(&self) -> nat {
        0
    }

    fn content_length(&self) -> (r: u64)
        ensures
            r == self.spec_len(),
    {
        0
    }
}

/// The decimal text of `n`, as chars.
pub open spec fn spec_u64_chars(n: nat) -> Seq<char> {
    chars_of_ascii(crate::spec_u64_digits(n))
}

/// A single WARC record.
///
/// The type parameter is the body representation: [`EmptyBody`],
/// [`BufferedBody`], or a streaming body. The record id, type, date and
/// truncation reason live in typed fields, never in the raw header map;
/// the content length is derived from the body and cannot be set to a
/// different value.
#[derive(Debug)]
pub struct Record<T> {
    headers: RawRecordHeader,
    record_date: WarcDate,
    record_id: String,
    record_type: RecordType,
    truncated_type: Option<TruncatedType>,
    body: T,
}

impl<T> Record<T> {
    /// The raw header map holds none of the promoted names, its keys are
    /// unique, and the date names a real moment.
    pub open spec fn wf(&self) -> bool {
        &&& self.spec_headers().wf()
        &&& !map_has(self.spec_headers()@, "content-length"@)
        &&& !map_has(self.spec_headers()@, "warc-type"@)
        &&& !map_has(self.spec_headers()@, "warc-record-id"@)
        &&& !map_has(self.spec_headers()@, "warc-date"@)
        &&& !map_has(self.spec_headers()@, "warc-truncated"@)
        &&& self.spec_date().valid()
    }

    /// The raw header map.
    pub closed spec fn spec_headers(&self) -> HeaderMap {
        self.headers.headers
    }

    /// The version text.
    pub closed spec fn spec_version(&self) -> Seq<char> {
        self.headers.version@
    }

    /// The record date.
    pub closed spec fn spec_date(&self) -> WarcDate {
        self.record_date
    }

    /// The record id text.
    pub closed spec fn spec_id(&self) -> Seq<char> {
        self.record_id@
    }

    /// The record type, by canonical name.
    pub closed spec fn spec_type(&self) -> Seq<char> {
        self.record_type@
    }

    /// The truncation reason, by canonical name, if one is set.
    pub closed spec fn spec_truncated(&self) -> Option<Seq<char>> {
        match self.truncated_type {
            Some(t) => Some(t@),
            None => None,
        }
    }

    /// The body representation.
    pub closed spec fn spec_body(&self) -> T {
        self.body
    }

    /// Return the WARC version string of this record.
    pub fn warc_version(&self) -> (r: &str)
        ensures
            r@ == self.spec_version(),
    {
        self.headers.version.as_str()
    }

    /// Set the WARC version string of this record.
    pub fn set_warc_version(&mut self, version: &str)
        ensures
            final(self).spec_version() == version@,
            unchanged_but_version(*old(self), *final(self)),
    {
        self.headers.version = version.to_owned();
    }

    /// Return the WARC-Record-ID header for this record.
    pub fn warc_id(&self) -> (r: &str)
        ensures
            r@ == self.spec_id(),
    {
        self.record_id.as_str()
    }

    /// Set the WARC-Record-ID header for this record.
    ///
    /// Note that this value is **not** checked for validity.
    pub fn set_warc_id(&mut self, id: &str)
        ensures
            final(self).spec_id() == id@,
            unchanged_but_id(*old(self), *final(self)),
    {
        self.record_id = id.to_owned();
    }

    /// Return the WARC-Type header for this record.
    pub fn warc_type(&self) -> (r: &RecordType)
        ensures
            r@ == self.spec_type(),
    {
        &self.record_type
    }

    /// Set the WARC-Type header for this record.
    pub fn set_warc_type(&mut self, type_: RecordType)
        ensures
            final(self).spec_type() == type_@,
            unchanged_but_type(*old(self), *final(self)),
    {
        self.record_type = type_;
    }

    /// Return the WARC-Date header for this record.
    pub fn date(&self) -> (r: &WarcDate)
        ensures
            r == self.spec_date(),
    {
        &self.record_date
    }

    /// Set the WARC-Date header for this record.
    pub fn set_date(&mut self, date: WarcDate)
        requires
            date.valid(),
        ensures
            final(self).spec_date() == date,
            unchanged_but_date(*old(self), *final(self)),
    {
        self.record_date = date;
    }

    /// Return the WARC-Truncated header for this record.
    pub fn truncated_type(&self) -> (r: &Option<TruncatedType>)
        ensures
            match r {
                Some(t) => self.spec_truncated() == Some(t@),
                None => self.spec_truncated() is None,
            },
    {
        &self.truncated_type
    }

    /// Set the WARC-Truncated header for this record.
    pub fn set_truncated_type(&mut self, truncated_type: TruncatedType)
        ensures
            final(self).spec_truncated() == Some(truncated_type@),
            unchanged_but_truncated(*old(self), *final(self)),
    {
        self.truncated_type = Some(truncated_type);
    }

    /// Remove the WARC-Truncated header for this record.
    pub fn clear_truncated_type(&mut self)
        ensures
            final(self).spec_truncated() is None,
            unchanged_but_truncated(*old(self), *final(self)),
    {
        self.truncated_type = None;
    }
}

impl<T: BodyKind> Record<T> {
    /// Return the WARC header requested if present in this record, or
    /// `None`.
    ///
    /// The content length is derived from the body; the record id, type,
    /// date and truncation reason are read from their typed fields. Any
    /// other name is looked up in the raw map.
    pub fn header(&self, header: WarcHeader) -> (r: Option<String>)
        requires
            self.wf(),
        ensures
            header@ == "content-length"@ ==> (r matches Some(s) && s@ == spec_u64_chars(
                self.spec_body().spec_len(),
            )),
            header@ == "warc-record-id"@ ==> (r matches Some(s) && s@ == self.spec_id()),
            header@ == "warc-type"@ ==> (r matches Some(s) && s@ == self.spec_type()),
            header@ == "warc-date"@ ==> (r matches Some(s) && s@
                == crate::date::spec_date_chars(self.spec_date())),
            header@ == "warc-truncated"@ ==> match self.spec_truncated() {
                Some(t) => r matches Some(s) && s@ == t,
                None => r is None,
            },
            !promoted_name(header@) ==> match r {
                Some(s) => map_has(self.spec_headers()@, header@) && (valid_utf8(
                    map_val(self.spec_headers()@, header@),
                ) ==> s@ == decode_utf8(map_val(self.spec_headers()@, header@))),
                None => !map_has(self.spec_headers()@, header@),
            },
    {
        proof {
            lemma_promoted_distinct();
        }
        if header.is_named("content-length") {
            let digits = crate::u64_digits(self.body.content_length());
            proof {
                crate::lemma_u64_digits_ascii(self.spec_body().spec_len());
            }
            Some(crate::strings::ascii_to_string(digits.as_slice()))
        } else if header.is_named("warc-record-id") {
            Some(self.record_id.clone())
        } else if header.is_named("warc-type") {
            Some(self.record_type.to_string())
        } else if header.is_named("warc-date") {
            Some(self.record_date.to_string())
        } else if header.is_named("warc-truncated") {
            match &self.truncated_type {
                Some(t) => Some(t.to_string()),
                None => None,
            }
        } else {
            match self.headers.headers.get(&header) {
                Some(v) => Some(crate::strings::bytes_to_string_lossy(v.as_slice())),
                None => None,
            }
        }
    }

    /// Set a WARC header in this record, returning the previous value if
    /// present.
    ///
    /// The record id, type, date and truncation reason update their typed
    /// fields; the date must be an RFC 3339 date-time. The content length
    /// is derived from the body, so setting it is rejected unless the
    /// value equals the body's actual length. Any other name goes to the
    /// raw map.
    pub fn set_header(&mut self, header: WarcHeader, value: &str) -> (r: Result<
        Option<String>,
        Error,
    >)
        requires
            old(self).wf(),
        ensures
            final(self).wf(),
            header@ == "warc-date"@ ==> match r {
                Ok(o) => {
                    &&& o matches Some(s) && s@ == crate::date::spec_date_chars(
                        old(self).spec_date(),
                    )
                    &&& crate::date::rfc3339_fields_of(value@) == Some(
                        final(self).spec_date().spec_fields(),
                    )
                    &&& unchanged_but_date(*old(self), *final(self))
                },
                Err(e) => {
                    &&& e matches Error::MalformedHeader(h, _) && h@ == "warc-date"@
                    &&& !crate::date::spec_date_text_ok(value@)
                    &&& *final(self) == *old(self)
                },
            },
            header@ == "warc-record-id"@ ==> (r matches Ok(o) && o matches Some(s) && s@ == old(
                self,
            ).spec_id() && final(self).spec_id() == value@ && unchanged_but_id(
                *old(self),
                *final(self),
            )),
            header@ == "warc-type"@ ==> (r matches Ok(o) && o matches Some(s) && s@ == old(
                self,
            ).spec_type() && final(self).spec_type() == crate::strings::canon_chars(value@)
                && unchanged_but_type(*old(self), *final(self))),
            header@ == "warc-truncated"@ ==> (r matches Ok(o) && (match old(
                self,
            ).spec_truncated() {
                Some(t) => o matches Some(s) && s@ == t,
                None => o is None,
            }) && final(self).spec_truncated() == Some(crate::strings::canon_chars(value@))
                && unchanged_but_truncated(*old(self), *final(self))),
            header@ == "content-length"@ ==> {
                &&& *final(self) == *old(self)
                &&& match r {
                    Ok(o) => o matches Some(s) && s@ == value@ && crate::parser::spec_parse_u64(
                        vstd::utf8::encode_utf8(value@),
                    ) == Some(old(self).spec_body().spec_len() as u64),
                    Err(e) => e matches Error::MalformedHeader(h, _) && h@ == "content-length"@
                        && crate::parser::spec_parse_u64(vstd::utf8::encode_utf8(value@)) != Some(
                        old(self).spec_body().spec_len() as u64,
                    ),
                }
            },
            !promoted_name(header@) ==> {
                &&& final(self).spec_headers()@ == map_insert(
                    old(self).spec_headers()@,
                    header@,
                    vstd::utf8::encode_utf8(value@),
                )
                &&& unchanged_but_headers(*old(self), *final(self))
                &&& match r {
                    Ok(Some(s)) => map_has(old(self).spec_headers()@, header@) && (valid_utf8(
                        map_val(old(self).spec_headers()@, header@),
                    ) ==> s@ == decode_utf8(map_val(old(self).spec_headers()@, header@))),
                    Ok(None) => !map_has(old(self).spec_headers()@, header@),
                    Err(_) => false,
                }
            },
    {
        proof {
            lemma_promoted_distinct();
        }
        if header.is_named("warc-date") {
            match WarcDate::parse(value) {
                Some(d) => {
                    let old_s = self.record_date.to_string();
                    self.record_date = d;
                    Ok(Some(old_s))
                },
                None => Err(
                    Error::MalformedHeader(
                        WarcHeader::Date,
                        "not an ISO 8601 datestamp".to_owned(),
                    ),
                ),
            }
        } else if header.is_named("warc-record-id") {
            let old_id = self.record_id.clone();
            self.record_id = value.to_owned();
            Ok(Some(old_id))
        } else if header.is_named("warc-type") {
            let old_t = self.record_type.to_string();
            self.record_type = RecordType::from_name(value);
            Ok(Some(old_t))
        } else if header.is_named("warc-truncated") {
            let old_t = match &self.truncated_type {
                Some(t) => Some(t.to_string()),
                None => None,
            };
            self.truncated_type = Some(TruncatedType::from_name(value));
            Ok(old_t)
        } else if header.is_named("content-length") {
            match crate::parser::parse_u64(value.as_bytes()) {
                Some(n) => {
                    if n != self.body.content_length() {
                        Err(
                            Error::MalformedHeader(
                                WarcHeader::ContentLength,
                                "content length != body size".to_owned(),
                            ),
                        )
                    } else {
                        Ok(Some(value.to_owned()))
                    }
                },
                None => Err(
                    Error::MalformedHeader(
                        WarcHeader::ContentLength,
                        "not an integer between 0 and 2^64-1".to_owned(),
                    ),
                ),
            }
        } else {
            let ghost m0 = self.spec_headers()@;
            let bytes = vstd::slice::slice_to_vec(value.as_bytes());
            let prev = self.headers.headers.insert(header, bytes);
            proof {
                crate::header_map::lemma_map_insert_props(
                    m0,
                    header@,
                    vstd::utf8::encode_utf8(value@),
                );
            }
            match prev {
                Some(v) => Ok(Some(crate::strings::bytes_to_string_lossy(v.as_slice()))),
                None => Ok(None),
            }
        }
    }

    /// Return the Content-Length header for this record.
    ///
    /// This value is guaranteed to match the actual length of the body.
    pub fn content_length(&self) -> (r: u64)
        ensures
            r == self.spec_body().spec_len(),
    {
        self.body.content_length()
    }
}

impl<T: BodyKind> Record<T> {
    /// Create a new empty record with default values.
    ///
    /// The record returned contains an empty body, a freshly generated
    /// record id, the current moment as its date, type `resource`, and
    /// content length zero.
    pub fn new() -> (r: Record<EmptyBody>)
        ensures
            r.wf(),
            r.spec_version() == "WARC/1.0"@,
            r.spec_headers()@.len() == 0,
            r.spec_type() == "resource"@,
            r.spec_truncated() is None,
            spec_record_id_shape(r.spec_id()),
    {
        Record::<EmptyBody>::default()
    }

    /// Create a new record with a known body.
    ///
    /// The record returned carries the passed bytes and the same default
    /// fields as a new empty record.
    pub fn with_body(body: Vec<u8>) -> (r: Record<BufferedBody>)
        ensures
            r.wf(),
            r.spec_version() == "WARC/1.0"@,
            r.spec_headers()@.len() == 0,
            r.spec_type() == "resource"@,
            r.spec_truncated() is None,
            spec_record_id_shape(r.spec_id()),
            r.spec_body().0@ == body@,
    {
        let mut r = Record::<BufferedBody>::default();
        r.body = BufferedBody(body);
        r
    }

    /// Generate and return a new value suitable for use in the
    /// WARC-Record-ID header: an angle-bracket-wrapped URN built from a
    /// random UUID.
    ///
    /// Where the system provides no randomness, the nil UUID stands in,
    /// and the id is no longer unique.
    pub fn generate_record_id() -> (r: String)
        ensures
            spec_record_id_shape(r@),
    {
        let urn = match random_urn() {
            Some(u) => u,
            None => nil_urn(),
        };
        let mut s = String::new();
        s.append("<");
        s.append(urn.as_str());
        s.append(">");
        proof {
            reveal_strlit("<");
            reveal_strlit(">");
            assert("<"@.len() == 1);
            assert(">"@.len() == 1);
            assert(s@[0] == '<');
            assert(s@[46] == '>');
            assert(s@.subrange(1, 46) =~= urn@);
        }
        s
    }
}

/// The shape of a URN-form UUID: `urn:uuid:` and then 36 lower-case
/// hyphenated hex digits.
pub open spec fn spec_urn_shape(s: Seq<char>) -> bool {
    &&& s.len() == 45
    &&& s.take(9) == "urn:uuid:"@
    &&& s[17] == '-' && s[22] == '-' && s[27] == '-' && s[32] == '-'
    &&& forall|i: int|
        9 <= i < 45 && i != 17 && i != 22 && i != 27 && i != 32 ==> (('0' <= #[trigger] s[i]
            && s[i] <= '9') || ('a' <= s[i] && s[i] <= 'f'))
}

/// The shape of a generated record id: an angle-bracket-wrapped URN.
pub open spec fn spec_record_id_shape(s: Seq<char>) -> bool {
    &&& s.len() == 47
    &&& s[0] == '<'
    &&& s[46] == '>'
    &&& spec_urn_shape(s.subrange(1, 46))
}

/// The URN form of the nil UUID.
fn nil_urn() -> (r: String)
    ensures
        spec_urn_shape(r@),
{
    let r = "urn:uuid:00000000-0000-0000-0000-000000000000".to_owned();
    proof {
        reveal_strlit("urn:uuid:00000000-0000-0000-0000-000000000000");
        reveal_strlit("urn:uuid:");
        assert(r@.len() == 45);
        assert(r@.take(9) =~= "urn:uuid:"@);
    }
    r
}

/// Relies on `getrandom::fill` and uuid's `Builder::from_random_bytes`
/// with its URN display form: sixteen random bytes make a version-4
/// UUID, shown as `urn:uuid:` and 36 lower-case hyphenated hex digits;
/// `None` where the system gives no randomness.
#[verifier::external_body]
fn random_urn() -> (r: Option<String>)
    ensures
        r matches Some(s) ==> spec_urn_shape(s@),
{
    let mut bytes = [0u8; 16];
    if getrandom::fill(&mut bytes).is_err() {
        return None;
    }
    Some(format!("{}", uuid::Builder::from_random_bytes(bytes).into_uuid().urn()))
}

impl Default for Record<EmptyBody> {
    /// A fresh record: empty body, generated id, the current moment,
    /// type `resource`.
    fn default() -> (r: Self)
        ensures
            r.wf(),
            r.spec_version() == "WARC/1.0"@,
            r.spec_headers()@.len() == 0,
            r.spec_type() == "resource"@,
            r.spec_truncated() is None,
            spec_record_id_shape(r.spec_id()),
    {
        proof {
            crate::header_map::lemma_map_idx(Seq::<(Seq<char>, Seq<u8>)>::empty(), "x"@);
        }
        let r = Record {
            headers: RawRecordHeader::new("WARC/1.0"),
            record_date: WarcDate::now(),
            record_id: Record::<EmptyBody>::generate_record_id(),
            record_type: RecordType::Resource,
            truncated_type: None,
            body: EmptyBody(),
        };
        proof {
            lemma_empty_map_has_nothing(r.spec_headers()@);
        }
        r
    }
}

impl Default for Record<BufferedBody> {
    /// A fresh record: empty buffered body, generated id, the current
    /// moment, type `resource`.
    fn default() -> (r: Self)
        ensures
            r.wf(),
            r.spec_version() == "WARC/1.0"@,
            r.spec_headers()@.len() == 0,
            r.spec_type() == "resource"@,
            r.spec_truncated() is None,
            spec_record_id_shape(r.spec_id()),
            r.spec_body().0@.len() == 0,
    {
        let r = Record {
            headers: RawRecordHeader::new("WARC/1.0"),
            record_date: WarcDate::now(),
            record_id: Record::<EmptyBody>::generate_record_id(),
            record_type: RecordType::Resource,
            truncated_type: None,
            body: BufferedBody(Vec::new()),
        };
        proof {
            lemma_empty_map_has_nothing(r.spec_headers()@);
        }
        r
    }
}

/// An empty map holds no name.
proof fn lemma_empty_map_has_nothing(m: crate::header_map::HeaderEntries)
    requires
        m.len() == 0,
    ensures
        forall|n: Seq<char>| !map_has(m, n),
        crate::header_map::map_unique(m),
{
}

impl Record<EmptyBody> {
    /// Add a known body to this record, transforming it into a buffered
    /// body record.
    pub fn add_body(self, body: Vec<u8>) -> (r: Record<BufferedBody>)
        ensures
            same_parts(self, r),
            r.spec_body().0@ == body@,
    {
        let Record { headers, record_date, record_id, record_type, truncated_type, body: _ } =
            self;
        Record {
            headers,
            record_date,
            record_id,
            record_type,
            truncated_type,
            body: BufferedBody(body),
        }
    }
}

impl Record<BufferedBody> {
    /// Strip the body from this record.
    pub fn strip_body(self) -> (r: Record<EmptyBody>)
        ensures
            same_parts(self, r),
    {
        let Record { headers, record_date, record_id, record_type, truncated_type, body: _ } =
            self;
        Record { headers, record_date, record_id, record_type, truncated_type, body: EmptyBody() }
    }

    /// Return the body of this record.
    pub fn body(&self) -> (r: &[u8])
        ensures
            r@ == self.spec_body().0@,
    {
        self.body.0.as_slice()
    }

    /// Return a reference to mutate the body of this record in place.
    pub fn body_mut(&mut self) -> (r: &mut [u8])
        ensures
            r@ == old(self).spec_body().0@,
            final(self).spec_body().0@ == final(r)@,
            same_parts(*old(self), *final(self)),
    {
        self.body.0.as_mut_slice()
    }

    /// Replace the body of this record with the given body.
    pub fn replace_body(&mut self, new_body: Vec<u8>)
        ensures
            final(self).spec_body().0@ == new_body@,
            same_parts(*old(self), *final(self)),
    {
        self.body = BufferedBody(new_body);
    }

    /// Transform this record into a raw record containing the same data.
    ///
    /// The promoted fields rejoin the raw map as header entries, with the
    /// content length recomputed from the body. This is the single place
    /// where they do, and — because a well-formed record's map never holds
    /// them — the resulting map can never lack one of the required fields.
    pub fn into_raw_parts(self) -> (r: (RawRecordHeader, Vec<u8>))
        requires
            self.wf(),
        ensures
            r.0.version@ == self.spec_version(),
            r.0.headers@ == spec_into_raw(self),
            r.0.headers.wf(),
            r.1@ == self.spec_body().0@,
    {
        proof {
            lemma_promoted_distinct();
            crate::header_map::lemma_map_insert_props(
                self.spec_headers()@,
                "content-length"@,
                crate::spec_u64_digits(self.spec_body().0@.len()),
            );
        }
        let ghost m0 = self.spec_headers()@;
        let Record { mut headers, record_date, record_id, record_type, truncated_type, body } =
            self;
        headers.headers.insert(WarcHeader::ContentLength, crate::u64_digits(body.content_length()));
        proof {
            crate::header_map::lemma_map_insert_props(
                headers.headers@,
                "warc-type"@,
                vstd::utf8::encode_utf8(record_type@),
            );
        }
        let type_s = record_type.to_string();
        headers.headers.insert(
            WarcHeader::WarcType,
            vstd::slice::slice_to_vec(type_s.as_str().as_bytes()),
        );
        proof {
            crate::header_map::lemma_map_insert_props(
                headers.headers@,
                "warc-record-id"@,
                vstd::utf8::encode_utf8(record_id@),
            );
        }
        headers.headers.insert(
            WarcHeader::RecordID,
            vstd::slice::slice_to_vec(record_id.as_str().as_bytes()),
        );
        match &truncated_type {
            Some(t) => {
                proof {
                    crate::header_map::lemma_map_insert_props(
                        headers.headers@,
                        "warc-truncated"@,
                        vstd::utf8::encode_utf8(t@),
                    );
                }
                let t_s = t.to_string();
                headers.headers.insert(
                    WarcHeader::Truncated,
                    vstd::slice::slice_to_vec(t_s.as_str().as_bytes()),
                );
            },
            None => {},
        }
        proof {
            crate::header_map::lemma_map_insert_props(
                headers.headers@,
                "warc-date"@,
                crate::date::spec_date_bytes(record_date),
            );
        }
        headers.headers.insert(WarcHeader::Date, record_date.to_bytes());
        (headers, body.0)
    }
}

/// The parts a record keeps through a body transition.
pub open spec fn same_parts<A, B>(a: Record<A>, b: Record<B>) -> bool {
    &&& a.spec_headers()@ == b.spec_headers()@
    &&& a.spec_headers().wf() == b.spec_headers().wf()
    &&& a.spec_version() == b.spec_version()
    &&& a.spec_date() == b.spec_date()
    &&& a.spec_id() == b.spec_id()
    &&& a.spec_type() == b.spec_type()
    &&& a.spec_truncated() == b.spec_truncated()
}

/// The raw entries that a buffered record turns back into: its own map
/// with the five promoted fields inserted after it.
pub open spec fn spec_into_raw(rec: Record<BufferedBody>) -> crate::header_map::HeaderEntries {
    let m1 = map_insert(
        rec.spec_headers()@,
        "content-length"@,
        crate::spec_u64_digits(rec.spec_body().0@.len()),
    );
    let m2 = map_insert(m1, "warc-type"@, vstd::utf8::encode_utf8(rec.spec_type()));
    let m3 = map_insert(m2, "warc-record-id"@, vstd::utf8::encode_utf8(rec.spec_id()));
    let m4 = match rec.spec_truncated() {
        Some(t) => map_insert(m3, "warc-truncated"@, vstd::utf8::encode_utf8(t)),
        None => m3,
    };
    map_insert(m4, "warc-date"@, crate::date::spec_date_bytes(rec.spec_date()))
}

/// Whether `content-length` is absent or decodable.
pub open spec fn spec_cl_ok(m: crate::header_map::HeaderEntries) -> bool {
    !map_has(m, "content-length"@) || valid_utf8(map_val(m, "content-length"@))
}

/// Whether `warc-type` is present and decodable.
pub open spec fn spec_wt_ok(m: crate::header_map::HeaderEntries) -> bool {
    map_has(m, "warc-type"@) && valid_utf8(map_val(m, "warc-type"@))
}

/// Whether `warc-record-id` is present and decodable.
pub open spec fn spec_id_ok(m: crate::header_map::HeaderEntries) -> bool {
    map_has(m, "warc-record-id"@) && valid_utf8(map_val(m, "warc-record-id"@))
}

/// Whether `warc-date` is present, decodable, and an RFC 3339 date-time.
pub open spec fn spec_wdate_ok(m: crate::header_map::HeaderEntries) -> bool {
    &&& map_has(m, "warc-date"@)
    &&& valid_utf8(map_val(m, "warc-date"@))
    &&& crate::date::spec_date_text_ok(decode_utf8(map_val(m, "warc-date"@)))
}

/// Whether `warc-truncated` is absent or decodable.
pub open spec fn spec_tr_ok(m: crate::header_map::HeaderEntries) -> bool {
    !map_has(m, "warc-truncated"@) || valid_utf8(map_val(m, "warc-truncated"@))
}

/// Whether a raw header block can be promoted to a record.
pub open spec fn spec_promote_ok(m: crate::header_map::HeaderEntries) -> bool {
    spec_cl_ok(m) && spec_wt_ok(m) && spec_id_ok(m) && spec_wdate_ok(m) && spec_tr_ok(m)
}

/// The raw entries left over after promotion: the five promoted names
/// removed.
pub open spec fn spec_promote_leftover(
    m: crate::header_map::HeaderEntries,
) -> crate::header_map::HeaderEntries {
    map_remove(
        map_remove(
            map_remove(map_remove(map_remove(m, "content-length"@), "warc-type"@), "warc-record-id"@),
            "warc-date"@,
        ),
        "warc-truncated"@,
    )
}

impl Record<EmptyBody> {
    /// Promote a raw header block to a record.
    ///
    /// The record type, id, date and truncation reason move to typed
    /// fields and leave the raw map; a missing type, id or date fails,
    /// a missing `content-length` is treated as zero. A field whose
    /// bytes are not UTF-8, or a date that is not an RFC 3339 date-time,
    /// fails as malformed.
    pub fn try_from(raw: RawRecordHeader) -> (r: Result<Record<EmptyBody>, Error>)
        requires
            raw.headers.wf(),
        ensures
            r is Ok <==> spec_promote_ok(raw.headers@),
            r matches Ok(rec) ==> {
                &&& rec.wf()
                &&& rec.spec_version() == raw.version@
                &&& rec.spec_headers()@ == spec_promote_leftover(raw.headers@)
                &&& rec.spec_type() == crate::strings::canon_chars(
                    decode_utf8(map_val(raw.headers@, "warc-type"@)),
                )
                &&& rec.spec_id() == decode_utf8(map_val(raw.headers@, "warc-record-id"@))
                &&& crate::date::rfc3339_fields_of(
                    decode_utf8(map_val(raw.headers@, "warc-date"@)),
                ) == Some(rec.spec_date().spec_fields())
                &&& rec.spec_truncated() == if map_has(raw.headers@, "warc-truncated"@) {
                    Some(
                        crate::strings::canon_chars(
                            decode_utf8(map_val(raw.headers@, "warc-truncated"@)),
                        ),
                    )
                } else {
                    Option::<Seq<char>>::None
                }
            },
            r matches Err(e) ==> {
                let m = raw.headers@;
                match e {
                    Error::MalformedHeader(h, _) => {
                        ||| (h@ == "content-length"@ && !spec_cl_ok(m))
                        ||| (h@ == "warc-type"@ && spec_cl_ok(m) && map_has(m, "warc-type"@)
                            && !valid_utf8(map_val(m, "warc-type"@)))
                        ||| (h@ == "warc-record-id"@ && spec_cl_ok(m) && spec_wt_ok(m) && map_has(
                            m,
                            "warc-record-id"@,
                        ) && !valid_utf8(map_val(m, "warc-record-id"@)))
                        ||| (h@ == "warc-date"@ && spec_cl_ok(m) && spec_wt_ok(m) && spec_id_ok(m)
                            && map_has(m, "warc-date"@) && !spec_wdate_ok(m))
                        ||| (h@ == "warc-truncated"@ && spec_cl_ok(m) && spec_wt_ok(m)
                            && spec_id_ok(m) && spec_wdate_ok(m) && !spec_tr_ok(m))
                    },
                    Error::MissingHeader(h) => {
                        ||| (h@ == "warc-type"@ && spec_cl_ok(m) && !map_has(m, "warc-type"@))
                        ||| (h@ == "warc-record-id"@ && spec_cl_ok(m) && spec_wt_ok(m) && !map_has(
                            m,
                            "warc-record-id"@,
                        ))
                        ||| (h@ == "warc-date"@ && spec_cl_ok(m) && spec_wt_ok(m) && spec_id_ok(m)
                            && !map_has(m, "warc-date"@))
                    },
                    _ => false,
                }
            },
    {
        proof {
            lemma_promoted_distinct();
            crate::header_map::lemma_map_remove_props(raw.headers@, "content-length"@);
        }
        let mut h = raw;
        match h.headers.remove(&WarcHeader::ContentLength) {
            Some(v) => {
                match crate::strings::bytes_to_string(v.as_slice()) {
                    Some(_) => {},
                    None => {
                        return Err(
                            Error::MalformedHeader(
                                WarcHeader::ContentLength,
                                "not a UTF-8 string".to_owned(),
                            ),
                        );
                    },
                }
            },
            None => {},
        }
        proof {
            crate::header_map::lemma_map_remove_props(h.headers@, "warc-type"@);
        }
        let record_type = match h.headers.remove(&WarcHeader::WarcType) {
            None => {
                return Err(Error::MissingHeader(WarcHeader::WarcType));
            },
            Some(v) => {
                match crate::strings::bytes_to_string(v.as_slice()) {
                    None => {
                        return Err(
                            Error::MalformedHeader(
                                WarcHeader::WarcType,
                                "not a UTF-8 string".to_owned(),
                            ),
                        );
                    },
                    Some(s) => RecordType::from_name(s.as_str()),
                }
            },
        };
        proof {
            crate::header_map::lemma_map_remove_props(h.headers@, "warc-record-id"@);
        }
        let record_id = match h.headers.remove(&WarcHeader::RecordID) {
            None => {
                return Err(Error::MissingHeader(WarcHeader::RecordID));
            },
            Some(v) => {
                match crate::strings::bytes_to_string(v.as_slice()) {
                    None => {
                        return Err(
                            Error::MalformedHeader(
                                WarcHeader::RecordID,
                                "not a UTF-8 string".to_owned(),
                            ),
                        );
                    },
                    Some(s) => s,
                }
            },
        };
        proof {
            crate::header_map::lemma_map_remove_props(h.headers@, "warc-date"@);
        }
        let record_date = match h.headers.remove(&WarcHeader::Date) {
            None => {
                return Err(Error::MissingHeader(WarcHeader::Date));
            },
            Some(v) => {
                match crate::strings::bytes_to_string(v.as_slice()) {
                    None => {
                        return Err(
                            Error::MalformedHeader(
                                WarcHeader::Date,
                                "not a UTF-8 string".to_owned(),
                            ),
                        );
                    },
                    Some(s) => {
                        match WarcDate::parse(s.as_str()) {
                            None => {
                                return Err(
                                    Error::MalformedHeader(
                                        WarcHeader::Date,
                                        "not an ISO 8601 datestamp".to_owned(),
                                    ),
                                );
                            },
                            Some(d) => d,
                        }
                    },
                }
            },
        };
        proof {
            crate::header_map::lemma_map_remove_props(h.headers@, "warc-truncated"@);
        }
        let truncated_type = match h.headers.remove(&WarcHeader::Truncated) {
            None => None,
            Some(v) => {
                match crate::strings::bytes_to_string(v.as_slice()) {
                    None => {
                        return Err(
                            Error::MalformedHeader(
                                WarcHeader::Truncated,
                                "not a UTF-8 string".to_owned(),
                            ),
                        );
                    },
                    Some(s) => Some(TruncatedType::from_name(s.as_str())),
                }
            },
        };
        Ok(
            Record {
                headers: h,
                record_date,
                record_id,
                record_type,
                truncated_type,
                body: EmptyBody(),
            },
        )
    }
}

impl Clone for Record<BufferedBody> {
    /// A clone carries the same parts and body.
    fn clone(&self) -> (r: Self)
        ensures
            same_parts(*self, r),
            r.spec_body().0@ == self.spec_body().0@,
    {
        Record {
            headers: self.headers.clone(),
            record_date: self.record_date,
            record_id: self.record_id.clone(),
            record_type: self.record_type.clone(),
            truncated_type: match &self.truncated_type {
                Some(t) => Some(t.clone()),
                None => None,
            },
            body: self.body.clone(),
        }
    }
}

impl Clone for Record<EmptyBody> {
    /// A clone carries the same parts.
    fn clone(&self) -> (r: Self)
        ensures
            same_parts(*self, r),
    {
        Record {
            headers: self.headers.clone(),
            record_date: self.record_date,
            record_id: self.record_id.clone(),
            record_type: self.record_type.clone(),
            truncated_type: match &self.truncated_type {
                Some(t) => Some(t.clone()),
                None => None,
            },
            body: EmptyBody(),
        }
    }
}

impl PartialEq for Record<BufferedBody> {
    /// Two records are equal when all their parts and bodies are.
    fn eq(&self, other: &Record<BufferedBody>) -> (r: bool) {
        let trunc_eq = match (&self.truncated_type, &other.truncated_type) {
            (None, None) => true,
            (Some(a), Some(b)) => crate::strings::str_eq(
                a.to_string().as_str(),
                b.to_string().as_str(),
            ),
            _ => false,
        };
        trunc_eq && crate::strings::str_eq(
            self.headers.version.as_str(),
            other.headers.version.as_str(),
        ) && self.headers.headers == other.headers.headers && self.record_date
            == other.record_date && crate::strings::str_eq(
            self.record_id.as_str(),
            other.record_id.as_str(),
        ) && crate::strings::str_eq(
            self.record_type.to_string().as_str(),
            other.record_type.to_string().as_str(),
        ) && crate::strings::bytes_eq(self.body.0.as_slice(), other.body.0.as_slice())
    }
}

impl vstd::std_specs::cmp::PartialEqSpecImpl for Record<BufferedBody> {
    open spec fn obeys_eq_spec() -> bool {
        true
    }

    open spec fn eq_spec(&self, other: &Record<BufferedBody>) -> bool {
        same_parts(*self, *other) && self.spec_body().0@ == other.spec_body().0@
    }
}

/// A builder for WARC records from data.
///
/// Field setters validate as they go, but an arbitrary header whose value
/// fails validation does not fail the builder: the offending bytes are
/// kept aside and the first error is remembered, so later assignments can
/// still succeed. [`RecordBuilder::build`] surfaces the remembered error;
/// [`RecordBuilder::build_raw`] never fails and merges the offending
/// values back in verbatim.
pub struct RecordBuilder {
    value: Record<BufferedBody>,
    broken_headers: HeaderMap,
    last_error: Option<(WarcHeader, String)>,
}

impl RecordBuilder {
    /// The record under construction is well-formed and the kept-aside
    /// names are unique.
    pub open spec fn wf(&self) -> bool {
        self.spec_value().wf() && self.spec_broken().wf()
    }

    /// The record under construction.
    pub closed spec fn spec_value(&self) -> Record<BufferedBody> {
        self.value
    }

    /// The values that failed validation, kept for `build_raw`.
    pub closed spec fn spec_broken(&self) -> HeaderMap {
        self.broken_headers
    }

    /// Whether an error has been remembered, and for which header.
    pub closed spec fn spec_error(&self) -> Option<Seq<char>> {
        match self.last_error {
            Some(p) => Some(p.0@),
            None => None,
        }
    }

    /// Set the body of the record under construction.
    pub fn body(self, body: Vec<u8>) -> (r: Self)
        requires
            self.wf(),
        ensures
            r.wf(),
            same_parts(self.spec_value(), r.spec_value()),
            r.spec_value().spec_body().0@ == body@,
            r.spec_broken()@ == self.spec_broken()@,
            r.spec_error() == self.spec_error(),
    {
        let mut b = self;
        b.value.replace_body(body);
        b
    }

    /// Set the record date header of the record under construction.
    pub fn date(self, date: WarcDate) -> (r: Self)
        requires
            self.wf(),
            date.valid(),
        ensures
            r.wf(),
            r.spec_value().spec_date() == date,
            unchanged_but_date(self.spec_value(), r.spec_value()),
            r.spec_broken()@ == self.spec_broken()@,
            r.spec_error() == self.spec_error(),
    {
        let mut b = self;
        b.value.set_date(date);
        b
    }

    /// Set the record ID header of the record under construction.
    pub fn warc_id(self, id: &str) -> (r: Self)
        requires
            self.wf(),
        ensures
            r.wf(),
            r.spec_value().spec_id() == id@,
            unchanged_but_id(self.spec_value(), r.spec_value()),
            r.spec_broken()@ == self.spec_broken()@,
            r.spec_error() == self.spec_error(),
    {
        let mut b = self;
        b.value.set_warc_id(id);
        b
    }

    /// Set the WARC version of the record under construction.
    pub fn version(self, version: String) -> (r: Self)
        requires
            self.wf(),
        ensures
            r.wf(),
            r.spec_value().spec_version() == version@,
            unchanged_but_version(self.spec_value(), r.spec_value()),
            r.spec_broken()@ == self.spec_broken()@,
            r.spec_error() == self.spec_error(),
    {
        let mut b = self;
        b.value.set_warc_version(version.as_str());
        b
    }

    /// Set the WARC record type header field of the record under
    /// construction.
    pub fn warc_type(self, warc_type: RecordType) -> (r: Self)
        requires
            self.wf(),
        ensures
            r.wf(),
            r.spec_value().spec_type() == warc_type@,
            unchanged_but_type(self.spec_value(), r.spec_value()),
            r.spec_broken()@ == self.spec_broken()@,
            r.spec_error() == self.spec_error(),
    {
        let mut b = self;
        b.value.set_warc_type(warc_type);
        b
    }

    /// Set the truncated type header of the record under construction.
    pub fn truncated_type(self, trunc_type: TruncatedType) -> (r: Self)
        requires
            self.wf(),
        ensures
            r.wf(),
            r.spec_value().spec_truncated() == Some(trunc_type@),
            unchanged_but_truncated(self.spec_value(), r.spec_value()),
            r.spec_broken()@ == self.spec_broken()@,
            r.spec_error() == self.spec_error(),
    {
        let mut b = self;
        b.value.set_truncated_type(trunc_type);
        b
    }

    /// Create or replace an arbitrary header of the record under
    /// construction.
    ///
    /// A value that is not UTF-8, or that fails the promoted field's
    /// validation, is kept aside instead of failing: the first such error
    /// is remembered for `build`, and `build_raw` merges the bytes in
    /// verbatim.
    pub fn header(self, key: WarcHeader, value: Vec<u8>) -> (r: Self)
        requires
            self.wf(),
        ensures
            r.wf(),
            valid_utf8(value@) && spec_set_header_ok(
                self.spec_value(),
                key@,
                decode_utf8(value@),
            ) ==> {
                &&& r.spec_broken()@ == crate::header_map::map_remove(self.spec_broken()@, key@)
                &&& r.spec_error() == self.spec_error()
                &&& key@ == "warc-date"@ ==> crate::date::rfc3339_fields_of(decode_utf8(value@))
                    == Some(r.spec_value().spec_date().spec_fields()) && unchanged_but_date(
                    self.spec_value(),
                    r.spec_value(),
                )
                &&& key@ == "warc-record-id"@ ==> r.spec_value().spec_id() == decode_utf8(value@)
                    && unchanged_but_id(self.spec_value(), r.spec_value())
                &&& key@ == "warc-type"@ ==> r.spec_value().spec_type()
                    == crate::strings::canon_chars(decode_utf8(value@)) && unchanged_but_type(
                    self.spec_value(),
                    r.spec_value(),
                )
                &&& key@ == "warc-truncated"@ ==> r.spec_value().spec_truncated() == Some(
                    crate::strings::canon_chars(decode_utf8(value@)),
                ) && unchanged_but_truncated(self.spec_value(), r.spec_value())
                &&& key@ == "content-length"@ ==> r.spec_value() == self.spec_value()
                &&& !promoted_name(key@) ==> r.spec_value().spec_headers()@
                    == crate::header_map::map_insert(
                    self.spec_value().spec_headers()@,
                    key@,
                    value@,
                ) && unchanged_but_headers(self.spec_value(), r.spec_value())
            },
            !(valid_utf8(value@) && spec_set_header_ok(
                self.spec_value(),
                key@,
                decode_utf8(value@),
            )) ==> {
                &&& r.spec_broken()@ == crate::header_map::map_insert(
                    self.spec_broken()@,
                    key@,
                    value@,
                )
                &&& r.spec_error() matches Some(h) && (self.spec_error() matches Some(h0) ==> h
                    == h0) && (self.spec_error() is None ==> h == key@)
                &&& r.spec_value() == self.spec_value()
            },
    {
        let mut b = self;
        let ghost broken0 = b.spec_broken()@;
        let prev = b.broken_headers.insert(key.clone(), value.clone());
        proof {
            crate::header_map::lemma_map_insert_props(broken0, key@, value@);
        }
        let is_ok: bool;
        match crate::strings::bytes_to_string(value.as_slice()) {
            Some(string) => {
                proof {
                    vstd::utf8::decode_utf8_encode_utf8(value@);
                }
                match b.value.set_header(key.clone(), string.as_str()) {
                    Err(e) => {
                        if b.last_error.is_none() {
                            b.last_error = Some((key.clone(), e.message()));
                        }
                        is_ok = false;
                    },
                    Ok(_) => {
                        is_ok = true;
                    },
                }
            },
            None => {
                if b.last_error.is_none() {
                    b.last_error = Some((key.clone(), "not a UTF-8 string".to_owned()));
                }
                is_ok = false;
            },
        }
        if is_ok {
            let ghost broken1 = b.spec_broken()@;
            b.broken_headers.remove(&key);
            proof {
                crate::header_map::lemma_map_insert_props(broken0, key@, value@);
                crate::header_map::lemma_map_remove_props(broken1, key@);
                lemma_insert_remove_same(broken0, key@, value@);
            }
        }
        b
    }

    /// Build a raw record header from the data collected in this builder.
    ///
    /// A body set in this builder is returned raw, and any kept-aside
    /// header values are merged in verbatim.
    pub fn build_raw(self) -> (r: (RawRecordHeader, Vec<u8>))
        requires
            self.wf(),
        ensures
            r.0.version@ == self.spec_value().spec_version(),
            r.0.headers@ == crate::header_map::spec_map_extend(
                spec_into_raw(self.spec_value()),
                self.spec_broken()@,
            ),
            r.1@ == self.spec_value().spec_body().0@,
    {
        let RecordBuilder { value, broken_headers, .. } = self;
        let (mut headers, body) = value.into_raw_parts();
        headers.headers.extend(broken_headers);
        (headers, body)
    }

    /// Build a record from the data collected in this builder.
    ///
    /// Fails with the first error remembered while setting headers.
    pub fn build(self) -> (r: Result<Record<BufferedBody>, Error>)
        requires
            self.wf(),
        ensures
            r is Ok <==> self.spec_error() is None,
            r matches Ok(rec) ==> rec == self.spec_value(),
            r matches Err(e) ==> (e matches Error::MalformedHeader(h, _) && Some(h@)
                == self.spec_error()),
    {
        let RecordBuilder { value, last_error, .. } = self;
        match last_error {
            Some(p) => Err(Error::MalformedHeader(p.0, p.1)),
            None => Ok(value),
        }
    }
}

/// Setting this header on this record with this text succeeds.
pub open spec fn spec_set_header_ok(
    rec: Record<BufferedBody>,
    name: Seq<char>,
    value: Seq<char>,
) -> bool {
    if name == "warc-date"@ {
        crate::date::spec_date_text_ok(value)
    } else if name == "content-length"@ {
        crate::parser::spec_parse_u64(vstd::utf8::encode_utf8(value)) == Some(
            rec.spec_body().0@.len() as u64,
        )
    } else {
        true
    }
}

/// Removing a name after setting it gives the same map as removing it
/// outright.
proof fn lemma_insert_remove_same(m: crate::header_map::HeaderEntries, n: Seq<char>, v: Seq<u8>)
    ensures
        crate::header_map::map_remove(crate::header_map::map_insert(m, n, v), n)
            == crate::header_map::map_remove(m, n),
{
    crate::header_map::lemma_map_idx(m, n);
    let m1 = crate::header_map::map_insert(m, n, v);
    crate::header_map::lemma_map_idx(m1, n);
    if map_has(m, n) {
        let i = crate::header_map::map_idx(m, n);
        assert(m1[i].0 == n);
        let i1 = crate::header_map::map_idx(m1, n);
        assert forall|j: int| 0 <= j < i implies m1[j].0 != n by {
            assert(m1[j] == m[j]);
        }
        assert(m[i1].0 == m1[i1].0);
        assert(i1 == i);
        assert(m1.remove(i) =~= m.remove(i));
    } else {
        assert(m1[m.len() as int].0 == n);
        let i = crate::header_map::map_idx(m1, n);
        assert forall|j: int| 0 <= j < m.len() implies m1[j].0 != n by {
            assert(m1[j] == m[j]);
        }
        assert(i == m.len());
        assert(m1.remove(i) =~= m);
        assert(crate::header_map::map_remove(m, n) == m);
    }
}

impl Default for RecordBuilder {
    /// A builder holding a fresh default record and no errors.
    fn default() -> (r: Self)
        ensures
            r.wf(),
            r.spec_error() is None,
            r.spec_broken()@.len() == 0,
            r.spec_value().spec_version() == "WARC/1.0"@,
            r.spec_value().spec_headers()@.len() == 0,
            r.spec_value().spec_type() == "resource"@,
            r.spec_value().spec_truncated() is None,
            r.spec_value().spec_body().0@.len() == 0,
    {
        RecordBuilder {
            value: Record::<BufferedBody>::default(),
            broken_headers: HeaderMap::new(),
            last_error: None,
        }
    }
}

impl Clone for RecordBuilder {
    /// A clone carries the same record, kept-aside values, and error.
    fn clone(&self) -> (r: Self)
        ensures
            same_parts(self.spec_value(), r.spec_value()),
            r.spec_value().spec_body().0@ == self.spec_value().spec_body().0@,
            r.spec_broken()@ == self.spec_broken()@,
            r.spec_error() == self.spec_error(),
    {
        RecordBuilder {
            value: self.value.clone(),
            broken_headers: self.broken_headers.clone(),
            last_error: match &self.last_error {
                Some(p) => Some((p.0.clone(), p.1.clone())),
                None => None,
            },
        }
    }
}

/// A body that stays on the byte source until it is read.
///
/// The handle borrows the source, and a count of body bytes not yet
/// read, for the lifetime of one record: reading serves at most the
/// count and decreases it, so the body can never run past its declared
/// length, and the count's owner sees how much was left unread.
pub struct StreamingBody<'t, R> {
    source: &'t mut crate::source::ByteSource<R>,
    remaining: &'t mut u64,
}

impl<'t, R> StreamingBody<'t, R> {
    /// The number of body bytes not yet read.
    pub closed spec fn spec_count(&self) -> nat {
        (*self.remaining) as nat
    }

    /// The bytes the underlying source will yet deliver.
    pub closed spec fn spec_source_content(&self) -> Seq<u8> {
        (*self.source).remaining()
    }

    pub(crate) fn new(
        source: &'t mut crate::source::ByteSource<R>,
        remaining: &'t mut u64,
    ) -> (r: StreamingBody<'t, R>)
        ensures
            r.spec_count() == *old(remaining),
            r.spec_source_content() == old(source).remaining(),
    {
        StreamingBody { source, remaining }
    }

    /// The number of body bytes not yet read.
    pub fn len(&self) -> (r: u64)
        ensures
            r == self.spec_count(),
    {
        *self.remaining
    }
}

impl<'t, R> BodyKind for StreamingBody<'t, R> {
    open spec fn spec_len(&self) -> nat {
        self.spec_count()
    }

    fn content_length(&self) -> (r: u64)
        ensures
            r == self.spec_len(),
    {
        *self.remaining
    }
}

impl<'t, R: std::io::Read> StreamingBody<'t, R> {
    /// Read at most `max` bytes of the body, never past the count of
    /// bytes left.
    pub fn read(&mut self, max: usize) -> (r: Result<Vec<u8>, Error>)
        ensures
            match r {
                Ok(v) => {
                    &&& v@.len() <= max
                    &&& v@.len() <= old(self).spec_count()
                    &&& v@ == old(self).spec_source_content().take(v@.len() as int)
                    &&& final(self).spec_source_content() == old(
                        self,
                    ).spec_source_content().skip(v@.len() as int)
                    &&& final(self).spec_count() == old(self).spec_count() - v@.len()
                },
                Err(e) => e is ReadData,
            },
    {
        let want64: u64 = if (max as u64) < *self.remaining {
            max as u64
        } else {
            *self.remaining
        };
        let want: usize = want64 as usize;
        match crate::source::source_read_at_most(self.source, want) {
            Err(e) => Err(e),
            Ok(v) => {
                *self.remaining = *self.remaining - (v.len() as u64);
                Ok(v)
            },
        }
    }
}

impl Record<EmptyBody> {
    /// Attach a streaming body to this record: a bounded live reader over
    /// `source`, whose count of unread bytes lives in `remaining`.
    pub fn add_fixed_stream<'r, R>(
        self,
        source: &'r mut crate::source::ByteSource<R>,
        remaining: &'r mut u64,
    ) -> (r: Record<StreamingBody<'r, R>>)
        ensures
            same_parts(self, r),
            r.spec_body().spec_count() == *old(remaining),
            r.spec_body().spec_source_content() == old(source).remaining(),
    {
        let Record { headers, record_date, record_id, record_type, truncated_type, body: _ } =
            self;
        Record {
            headers,
            record_date,
            record_id,
            record_type,
            truncated_type,
            body: StreamingBody::new(source, remaining),
        }
    }
}

impl<'t, R: std::io::Read> Record<StreamingBody<'t, R>> {
    /// Read at most `max` bytes of this record's body from the source,
    /// never past the count of bytes left.
    pub fn read_body(&mut self, max: usize) -> (r: Result<Vec<u8>, Error>)
        ensures
            match r {
                Ok(v) => {
                    &&& v@.len() <= max
                    &&& v@.len() <= old(self).spec_body().spec_count()
                    &&& v@ == old(self).spec_body().spec_source_content().take(v@.len() as int)
                    &&& final(self).spec_body().spec_source_content() == old(
                        self,
                    ).spec_body().spec_source_content().skip(v@.len() as int)
                    &&& final(self).spec_body().spec_count() == old(self).spec_body().spec_count()
                        - v@.len()
                    &&& same_parts(*old(self), *final(self))
                },
                Err(e) => e is ReadData,
            },
    {
        self.body.read(max)
    }

    /// Collapse this record to a buffered one by draining the streaming
    /// body.
    ///
    /// If the source ends before the count of unread bytes is served, the
    /// body holds what was served.
    pub fn into_buffered(self) -> (r: Result<Record<BufferedBody>, Error>)
        ensures
            match r {
                Ok(rec) => {
                    &&& same_parts(self, rec)
                    &&& rec.spec_body().0@ == self.spec_body().spec_source_content().take(
                        spec_min_nat(
                            self.spec_body().spec_count(),
                            self.spec_body().spec_source_content().len(),
                        ) as int,
                    )
                },
                Err(e) => e is ReadData,
            },
    {
        let ghost count0 = self.spec_body().spec_count();
        let ghost content0 = self.spec_body().spec_source_content();
        let Record { headers, record_date, record_id, record_type, truncated_type, body } = self;
        let StreamingBody { source, remaining } = body;
        let count: u64 = *remaining;
        let buf = match crate::source::read_up_to(source, count) {
            Err(e) => {
                return Err(e);
            },
            Ok(v) => v,
        };
        *remaining = count - (buf.len() as u64);
        proof {
            assert(buf@ =~= content0.take(spec_min_nat(count0, content0.len()) as int));
        }
        let rec = Record {
            headers,
            record_date,
            record_id,
            record_type,
            truncated_type,
            body: BufferedBody(buf),
        };
        Ok(rec)
    }
}

/// The smaller of two counts.
pub open spec fn spec_min_nat(a: nat, b: nat) -> nat {
    if a <= b {
        a
    } else {
        b
    }
}

/// Promoted-field exclusivity: a well-formed record's raw header map
/// never holds an entry named for the record id, type, date, truncation
/// reason or content length. Constructors establish this and every
/// method keeps it, so a header can never disagree with its typed field.
pub proof fn lemma_promoted_exclusive<T>(rec: Record<T>)
    requires
        rec.wf(),
    ensures
        forall|i: int|
            0 <= i < rec.spec_headers()@.len() ==> !promoted_name(
                (#[trigger] rec.spec_headers()@[i]).0,
            ),
{
    crate::header_map::lemma_map_idx(rec.spec_headers()@, "content-length"@);
    crate::header_map::lemma_map_idx(rec.spec_headers()@, "warc-type"@);
    crate::header_map::lemma_map_idx(rec.spec_headers()@, "warc-record-id"@);
    crate::header_map::lemma_map_idx(rec.spec_headers()@, "warc-date"@);
    crate::header_map::lemma_map_idx(rec.spec_headers()@, "warc-truncated"@);
}

/// The five promoted names are pairwise different.
pub(crate) proof fn lemma_promoted_distinct()
    ensures
        "content-length"@ != "warc-type"@,
        "content-length"@ != "warc-record-id"@,
        "content-length"@ != "warc-date"@,
        "content-length"@ != "warc-truncated"@,
        "warc-type"@ != "warc-record-id"@,
        "warc-type"@ != "warc-date"@,
        "warc-type"@ != "warc-truncated"@,
        "warc-record-id"@ != "warc-date"@,
        "warc-record-id"@ != "warc-truncated"@,
        "warc-date"@ != "warc-truncated"@,
{
    reveal_strlit("content-length");
    reveal_strlit("warc-type");
    reveal_strlit("warc-record-id");
    reveal_strlit("warc-date");
    reveal_strlit("warc-truncated");
    assert("content-length"@.len() == 14);
    assert("warc-type"@.len() == 9);
    assert("warc-record-id"@.len() == 14);
    assert("warc-date"@.len() == 9);
    assert("warc-truncated"@.len() == 14);
    assert("content-length"@[0] != "warc-record-id"@[0]);
    assert("content-length"@[0] != "warc-truncated"@[0]);
    assert("warc-record-id"@[5] != "warc-truncated"@[5]);
    assert("warc-type"@[5] != "warc-date"@[5]);
}

/// Whether a name is one of the five that a record carries outside its
/// raw map.
pub open spec fn promoted_name(n: Seq<char>) -> bool {
    ||| n == "content-length"@
    ||| n == "warc-type"@
    ||| n == "warc-record-id"@
    ||| n == "warc-date"@
    ||| n == "warc-truncated"@
}

/// All parts equal except the raw header map.
pub open spec fn unchanged_but_headers<T>(a: Record<T>, b: Record<T>) -> bool {
    &&& a.spec_version() == b.spec_version()
    &&& a.spec_date() == b.spec_date()
    &&& a.spec_id() == b.spec_id()
    &&& a.spec_type() == b.spec_type()
    &&& a.spec_truncated() == b.spec_truncated()
    &&& a.spec_body() == b.spec_body()
}

/// All parts equal except the version.
pub open spec fn unchanged_but_version<T>(a: Record<T>, b: Record<T>) -> bool {
    &&& a.spec_headers()@ == b.spec_headers()@
    &&& a.spec_date() == b.spec_date()
    &&& a.spec_id() == b.spec_id()
    &&& a.spec_type() == b.spec_type()
    &&& a.spec_truncated() == b.spec_truncated()
    &&& a.spec_body() == b.spec_body()
}

/// All parts equal except the record id.
pub open spec fn unchanged_but_id<T>(a: Record<T>, b: Record<T>) -> bool {
    &&& a.spec_headers()@ == b.spec_headers()@
    &&& a.spec_version() == b.spec_version()
    &&& a.spec_date() == b.spec_date()
    &&& a.spec_type() == b.spec_type()
    &&& a.spec_truncated() == b.spec_truncated()
    &&& a.spec_body() == b.spec_body()
}

/// All parts equal except the record type.
pub open spec fn unchanged_but_type<T>(a: Record<T>, b: Record<T>) -> bool {
    &&& a.spec_headers()@ == b.spec_headers()@
    &&& a.spec_version() == b.spec_version()
    &&& a.spec_date() == b.spec_date()
    &&& a.spec_id() == b.spec_id()
    &&& a.spec_truncated() == b.spec_truncated()
    &&& a.spec_body() == b.spec_body()
}

/// All parts equal except the date.
pub open spec fn unchanged_but_date<T>(a: Record<T>, b: Record<T>) -> bool {
    &&& a.spec_headers()@ == b.spec_headers()@
    &&& a.spec_version() == b.spec_version()
    &&& a.spec_id() == b.spec_id()
    &&& a.spec_type() == b.spec_type()
    &&& a.spec_truncated() == b.spec_truncated()
    &&& a.spec_body() == b.spec_body()
}

/// All parts equal except the truncation reason.
pub open spec fn unchanged_but_truncated<T>(a: Record<T>, b: Record<T>) -> bool {
    &&& a.spec_headers()@ == b.spec_headers()@
    &&& a.spec_version() == b.spec_version()
    &&& a.spec_date() == b.spec_date()
    &&& a.spec_id() == b.spec_id()
    &&& a.spec_type() == b.spec_type()
    &&& a.spec_body() == b.spec_body()
}

/// Setting a field keeps the raw map free of promoted names: the record
/// stays well-formed.
pub proof fn lemma_setters_keep_wf<T>(a: Record<T>, b: Record<T>)
    requires
        a.wf(),
        unchanged_but_version(a, b) || unchanged_but_id(a, b) || unchanged_but_type(a, b)
            || unchanged_but_truncated(a, b) || unchanged_but_date(a, b),
    ensures
        b.wf() || !b.spec_date().valid(),
{
}

} // verus!
