use warc::{BufferedBody, Record, RecordType, WarcHeader};

use chrono::{SecondsFormat, Utc};

#[test]
fn record_default() {
    let before = Utc::now().to_rfc3339_opts(SecondsFormat::Secs, true);
    let record = Record::<BufferedBody>::default();
    let after = Utc::now().to_rfc3339_opts(SecondsFormat::Secs, true);
    assert_eq!(record.content_length(), 0);
    assert_eq!(record.warc_version(), "WARC/1.0");
    assert_eq!(record.warc_type(), &RecordType::Resource);
    let date = record.date().to_string();
    assert!(date.as_str() >= before.as_str());
    assert!(date.as_str() <= after.as_str());
}

#[test]
fn impl_eq() {
    let record1 = Record::<BufferedBody>::default();
    let record2 = record1.clone();
    assert_eq!(record1, record2);
}

#[test]
fn body() {
    let mut record = Record::<BufferedBody>::default();
    assert_eq!(record.content_length(), 0);
    assert_eq!(record.body(), &[] as &[u8]);
    record.replace_body(b"hello!!".to_vec());
    assert_eq!(record.content_length(), 7);
    assert_eq!(record.body(), b"hello!!");
    record.body_mut().copy_from_slice(b"goodbye");
    assert_eq!(record.content_length(), 7);
    assert_eq!(record.body(), b"goodbye");
}

#[test]
fn add_header() {
    let mut record = Record::<BufferedBody>::default();
    assert!(record.header(WarcHeader::TargetURI).is_none());
    assert!(record
        .set_header(WarcHeader::TargetURI, "https://www.rust-lang.org")
        .unwrap()
        .is_none());
    assert_eq!(
        record.header(WarcHeader::TargetURI).unwrap(),
        "https://www.rust-lang.org"
    );
    assert_eq!(
        record
            .set_header(WarcHeader::TargetURI, "https://docs.rs")
            .unwrap()
            .unwrap(),
        "https://www.rust-lang.org"
    );
    assert_eq!(record.header(WarcHeader::TargetURI).unwrap(), "https://docs.rs");
}

#[test]
fn set_header_override_content_length() {
    let mut record = Record::<BufferedBody>::default();
    assert_eq!(record.header(WarcHeader::ContentLength).unwrap(), "0");
    assert!(record
        .set_header(WarcHeader::ContentLength, "really short")
        .is_err());
    assert!(record.set_header(WarcHeader::ContentLength, "50").is_err());
    assert_eq!(
        record
            .set_header(WarcHeader::ContentLength, "0")
            .unwrap()
            .unwrap(),
        "0"
    );
}

#[test]
fn set_header_override_warc_date() {
    let mut record = Record::<BufferedBody>::default();
    let old_date = record.date().to_string();
    assert_eq!(record.header(WarcHeader::Date).unwrap(), old_date);
    assert!(record.set_header(WarcHeader::Date, "yesterday").is_err());
    assert_eq!(
        record
            .set_header(WarcHeader::Date, "2020-07-21T22:00:00Z")
            .unwrap()
            .unwrap(),
        old_date
    );
    assert_eq!(record.header(WarcHeader::Date).unwrap(), "2020-07-21T22:00:00Z");
}

#[test]
fn set_header_override_warc_record_id() {
    let mut record = Record::<BufferedBody>::default();
    let old_id = record.warc_id().to_string();
    assert_eq!(record.header(WarcHeader::RecordID).unwrap(), old_id.as_str());
    assert_eq!(
        record
            .set_header(WarcHeader::RecordID, "urn:http:www.rust-lang.org")
            .unwrap()
            .unwrap(),
        old_id.as_str()
    );
    assert_eq!(
        record.header(WarcHeader::RecordID).unwrap(),
        "urn:http:www.rust-lang.org"
    );
}

#[test]
fn set_header_override_warc_type() {
    let mut record = Record::<BufferedBody>::default();
    assert_eq!(record.header(WarcHeader::WarcType).unwrap(), "resource");
    assert_eq!(
        record
            .set_header(WarcHeader::WarcType, "revisit")
            .unwrap()
            .unwrap(),
        "resource"
    );
    assert_eq!(record.header(WarcHeader::WarcType).unwrap(), "revisit");
}

#[test]
fn set_header_mismatched_content_length() {
    let mut record = Record::<BufferedBody>::with_body(b"12345".to_vec());
    assert_eq!(record.header(WarcHeader::ContentLength).unwrap(), "5");
    let err = record.set_header(WarcHeader::ContentLength, "50");
    assert!(matches!(
        err,
        Err(warc::Error::MalformedHeader(WarcHeader::ContentLength, _))
    ));
    assert!(record.set_header(WarcHeader::ContentLength, "5").is_ok());
}

#[test]
fn generated_record_id_form() {
    let id = Record::<BufferedBody>::generate_record_id();
    assert_eq!(id.len(), 47);
    assert!(id.starts_with('<'));
    assert!(id.ends_with('>'));
    assert!(id[1..].starts_with("urn:uuid:"));
}

#[test]
fn truncated_type_field() {
    let mut record = Record::<BufferedBody>::default();
    assert!(record.truncated_type().is_none());
    assert!(record.header(WarcHeader::Truncated).is_none());
    record.set_truncated_type(warc::TruncatedType::Length);
    assert_eq!(record.header(WarcHeader::Truncated).unwrap(), "length");
    record.clear_truncated_type();
    assert!(record.truncated_type().is_none());
}
