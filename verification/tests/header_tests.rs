use warc::{RecordType, TruncatedType, WarcHeader};

#[test]
fn header_names_canonicalize() {
    assert_eq!(WarcHeader::from_name("Content-Length"), WarcHeader::ContentLength);
    assert_eq!(WarcHeader::from_name("WARC-TYPE"), WarcHeader::WarcType);
    assert_eq!(WarcHeader::from_name("warc-record-id"), WarcHeader::RecordID);
    assert_eq!(
        WarcHeader::from_name("X-Custom"),
        WarcHeader::Unknown("x-custom".to_owned())
    );
}

#[test]
fn header_names_stringify() {
    assert_eq!(WarcHeader::ContentLength.to_string(), "content-length");
    assert_eq!(WarcHeader::WarcType.to_string(), "warc-type");
    assert_eq!(WarcHeader::TargetURI.to_string(), "warc-target-uri");
    assert_eq!(WarcHeader::Unknown("x-custom".to_owned()).to_string(), "x-custom");
}

#[test]
fn header_equality_is_by_name() {
    assert_eq!(WarcHeader::ContentLength, WarcHeader::from_name("CONTENT-LENGTH"));
    assert_ne!(WarcHeader::ContentLength, WarcHeader::ContentType);
}

#[test]
fn record_types_canonicalize() {
    assert_eq!(RecordType::from_name("WarcInfo"), RecordType::WarcInfo);
    assert_eq!(RecordType::from_name("response"), RecordType::Response);
    assert_eq!(
        RecordType::from_name("dunno"),
        RecordType::Unknown("dunno".to_owned())
    );
    assert_eq!(RecordType::Revisit.to_string(), "revisit");
}

#[test]
fn truncated_types_canonicalize() {
    assert_eq!(TruncatedType::from_name("Length"), TruncatedType::Length);
    assert_eq!(TruncatedType::from_name("unspecified"), TruncatedType::Unspecified);
    assert_eq!(
        TruncatedType::from_name("other"),
        TruncatedType::Unknown("other".to_owned())
    );
    assert_eq!(TruncatedType::Disconnect.to_string(), "disconnect");
}
