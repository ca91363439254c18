use warc::{EmptyBody, HeaderMap, RawRecordHeader, Record, RecordType, WarcHeader};

fn raw_with(entries: Vec<(WarcHeader, Vec<u8>)>) -> RawRecordHeader {
    let mut headers = HeaderMap::new();
    for (name, value) in entries {
        headers.insert(name, value);
    }
    RawRecordHeader { version: "WARC/1.0".to_owned(), headers }
}

#[test]
fn create() {
    let headers = RawRecordHeader { version: "WARC/1.0".to_owned(), headers: HeaderMap::new() };
    assert_eq!(headers.headers.len(), 0);
}

#[test]
fn record_create_with_headers() {
    let headers = raw_with(vec![(
        WarcHeader::WarcType,
        RecordType::WarcInfo.to_string().into_bytes(),
    )]);
    assert_eq!(headers.headers.len(), 1);
}

#[test]
fn record_verify_ok() {
    let headers = raw_with(vec![
        (WarcHeader::WarcType, b"dunno".to_vec()),
        (WarcHeader::ContentLength, b"5".to_vec()),
        (
            WarcHeader::RecordID,
            b"<urn:test:basic-record:record-0>".to_vec(),
        ),
        (WarcHeader::Date, b"2020-07-08T02:52:55Z".to_vec()),
    ]);

    assert!(Record::<EmptyBody>::try_from(headers).is_ok());
}

#[test]
fn verify_missing_type() {
    let headers = raw_with(vec![
        (WarcHeader::ContentLength, b"5".to_vec()),
        (
            WarcHeader::RecordID,
            b"<urn:test:basic-record:record-0>".to_vec(),
        ),
        (WarcHeader::Date, b"2020-07-08T02:52:55Z".to_vec()),
    ]);

    assert!(Record::<EmptyBody>::try_from(headers).is_err());
}

#[test]
fn verify_missing_content_length() {
    let headers = raw_with(vec![
        (WarcHeader::WarcType, b"dunno".to_vec()),
        (
            WarcHeader::RecordID,
            b"<urn:test:basic-record:record-0>".to_vec(),
        ),
        (WarcHeader::Date, b"2020-07-08T02:52:55Z".to_vec()),
    ]);

    // A missing content length is treated as zero, so promotion succeeds.
    assert!(Record::<EmptyBody>::try_from(headers).is_ok());
}

#[test]
fn verify_missing_record_id() {
    let headers = raw_with(vec![
        (WarcHeader::WarcType, b"dunno".to_vec()),
        (WarcHeader::ContentLength, b"5".to_vec()),
        (WarcHeader::Date, b"2020-07-08T02:52:55Z".to_vec()),
    ]);

    assert!(Record::<EmptyBody>::try_from(headers).is_err());
}

#[test]
fn verify_missing_date() {
    let headers = raw_with(vec![
        (WarcHeader::WarcType, b"dunno".to_vec()),
        (WarcHeader::ContentLength, b"5".to_vec()),
        (
            WarcHeader::RecordID,
            b"<urn:test:basic-record:record-0>".to_vec(),
        ),
    ]);

    assert!(Record::<EmptyBody>::try_from(headers).is_err());
}

#[test]
fn promoted_fields_leave_raw_map() {
    let headers = raw_with(vec![
        (WarcHeader::WarcType, b"dunno".to_vec()),
        (WarcHeader::ContentLength, b"5".to_vec()),
        (WarcHeader::RecordID, b"<urn:test:promote:record-0>".to_vec()),
        (WarcHeader::Date, b"2020-07-08T02:52:55Z".to_vec()),
        (WarcHeader::Truncated, b"length".to_vec()),
        (WarcHeader::TargetURI, b"https://example.com/".to_vec()),
    ]);

    let record = Record::<EmptyBody>::try_from(headers).unwrap();
    assert_eq!(record.warc_id(), "<urn:test:promote:record-0>");
    assert_eq!(record.warc_type(), &RecordType::Unknown("dunno".to_owned()));
    assert_eq!(record.date().to_string(), "2020-07-08T02:52:55Z");
    assert_eq!(
        record.truncated_type().clone().unwrap(),
        warc::TruncatedType::Length
    );

    // The raw map keeps only the non-promoted header.
    let (raw, _body) = record.add_body(Vec::new()).into_raw_parts();
    assert_eq!(
        raw.headers.get(&WarcHeader::TargetURI),
        Some(&b"https://example.com/".to_vec())
    );
    assert_eq!(raw.headers.get(&WarcHeader::ContentLength), Some(&b"0".to_vec()));
}

#[test]
fn malformed_date_rejected() {
    let headers = raw_with(vec![
        (WarcHeader::WarcType, b"dunno".to_vec()),
        (WarcHeader::RecordID, b"<urn:test:bad-date>".to_vec()),
        (WarcHeader::Date, b"not-a-dayTor:a:time".to_vec()),
    ]);

    let err = Record::<EmptyBody>::try_from(headers);
    assert!(matches!(
        err,
        Err(warc::Error::MalformedHeader(WarcHeader::Date, _))
    ));
}
