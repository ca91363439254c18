use warc::{RecordBuilder, RecordType, TruncatedType, WarcDate, WarcHeader};

#[test]
fn default() {
    let (headers, body) = RecordBuilder::default().build_raw();
    assert_eq!(headers.version, "WARC/1.0".to_string());
    assert_eq!(
        headers.headers.get(&WarcHeader::ContentLength).unwrap(),
        &b"0".to_vec()
    );
    assert!(body.is_empty());
    assert_eq!(RecordBuilder::default().build().unwrap().content_length(), 0);
}

#[test]
fn default_with_body() {
    let (headers, body) = RecordBuilder::default().body(b"abcdef".to_vec()).build_raw();
    assert_eq!(headers.version, "WARC/1.0".to_string());
    assert_eq!(
        headers.headers.get(&WarcHeader::ContentLength).unwrap(),
        &b"6".to_vec()
    );
    assert_eq!(body.as_slice(), b"abcdef");
    assert_eq!(
        RecordBuilder::default()
            .body(b"abcdef".to_vec())
            .build()
            .unwrap()
            .content_length(),
        6
    );
}

#[test]
fn impl_eq_raw() {
    let builder = RecordBuilder::default();
    let raw1 = builder.clone().build_raw();

    let raw2 = builder.build_raw();
    assert_eq!(raw1, raw2);
}

#[test]
fn impl_eq_record() {
    let builder = RecordBuilder::default();
    let record1 = builder.clone().build().unwrap();

    let record2 = builder.build().unwrap();
    assert_eq!(record1, record2);
}

#[test]
fn create_with_headers() {
    let mut headers = warc::HeaderMap::new();
    headers.insert(
        WarcHeader::WarcType,
        RecordType::WarcInfo.to_string().into_bytes(),
    );
    let headers = warc::RawRecordHeader { version: "WARC/1.0".to_owned(), headers };

    assert_eq!(headers.headers.len(), 1);
}

#[test]
fn verify_ok() {
    let mut headers = warc::HeaderMap::new();
    headers.insert(WarcHeader::WarcType, b"dunno".to_vec());
    headers.insert(WarcHeader::ContentLength, b"5".to_vec());
    headers.insert(
        WarcHeader::RecordID,
        b"<urn:test:basic-record:record-0>".to_vec(),
    );
    headers.insert(WarcHeader::Date, b"2020-07-08T02:52:55Z".to_vec());
    let headers = warc::RawRecordHeader { version: "WARC/1.0".to_owned(), headers };

    assert!(warc::Record::<warc::EmptyBody>::try_from(headers).is_ok());
}

#[test]
fn verify_content_length() {
    let builder = RecordBuilder::default().body(b"12345".to_vec());

    assert_eq!(
        builder
            .clone()
            .build()
            .unwrap()
            .into_raw_parts()
            .0
            .headers
            .get(&WarcHeader::ContentLength)
            .unwrap(),
        &b"5".to_vec()
    );

    assert_eq!(
        builder
            .clone()
            .build_raw()
            .0
            .headers
            .get(&WarcHeader::ContentLength)
            .unwrap(),
        &b"5".to_vec()
    );

    let builder = builder.header(WarcHeader::ContentLength, b"1".to_vec());
    assert_eq!(
        builder
            .clone()
            .build_raw()
            .0
            .headers
            .get(&WarcHeader::ContentLength)
            .unwrap(),
        &b"1".to_vec()
    );

    assert!(builder.build().is_err());
}

#[test]
fn verify_build_record_type() {
    let builder1 = RecordBuilder::default().header(WarcHeader::WarcType, b"request".to_vec());
    let builder2 = builder1.clone().warc_type(RecordType::Request);

    let record1 = builder1.build().unwrap();
    let record2 = builder2.build().unwrap();

    assert_eq!(record1, record2);
    assert_eq!(
        record1.into_raw_parts().0.headers.get(&WarcHeader::WarcType),
        Some(&b"request".to_vec())
    );
}

#[test]
fn verify_build_date() {
    const DATE_STRING_0: &str = "2020-07-08T02:52:55Z";
    const DATE_STRING_1: &[u8] = b"2020-07-18T02:12:45Z";

    let mut builder = RecordBuilder::default();
    builder = builder.date(WarcDate::parse(DATE_STRING_0).unwrap());

    let record = builder.clone().build().unwrap();
    assert_eq!(
        record
            .into_raw_parts()
            .0
            .headers
            .get(&WarcHeader::Date)
            .unwrap(),
        &DATE_STRING_0.as_bytes().to_vec()
    );
    assert_eq!(
        builder
            .clone()
            .build_raw()
            .0
            .headers
            .get(&WarcHeader::Date)
            .unwrap(),
        &DATE_STRING_0.as_bytes().to_vec()
    );

    builder = builder.header(WarcHeader::Date, DATE_STRING_1.to_vec());
    let record = builder.clone().build().unwrap();
    assert_eq!(
        record
            .into_raw_parts()
            .0
            .headers
            .get(&WarcHeader::Date)
            .unwrap(),
        &DATE_STRING_1.to_vec()
    );
    assert_eq!(
        builder
            .clone()
            .build_raw()
            .0
            .headers
            .get(&WarcHeader::Date)
            .unwrap(),
        &DATE_STRING_1.to_vec()
    );

    let builder = builder.header(WarcHeader::Date, b"not-a-dayTor:a:time".to_vec());
    assert!(builder.build().is_err());
}

#[test]
fn verify_build_record_id() {
    const RECORD_ID_0: &[u8] = b"<urn:test:verify-build-id:record-0>";
    const RECORD_ID_1: &[u8] = b"<urn:test:verify-build-id:record-1>";

    let mut builder = RecordBuilder::default();
    builder = builder.warc_id(std::str::from_utf8(RECORD_ID_0).unwrap());

    let record = builder.clone().build().unwrap();
    assert_eq!(
        record
            .into_raw_parts()
            .0
            .headers
            .get(&WarcHeader::RecordID)
            .unwrap(),
        &RECORD_ID_0.to_vec()
    );
    assert_eq!(
        builder
            .clone()
            .build_raw()
            .0
            .headers
            .get(&WarcHeader::RecordID)
            .unwrap(),
        &RECORD_ID_0.to_vec()
    );

    let builder = builder.header(WarcHeader::RecordID, RECORD_ID_1.to_vec());
    let record = builder.clone().build().unwrap();
    assert_eq!(
        record
            .into_raw_parts()
            .0
            .headers
            .get(&WarcHeader::RecordID)
            .unwrap(),
        &RECORD_ID_1.to_vec()
    );
    assert_eq!(
        builder
            .clone()
            .build_raw()
            .0
            .headers
            .get(&WarcHeader::RecordID)
            .unwrap(),
        &RECORD_ID_1.to_vec()
    );
}

#[test]
fn verify_build_truncated_type() {
    const TRUNCATED_TYPE_0: &[u8] = b"length";
    const TRUNCATED_TYPE_1: &[u8] = b"disconnect";

    let mut builder = RecordBuilder::default();
    builder = builder.truncated_type(TruncatedType::Length);

    let record = builder.clone().build().unwrap();
    assert_eq!(
        record
            .into_raw_parts()
            .0
            .headers
            .get(&WarcHeader::Truncated)
            .unwrap(),
        &TRUNCATED_TYPE_0.to_vec()
    );
    assert_eq!(
        builder
            .clone()
            .build_raw()
            .0
            .headers
            .get(&WarcHeader::Truncated)
            .unwrap(),
        &TRUNCATED_TYPE_0.to_vec()
    );

    builder = builder.header(WarcHeader::Truncated, b"disconnect".to_vec());
    let record = builder.clone().build().unwrap();
    assert_eq!(
        record
            .into_raw_parts()
            .0
            .headers
            .get(&WarcHeader::Truncated)
            .unwrap(),
        &TRUNCATED_TYPE_1.to_vec()
    );
    assert_eq!(
        builder
            .clone()
            .build_raw()
            .0
            .headers
            .get(&WarcHeader::Truncated)
            .unwrap(),
        &TRUNCATED_TYPE_1.to_vec()
    );

    let builder = builder.header(WarcHeader::Truncated, b"foreign-intervention".to_vec());
    assert_eq!(
        builder
            .clone()
            .build()
            .unwrap()
            .into_raw_parts()
            .0
            .headers
            .get(&WarcHeader::Truncated)
            .unwrap()
            .as_slice(),
        &b"foreign-intervention"[..]
    );

    assert_eq!(
        builder
            .clone()
            .build_raw()
            .0
            .headers
            .get(&WarcHeader::Truncated)
            .unwrap()
            .as_slice(),
        &b"foreign-intervention"[..]
    );
}
