use warc::{HeaderMap, RawRecordHeader, Record, RecordBuilder, WarcHeader, WarcWriter};

#[test]
fn write_raw_bytes_exact() {
    let mut headers = HeaderMap::new();
    headers.insert(WarcHeader::WarcType, b"dunno".to_vec());
    headers.insert(WarcHeader::ContentLength, b"5".to_vec());
    let headers = RawRecordHeader { version: "1.0".to_owned(), headers };

    let mut writer = WarcWriter::new(Vec::new());
    let written = writer.write_raw(headers, b"12345").unwrap();
    let bytes = writer.into_inner().unwrap();
    let expected =
        b"WARC/1.0\r\nwarc-type: dunno\r\ncontent-length: 5\r\n\r\n12345\r\n\r\n".to_vec();
    assert_eq!(bytes, expected);
    assert_eq!(written, expected.len());
}

#[test]
fn write_record_recomputes_content_length() {
    let record = RecordBuilder::default()
        .warc_id("<urn:test:writer:record-0>")
        .version("1.0".to_owned())
        .date(warc::WarcDate::parse("2020-07-08T02:52:55Z").unwrap())
        .body(b"12345".to_vec())
        .build()
        .unwrap();

    let mut writer = WarcWriter::new(Vec::new());
    let written = writer.write(&record).unwrap();
    let bytes = writer.into_inner().unwrap();
    assert_eq!(written, bytes.len());

    let text = String::from_utf8(bytes.clone()).unwrap();
    assert!(text.starts_with("WARC/1.0\r\n"));
    assert!(text.contains("content-length: 5\r\n"));
    assert!(text.contains("warc-type: resource\r\n"));
    assert!(text.contains("warc-record-id: <urn:test:writer:record-0>\r\n"));
    assert!(text.contains("warc-date: 2020-07-08T02:52:55Z\r\n"));
    assert!(text.ends_with("\r\n\r\n12345\r\n\r\n"));
}

#[test]
fn round_trip_through_reader() {
    let record = RecordBuilder::default()
        .warc_id("<urn:test:round-trip:record-0>")
        .version("1.0".to_owned())
        .date(warc::WarcDate::parse("2020-07-08T02:52:55Z").unwrap())
        .warc_type(warc::RecordType::Response)
        .body(b"hello round trip".to_vec())
        .header(WarcHeader::TargetURI, b"https://example.com/".to_vec())
        .build()
        .unwrap();

    let mut writer = WarcWriter::new(Vec::new());
    writer.write(&record).unwrap();
    let bytes = writer.into_inner().unwrap();

    let mut reader =
        WarcReader::new(std::io::BufReader::new(std::io::Cursor::new(bytes))).iter_records();
    let back = reader.next().unwrap().unwrap();
    assert_eq!(back, record);
    assert!(reader.next().is_none());
}

#[test]
fn into_raw_parts_restores_promoted_fields() {
    let record = RecordBuilder::default()
        .warc_id("<urn:test:raw-parts:record-0>")
        .date(warc::WarcDate::parse("2020-07-08T02:52:55Z").unwrap())
        .warc_type(warc::RecordType::Metadata)
        .truncated_type(warc::TruncatedType::Time)
        .body(b"abc".to_vec())
        .build()
        .unwrap();

    let (raw, body) = record.into_raw_parts();
    assert_eq!(body, b"abc".to_vec());
    assert_eq!(raw.headers.get(&WarcHeader::ContentLength), Some(&b"3".to_vec()));
    assert_eq!(raw.headers.get(&WarcHeader::WarcType), Some(&b"metadata".to_vec()));
    assert_eq!(
        raw.headers.get(&WarcHeader::RecordID),
        Some(&b"<urn:test:raw-parts:record-0>".to_vec())
    );
    assert_eq!(raw.headers.get(&WarcHeader::Truncated), Some(&b"time".to_vec()));
    assert_eq!(
        raw.headers.get(&WarcHeader::Date),
        Some(&b"2020-07-08T02:52:55Z".to_vec())
    );
}

use warc::WarcReader;
