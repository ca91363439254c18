use std::io::{BufReader, Cursor};

use warc::{WarcHeader, WarcReader};

#[test]
fn single_record_fields() {
    let raw = b"WARC/1.0\r\nWarc-Type: dunno\r\nContent-Length: 5\r\nWARC-Record-ID: <urn:test:0>\r\nWARC-Date: 2020-07-08T02:52:55Z\r\n\r\n12345\r\n\r\n";

    let mut reader = WarcReader::new(BufReader::new(Cursor::new(raw.as_slice()))).iter_records();
    let record = reader.next().unwrap().unwrap();
    assert_eq!(record.header(WarcHeader::WarcType).unwrap(), "dunno");
    assert_eq!(record.warc_id(), "<urn:test:0>");
    assert_eq!(record.date().to_string(), "2020-07-08T02:52:55Z");
    assert_eq!(record.body(), b"12345");
    assert!(reader.next().is_none());
}

#[test]
fn cursor_mode_never_reading_bodies_sees_every_record() {
    let raw = b"\
        WARC/1.0\r\n\
        Warc-Type: dunno\r\n\
        Content-Length: 5\r\n\
        WARC-Record-ID: <urn:test:skip:record-0>\r\n\
        WARC-Date: 2020-07-08T02:52:55Z\r\n\
        \r\n\
        12345\r\n\
        \r\n\
        WARC/1.0\r\n\
        Warc-Type: another\r\n\
        WARC-Record-ID: <urn:test:skip:record-1>\r\n\
        WARC-Date: 2020-07-08T02:52:56Z\r\n\
        Content-Length: 6\r\n\
        \r\n\
        123456\r\n\
        \r\n\
        WARC/1.0\r\n\
        Warc-Type: third\r\n\
        WARC-Record-ID: <urn:test:skip:record-2>\r\n\
        WARC-Date: 2020-07-08T02:52:57Z\r\n\
        Content-Length: 4\r\n\
        \r\n\
        wxyz\r\n\
        \r\n\
    ";

    let mut reader = WarcReader::new(BufReader::new(Cursor::new(raw.as_slice())));
    let mut stream_iter = reader.stream_records();

    let mut ids: Vec<String> = Vec::new();
    loop {
        match stream_iter.next_item() {
            None => break,
            Some(item) => {
                let record = item.unwrap();
                ids.push(record.warc_id().to_owned());
            }
        }
    }
    assert_eq!(
        ids,
        vec![
            "<urn:test:skip:record-0>".to_owned(),
            "<urn:test:skip:record-1>".to_owned(),
            "<urn:test:skip:record-2>".to_owned(),
        ]
    );
}

#[test]
fn content_length_header_tracks_body() {
    let mut record = warc::Record::<warc::BufferedBody>::with_body(b"12345".to_vec());
    assert_eq!(record.header(WarcHeader::ContentLength).unwrap(), "5");
    record.replace_body(b"123".to_vec());
    assert_eq!(record.header(WarcHeader::ContentLength).unwrap(), "3");
    assert_eq!(record.content_length(), 3);
}

#[test]
fn trailer_must_be_two_crlf() {
    // The five body bytes are followed by junk instead of the trailer.
    let raw = b"\
        WARC/1.0\r\n\
        Warc-Type: dunno\r\n\
        Content-Length: 5\r\n\
        WARC-Record-ID: <urn:test:trailer:record-0>\r\n\
        WARC-Date: 2020-07-08T02:52:55Z\r\n\
        \r\n\
        12345xx\r\n\
        \r\n\
    ";

    let mut reader = WarcReader::new(BufReader::new(Cursor::new(raw.as_slice()))).iter_raw_records();
    assert!(matches!(reader.next(), Some(Err(warc::Error::ReadOverflow))));
}

#[test]
fn empty_stream_ends_cleanly() {
    let raw: &[u8] = b"";
    let mut reader = WarcReader::new(BufReader::new(Cursor::new(raw))).iter_raw_records();
    assert!(reader.next().is_none());

    let mut reader = WarcReader::new(BufReader::new(Cursor::new(raw))).iter_records();
    assert!(reader.next().is_none());

    let mut reader = WarcReader::new(BufReader::new(Cursor::new(raw)));
    let mut stream_iter = reader.stream_records();
    assert!(stream_iter.next_item().is_none());
}

#[test]
fn add_body_and_strip_body_round() {
    let record = warc::Record::<warc::EmptyBody>::new();
    let id = record.warc_id().to_owned();
    let buffered = record.add_body(b"abc".to_vec());
    assert_eq!(buffered.content_length(), 3);
    assert_eq!(buffered.warc_id(), id);
    let empty = buffered.strip_body();
    assert_eq!(empty.content_length(), 0);
    assert_eq!(empty.warc_id(), id);
}

#[test]
fn content_length_formats_large_values() {
    let body = vec![97u8; 12345];
    let record = warc::Record::<warc::BufferedBody>::with_body(body);
    assert_eq!(record.header(WarcHeader::ContentLength).unwrap(), "12345");
}

#[test]
fn error_messages_name_the_failure() {
    let err = warc::Error::MissingHeader(WarcHeader::WarcType);
    assert_eq!(err.message(), "missing required header");
    let err = warc::Error::MalformedHeader(WarcHeader::Date, "oops".to_owned());
    assert_eq!(err.message(), "malformed header");
}
