use std::io::{BufReader, Cursor};

use warc::{Error, WarcHeader, WarcReader};

#[test]
fn basic_record() {
    let raw = b"\
        WARC/1.0\r\n\
        Warc-Type: dunno\r\n\
        Content-Length: 5\r\n\
        WARC-Record-Id: <urn:test:basic-record:record-0>\r\n\
        WARC-Date: 2020-07-08T02:52:55Z\r\n\
        \r\n\
        12345\r\n\
        \r\n\
    ";

    let mut reader = WarcReader::new(BufReader::new(Cursor::new(raw.as_slice()))).iter_raw_records();
    let (headers, body) = reader.next().unwrap().unwrap();
    assert_eq!(headers.version, "1.0");
    assert_eq!(headers.headers.len(), 4);
    assert_eq!(headers.headers.get(&WarcHeader::WarcType), Some(&b"dunno".to_vec()));
    assert_eq!(headers.headers.get(&WarcHeader::ContentLength), Some(&b"5".to_vec()));
    assert_eq!(
        headers.headers.get(&WarcHeader::RecordID),
        Some(&b"<urn:test:basic-record:record-0>".to_vec())
    );
    assert_eq!(
        headers.headers.get(&WarcHeader::Date),
        Some(&b"2020-07-08T02:52:55Z".to_vec())
    );
    assert_eq!(body, b"12345".to_vec());
}

#[test]
fn two_records() {
    let raw = b"\
        WARC/1.0\r\n\
        Warc-Type: dunno\r\n\
        Content-Length: 5\r\n\
        WARC-Record-Id: <urn:test:two-records:record-0>\r\n\
        WARC-Date: 2020-07-08T02:52:55Z\r\n\
        \r\n\
        12345\r\n\
        \r\n\
        WARC/1.0\r\n\
        Warc-Type: another\r\n\
        WARC-Record-Id: <urn:test:two-records:record-1>\r\n\
        WARC-Date: 2020-07-08T02:52:56Z\r\n\
        Content-Length: 6\r\n\
        \r\n\
        123456\r\n\
        \r\n\
    ";

    let mut reader = WarcReader::new(BufReader::new(Cursor::new(raw.as_slice()))).iter_raw_records();
    {
        let (headers, body) = reader.next().unwrap().unwrap();
        assert_eq!(headers.version, "1.0");
        assert_eq!(headers.headers.len(), 4);
        assert_eq!(headers.headers.get(&WarcHeader::WarcType), Some(&b"dunno".to_vec()));
        assert_eq!(headers.headers.get(&WarcHeader::ContentLength), Some(&b"5".to_vec()));
        assert_eq!(
            headers.headers.get(&WarcHeader::RecordID),
            Some(&b"<urn:test:two-records:record-0>".to_vec())
        );
        assert_eq!(
            headers.headers.get(&WarcHeader::Date),
            Some(&b"2020-07-08T02:52:55Z".to_vec())
        );
        assert_eq!(body, b"12345".to_vec());
    }

    {
        let (headers, body) = reader.next().unwrap().unwrap();
        assert_eq!(headers.version, "1.0");
        assert_eq!(headers.headers.len(), 4);
        assert_eq!(
            headers.headers.get(&WarcHeader::WarcType),
            Some(&b"another".to_vec())
        );
        assert_eq!(headers.headers.get(&WarcHeader::ContentLength), Some(&b"6".to_vec()));
        assert_eq!(
            headers.headers.get(&WarcHeader::RecordID),
            Some(&b"<urn:test:two-records:record-1>".to_vec())
        );
        assert_eq!(
            headers.headers.get(&WarcHeader::Date),
            Some(&b"2020-07-08T02:52:56Z".to_vec())
        );
        assert_eq!(body, b"123456".to_vec());
    }

    assert!(reader.next().is_none());
}

#[test]
fn records_in_order() {
    let raw = b"\
        WARC/1.0\r\n\
        Warc-Type: dunno\r\n\
        Content-Length: 5\r\n\
        WARC-Record-ID: <urn:test:records-in-order:record-0>\r\n\
        WARC-Date: 2020-07-08T02:52:55Z\r\n\
        \r\n\
        12345\r\n\
        \r\n\
        WARC/1.0\r\n\
        Warc-Type: another\r\n\
        WARC-Record-ID: <urn:test:records-in-order:record-1>\r\n\
        WARC-Date: 2020-07-08T02:52:56Z\r\n\
        Content-Length: 6\r\n\
        \r\n\
        123456\r\n\
        \r\n\
    ";

    let mut reader = WarcReader::new(BufReader::new(Cursor::new(raw.as_slice()))).iter_records();
    let first = reader.next().unwrap().unwrap();
    assert_eq!(first.warc_id(), "<urn:test:records-in-order:record-0>");
    assert_eq!(first.header(WarcHeader::WarcType).unwrap(), "dunno");
    assert_eq!(first.date().to_string(), "2020-07-08T02:52:55Z");
    assert_eq!(first.body(), b"12345");
    let second = reader.next().unwrap().unwrap();
    assert_eq!(second.warc_id(), "<urn:test:records-in-order:record-1>");
    assert_eq!(second.body(), b"123456");
    assert!(reader.next().is_none());
}

#[test]
fn first_item() {
    let raw = b"\
        WARC/1.0\r\n\
        Warc-Type: dunno\r\n\
        Content-Length: 5\r\n\
        WARC-Record-Id: <urn:test:basic-record:record-0>\r\n\
        WARC-Date: 2020-07-08T02:52:55Z\r\n\
        \r\n\
        12345\r\n\
        \r\n\
    ";

    let mut reader = WarcReader::new(BufReader::new(Cursor::new(raw.as_slice())));
    let mut stream_iter = reader.stream_records();
    let record = stream_iter
        .next_item()
        .unwrap()
        .unwrap()
        .into_buffered()
        .unwrap();
    assert_eq!(record.warc_version(), "1.0");
    assert_eq!(record.content_length(), 5);
    assert_eq!(record.warc_id(), "<urn:test:basic-record:record-0>");
    assert_eq!(record.body(), b"12345");
}

#[test]
fn both_items() {
    let raw = b"\
        WARC/1.0\r\n\
        Warc-Type: dunno\r\n\
        Content-Length: 5\r\n\
        WARC-Record-Id: <urn:test:two-records:record-0>\r\n\
        WARC-Date: 2020-07-08T02:52:55Z\r\n\
        \r\n\
        12345\r\n\
        \r\n\
        WARC/1.0\r\n\
        Warc-Type: another\r\n\
        WARC-Record-Id: <urn:test:two-records:record-1>\r\n\
        WARC-Date: 2020-07-08T02:52:56Z\r\n\
        Content-Length: 6\r\n\
        \r\n\
        123456\r\n\
        \r\n\
    ";

    let mut reader = WarcReader::new(BufReader::new(Cursor::new(raw.as_slice())));
    let mut stream_iter = reader.stream_records();

    {
        let record = stream_iter
            .next_item()
            .unwrap()
            .unwrap()
            .into_buffered()
            .unwrap();
        assert_eq!(record.warc_version(), "1.0");
        assert_eq!(record.content_length(), 5);
        assert_eq!(record.warc_id(), "<urn:test:two-records:record-0>");
        assert_eq!(record.body(), b"12345");
    }

    {
        let record = stream_iter
            .next_item()
            .unwrap()
            .unwrap()
            .into_buffered()
            .unwrap();
        assert_eq!(record.warc_version(), "1.0");
        assert_eq!(record.content_length(), 6);
        assert_eq!(record.warc_id(), "<urn:test:two-records:record-1>");
        assert_eq!(record.body(), b"123456");
    }
}

#[test]
fn only_second_item() {
    let raw = b"\
        WARC/1.0\r\n\
        Warc-Type: dunno\r\n\
        Content-Length: 5\r\n\
        WARC-Record-Id: <urn:test:two-records:record-0>\r\n\
        WARC-Date: 2020-07-08T02:52:55Z\r\n\
        \r\n\
        12345\r\n\
        \r\n\
        WARC/1.0\r\n\
        Warc-Type: another\r\n\
        WARC-Record-Id: <urn:test:two-records:record-1>\r\n\
        WARC-Date: 2020-07-08T02:52:56Z\r\n\
        Content-Length: 6\r\n\
        \r\n\
        123456\r\n\
        \r\n\
    ";

    let mut reader = WarcReader::new(BufReader::new(Cursor::new(raw.as_slice())));
    let mut stream_iter = reader.stream_records();

    let _skipped = stream_iter.next_item().unwrap().unwrap();

    {
        let record = stream_iter
            .next_item()
            .unwrap()
            .unwrap()
            .into_buffered()
            .unwrap();
        assert_eq!(record.warc_version(), "1.0");
        assert_eq!(record.content_length(), 6);
        assert_eq!(record.warc_id(), "<urn:test:two-records:record-1>");
        assert_eq!(record.body(), b"123456");
    }
}

#[test]
fn triple_items() {
    let raw = b"\
        WARC/1.0\r\n\
        Warc-Type: dunno\r\n\
        Content-Length: 5\r\n\
        WARC-Record-Id: <urn:test:three-records:record-0>\r\n\
        WARC-Date: 2020-07-08T02:52:55Z\r\n\
        \r\n\
        12345\r\n\
        \r\n\
        WARC/1.0\r\n\
        Warc-Type: another\r\n\
        WARC-Record-Id: <urn:test:three-records:record-1>\r\n\
        WARC-Date: 2020-07-08T02:52:56Z\r\n\
        Content-Length: 6\r\n\
        \r\n\
        123456\r\n\
        \r\n\
        WARC/1.0\r\n\
        Warc-Type: yet another\r\n\
        WARC-Record-Id: <urn:test:three-records:record-2>\r\n\
        WARC-Date: 2020-07-08T02:52:56Z\r\n\
        Content-Length: 8\r\n\
        \r\n\
        12345678\r\n\
        \r\n\
    ";

    let mut reader = WarcReader::new(BufReader::new(Cursor::new(raw.as_slice())));
    let mut stream_iter = reader.stream_records();

    {
        let record = stream_iter
            .next_item()
            .unwrap()
            .unwrap()
            .into_buffered()
            .unwrap();
        assert_eq!(record.warc_version(), "1.0");
        assert_eq!(record.content_length(), 5);
        assert_eq!(record.warc_id(), "<urn:test:three-records:record-0>");
        assert_eq!(record.body(), b"12345");
    }

    {
        let record = stream_iter
            .next_item()
            .unwrap()
            .unwrap()
            .into_buffered()
            .unwrap();
        assert_eq!(record.warc_version(), "1.0");
        assert_eq!(record.content_length(), 6);
        assert_eq!(record.warc_id(), "<urn:test:three-records:record-1>");
        assert_eq!(record.body(), b"123456");
    }

    {
        let record = stream_iter
            .next_item()
            .unwrap()
            .unwrap()
            .into_buffered()
            .unwrap();
        assert_eq!(record.warc_version(), "1.0");
        assert_eq!(record.content_length(), 8);
        assert_eq!(record.warc_id(), "<urn:test:three-records:record-2>");
        assert_eq!(record.body(), b"12345678");
    }
}

#[test]
fn partial_body_read_then_advance() {
    let raw = b"\
        WARC/1.0\r\n\
        Warc-Type: dunno\r\n\
        Content-Length: 5\r\n\
        WARC-Record-Id: <urn:test:partial:record-0>\r\n\
        WARC-Date: 2020-07-08T02:52:55Z\r\n\
        \r\n\
        12345\r\n\
        \r\n\
        WARC/1.0\r\n\
        Warc-Type: another\r\n\
        WARC-Record-Id: <urn:test:partial:record-1>\r\n\
        WARC-Date: 2020-07-08T02:52:56Z\r\n\
        Content-Length: 6\r\n\
        \r\n\
        123456\r\n\
        \r\n\
    ";

    let mut reader = WarcReader::new(BufReader::new(Cursor::new(raw.as_slice())));
    let mut stream_iter = reader.stream_records();

    {
        let mut record = stream_iter.next_item().unwrap().unwrap();
        let chunk = record.read_body(2).unwrap();
        assert_eq!(chunk, b"12".to_vec());
        assert_eq!(record.content_length(), 3);
    }

    {
        let record = stream_iter
            .next_item()
            .unwrap()
            .unwrap()
            .into_buffered()
            .unwrap();
        assert_eq!(record.warc_id(), "<urn:test:partial:record-1>");
        assert_eq!(record.body(), b"123456");
    }
}

#[test]
fn zero_length_body() {
    let raw = b"\
        WARC/1.0\r\n\
        Warc-Type: dunno\r\n\
        Content-Length: 0\r\n\
        WARC-Record-Id: <urn:test:zero:record-0>\r\n\
        WARC-Date: 2020-07-08T02:52:55Z\r\n\
        \r\n\
        \r\n\
        \r\n\
    ";

    let mut reader = WarcReader::new(BufReader::new(Cursor::new(raw.as_slice()))).iter_records();
    let record = reader.next().unwrap().unwrap();
    assert_eq!(record.content_length(), 0);
    assert_eq!(record.body(), b"");
    assert!(reader.next().is_none());
}

#[test]
fn overflowing_body_rejected() {
    let raw = b"\
        WARC/1.0\r\n\
        Warc-Type: dunno\r\n\
        Content-Length: 3\r\n\
        WARC-Record-Id: <urn:test:overflow:record-0>\r\n\
        WARC-Date: 2020-07-08T02:52:55Z\r\n\
        \r\n\
        12345\r\n\
        \r\n\
    ";

    let mut reader = WarcReader::new(BufReader::new(Cursor::new(raw.as_slice()))).iter_raw_records();
    assert!(matches!(reader.next(), Some(Err(Error::ReadOverflow))));
}

#[test]
fn truncated_body_rejected() {
    let raw = b"\
        WARC/1.0\r\n\
        Warc-Type: dunno\r\n\
        Content-Length: 5\r\n\
        WARC-Record-Id: <urn:test:truncated:record-0>\r\n\
        WARC-Date: 2020-07-08T02:52:55Z\r\n\
        \r\n\
        123\
    ";

    let mut reader = WarcReader::new(BufReader::new(Cursor::new(raw.as_slice()))).iter_raw_records();
    assert!(matches!(reader.next(), Some(Err(Error::UnexpectedEOB))));
}

#[test]
fn trailer_of_short_lines_rejected() {
    // Two stray 2-byte lines land the framing exactly where the trailer
    // belongs, but they are not the two-CRLF sequence.
    let raw = b"\
        WARC/1.0\r\n\
        Warc-Type: dunno\r\n\
        Content-Length: 5\r\n\
        WARC-Record-Id: <urn:test:short-lines:record-0>\r\n\
        WARC-Date: 2020-07-08T02:52:55Z\r\n\
        \r\n\
        12345a\nb\n\
    ";

    let mut reader = WarcReader::new(BufReader::new(Cursor::new(raw.as_slice()))).iter_raw_records();
    assert!(matches!(reader.next(), Some(Err(Error::ParseHeaders))));
}

#[test]
fn garbage_headers_rejected() {
    let raw = b"HTTP/1.1 200 OK\r\n\r\n";

    let mut reader = WarcReader::new(BufReader::new(Cursor::new(raw.as_slice()))).iter_raw_records();
    assert!(matches!(reader.next(), Some(Err(Error::ParseHeaders))));
}

#[test]
fn missing_required_header_rejected() {
    let raw = b"\
        WARC/1.0\r\n\
        Content-Length: 5\r\n\
        WARC-Record-Id: <urn:test:no-type:record-0>\r\n\
        WARC-Date: 2020-07-08T02:52:55Z\r\n\
        \r\n\
        12345\r\n\
        \r\n\
    ";

    let mut reader = WarcReader::new(BufReader::new(Cursor::new(raw.as_slice()))).iter_records();
    assert!(matches!(
        reader.next(),
        Some(Err(Error::MissingHeader(WarcHeader::WarcType)))
    ));
}

#[test]
fn bad_trailer_in_cursor_skip() {
    let raw = b"\
        WARC/1.0\r\n\
        Warc-Type: dunno\r\n\
        Content-Length: 5\r\n\
        WARC-Record-Id: <urn:test:bad-trailer:record-0>\r\n\
        WARC-Date: 2020-07-08T02:52:55Z\r\n\
        \r\n\
        12345XY\r\n\
        WARC/1.0\r\n\
        \r\n\
    ";

    let mut reader = WarcReader::new(BufReader::new(Cursor::new(raw.as_slice())));
    let mut stream_iter = reader.stream_records();
    let _first = stream_iter.next_item().unwrap().unwrap();
    assert!(matches!(stream_iter.next_item(), Some(Err(Error::ParseHeaders))));
}
