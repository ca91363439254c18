use warc::parser::{header, headers, record, version, ParseStatus};

#[test]
fn version_parsing() {
    let (used, v) = version(b"WARC/0.0\r\n").unwrap();
    assert_eq!(used, 10);
    assert_eq!(v, "0.0");

    let (used, v) = version(b"WARC/1.0\r\n").unwrap();
    assert_eq!(used, 10);
    assert_eq!(v, "1.0");

    let (used, v) = version(b"WARC/2.0-alpha\r\n").unwrap();
    assert_eq!(used, 16);
    assert_eq!(v, "2.0-alpha");
}

#[test]
fn header_pair_parsing() {
    let input = b"some-header: all/the/things\r\n";
    let (used, (token, value)) = header(input).unwrap();
    assert_eq!(used, input.len());
    assert_eq!(token, b"some-header".to_vec());
    assert_eq!(value, b"all/the/things".to_vec());

    let input = b"another-header : with extra spaces\r\n";
    let (used, (token, value)) = header(input).unwrap();
    assert_eq!(used, input.len());
    assert_eq!(token, b"another-header".to_vec());
    assert_eq!(value, b"with extra spaces".to_vec());

    assert_eq!(
        header(b"incomplete-header : missing-line-ending"),
        Err(ParseStatus::Incomplete)
    );
}

#[test]
fn headers_parsing() {
    let raw_invalid = b"\
        WARC/1.0\r\n\
        content-length: R2D2\r\n\
        that: is not\r\n\
        a-valid: content-length\r\n\
        \r\n\
    ";
    assert!(headers(&raw_invalid[..]).is_err());

    let raw = b"\
        WARC/1.0\r\n\
        content-length: 42\r\n\
        foo: is fantastic\r\n\
        bar: is beautiful\r\n\
        baz: is bananas\r\n\
        \r\n\
    ";
    let (used, ver, list, content_length) = headers(&raw[..]).unwrap();
    assert_eq!(used, raw.len() - 2);
    assert_eq!(ver, "1.0");
    assert_eq!(content_length, 42);
    assert_eq!(list.len(), 4);
    assert_eq!(list[0].0, "content-length");
    assert_eq!(list[0].1, b"42".to_vec());
    assert_eq!(list[1].0, "foo");
    assert_eq!(list[1].1, b"is fantastic".to_vec());
    assert_eq!(list[2].0, "bar");
    assert_eq!(list[2].1, b"is beautiful".to_vec());
    assert_eq!(list[3].0, "baz");
    assert_eq!(list[3].1, b"is bananas".to_vec());
}

#[test]
fn parse_record() {
    let raw = b"\
        WARC/1.0\r\n\
        Warc-Type: dunno\r\n\
        Content-Length: 5\r\n\
        \r\n\
        12345\r\n\
        \r\n\
        WARC/1.0\r\n\
        Warc-Type: another\r\n\
        Content-Length: 6\r\n\
        \r\n\
        123456\r\n\
        \r\n\
    ";

    let (used, ver, list, body) = record(&raw[..]).unwrap();
    assert_eq!(ver, "1.0");
    assert_eq!(list.len(), 2);
    assert_eq!(list[0].0, "Warc-Type");
    assert_eq!(list[0].1, b"dunno".to_vec());
    assert_eq!(list[1].0, "Content-Length");
    assert_eq!(list[1].1, b"5".to_vec());
    assert_eq!(body, b"12345".to_vec());
    assert_eq!(
        &raw[used..],
        &b"WARC/1.0\r\nWarc-Type: another\r\nContent-Length: 6\r\n\r\n123456\r\n\r\n"[..]
    );
}

#[test]
fn parse_u64_values() {
    assert_eq!(warc::parser::parse_u64(b"0"), Some(0));
    assert_eq!(warc::parser::parse_u64(b"42"), Some(42));
    assert_eq!(warc::parser::parse_u64(b"+42"), Some(42));
    assert_eq!(warc::parser::parse_u64(b"18446744073709551615"), Some(u64::MAX));
    assert_eq!(warc::parser::parse_u64(b"18446744073709551616"), None);
    assert_eq!(warc::parser::parse_u64(b""), None);
    assert_eq!(warc::parser::parse_u64(b"+"), None);
    assert_eq!(warc::parser::parse_u64(b"R2D2"), None);
    assert_eq!(warc::parser::parse_u64(b"4 2"), None);
}

#[test]
fn is_header_token_char_classes() {
    assert!(warc::parser::is_header_token_char(b'a'));
    assert!(warc::parser::is_header_token_char(b'Z'));
    assert!(warc::parser::is_header_token_char(b'-'));
    assert!(warc::parser::is_header_token_char(b'0'));
    assert!(!warc::parser::is_header_token_char(b':'));
    assert!(!warc::parser::is_header_token_char(b' '));
    assert!(!warc::parser::is_header_token_char(b'\\'));
    assert!(!warc::parser::is_header_token_char(0));
    assert!(!warc::parser::is_header_token_char(128));
    assert!(!warc::parser::is_header_token_char(b'{'));
}
