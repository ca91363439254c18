use warc::WarcVersion;

#[test]
fn display() {
    assert_eq!("WARC/0.0".to_owned(), WarcVersion("0.0").to_string());
    assert_eq!("WARC/0.17", WarcVersion("0.17").to_string());
    assert_eq!("WARC/1.0", WarcVersion("1.0").to_string());
    assert_eq!("WARC/1.234", WarcVersion("1.234").to_string());
    assert_eq!("WARC/2.0-alpha", WarcVersion("2.0-alpha").to_string());
}

#[test]
fn version_equality() {
    assert_eq!(WarcVersion("1.0"), WarcVersion("1.0"));
    assert_ne!(WarcVersion("1.0"), WarcVersion("1.1"));
}
