use warc::WarcDate;

#[test]
fn parse_canonical_utc() {
    let d = WarcDate::parse("2020-07-08T02:52:55Z").unwrap();
    assert_eq!(d.year(), 2020);
    assert_eq!(d.month(), 7);
    assert_eq!(d.day(), 8);
    assert_eq!(d.hour(), 2);
    assert_eq!(d.minute(), 52);
    assert_eq!(d.second(), 55);
    assert_eq!(d.to_string(), "2020-07-08T02:52:55Z");
}

#[test]
fn parse_normalizes_offsets_to_utc() {
    let d = WarcDate::parse("2020-07-08T04:52:55+02:00").unwrap();
    assert_eq!(d.to_string(), "2020-07-08T02:52:55Z");

    let d = WarcDate::parse("2019-12-31T23:30:00-01:00").unwrap();
    assert_eq!(d.to_string(), "2020-01-01T00:30:00Z");
}

#[test]
fn parse_rejects_garbage() {
    assert!(WarcDate::parse("yesterday").is_none());
    assert!(WarcDate::parse("2020-07-08").is_none());
    assert!(WarcDate::parse("2020-13-08T02:52:55Z").is_none());
}

#[test]
fn new_checks_the_calendar() {
    assert!(WarcDate::new(2020, 2, 29, 0, 0, 0).is_some());
    assert!(WarcDate::new(2021, 2, 29, 0, 0, 0).is_none());
    assert!(WarcDate::new(2000, 2, 29, 0, 0, 0).is_some());
    assert!(WarcDate::new(1900, 2, 29, 0, 0, 0).is_none());
    assert!(WarcDate::new(2020, 4, 31, 0, 0, 0).is_none());
    assert!(WarcDate::new(2020, 1, 31, 23, 59, 59).is_some());
    assert!(WarcDate::new(2020, 1, 1, 24, 0, 0).is_none());
    assert!(WarcDate::new(10000, 1, 1, 0, 0, 0).is_none());
}

#[test]
fn formats_with_zero_padding() {
    let d = WarcDate::new(33, 1, 2, 3, 4, 5).unwrap();
    assert_eq!(d.to_string(), "0033-01-02T03:04:05Z");
}

#[test]
fn now_is_a_real_moment() {
    let d = WarcDate::now();
    assert!(d.year() >= 2020);
    assert!((1..=12).contains(&d.month()));
    assert!((1..=31).contains(&d.day()));
}
