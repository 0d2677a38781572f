use temprec::timestamp::{month_length, Timestamp};

fn ts(text: &str) -> Timestamp {
    Timestamp::parse(text).unwrap()
}

#[test]
fn timestamp_notation_is_padded() {
    let t = Timestamp::new(2018, 3, 4, 5, 6, 7).unwrap();
    assert_eq!(t.rfc3339(), "2018-03-04T05:06:07Z");
    let t = Timestamp::new(7, 12, 31, 23, 59, 59).unwrap();
    assert_eq!(t.rfc3339(), "0007-12-31T23:59:59Z");
    let t = Timestamp::new(9999, 1, 1, 0, 0, 0).unwrap();
    assert_eq!(t.rfc3339(), "9999-01-01T00:00:00Z");
}

#[test]
fn timestamp_fields_are_kept() {
    let t = ts("2018-03-04T05:06:07Z");
    assert_eq!(
        (t.year(), t.month(), t.day(), t.hour(), t.minute(), t.second()),
        (2018, 3, 4, 5, 6, 7)
    );
}

#[test]
fn timestamp_parse_round_trips() {
    for text in [
        "2018-03-04T05:06:07Z",
        "0000-01-01T00:00:00Z",
        "2020-02-29T12:00:00Z",
        "2000-02-29T00:00:00Z",
        "9999-12-31T23:59:59Z",
    ] {
        assert_eq!(ts(text).rfc3339(), text);
    }
}

#[test]
fn timestamp_parse_rejects_malformed_text() {
    for text in [
        "",
        "garbage",
        "2018-03-04T05:06:07",
        "2018-03-04T05:06:07z",
        "2018-03-04 05:06:07Z",
        "2018-3-4T5:6:7Z",
        "2018-03-04T05:06:07ZZ",
        " 2018-03-04T05:06:07Z",
        "2018-03-04T05:06:07+00:00",
        "2018-03-04T05:06:07.5Z",
        "2018/03/04T05:06:07Z",
        "201a-03-04T05:06:07Z",
        "+018-03-04T05:06:07Z",
    ] {
        assert_eq!(Timestamp::parse(text), None);
    }
}

#[test]
fn timestamp_parse_rejects_what_is_no_date_or_time() {
    for text in [
        "2018-00-04T05:06:07Z",
        "2018-13-04T05:06:07Z",
        "2018-03-00T05:06:07Z",
        "2018-03-32T05:06:07Z",
        "2018-04-31T05:06:07Z",
        "2019-02-29T05:06:07Z",
        "1900-02-29T05:06:07Z",
        "2018-03-04T24:06:07Z",
        "2018-03-04T05:60:07Z",
        "2018-03-04T05:06:60Z",
    ] {
        assert_eq!(Timestamp::parse(text), None);
    }
}

#[test]
fn timestamp_new_checks_the_fields() {
    assert!(Timestamp::new(2020, 2, 29, 0, 0, 0).is_some());
    assert!(Timestamp::new(2021, 2, 29, 0, 0, 0).is_none());
    assert!(Timestamp::new(10000, 1, 1, 0, 0, 0).is_none());
    assert!(Timestamp::new(2021, 1, 1, 24, 0, 0).is_none());
    assert!(Timestamp::new(2021, 1, 1, 0, 60, 0).is_none());
    assert!(Timestamp::new(2021, 1, 1, 0, 0, 60).is_none());
}

#[test]
fn month_lengths_follow_the_calendar() {
    let lengths: Vec<u8> = (1..=12).map(|m| month_length(2021, m)).collect();
    assert_eq!(lengths, vec![31, 28, 31, 30, 31, 30, 31, 31, 30, 31, 30, 31]);
    assert_eq!(month_length(2020, 2), 29);
    assert_eq!(month_length(1900, 2), 28);
    assert_eq!(month_length(2000, 2), 29);
}

#[test]
fn is_after_orders_by_time() {
    let a = ts("2018-03-04T05:06:07Z");
    assert!(!a.is_after(&a));
    for later in [
        "2018-03-04T05:06:08Z",
        "2018-03-04T05:07:00Z",
        "2018-03-04T06:00:00Z",
        "2018-03-05T00:00:00Z",
        "2018-04-01T00:00:00Z",
        "2019-01-01T00:00:00Z",
    ] {
        let b = ts(later);
        assert!(b.is_after(&a));
        assert!(!a.is_after(&b));
        assert!(b > a);
    }
}

#[test]
fn same_as_agrees_with_equality() {
    let a = ts("2018-03-04T05:06:07Z");
    let b = ts("2018-03-04T05:06:07Z");
    let c = ts("2018-03-04T05:06:08Z");
    assert!(a.same_as(&b));
    assert!(!a.same_as(&c));
    assert_eq!(a, b);
    assert_ne!(a, c);
}
