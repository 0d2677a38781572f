use chrono::{NaiveDate, NaiveDateTime, SecondsFormat, TimeZone, Utc};
use temprec::timestamp::{month_length, Timestamp};

const FORMAT: &str = "%Y-%m-%dT%H:%M:%SZ";

#[test]
fn valid_dates_are_the_dates_of_the_calendar() {
    for year in (0..=9999u16).step_by(7).chain(1896..=2104).chain([0, 400, 1900, 2000, 9999]) {
        for month in 0..=13u8 {
            for day in 0..=32u8 {
                let ours = Timestamp::new(year, month, day, 12, 0, 0).is_some();
                let theirs =
                    NaiveDate::from_ymd_opt(year as i32, month as u32, day as u32).is_some();
                assert_eq!(ours, theirs, "{}-{}-{}", year, month, day);
            }
        }
    }
}

#[test]
fn month_lengths_are_those_of_the_calendar() {
    for year in 0..=9999u16 {
        for month in 1..=12u8 {
            let length = month_length(year, month);
            assert!(NaiveDate::from_ymd_opt(year as i32, month as u32, length as u32).is_some());
            assert!(NaiveDate::from_ymd_opt(year as i32, month as u32, length as u32 + 1).is_none());
        }
    }
}

#[test]
fn valid_times_are_the_times_of_the_day() {
    for hour in 0..=25u8 {
        for minute in 0..=61u8 {
            for second in 0..=61u8 {
                let ours = Timestamp::new(2018, 3, 4, hour, minute, second).is_some();
                assert_eq!(ours, hour < 24 && minute < 60 && second < 60);
            }
        }
    }
}

#[test]
fn notation_is_the_one_the_calendar_formats() {
    for (y, mo, d, h, mi, s) in [
        (2018, 3, 4, 5, 6, 7),
        (1970, 1, 1, 0, 0, 0),
        (2020, 2, 29, 23, 59, 59),
        (9999, 12, 31, 23, 59, 59),
        (1, 1, 1, 1, 1, 1),
        (0, 1, 1, 0, 0, 0),
        (987, 10, 20, 10, 20, 30),
    ] {
        let ours = Timestamp::new(y, mo, d, h, mi, s).unwrap().rfc3339();
        let theirs = Utc
            .with_ymd_and_hms(y as i32, mo as u32, d as u32, h as u32, mi as u32, s as u32)
            .unwrap();
        assert_eq!(ours, theirs.format(FORMAT).to_string());
        assert_eq!(ours, theirs.to_rfc3339_opts(SecondsFormat::Secs, true));
    }
}

#[test]
fn notation_is_read_by_the_calendar() {
    for text in ["2018-03-04T05:06:07Z", "0000-01-01T00:00:00Z", "9999-12-31T23:59:59Z"] {
        let ours = Timestamp::parse(text).unwrap();
        let theirs = NaiveDateTime::parse_from_str(text, FORMAT).unwrap().and_utc();
        assert_eq!(ours.rfc3339(), theirs.format(FORMAT).to_string());
    }
}

#[test]
fn order_is_the_order_of_instants() {
    let texts = [
        "1969-12-31T23:59:59Z",
        "1970-01-01T00:00:00Z",
        "2018-03-04T05:06:07Z",
        "2018-03-04T05:06:08Z",
        "2018-12-31T23:59:59Z",
        "2019-01-01T00:00:00Z",
    ];
    for a in texts {
        for b in texts {
            let ours = Timestamp::parse(a).unwrap().is_after(&Timestamp::parse(b).unwrap());
            let theirs = NaiveDateTime::parse_from_str(a, FORMAT).unwrap()
                > NaiveDateTime::parse_from_str(b, FORMAT).unwrap();
            assert_eq!(ours, theirs);
        }
    }
}

#[test]
fn from_unix_counts_from_the_start_of_1970() {
    assert_eq!(Timestamp::from_unix(0).unwrap().rfc3339(), "1970-01-01T00:00:00Z");
    assert_eq!(Timestamp::from_unix(1).unwrap().rfc3339(), "1970-01-01T00:00:01Z");
    assert_eq!(Timestamp::from_unix(-1).unwrap().rfc3339(), "1969-12-31T23:59:59Z");
    assert_eq!(Timestamp::from_unix(1520139967).unwrap().rfc3339(), "2018-03-04T05:06:07Z");
    assert_eq!(Timestamp::from_unix(951782400).unwrap().rfc3339(), "2000-02-29T00:00:00Z");
}

#[test]
fn from_unix_stays_within_four_digit_years() {
    assert_eq!(Timestamp::from_unix(253402300799).unwrap().rfc3339(), "9999-12-31T23:59:59Z");
    assert_eq!(Timestamp::from_unix(253402300800), None);
    assert_eq!(Timestamp::from_unix(-62167219200).unwrap().rfc3339(), "0000-01-01T00:00:00Z");
    assert_eq!(Timestamp::from_unix(-62167219201), None);
    assert_eq!(Timestamp::from_unix(i64::MAX), None);
    assert_eq!(Timestamp::from_unix(i64::MIN), None);
}

#[test]
fn from_unix_agrees_with_the_clock_of_the_calendar() {
    let now = Utc::now();
    let ours = Timestamp::from_unix(now.timestamp()).unwrap();
    assert_eq!(ours.rfc3339(), now.format(FORMAT).to_string());
}

#[test]
fn from_civil_checks_the_fields() {
    assert_eq!(
        Timestamp::from_civil(2018, 3, 4, 5, 6, 7),
        Timestamp::new(2018, 3, 4, 5, 6, 7)
    );
    assert_eq!(Timestamp::from_civil(-1, 3, 4, 5, 6, 7), None);
    assert_eq!(Timestamp::from_civil(10000, 3, 4, 5, 6, 7), None);
    assert_eq!(Timestamp::from_civil(2018, 256 + 3, 4, 5, 6, 7), None);
    assert_eq!(Timestamp::from_civil(2018, 3, 256 + 4, 5, 6, 7), None);
    assert_eq!(Timestamp::from_civil(2018, 3, 4, 256 + 5, 6, 7), None);
    assert_eq!(Timestamp::from_civil(2018, 3, 4, 5, 256 + 6, 7), None);
    assert_eq!(Timestamp::from_civil(2018, 3, 4, 5, 6, 256 + 7), None);
    assert_eq!(Timestamp::from_civil(2018, 2, 29, 5, 6, 7), None);
}
