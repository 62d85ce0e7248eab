use chrono::{DateTime, TimeZone, Utc};
use guide_sync::instant::{
    parse_feed_instant, Instant, MalformedInstant, FEED_INSTANT_FORMAT, MAX_UNIX_SECONDS,
    MIN_UNIX_SECONDS, SUBSECOND_LIMIT,
};

fn utc(y: i32, mo: u32, d: u32, h: u32, mi: u32, s: u32) -> i64 {
    Utc.with_ymd_and_hms(y, mo, d, h, mi, s).unwrap().timestamp()
}

#[test]
fn range_is_the_range_of_chrono() {
    assert_eq!(MIN_UNIX_SECONDS, DateTime::<Utc>::MIN_UTC.timestamp());
    assert_eq!(MAX_UNIX_SECONDS, DateTime::<Utc>::MAX_UTC.timestamp());
    assert!(DateTime::<Utc>::from_timestamp(MIN_UNIX_SECONDS, 0).is_some());
    assert!(DateTime::<Utc>::from_timestamp(MIN_UNIX_SECONDS - 1, 0).is_none());
    assert!(DateTime::<Utc>::from_timestamp(MAX_UNIX_SECONDS, 0).is_some());
    assert!(DateTime::<Utc>::from_timestamp(MAX_UNIX_SECONDS + 1, 0).is_none());
}

#[test]
fn new_accepts_what_chrono_accepts() {
    let cases: Vec<(i64, u32)> = vec![
        (0, 0),
        (1_709_337_000, 999_999_999),
        (1_709_337_000, 1_000_000_000),
        (1_483_228_799, 1_000_000_000),
        (1_483_228_799, 1_999_999_999),
        (1_483_228_799, SUBSECOND_LIMIT),
        (-1, 1_500_000_000),
        (-2, 1_500_000_000),
        (-61, 1_000_000_000),
        (MIN_UNIX_SECONDS, 0),
        (MIN_UNIX_SECONDS - 1, 0),
        (MAX_UNIX_SECONDS, 1_999_999_999),
        (MAX_UNIX_SECONDS + 1, 0),
        (i64::MIN, 0),
        (i64::MAX, 0),
    ];
    for (secs, nanos) in cases {
        let ours = Instant::new(secs, nanos);
        let theirs = DateTime::<Utc>::from_timestamp(secs, nanos);
        assert_eq!(ours.is_some(), theirs.is_some(), "{} {}", secs, nanos);
        if let Some(instant) = ours {
            assert_eq!(instant.unix_seconds(), secs);
            assert_eq!(instant.subsecond_nanos(), nanos);
        }
    }
}

#[test]
fn from_unix_seconds_has_no_fraction() {
    let instant = Instant::from_unix_seconds(1_709_337_000).unwrap();
    assert_eq!(instant.unix_seconds(), 1_709_337_000);
    assert_eq!(instant.subsecond_nanos(), 0);
    assert!(Instant::from_unix_seconds(MAX_UNIX_SECONDS + 1).is_none());
    assert!(Instant::from_unix_seconds(MIN_UNIX_SECONDS - 1).is_none());
}

#[test]
fn order_goes_by_seconds_then_fraction() {
    let a = Instant::new(10, 5).unwrap();
    let b = Instant::new(10, 6).unwrap();
    let c = Instant::new(11, 0).unwrap();
    let leap = Instant::new(59, 1_000_000_000).unwrap();
    let next = Instant::new(60, 0).unwrap();
    assert!(a.is_before(&b) && b.is_before(&c) && a.is_before(&c));
    assert!(!b.is_before(&a) && !a.is_before(&a));
    assert!(c.is_after(&a) && !a.is_after(&c) && !a.is_after(&a));
    assert!(a.same(&a) && !a.same(&b));
    assert!(leap.is_before(&next) && leap.is_after(&Instant::new(59, 999_999_999).unwrap()));
    let x = DateTime::<Utc>::from_timestamp(59, 1_000_000_000).unwrap();
    let y = DateTime::<Utc>::from_timestamp(60, 0).unwrap();
    assert!(x < y);
}

#[test]
fn window_end_of_late_evening_start() {
    let start = Instant::from_unix_seconds(utc(2024, 3, 1, 23, 50, 0)).unwrap();
    assert_eq!(start.unix_seconds(), 1_709_337_000);
    let end = start.end_of_day();
    assert_eq!(end.unix_seconds(), 1_709_337_599);
    assert_eq!(end.unix_seconds(), utc(2024, 3, 1, 23, 59, 59));
    assert_eq!(end.subsecond_nanos(), 0);
    let next_day = Instant::from_unix_seconds(utc(2024, 3, 2, 0, 5, 0)).unwrap();
    assert!(next_day.is_after(&end));
}

#[test]
fn end_of_day_is_the_last_whole_second_of_the_utc_day() {
    let cases: Vec<(i64, i64)> = vec![
        (0, 86_399),
        (86_399, 86_399),
        (86_400, 172_799),
        (-1, -1),
        (-86_400, -1),
        (-86_401, -86_401),
        (utc(2024, 3, 1, 0, 0, 0), utc(2024, 3, 1, 23, 59, 59)),
        (utc(1969, 7, 20, 20, 17, 40), utc(1969, 7, 20, 23, 59, 59)),
        (MIN_UNIX_SECONDS, MIN_UNIX_SECONDS + 86_399),
        (MAX_UNIX_SECONDS, MAX_UNIX_SECONDS),
        (MAX_UNIX_SECONDS - 86_399, MAX_UNIX_SECONDS),
    ];
    for (secs, expected) in cases {
        let end = Instant::new(secs, 123).unwrap().end_of_day();
        assert_eq!(end.unix_seconds(), expected, "{}", secs);
        assert_eq!(end.subsecond_nanos(), 0);
    }
}

#[test]
fn end_of_day_lies_before_a_start_in_the_last_second() {
    let late = Instant::new(utc(2024, 3, 1, 23, 59, 59), 500_000_000).unwrap();
    let end = late.end_of_day();
    assert_eq!(end.unix_seconds(), utc(2024, 3, 1, 23, 59, 59));
    assert!(late.is_after(&end));
}

#[test]
fn parses_feed_text_in_utc() {
    let instant = parse_feed_instant("20240301235000 +0000").unwrap();
    assert_eq!(instant.unix_seconds(), 1_709_337_000);
    assert_eq!(instant.subsecond_nanos(), 0);
}

#[test]
fn parses_feed_text_with_an_offset() {
    let east = parse_feed_instant("20240302005000 +0100").unwrap();
    let west = parse_feed_instant("20240301185000 -0500").unwrap();
    let utc_text = parse_feed_instant("20240301235000 +0000").unwrap();
    assert!(east.same(&utc_text));
    assert!(west.same(&utc_text));
    assert_eq!(east.unix_seconds(), utc(2024, 3, 1, 23, 50, 0));
}

#[test]
fn parse_agrees_with_chrono() {
    for text in ["20240301235000 +0000", "19991231235959 +0930", "20200229120000 -0300"] {
        let ours = parse_feed_instant(text).unwrap();
        let theirs = DateTime::parse_from_str(text, FEED_INSTANT_FORMAT).unwrap();
        assert_eq!(ours.unix_seconds(), theirs.timestamp());
        assert_eq!(ours.subsecond_nanos(), theirs.timestamp_subsec_nanos());
    }
}

#[test]
fn parses_a_leap_second() {
    let leap = parse_feed_instant("20161231235960 +0000").unwrap();
    assert_eq!(leap.unix_seconds(), utc(2016, 12, 31, 23, 59, 59));
    assert_eq!(leap.subsecond_nanos(), 1_000_000_000);
    assert!(leap.is_after(&leap.end_of_day()));
}

#[test]
fn rejects_text_that_is_no_instant() {
    for text in [
        "",
        "not a date",
        "20240301235000",
        "2024-03-01T23:50:00Z",
        "20241301235000 +0000",
        "20240230235000 +0000",
        "20240301235000 +0000 trailing",
    ] {
        assert_eq!(parse_feed_instant(text), Err(MalformedInstant), "{}", text);
    }
}
