use feedhub::datetime::{format_rfc3339, normalize, parse_feed_date, parse_rfc3339, parse_rfc822, to_millis};
use feedhub::instant::Instant;

fn utc(s: &str) -> Instant {
    parse_rfc3339(s).expect("test literal should parse")
}

#[test]
fn datetime_rfc822_numeric_offsets() {
    assert_eq!(
        parse_rfc822("Tue, 10 Jun 2003 04:00:00 +0000"),
        Some(utc("2003-06-10T04:00:00Z"))
    );
    assert_eq!(
        parse_rfc822("Tue, 10 Jun 2003 04:00:00 -0500"),
        Some(utc("2003-06-10T09:00:00Z"))
    );
    assert_eq!(
        parse_rfc822("10 Jun 2003 04:00:00 +0530"),
        Some(utc("2003-06-09T22:30:00Z"))
    );
}

#[test]
fn rfc822_all_pinned_zone_names() {
    let cases = [
        ("GMT", "2020-01-01T12:00:00Z"),
        ("UT", "2020-01-01T12:00:00Z"),
        ("Z", "2020-01-01T12:00:00Z"),
        ("EST", "2020-01-01T17:00:00Z"),
        ("EDT", "2020-01-01T16:00:00Z"),
        ("CST", "2020-01-01T18:00:00Z"),
        ("CDT", "2020-01-01T17:00:00Z"),
        ("MST", "2020-01-01T19:00:00Z"),
        ("MDT", "2020-01-01T18:00:00Z"),
        ("PST", "2020-01-01T20:00:00Z"),
        ("PDT", "2020-01-01T19:00:00Z"),
    ];
    for (zone, expected) in cases {
        let input = format!("Wed, 01 Jan 2020 12:00:00 {zone}");
        assert_eq!(
            parse_rfc822(&input),
            Some(utc(expected)),
            "zone {zone} should resolve to {expected}"
        );
    }
}

#[test]
fn rfc822_four_digit_year_required_two_digit_tolerated() {
    assert_eq!(
        parse_rfc822("01 Jan 2020 00:00:00 GMT"),
        Some(utc("2020-01-01T00:00:00Z"))
    );
    assert_eq!(
        parse_rfc822("01 Jan 99 00:00:00 GMT"),
        Some(utc("1999-01-01T00:00:00Z"))
    );
    assert_eq!(
        parse_rfc822("01 Jan 20 00:00:00 GMT"),
        Some(utc("2020-01-01T00:00:00Z"))
    );
}

#[test]
fn rfc822_optional_seconds_and_dayname() {
    assert_eq!(
        parse_rfc822("Wed, 01 Jan 2020 12:30 GMT"),
        Some(utc("2020-01-01T12:30:00Z"))
    );
    assert_eq!(
        parse_rfc822("1 Jan 2020 12:30:45 GMT"),
        Some(utc("2020-01-01T12:30:45Z"))
    );
}

#[test]
fn datetime_rfc822_rejects_garbage() {
    for bad in [
        "",
        "not a date",
        "32 Jan 2020 00:00:00 GMT",
        "01 Xxx 2020 00:00:00 GMT",
        "01 Jan 2020 25:00:00 GMT",
        "01 Jan 2020 00:00:00 XYZ",
        "01 Jan 2020 00:00:00 +9999",
        "01 Jan 2o2o 00:00:00 GMT",
    ] {
        assert_eq!(parse_rfc822(bad), None, "{bad:?} must not parse");
    }
}

#[test]
fn rfc3339_offsets_and_fractional_seconds() {
    assert_eq!(
        parse_rfc3339("2020-01-01T00:00:00Z"),
        Some(utc("2020-01-01T00:00:00Z"))
    );
    assert_eq!(
        parse_rfc3339("2020-01-01T05:30:00+05:30"),
        Some(utc("2020-01-01T00:00:00Z"))
    );
    assert_eq!(
        parse_rfc3339("2019-12-31T19:00:00-05:00"),
        Some(utc("2020-01-01T00:00:00Z"))
    );
    let frac = parse_rfc3339("2020-01-01T00:00:00.123Z").unwrap();
    assert_eq!(frac.nanos / 1_000_000, 123);
}

#[test]
fn feed_date_tries_both_grammars() {
    assert!(parse_feed_date("2020-01-01T00:00:00Z").is_some());
    assert!(parse_feed_date("Wed, 01 Jan 2020 00:00:00 GMT").is_some());
    assert_eq!(parse_feed_date("last tuesday"), None);
    assert_eq!(parse_feed_date("   "), None);
}

#[test]
fn rfc3339_serialization_uses_z_and_keeps_millis() {
    assert_eq!(
        format_rfc3339(utc("2020-01-01T00:00:00Z")),
        "2020-01-01T00:00:00Z"
    );
    assert_eq!(
        format_rfc3339(utc("2020-01-01T00:00:00.123Z")),
        "2020-01-01T00:00:00.123Z"
    );
    assert_eq!(
        format_rfc3339(parse_rfc3339("2020-01-01T05:30:00+05:30").unwrap()),
        "2020-01-01T00:00:00Z"
    );
}

#[test]
fn millis_key_orders_sub_second_instants_that_text_would_misorder() {
    let whole = utc("2020-01-01T00:00:00Z");
    let frac = utc("2020-01-01T00:00:00.500Z");
    assert!(to_millis(frac) > to_millis(whole));
    assert!(
        format_rfc3339(frac) < format_rfc3339(whole),
        "text form misorders these, which is why the integer key exists"
    );
}

#[test]
fn normalize_truncates_to_millisecond_precision() {
    let dt = Instant { secs: 1_577_836_800, nanos: 123_456_789 };
    assert_eq!(normalize(dt).nanos, 123_000_000);
    assert_eq!(to_millis(dt), 1_577_836_800_123);
}

#[test]
fn rfc822_leap_second_reads_as_59() {
    assert_eq!(
        parse_rfc822("31 Dec 2016 23:59:60 GMT"),
        Some(utc("2016-12-31T23:59:59Z"))
    );
}

#[test]
fn rfc822_missing_zone_is_gmt() {
    assert_eq!(
        parse_rfc822("01 Jan 2020 12:00:00"),
        Some(utc("2020-01-01T12:00:00Z"))
    );
}

#[test]
fn rfc822_three_digit_year_counts_from_1900() {
    assert_eq!(
        parse_rfc822("01 Jan 120 00:00:00 GMT"),
        Some(utc("2020-01-01T00:00:00Z"))
    );
}

#[test]
fn rfc822_extra_tokens_and_four_part_time_are_refused() {
    assert_eq!(parse_rfc822("01 Jan 2020 00:00:00 GMT extra"), None);
    assert_eq!(parse_rfc822("01 Jan 2020 00:00:00:00 GMT"), None);
    assert_eq!(parse_rfc822("01 jan 2020 00:00:00 GMT"), None);
}

#[test]
fn rfc822_offset_of_a_day_or_more_is_refused() {
    assert_eq!(parse_rfc822("01 Jan 2020 00:00:00 +2400"), None);
    assert_eq!(
        parse_rfc822("01 Jan 2020 00:00:00 +2359"),
        Some(utc("2019-12-31T00:01:00Z"))
    );
}

#[test]
fn rfc822_late_comma_is_not_a_weekday() {
    assert_eq!(parse_rfc822("Wednesday, 01 Jan 2020 00:00:00 GMT"), None);
}
