use feedhub::feeddate::{month_slice_would_panic, parse_rfc3339, parse_rfc822, to_rfc3339_z};

#[test]
fn dates_rfc822_numeric_offset() {
    let dt = parse_rfc822("Mon, 06 Sep 2021 16:20:00 +0000").unwrap();
    assert_eq!(to_rfc3339_z(dt), "2021-09-06T16:20:00Z");
}

#[test]
fn rfc822_negative_offset_shifts_to_utc() {
    let dt = parse_rfc822("Mon, 06 Sep 2021 11:20:00 -0500").unwrap();
    assert_eq!(to_rfc3339_z(dt), "2021-09-06T16:20:00Z");
}

#[test]
fn dates_rfc822_named_zones() {
    assert_eq!(to_rfc3339_z(parse_rfc822("Wed, 02 Oct 2002 13:00:00 GMT").unwrap()), "2002-10-02T13:00:00Z");
    // EST is -0500.
    assert_eq!(to_rfc3339_z(parse_rfc822("Wed, 02 Oct 2002 08:00:00 EST").unwrap()), "2002-10-02T13:00:00Z");
    // PDT is -0700.
    assert_eq!(to_rfc3339_z(parse_rfc822("Wed, 02 Oct 2002 06:00:00 PDT").unwrap()), "2002-10-02T13:00:00Z");
}

#[test]
fn rfc822_no_weekday_and_no_seconds() {
    let dt = parse_rfc822("06 Sep 2021 16:20 Z").unwrap();
    assert_eq!(to_rfc3339_z(dt), "2021-09-06T16:20:00Z");
}

#[test]
fn rfc822_unparseable_returns_none() {
    assert!(parse_rfc822("not a date").is_none());
    assert!(parse_rfc822("Mon, 06 Foo 2021 16:20:00 +0000").is_none());
    assert!(parse_rfc822("Mon, 06 Sep 2021 16:20:00 XYZ").is_none());
}

#[test]
fn rfc3339_with_offset_and_fraction() {
    let dt = parse_rfc3339("2021-09-06T18:20:00.500+02:00").unwrap();
    assert_eq!(to_rfc3339_z(dt), "2021-09-06T16:20:00Z");
}

#[test]
fn rfc3339_zulu() {
    let dt = parse_rfc3339("2021-09-06T16:20:00Z").unwrap();
    assert_eq!(to_rfc3339_z(dt), "2021-09-06T16:20:00Z");
}

#[test]
fn rfc3339_bad_returns_none() {
    assert!(parse_rfc3339("2021-13-40T99:99:99Z").is_none());
    assert!(parse_rfc3339("nope").is_none());
}

#[test]
fn pub_date_needs_a_zone() {
    assert!(parse_rfc822("06 Sep 2021 16:20:00").is_none());
    assert!(parse_rfc822("06 Sep 2021 16:20:00 UTC").is_none());
}

#[test]
fn pub_date_month_from_first_three_letters_any_case() {
    let dt = parse_rfc822("06 SEPTEMBER 2021 16:20 GMT").unwrap();
    assert_eq!(to_rfc3339_z(dt), "2021-09-06T16:20:00Z");
    assert!(parse_rfc822("06 Se 2021 16:20 GMT").is_none());
}

#[test]
fn pub_date_two_digit_years_window_at_70() {
    assert_eq!(to_rfc3339_z(parse_rfc822("01 Jan 69 00:00 GMT").unwrap()), "2069-01-01T00:00:00Z");
    assert_eq!(to_rfc3339_z(parse_rfc822("01 Jan 70 00:00 GMT").unwrap()), "1970-01-01T00:00:00Z");
}

#[test]
fn pub_date_numeric_zone_ignores_non_digits() {
    assert_eq!(to_rfc3339_z(parse_rfc822("06 Sep 2021 16:20 +05:30").unwrap()), "2021-09-06T10:50:00Z");
    assert!(parse_rfc822("06 Sep 2021 16:20 +2400").is_none());
    assert!(parse_rfc822("06 Sep 2021 16:20 +0560").is_none());
    assert!(parse_rfc822("06 Sep 2021 16:20 +05").is_none());
}

#[test]
fn pub_date_invalid_calendar_is_none() {
    assert!(parse_rfc822("31 Feb 2021 16:20 GMT").is_none());
    assert!(parse_rfc822("06 Sep 2021 24:00 GMT").is_none());
}

#[test]
fn pub_date_month_slicing_through_a_character_is_flagged() {
    assert!(month_slice_would_panic("06 S\u{e9}p 2021 16:20 GMT") == false);
    assert!(month_slice_would_panic("06 \u{e9}\u{e9}x 2021 16:20 GMT"));
    assert!(!month_slice_would_panic("xx \u{e9}\u{e9}x 2021 16:20 GMT"));
    assert!(parse_rfc822("06 S\u{e9}p 2021 16:20 GMT").is_none());
}
