use feedhub::instant::Instant;
use feedhub::storedate::{format_utc, format_utc_ceil, parse_rfc3339, parse_rfc822};


    fn utc(s: &str) -> Instant {
        parse_rfc3339(s).expect("test literal should be RFC 3339")
    }

    #[test]
    fn dates_rfc822_numeric_offsets() {
        assert_eq!(
            parse_rfc822("Fri, 01 Mar 2024 12:30:00 +0000"),
            Some(utc("2024-03-01T12:30:00Z"))
        );
        assert_eq!(
            parse_rfc822("Fri, 01 Mar 2024 12:30:00 -0500"),
            Some(utc("2024-03-01T17:30:00Z"))
        );
        assert_eq!(
            parse_rfc822("1 Mar 2024 12:30:00 +0530"),
            Some(utc("2024-03-01T07:00:00Z"))
        );
    }

    #[test]
    fn rfc822_zone_names() {
        let cases = [
            ("GMT", "2024-03-01T12:00:00Z"),
            ("UT", "2024-03-01T12:00:00Z"),
            ("Z", "2024-03-01T12:00:00Z"),
            ("EST", "2024-03-01T17:00:00Z"),
            ("EDT", "2024-03-01T16:00:00Z"),
            ("CST", "2024-03-01T18:00:00Z"),
            ("CDT", "2024-03-01T17:00:00Z"),
            ("MST", "2024-03-01T19:00:00Z"),
            ("MDT", "2024-03-01T18:00:00Z"),
            ("PST", "2024-03-01T20:00:00Z"),
            ("PDT", "2024-03-01T19:00:00Z"),
        ];
        for (zone, expected) in cases {
            let input = format!("Fri, 01 Mar 2024 12:00:00 {zone}");
            assert_eq!(parse_rfc822(&input), Some(utc(expected)), "zone {zone}");
        }
    }

    #[test]
    fn rfc822_optional_pieces() {
        // No day-of-week, no seconds.
        assert_eq!(
            parse_rfc822("01 Mar 2024 12:30 GMT"),
            Some(utc("2024-03-01T12:30:00Z"))
        );
        // Two-digit years.
        assert_eq!(
            parse_rfc822("Fri, 01 Mar 24 12:30:00 GMT"),
            Some(utc("2024-03-01T12:30:00Z"))
        );
        assert_eq!(
            parse_rfc822("Wed, 01 Mar 95 12:30:00 GMT"),
            Some(utc("1995-03-01T12:30:00Z"))
        );
    }

    #[test]
    fn dates_rfc822_rejects_garbage() {
        for input in [
            "",
            "not a date",
            "Fri, 01 Mar 2024 12:30:00",       // no zone
            "Fri, 01 Mar 2024 12:30:00 CEST",  // unlisted zone name
            "Fri, 32 Mar 2024 12:30:00 GMT",   // impossible day
            "Fri, 01 Foo 2024 12:30:00 GMT",   // bad month
            "Fri, 01 Mar 2024 25:30:00 GMT",   // impossible hour
            "Fri, 01 Mar 2024 12:30:00 +5:00", // malformed offset
        ] {
            assert_eq!(parse_rfc822(input), None, "expected None for {input:?}");
        }
    }

    #[test]
    fn rfc3339_offsets_and_fractions() {
        assert_eq!(
            parse_rfc3339("2024-03-01T12:30:00Z"),
            Some(utc("2024-03-01T12:30:00Z"))
        );
        // Sub-second precision survives parsing; it is dropped by `format_utc`
        // when the instant is written to the database.
        assert_eq!(
            parse_rfc3339("2024-03-01T12:30:00.123456+05:30").map(format_utc),
            Some("2024-03-01T07:00:00Z".to_string())
        );
        assert_eq!(
            parse_rfc3339("2024-03-01T12:30:00-08:00"),
            Some(utc("2024-03-01T20:30:00Z"))
        );
        assert_eq!(parse_rfc3339("2024-03-01"), None);
        assert_eq!(parse_rfc3339("yesterday"), None);
    }

    #[test]
    fn ceiling_rounds_up_only_when_there_is_a_fraction() {
        // A whole second is already the bound it means.
        assert_eq!(
            format_utc_ceil(utc("2024-03-01T12:00:00Z")),
            "2024-03-01T12:00:00Z"
        );
        // Anything past it belongs to the next whole second.
        assert_eq!(
            format_utc_ceil(utc("2024-03-01T12:00:00.001Z")),
            "2024-03-01T12:00:01Z"
        );
        assert_eq!(
            format_utc_ceil(utc("2024-03-01T12:00:00.999999Z")),
            "2024-03-01T12:00:01Z"
        );
        // Rounding up across a minute boundary carries.
        assert_eq!(
            format_utc_ceil(utc("2024-03-01T12:00:59.5Z")),
            "2024-03-01T12:01:00Z"
        );
    }

    #[test]
    fn storage_format_is_fixed_width_utc() {
        let dt = utc("2024-03-01T12:30:00.987+02:00");
        assert_eq!(format_utc(dt), "2024-03-01T10:30:00Z");
    }

#[test]
fn storedate_zone_names_any_case_but_not_utc() {
    assert_eq!(
        parse_rfc822("Fri, 01 Mar 2024 12:00:00 est"),
        Some(utc("2024-03-01T17:00:00Z"))
    );
    assert_eq!(parse_rfc822("Fri, 01 Mar 2024 12:00:00 UTC"), None);
}

#[test]
fn storedate_months_any_case_and_extra_tokens_ignored() {
    assert_eq!(
        parse_rfc822("01 MAR 2024 12:30:00 +0000 (extra)"),
        Some(utc("2024-03-01T12:30:00Z"))
    );
}

#[test]
fn storedate_three_digit_and_one_digit_years() {
    assert_eq!(
        parse_rfc822("01 Mar 124 12:30:00 GMT"),
        Some(utc("2024-03-01T12:30:00Z"))
    );
    assert_eq!(parse_rfc822("01 Mar 4 12:30:00 GMT"), None);
}

#[test]
fn storedate_ceiling_at_a_whole_second_is_the_same_text() {
    let dt = utc("2024-03-01T12:00:00Z");
    assert_eq!(format_utc_ceil(dt), format_utc(dt));
}
