use bluenotify::bluesky_utils::{
    bluesky_browseable_url, parse_created_at, parse_created_at_checked, parse_uri,
};
use bluenotify::created_at::{decimal_digit, CreatedAtError};
use bluenotify::datetime::UtcDateTime;
use chrono::{TimeZone, Utc};

#[test]
fn test_parse_created_at() {
    let cases = vec![
        (
            "2024-12-07T05:48:21.260Z",
            Utc.with_ymd_and_hms(2024, 12, 7, 5, 48, 21).unwrap(),
        ),
        (
            "2024-12-07T05:43:53.0557218Z",
            Utc.with_ymd_and_hms(2024, 12, 7, 5, 43, 53).unwrap(),
        ),
        (
            "2024-12-07T05:48:07+00:00",
            Utc.with_ymd_and_hms(2024, 12, 7, 5, 48, 7).unwrap(),
        ),
        (
            "2024-12-07T18:55:09.507030+00:00",
            Utc.with_ymd_and_hms(2024, 12, 7, 18, 55, 9).unwrap(),
        ),
        (
            "2024-12-07T18:57:06.701504+00:00",
            Utc.with_ymd_and_hms(2024, 12, 7, 18, 57, 6).unwrap(),
        ),
        (
            "2024-12-07T19:06:18Z",
            Utc.with_ymd_and_hms(2024, 12, 7, 19, 6, 18).unwrap(),
        ),
        (
            "2024-12-07T14:50:38.1051195Z",
            Utc.with_ymd_and_hms(2024, 12, 7, 14, 50, 38).unwrap(),
        ),
        (
            "2024-12-04T10:54:13-06:00",
            Utc.with_ymd_and_hms(2024, 12, 4, 16, 54, 13).unwrap(),
        ),
        (
            "2024-12-06T17:17:18-05:00",
            Utc.with_ymd_and_hms(2024, 12, 6, 22, 17, 18).unwrap(),
        ),
    ];

    for (input, expected) in cases {
        let parsed = parse_created_at(input).unwrap();
        assert_eq!(parsed.timestamp(), expected.timestamp());
        assert_eq!(parsed.subsec_nanos(), expected.timestamp_subsec_nanos());
    }
}

#[test]
fn browseable_url_joins_handle_and_rkey() {
    assert_eq!(
        bluesky_browseable_url("alice.bsky.social", "3kabc"),
        "https://bsky.app/profile/alice.bsky.social/post/3kabc"
    );
    assert_eq!(bluesky_browseable_url("", ""), "https://bsky.app/profile//post/");
}

#[test]
fn parse_uri_takes_third_and_fifth_piece() {
    assert_eq!(
        parse_uri("at://did:plc:abc/app.bsky.feed.post/3kxyz"),
        Some(("did:plc:abc".to_string(), "3kxyz".to_string()))
    );
    assert_eq!(
        parse_uri("at://did:plc:abc/app.bsky.feed.post/3kxyz/extra"),
        Some(("did:plc:abc".to_string(), "3kxyz".to_string()))
    );
    assert_eq!(parse_uri("at://did:plc:abc/app.bsky.feed.post/"), Some(("did:plc:abc".to_string(), "".to_string())));
    assert_eq!(parse_uri("at://did:plc:abc/app.bsky.feed.post"), None);
    assert_eq!(parse_uri(""), None);
    assert_eq!(parse_uri("////"), Some(("".to_string(), "".to_string())));
}

#[test]
fn created_at_without_match_is_an_error() {
    assert_eq!(
        parse_created_at("not a time"),
        Err(CreatedAtError::NoMatch("not a time".to_string()))
    );
    assert_eq!(
        parse_created_at("2024/12/07 05:48:21"),
        Err(CreatedAtError::NoMatch("2024/12/07 05:48:21".to_string()))
    );
    assert_eq!(parse_created_at(""), Err(CreatedAtError::NoMatch("".to_string())));
    assert_eq!(
        parse_created_at("2024-12-07 05:48:21").unwrap_err().to_string(),
        "Could not parse time: 2024-12-07 05:48:21"
    );
    assert_eq!(parse_created_at("").unwrap_err().to_string(), "Could not parse time: ");
}

#[test]
fn created_at_match_may_start_late_and_day_may_have_one_digit() {
    let expected = Utc.with_ymd_and_hms(2024, 12, 7, 5, 48, 21).unwrap();
    let parsed = parse_created_at("created 2024-12-7T05:48:21z and more").unwrap();
    assert_eq!(parsed.timestamp(), expected.timestamp());
    let parsed = parse_created_at("x2024-12-07T05:48:21").unwrap();
    assert_eq!(parsed.timestamp(), expected.timestamp());
}

#[test]
fn created_at_positive_offset_moves_back() {
    let expected = Utc.with_ymd_and_hms(2024, 12, 7, 3, 18, 21).unwrap();
    let parsed = parse_created_at("2024-12-07T05:48:21+02:30").unwrap();
    assert_eq!(parsed.timestamp(), expected.timestamp());
    // An offset with many digits is still read.
    let parsed = parse_created_at("2024-12-07T05:48:21-0001:0000").unwrap();
    assert_eq!(parsed.timestamp(), expected.timestamp() + 2 * 3600 + 30 * 60 + 3600);
}

#[test]
fn created_at_fraction_and_offset_read_as_utc() {
    let expected = Utc.with_ymd_and_hms(2024, 12, 31, 18, 40, 0).unwrap();
    let parsed = parse_created_at("2025-01-01T00:10:00.999999+05:30").unwrap();
    assert_eq!(parsed.timestamp(), expected.timestamp());
    assert_eq!(parsed.subsec_nanos(), 0);
}

#[test]
fn created_at_non_ascii_digits_are_invalid_numbers() {
    // Arabic-Indic digits match the pattern's digit class but do not parse.
    assert_eq!(
        parse_created_at("٢٠٢٤-12-07T05:48:21Z"),
        Err(CreatedAtError::InvalidDigit)
    );
    assert_eq!(
        parse_created_at("2024-12-07T05:48:21+٠١:00"),
        Err(CreatedAtError::InvalidDigit)
    );
    // An offset too large for an i64 does not parse either.
    assert_eq!(
        parse_created_at("2024-12-07T05:48:21+99999999999999999999:00"),
        Err(CreatedAtError::NumberTooLarge)
    );
    // Digits are read from the left: an overflow before a non-ASCII digit is an overflow.
    assert_eq!(
        parse_created_at("2024-12-07T05:48:21+99999999999999999999٠:00"),
        Err(CreatedAtError::NumberTooLarge)
    );
    assert_eq!(
        parse_created_at("2024-12-07T05:48:21+٠99999999999999999999:00"),
        Err(CreatedAtError::InvalidDigit)
    );
}

#[test]
fn created_at_number_errors_read_as_std_parse_errors() {
    let invalid = "٢".parse::<u32>().unwrap_err().to_string();
    assert_eq!(CreatedAtError::InvalidDigit.to_string(), invalid);
    let too_large = "99999999999999999999".parse::<i64>().unwrap_err().to_string();
    assert_eq!(CreatedAtError::NumberTooLarge.to_string(), too_large);
    assert_eq!(
        "99999999999999999999٠".parse::<i64>().unwrap_err().to_string(),
        too_large
    );
    assert_eq!(
        "٠99999999999999999999".parse::<i64>().unwrap_err().to_string(),
        invalid
    );
}

#[test]
fn created_at_fraction_is_dropped_whatever_follows() {
    for tail in ["", "Z", "+01:30", "-07:00"] {
        let with = parse_created_at(&format!("2024-12-07T05:48:21.999{}", tail)).unwrap();
        let without = parse_created_at(&format!("2024-12-07T05:48:21{}", tail)).unwrap();
        assert_eq!(with.timestamp(), without.timestamp());
        assert_eq!(with.subsec_nanos(), 0);
    }
    // A year written with more digits is read from its last four.
    let wide = parse_created_at("12024-12-07T05:48:21.5Z").unwrap();
    let four = parse_created_at("2024-12-07T05:48:21Z").unwrap();
    assert_eq!(wide.timestamp(), four.timestamp());
}

#[test]
fn created_at_checked_spots_panicking_texts() {
    assert!(parse_created_at_checked("2024-13-07T05:48:21Z").is_none());
    assert!(parse_created_at_checked("2023-02-29T05:48:21Z").is_none());
    assert!(parse_created_at_checked("2024-12-07T24:00:00Z").is_none());
    assert!(parse_created_at_checked("2024-12-07T05:48:21+9999999999999:00").is_none());
    assert!(parse_created_at_checked("2024-02-29T05:48:21Z").is_some());
    assert_eq!(
        parse_created_at_checked("nothing here"),
        Some(Err(CreatedAtError::NoMatch("nothing here".to_string())))
    );
}

#[test]
fn decimal_digit_class_agrees_with_regex() {
    let re = regex::Regex::new(r"^\d$").unwrap();
    for u in 0u32..=0x10FFFF {
        if let Some(c) = char::from_u32(u) {
            let mut buf = [0u8; 4];
            let s: &str = c.encode_utf8(&mut buf);
            assert_eq!(decimal_digit(c), re.is_match(s), "char {:#x}", u);
        }
    }
}

#[test]
fn utc_date_time_range_matches_chrono() {
    let min = chrono::DateTime::<Utc>::MIN_UTC;
    let max = chrono::DateTime::<Utc>::MAX_UTC;
    assert!(UtcDateTime::from_timestamp(min.timestamp(), 0).is_some());
    assert!(UtcDateTime::from_timestamp(min.timestamp() - 1, 999_999_999).is_none());
    assert!(UtcDateTime::from_timestamp(max.timestamp(), 999_999_999).is_some());
    assert!(UtcDateTime::from_timestamp(max.timestamp() + 1, 0).is_none());
    assert!(UtcDateTime::from_timestamp(0, 1_000_000_000).is_none());
    assert_eq!(min.timestamp(), -8334601228800);
    assert_eq!(max.timestamp(), 8210266876799);
}

#[test]
fn utc_date_time_from_calendar_values() {
    let dt = UtcDateTime::from_ymd_hms(2024, 12, 7, 5, 48, 21).unwrap();
    assert_eq!(dt.timestamp(), 1733550501);
    assert_eq!(dt.subsec_nanos(), 0);
    assert_eq!(UtcDateTime::from_ymd_hms(1970, 1, 1, 0, 0, 0).unwrap().timestamp(), 0);
    assert!(UtcDateTime::from_ymd_hms(2024, 2, 30, 0, 0, 0).is_none());
    assert!(UtcDateTime::from_ymd_hms(2024, 1, 1, 0, 60, 0).is_none());
    for (y, m, d) in [(1, 1, 1), (-4713, 11, 24), (2000, 2, 29), (9999, 12, 31), (1600, 3, 1)] {
        let ours = UtcDateTime::from_ymd_hms(y, m, d, 12, 30, 45).unwrap();
        let theirs = Utc.with_ymd_and_hms(y, m, d, 12, 30, 45).unwrap();
        assert_eq!(ours.timestamp(), theirs.timestamp());
    }
}

#[test]
fn utc_date_time_order() {
    let a = UtcDateTime::from_timestamp(10, 5).unwrap();
    let b = UtcDateTime::from_timestamp(10, 6).unwrap();
    let c = UtcDateTime::from_timestamp(11, 0).unwrap();
    assert!(a.is_before(&b));
    assert!(b.is_before(&c));
    assert!(!b.is_before(&a));
    assert!(!a.is_before(&a));
}
