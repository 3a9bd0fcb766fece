use togglite::util::unix_seconds;
use togglite::util::utc_offset;
use togglite::util::{base64, base64_decode, fmt_hms, now_unix, parse_rfc3339, rfc3339_utc, truncate, wide};

#[test]
fn base64_matches_reference() {
    assert_eq!(base64(b""), "");
    assert_eq!(base64(b"f"), "Zg==");
    assert_eq!(base64(b"fo"), "Zm8=");
    assert_eq!(base64(b"foo"), "Zm9v");
    assert_eq!(base64(b"foobar"), "Zm9vYmFy");
}

#[test]
fn base64_roundtrip() {
    let cases: [&[u8]; 8] = [b"", b"f", b"fo", b"foo", b"foob", b"fooba", b"foobar", &[0, 255, 7, 128]];
    for input in cases {
        assert_eq!(base64_decode(&base64(input)).as_deref(), Some(input));
    }
    assert_eq!(base64_decode("Zm9v\n"), Some(b"foo".to_vec()));
    assert_eq!(base64_decode("not base64!"), None);
}

#[test]
fn rfc3339_known_dates() {
    assert_eq!(rfc3339_utc(0), "1970-01-01T00:00:00Z");
    assert_eq!(rfc3339_utc(951782400), "2000-02-29T00:00:00Z");
    assert_eq!(rfc3339_utc(1758067199), "2025-09-16T23:59:59Z");
}

#[test]
fn rfc3339_roundtrip() {
    assert_eq!(parse_rfc3339("1970-01-01T00:00:00Z"), Some(0));
    assert_eq!(parse_rfc3339("2025-09-16T23:59:59Z"), Some(1758067199));
    assert_eq!(parse_rfc3339("2025-09-17T08:59:59+09:00"), Some(1758067199));
    assert_eq!(parse_rfc3339("2025-09-16T23:59:59.123456+00:00"), Some(1758067199));
    assert_eq!(parse_rfc3339("2000-02-29T00:00:00-05:00"), Some(951782400 + 5 * 3600));
    assert_eq!(parse_rfc3339("garbage"), None);
    for t in [0, 951782400, 1758067199, 1789000000] {
        assert_eq!(parse_rfc3339(&rfc3339_utc(t)), Some(t));
    }
}

#[test]
fn hms() {
    assert_eq!(fmt_hms(0), "0:00:00");
    assert_eq!(fmt_hms(3661), "1:01:01");
    assert_eq!(fmt_hms(-5), "0:00:00");
}

#[test]
fn base64_decode_skips_line_breaks_and_stops_at_padding() {
    assert_eq!(base64_decode("Zm9v\r\nYmFy"), Some(b"foobar".to_vec()));
    assert_eq!(base64_decode("Zg==garbage"), Some(b"f".to_vec()));
    assert_eq!(base64_decode(""), Some(Vec::new()));
    // a trailing single character carries fewer than 8 bits and is dropped
    assert_eq!(base64_decode("Zm9vY"), Some(b"foo".to_vec()));
    assert_eq!(base64_decode("Zm9v YmFy"), None);
    assert_eq!(base64_decode("Zm9vé"), None);
    assert_eq!(base64(&[0xfb, 0xff]), "+/8=");
}

#[test]
fn rfc3339_before_epoch_and_far_years() {
    assert_eq!(rfc3339_utc(-1), "1969-12-31T23:59:59Z");
    assert_eq!(rfc3339_utc(-62167219200), "0000-01-01T00:00:00Z");
    assert_eq!(rfc3339_utc(253402300799), "9999-12-31T23:59:59Z");
    assert_eq!(rfc3339_utc(253402300800), "10000-01-01T00:00:00Z");
    assert_eq!(rfc3339_utc(-62167219201), "-001-12-31T23:59:59Z");
    assert_eq!(parse_rfc3339(&rfc3339_utc(-62167219200)), Some(-62167219200));
    assert_eq!(parse_rfc3339(&rfc3339_utc(253402300799)), Some(253402300799));
}

#[test]
fn rfc3339_parse_edge_cases() {
    // no zone means UTC, `z` is accepted, `+HHMM` without a colon too
    assert_eq!(parse_rfc3339("2025-09-16T23:59:59"), Some(1758067199));
    assert_eq!(parse_rfc3339("2025-09-16T23:59:59z"), Some(1758067199));
    assert_eq!(parse_rfc3339("2025-09-17T08:59:59+0900"), Some(1758067199));
    // anything after the zone is ignored; a bad zone letter is not
    assert_eq!(parse_rfc3339("2025-09-16T23:59:59Zjunk"), Some(1758067199));
    assert_eq!(parse_rfc3339("2025-09-16T23:59:59X"), None);
    assert_eq!(parse_rfc3339("2025-09-16T23:59"), None);
    assert_eq!(parse_rfc3339("2025-09-16T23:59:59+09"), None);
    // the separators are not checked, but they must be single characters
    assert_eq!(parse_rfc3339("2025/09/16 23.59.59Z"), Some(1758067199));
    assert_eq!(parse_rfc3339("2025é09-16T23:59:59Z"), None);
}

#[test]
fn truncate_marks_cuts() {
    assert_eq!(truncate("hello", 5), "hello");
    assert_eq!(truncate("hello", 4), "hel…");
    assert_eq!(truncate("日本語テキスト", 3), "日本…");
    assert_eq!(truncate("abc", 0), "…");
}

#[test]
fn wide_is_nul_terminated_utf16() {
    assert_eq!(wide("A"), vec![0x41, 0]);
    assert_eq!(wide("日"), vec![0x65e5, 0]);
    assert_eq!(wide("😀"), vec![0xd83d, 0xde00, 0]);
    assert_eq!(wide(""), vec![0]);
}

#[test]
fn now_is_after_2020() {
    assert!(now_unix() > 1_577_836_800);
}

#[test]
fn hms_of_long_durations() {
    assert_eq!(fmt_hms(100 * 3600 + 59), "100:00:59");
    assert_eq!(fmt_hms(59), "0:00:59");
}

#[test]
fn clock_offsets_from_time_zone_biases() {
    // Tokyo: 540 minutes east, no daylight saving.
    assert_eq!(utc_offset(-540, 0, 0, 0), 9 * 3600);
    // New York in summer: 300 minutes west, daylight bias -60.
    assert_eq!(utc_offset(300, 0, -60, 2), -4 * 3600);
    assert_eq!(utc_offset(300, 0, -60, 1), -5 * 3600);
    // A day or more either way is not a clock offset.
    assert_eq!(utc_offset(-1440, 0, 0, 0), 0);
    assert_eq!(utc_offset(1439, 0, 0, 0), -1439 * 60);
}

#[test]
fn years_before_zero_round_trip() {
    for t in [-62167219201i64, -93692592000, -80000000000] {
        assert_eq!(parse_rfc3339(&rfc3339_utc(t)), Some(t));
    }
    assert_eq!(rfc3339_utc(-93692592000), "-999-01-01T00:00:00Z");
    // Five-character years no longer read back.
    assert_eq!(parse_rfc3339(&rfc3339_utc(-93692592001)), None);
    assert_eq!(parse_rfc3339(&rfc3339_utc(253402300800)), None);
}

#[test]
fn clock_readings_become_unix_seconds() {
    assert_eq!(unix_seconds(Some(1758024000)), 1758024000);
    assert_eq!(unix_seconds(None), 0);
    assert_eq!(unix_seconds(Some(u64::MAX)), -1);
}

#[test]
fn zone_designators_shift_the_utc_reading() {
    let u = parse_rfc3339("2026-09-16T12:00:00Z").unwrap();
    assert_eq!(parse_rfc3339("2026-09-16T12:00:00+09:30"), Some(u - 9 * 3600 - 30 * 60));
    assert_eq!(parse_rfc3339("2026-09-16T12:00:00-05:00"), Some(u + 5 * 3600));
    assert_eq!(parse_rfc3339("2026-09-16T12:00:00.123456Z"), Some(u));
    assert_eq!(parse_rfc3339("2026-09-16T12:00:00.Z"), Some(u));
    assert_eq!(parse_rfc3339("2026-09-16T12:00:00z"), Some(u));
    assert_eq!(parse_rfc3339("2026-09-16T12:00:00Q"), None);
}
