use memo_server::timestamp::{Timestamp, format_compact, format_iso, normalize_timestamp, parse_compact};

#[test]
fn legacy_timestamp_is_normalized_to_canonical_form() {
    assert_eq!(normalize_timestamp("20260119_172003"), "2026-01-19T17:20:03+00:00");
}

#[test]
fn canonical_timestamp_is_kept() {
    let iso = "2026-01-19T17:20:03+00:00";
    assert_eq!(normalize_timestamp(iso), iso);
}

#[test]
fn unparseable_timestamp_is_kept() {
    assert_eq!(normalize_timestamp("20261319_172003"), "20261319_172003"); // month 13
    assert_eq!(normalize_timestamp("20260230_000000"), "20260230_000000"); // Feb 30
    assert_eq!(normalize_timestamp("2026x119_172003"), "2026x119_172003");
    assert_eq!(normalize_timestamp("20260119-172003"), "20260119-172003");
    assert_eq!(normalize_timestamp("20260119_1720031"), "20260119_1720031"); // too long
    assert_eq!(normalize_timestamp(""), "");
}

#[test]
fn leap_day_parses() {
    let ts = parse_compact("20240229_120000").expect("2024 is a leap year");
    assert_eq!((ts.year, ts.month, ts.day), (2024, 2, 29));
    assert!(parse_compact("20230229_120000").is_none());
}

#[test]
fn format_both_forms() {
    let ts = Timestamp { year: 2026, month: 1, day: 19, hour: 17, minute: 20, second: 3 };
    assert_eq!(format_compact(&ts), "20260119_172003");
    assert_eq!(format_iso(&ts), "2026-01-19T17:20:03+00:00");
}

#[test]
fn parse_and_format_agree() {
    let text = "20260119_172003";
    let ts = parse_compact(text).unwrap();
    assert_eq!(format_compact(&ts), text);
}

#[test]
fn epoch_conversion_names_the_right_instant() {
    let ts = memo_server::timestamp::timestamp_from_epoch(0);
    assert_eq!((ts.year, ts.month, ts.day, ts.hour, ts.minute, ts.second), (1970, 1, 1, 0, 0, 0));

    // 2026-01-19T17:20:03Z
    let ts = memo_server::timestamp::timestamp_from_epoch(1768843203);
    assert_eq!((ts.year, ts.month, ts.day), (2026, 1, 19));
    assert_eq!((ts.hour, ts.minute, ts.second), (17, 20, 3));

    // 2024-02-29T23:59:59Z, a leap day
    let ts = memo_server::timestamp::timestamp_from_epoch(1709251199);
    assert_eq!((ts.year, ts.month, ts.day), (2024, 2, 29));
    assert_eq!((ts.hour, ts.minute, ts.second), (23, 59, 59));

    // the last representable second
    let ts = memo_server::timestamp::timestamp_from_epoch(253402300799);
    assert_eq!((ts.year, ts.month, ts.day), (9999, 12, 31));
    assert_eq!((ts.hour, ts.minute, ts.second), (23, 59, 59));
}
