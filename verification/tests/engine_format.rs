use arca::engine::format::{civil_from_days, format_size, format_time};

#[test]
fn sizes() {
    assert_eq!(format_size(0), "0 B");
    assert_eq!(format_size(512), "512 B");
    assert_eq!(format_size(1023), "1023 B");
    assert_eq!(format_size(1536), "1.5 KB");
    assert_eq!(format_size(2 * 1024 * 1024), "2.0 MB");
    assert_eq!(format_size(3 * 1024 * 1024 * 1024), "3.0 GB");
    assert_eq!(format_size(2 * 1024u64.pow(4)), "2.0 TB");
}

#[test]
fn size_rounding_matches_one_decimal_place() {
    // 1.25 KB is a tie and rounds to the even tenth; 1.75 KB rounds up to 1.8
    assert_eq!(format_size(1280), "1.2 KB");
    assert_eq!(format_size(1792), "1.8 KB");
    assert_eq!(format_size(1024 * 1024 - 1), "1024.0 KB");
    assert_eq!(format_size(u64::MAX), "16777216.0 TB");
}

#[test]
fn times() {
    assert_eq!(format_time(0), "");
    assert_eq!(format_time(-5), "");
    assert_eq!(format_time(86400), "1970-01-02 00:00");
    // 2024-02-29 12:34 UTC
    assert_eq!(format_time(1_709_210_040), "2024-02-29 12:34");
    // 2000-01-01 00:00 UTC
    assert_eq!(format_time(946_684_800), "2000-01-01 00:00");
}

#[test]
fn civil_roundtrip_leap_years() {
    // 1900 is not a leap year, 2000 is.
    assert_eq!(civil_from_days(-25567), (1900, 1, 1));
    assert_eq!(civil_from_days(0), (1970, 1, 1));
    assert_eq!(civil_from_days(10956), (1999, 12, 31));
    assert_eq!(civil_from_days(10957), (2000, 1, 1));
    assert_eq!(civil_from_days(11016), (2000, 2, 29));
}

#[test]
fn civil_far_past_dates() {
    assert_eq!(civil_from_days(-719_468), (0, 3, 1));
    assert_eq!(civil_from_days(-719_469), (0, 2, 29));
}

#[test]
fn calendar_days_follow_each_other() {
    assert_eq!(civil_from_days(11015), (2000, 2, 28));
    assert_eq!(civil_from_days(11016), (2000, 2, 29));
    assert_eq!(civil_from_days(11017), (2000, 3, 1));
    assert_eq!(civil_from_days(-25509), (1900, 2, 28));
    assert_eq!(civil_from_days(-25508), (1900, 3, 1));
    assert_eq!(civil_from_days(10956), (1999, 12, 31));
    assert_eq!(civil_from_days(10957), (2000, 1, 1));
    assert_eq!(civil_from_days(-1), (1969, 12, 31));
}
