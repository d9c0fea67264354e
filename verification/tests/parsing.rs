use pharm::interval::parse_interval_to_days;
use pharm::time::{is_time_due_at, parse_time};

#[test]
fn test_parse_intervals() {
    assert_eq!(parse_interval_to_days("daily"), Some(1));
    assert_eq!(parse_interval_to_days("Daily"), Some(1));
    assert_eq!(parse_interval_to_days("weekly"), Some(7));
    assert_eq!(parse_interval_to_days("monthly"), Some(30));
    assert_eq!(parse_interval_to_days("every 3 days"), Some(3));
    assert_eq!(parse_interval_to_days("every 2 weeks"), Some(14));
    assert_eq!(parse_interval_to_days("twice daily"), Some(1));
    assert_eq!(parse_interval_to_days("3 times daily"), Some(1));
    assert_eq!(parse_interval_to_days("prn"), None);
    assert_eq!(parse_interval_to_days("PRN"), None);
    assert_eq!(parse_interval_to_days("as needed"), None);
    assert_eq!(parse_interval_to_days("as-needed"), None);
    assert_eq!(parse_interval_to_days("when needed"), None);
    assert_eq!(parse_interval_to_days("garbage"), Some(1)); // defaults to daily for safety
}

#[test]
fn test_prn_edge_cases() {
    // Various PRN formats
    assert_eq!(parse_interval_to_days("prn"), None);
    assert_eq!(parse_interval_to_days("PRN"), None);
    assert_eq!(parse_interval_to_days("PrN"), None);
    assert_eq!(parse_interval_to_days("  prn  "), None); // with spaces
    assert_eq!(parse_interval_to_days("as needed"), None);
    assert_eq!(parse_interval_to_days("AS NEEDED"), None);
    assert_eq!(parse_interval_to_days("As-Needed"), None);
    assert_eq!(parse_interval_to_days("asneeded"), None);
    assert_eq!(parse_interval_to_days("when needed"), None);
    assert_eq!(parse_interval_to_days("WHEN NEEDED"), None);
}

#[test]
fn test_interval_boundaries() {
    // Large numbers
    assert_eq!(parse_interval_to_days("every 30 days"), Some(30));
    assert_eq!(parse_interval_to_days("every 365 days"), Some(365));

    // Single day/week variations
    assert_eq!(parse_interval_to_days("every 1 day"), Some(1));
    assert_eq!(parse_interval_to_days("every 1 week"), Some(7));

    // Edge cases with "day" in string
    assert_eq!(parse_interval_to_days("daily medication"), Some(1));
    assert_eq!(parse_interval_to_days("take during the day"), Some(1)); // contains "day"
}

#[test]
fn test_interval_multiple_doses() {
    // Multiple doses per day all map to daily (interval = 1)
    assert_eq!(parse_interval_to_days("twice daily"), Some(1));
    assert_eq!(parse_interval_to_days("2 times daily"), Some(1));
    assert_eq!(parse_interval_to_days("three times daily"), Some(1));
    assert_eq!(parse_interval_to_days("4 times a day"), Some(1));
    assert_eq!(parse_interval_to_days("every 8 hours"), Some(1)); // contains "day" fallthrough
}

#[test]
fn test_parse_time_named() {
    assert_eq!(parse_time("morning"), Some((8, 0)));
    assert_eq!(parse_time("MORNING"), Some((8, 0)));
    assert_eq!(parse_time("breakfast"), Some((8, 0)));
    assert_eq!(parse_time("noon"), Some((12, 0)));
    assert_eq!(parse_time("midday"), Some((12, 0)));
    assert_eq!(parse_time("lunch"), Some((12, 0)));
    assert_eq!(parse_time("afternoon"), Some((15, 0)));
    assert_eq!(parse_time("evening"), Some((18, 0)));
    assert_eq!(parse_time("dinner"), Some((18, 0)));
    assert_eq!(parse_time("night"), Some((21, 0)));
    assert_eq!(parse_time("bedtime"), Some((21, 0)));
    assert_eq!(parse_time("midnight"), Some((0, 0)));
}

#[test]
fn test_parse_time_hhmm_format() {
    // Standard format
    assert_eq!(parse_time("08:00"), Some((8, 0)));
    assert_eq!(parse_time("14:30"), Some((14, 30)));
    assert_eq!(parse_time("23:59"), Some((23, 59)));
    assert_eq!(parse_time("00:00"), Some((0, 0)));

    // Without leading zeros
    assert_eq!(parse_time("8:00"), Some((8, 0)));
    assert_eq!(parse_time("8:5"), Some((8, 5)));
    assert_eq!(parse_time("8:30"), Some((8, 30)));

    // With whitespace
    assert_eq!(parse_time(" 8:00 "), Some((8, 0)));
    assert_eq!(parse_time("  14:30  "), Some((14, 30)));
}

#[test]
fn test_parse_time_hour_only() {
    assert_eq!(parse_time("8"), Some((8, 0)));
    assert_eq!(parse_time("14"), Some((14, 0)));
    assert_eq!(parse_time("0"), Some((0, 0)));
    assert_eq!(parse_time("23"), Some((23, 0)));
    assert_eq!(parse_time(" 8 "), Some((8, 0)));
}

#[test]
fn test_parse_time_invalid() {
    // Invalid hours
    assert_eq!(parse_time("24:00"), None);
    assert_eq!(parse_time("25:00"), None);
    assert_eq!(parse_time("24"), None);

    // Invalid minutes
    assert_eq!(parse_time("8:60"), None);
    assert_eq!(parse_time("8:99"), None);

    // Invalid formats
    assert_eq!(parse_time("garbage"), None);
    assert_eq!(parse_time("8:30:00"), None);
    assert_eq!(parse_time("abc:def"), None);
    assert_eq!(parse_time(""), None);
    assert_eq!(parse_time(":30"), None);
    assert_eq!(parse_time("8:"), None);
}

#[test]
fn test_parse_time_edge_cases() {
    // Named times with variations
    assert_eq!(parse_time("mid-morning"), Some((10, 0)));
    assert_eq!(parse_time("MID-MORNING"), Some((10, 0)));

    // Boundary values
    assert_eq!(parse_time("0:0"), Some((0, 0)));
    assert_eq!(parse_time("23:59"), Some((23, 59)));
}

#[test]
fn test_time_due_ordering() {
    // due exactly at the scheduled minute, and at every later time of day
    assert!(!is_time_due_at("08:00", 7, 59));
    assert!(is_time_due_at("08:00", 8, 0));
    assert!(is_time_due_at("08:00", 8, 1));
    assert!(is_time_due_at("08:00", 9, 0));
    assert!(is_time_due_at("08:00", 23, 59));
    // minute matters only on the scheduled hour
    assert!(is_time_due_at("14:30", 15, 0));
    assert!(!is_time_due_at("14:30", 14, 29));
    // an unparsable schedule is never due
    assert!(!is_time_due_at("garbage", 23, 59));
}

#[test]
fn test_interval_zero_count_falls_back() {
    // a zero count cannot be a recurrence interval: the fail-safe daily
    // default applies
    assert_eq!(parse_interval_to_days("every 0 days"), Some(1));
    // an unparsable count falls through the same way
    assert_eq!(parse_interval_to_days("every x days"), Some(1));
    assert_eq!(parse_interval_to_days("every 99999999999999999999 days"), Some(1));
}
