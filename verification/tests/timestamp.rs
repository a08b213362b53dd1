use csswitch_gateway::format_utc_timestamp_ms;
use csswitch_gateway::timestamp::civil_from_days;

#[test]
fn timestamp_format_matches_known_vectors() {
    assert_eq!(format_utc_timestamp_ms(0), "1970-01-01T00:00:00.000Z");
    assert_eq!(format_utc_timestamp_ms(1_709_164_800_000), "2024-02-29T00:00:00.000Z");
    assert_eq!(format_utc_timestamp_ms(1_787_141_986_558), "2026-08-19T12:19:46.558Z");
}

#[test]
fn dates_turn_at_leap_days_and_centuries() {
    assert_eq!(civil_from_days(0), (1970, 1, 1));
    assert_eq!(civil_from_days(-1), (1969, 12, 31));
    assert_eq!(civil_from_days(10_956), (1999, 12, 31));
    assert_eq!(civil_from_days(11_016), (2000, 2, 29));
    assert_eq!(civil_from_days(11_017), (2000, 3, 1));
    assert_eq!(civil_from_days(47_540), (2100, 2, 28));
    assert_eq!(civil_from_days(47_541), (2100, 3, 1));
    assert_eq!(civil_from_days(-719_528), (0, 1, 1));
    assert_eq!(civil_from_days(-719_529), (-1, 12, 31));
}

#[test]
fn times_beyond_the_signed_range_wrap() {
    assert_eq!(format_utc_timestamp_ms(u128::from(u64::MAX) * 1000), "1969-12-31T23:59:59.000Z");
    assert_eq!(format_utc_timestamp_ms(253_402_300_799_999), "9999-12-31T23:59:59.999Z");
    assert_eq!(format_utc_timestamp_ms(253_402_300_800_000), "10000-01-01T00:00:00.000Z");
    // The first second of the year before year zero, as a count from the other end.
    let secs = (1u128 << 64) - 719_529 * 86_400;
    assert_eq!(format_utc_timestamp_ms(secs * 1000 + 5), "-001-12-31T00:00:00.005Z");
}

#[test]
fn later_times_have_greater_stamps_of_one_length() {
    let times = [0u128, 999, 1_000, 59_999, 60_000, 86_399_999, 86_400_000, 951_782_399_999, 951_782_400_000, 253_402_300_799_999];
    for pair in times.windows(2) {
        let (before, after) = (format_utc_timestamp_ms(pair[0]), format_utc_timestamp_ms(pair[1]));
        assert_eq!(before.len(), 24);
        assert_eq!(after.len(), 24);
        assert!(before < after, "{before} {after}");
    }
}
