use teams_channel::timestamp::{
    day_is_countable, days_from_civil, parse_iso8601_to_unix_ms, read_timestamp,
};

#[test]
fn parses_basic_utc_timestamp() {
    let ms = parse_iso8601_to_unix_ms("1970-01-01T00:00:00Z").unwrap();
    assert_eq!(ms, 0);
}

#[test]
fn parses_timestamp_with_fractional_seconds() {
    let ms = parse_iso8601_to_unix_ms("1970-01-01T00:00:01.500Z").unwrap();
    assert_eq!(ms, 1_500);
}

#[test]
fn parses_known_date() {
    // 2024-01-01T00:00:00Z is a well-known epoch-ms value.
    let ms = parse_iso8601_to_unix_ms("2024-01-01T00:00:00Z").unwrap();
    assert_eq!(ms, 1_704_067_200_000);
}

#[test]
fn rejects_malformed_input() {
    assert!(parse_iso8601_to_unix_ms("not-a-date").is_none());
}

#[test]
fn fractions_are_cut_and_filled_to_milliseconds() {
    let ms = |s: &str| parse_iso8601_to_unix_ms(s);
    assert_eq!(ms("1970-01-01T00:00:00.5Z"), Some(500));
    assert_eq!(ms("1970-01-01T00:00:00.05Z"), Some(50));
    assert_eq!(ms("1970-01-01T00:00:00.0059999Z"), Some(5));
    assert_eq!(ms("1970-01-01T00:00:00.Z"), Some(0));
    assert_eq!(ms("1970-01-01T00:00:00.5x"), None);
    assert_eq!(ms("1970-01-01T00:00:00.123x"), Some(123));
    // A sign takes the place of a digit.
    assert_eq!(ms("1970-01-01T00:00:01.-5Z"), Some(950));
    assert_eq!(ms("1970-01-01T00:00:01.+5Z"), Some(1_050));
}

#[test]
fn the_zone_may_be_missing() {
    let ms = |s: &str| parse_iso8601_to_unix_ms(s);
    assert_eq!(ms("1970-01-02T00:00:00"), Some(86_400_000));
    assert_eq!(ms("1970-01-02T00:00:00ZZ"), None);
    assert_eq!(ms("1970-01-02T00:00Z"), None);
    assert_eq!(ms("1970-01-02"), None);
    assert_eq!(ms("1970-01T00:00:00Z"), None);
    assert_eq!(ms(""), None);
    assert_eq!(ms("1970-01-01-99T01:02:03:04Z"), Some(3_723_000));
    assert_eq!(ms("1970-01-01T00:00:00+01:00"), None);
    assert_eq!(ms("1969-12-31T23:59:59Z"), None);
    assert_eq!(ms("1969-12-31T23:59:59.999Z"), None);
}

#[test]
fn fields_are_not_checked_against_the_calendar() {
    let ms = |s: &str| parse_iso8601_to_unix_ms(s);
    assert_eq!(ms("1970-01-01T25:00:00Z"), Some(90_000_000));
    assert_eq!(ms("1970-01-32T00:00:00Z"), Some(31 * 86_400_000));
    assert_eq!(ms("+1970-+1-+1T+0:+0:+1Z"), Some(1_000));
}

#[test]
fn leap_days_are_counted() {
    let ms = |s: &str| parse_iso8601_to_unix_ms(s).unwrap();
    assert_eq!(ms("2000-02-29T00:00:00Z"), 951_782_400_000);
    assert_eq!(ms("2024-02-29T12:34:56Z"), 1_709_210_096_000);
    assert_eq!(ms("2024-03-01T00:00:00Z") - ms("2024-02-28T00:00:00Z"), 2 * 86_400_000);
    assert_eq!(ms("2100-03-01T00:00:00Z") - ms("2100-02-28T00:00:00Z"), 86_400_000);
    assert_eq!(ms("9999-12-31T23:59:59Z"), 253_402_300_799_000);
}

#[test]
fn days_are_counted_from_the_epoch() {
    assert_eq!(days_from_civil(1970, 1, 1), 0);
    assert_eq!(days_from_civil(1969, 12, 31), -1);
    assert_eq!(days_from_civil(2000, 3, 1), 11_017);
    assert_eq!(days_from_civil(0, 1, 1), -719_528);
    assert_eq!(days_from_civil(-400, 3, 1), -719_468 - 146_097);
    assert_eq!(days_from_civil(1600, 2, 29), -135_081);
}

#[test]
fn every_day_is_one_more_than_the_day_before() {
    let mut count = days_from_civil(1895, 12, 31);
    for year in 1896i64..2105 {
        let leap = (year % 4 == 0 && year % 100 != 0) || year % 400 == 0;
        let february = if leap { 29 } else { 28 };
        let months = [31, february, 31, 30, 31, 30, 31, 31, 30, 31, 30, 31];
        for (m, days) in months.iter().enumerate() {
            for day in 1..=*days {
                count += 1;
                assert_eq!(days_from_civil(year, m as i64 + 1, day), count);
            }
        }
    }
}

#[test]
fn timestamps_sort_as_they_are_written() {
    let stamps = [
        "1970-01-01T00:00:00Z",
        "1999-12-31T23:59:59Z",
        "2000-01-01T00:00:00Z",
        "2024-02-29T12:00:00Z",
        "2024-03-01T00:00:00Z",
        "9999-12-31T23:59:59Z",
    ];
    for pair in stamps.windows(2) {
        assert!(pair[0] < pair[1]);
        assert!(parse_iso8601_to_unix_ms(pair[0]) < parse_iso8601_to_unix_ms(pair[1]));
    }
}

#[test]
fn numbers_out_of_range_are_rejected() {
    let ms = |s: &str| parse_iso8601_to_unix_ms(s);
    assert_eq!(ms("99999999999999999999-01-01T00:00:00Z"), None);
    assert_eq!(ms("9223372036854775807-01-01T00:00:00Z"), None);
    // A sign before the year is taken for a dash, so there is no year.
    assert_eq!(ms("-9223372036854775808-01-01T00:00:00Z"), None);
    assert_eq!(ms("1970-9223372036854775807-01T00:00:00Z"), None);
    assert_eq!(ms("1970-01-9223372036854775807T00:00:00Z"), None);
    assert_eq!(ms("2024-01-01T9223372036854775807:00:00Z"), None);
    assert_eq!(ms("2024-01-01T00:9223372036854775807:00Z"), None);
    assert_eq!(ms("2024-01-01T00:00:9223372036854775807Z"), None);
    // The last millisecond that fits, and the one after it.
    assert_eq!(ms("1970-01-01T00:00:9223372036854775.807Z"), Some(i64::MAX as u64));
    assert_eq!(ms("1970-01-01T00:00:9223372036854775.808Z"), None);
    assert_eq!(ms("1970-01-01T00:00:-9223372036854775808Z"), None);
}

#[test]
fn days_are_counted_in_64_bits() {
    assert!(day_is_countable(1970, 1, 1));
    assert!(day_is_countable(-9_999, 12, 31));
    assert!(!day_is_countable(i64::MAX, 1, 1));
    assert!(!day_is_countable(i64::MIN, 1, 1));
    assert!(!day_is_countable(1970, i64::MAX, 1));
    assert!(!day_is_countable(1970, 1, i64::MAX));
}

#[test]
fn the_fields_of_a_timestamp_are_read() {
    let t = read_timestamp("2024-02-29T12:34:56.7Z").unwrap();
    assert_eq!((t.year, t.month, t.day), (2024, 2, 29));
    assert_eq!((t.hour, t.minute, t.second, t.millis), (12, 34, 56, 700));
    assert!(read_timestamp("2024-02-29").is_none());
}

#[test]
fn fractions_that_are_not_ascii_are_rejected() {
    let ms = |s: &str| parse_iso8601_to_unix_ms(s);
    assert_eq!(ms("1970-01-01T00:00:00.\u{e9}\u{e9}Z"), None);
    assert_eq!(ms("2024-01-01T00:00:00.12\u{e9}Z"), None);
    assert_eq!(ms("2024-01-01T00:00:00.1\u{e9}Z"), None);
    assert_eq!(ms("2024-01-01T00:00:00.\u{1f600}Z"), None);
    assert_eq!(ms("2024-01-01T00:00:00.\u{661}Z"), None);
    // What follows the third digit is not read.
    assert_eq!(ms("1970-01-01T00:00:00.123\u{e9}Z"), Some(123));
}
