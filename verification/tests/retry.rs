use teams_channel::retry::{
    apply_jitter, backoff_ms, compute_backoff, delay_until, is_retryable_status,
    parse_retry_after_http_date, parse_retry_after_ms, parse_retry_after_ms_at,
    retry_after_with_date, UtcInstant, FIRST_SECOND, LAST_SECOND,
};

use teams_channel::rounding::round;

/// 1994-11-06T08:49:37Z.
const SUNDAY_MORNING: i64 = 784_111_777;

fn at(secs: i64, nanos: u32) -> UtcInstant {
    UtcInstant::new(secs, nanos).unwrap()
}

#[test]
fn backoff_doubles_and_caps() {
    let d0 = compute_backoff(0, 500, 30_000);
    let d3 = compute_backoff(3, 500, 30_000);
    assert!(d0.as_millis() <= 30_000);
    assert!(d3.as_millis() <= 30_000);
    // attempt 3 multiplier is 8x base before jitter/cap.
    let d_huge = compute_backoff(20, 500, 30_000);
    assert_eq!(d_huge.as_millis(), 30_000);
}

#[test]
fn backoff_stays_within_a_quarter_and_varies() {
    let mut seen: Vec<u128> = Vec::new();
    for _ in 0..200 {
        let ms = compute_backoff(0, 1_000_000, u64::MAX).as_millis();
        assert!((750_000..=1_250_000).contains(&ms));
        if !seen.contains(&ms) {
            seen.push(ms);
        }
    }
    assert!(seen.len() > 1);
}

#[test]
fn backoff_by_given_random_numbers() {
    // The lowest, the middle and the highest factor.
    assert_eq!(backoff_ms(0, 1_000, 30_000, 0), 750);
    assert_eq!(backoff_ms(0, 1_000, 30_000, 1 << 63), 1_000);
    assert_eq!(backoff_ms(0, 1_000, 30_000, u64::MAX), 1_250);
    assert_eq!(backoff_ms(0, 4, 30_000, u64::MAX), 5);
    // Eight times the base at the fourth attempt.
    assert_eq!(backoff_ms(3, 500, 30_000, 1 << 63), 4_000);
    assert_eq!(backoff_ms(3, 500, 3_999, 1 << 63), 3_999);
    assert_eq!(backoff_ms(0, 0, 30_000, 12345), 0);
    assert_eq!(backoff_ms(5, 500, 0, 12345), 0);
}

#[test]
fn backoff_saturates() {
    assert_eq!(backoff_ms(63, 1, u64::MAX, 1 << 63), 1 << 63);
    assert_eq!(backoff_ms(63, 2, u64::MAX, 1 << 63), u64::MAX);
    assert_eq!(backoff_ms(64, 1, u64::MAX, 1 << 63), u64::MAX);
    assert_eq!(backoff_ms(u32::MAX, 1, u64::MAX, u64::MAX), u64::MAX);
    assert_eq!(backoff_ms(u32::MAX, 1, 30_000, 0), 30_000);
}

#[test]
fn jitter_of_extreme_delays() {
    assert_eq!(apply_jitter(0, u64::MAX), 0);
    assert_eq!(apply_jitter(1, 0), 0);
    assert_eq!(apply_jitter(1, 1 << 63), 1);
    assert_eq!(apply_jitter(u64::MAX, u64::MAX), u64::MAX);
    assert_eq!(apply_jitter(u64::MAX, 0), 13_835_058_055_282_163_712);
    // The low bits of the random number play no part.
    assert_eq!(apply_jitter(1_000_000, 0x7ff), 750_000);
}

/// The jitter of a delay, in floating point.
fn jitter_in_floats(delay_ms: u64, random: u64) -> u64 {
    let draw = (random >> 11) as f64 / (1u64 << 53) as f64;
    ((delay_ms as f64) * (0.75 + draw * 0.5)) as u64
}

#[test]
fn jitter_is_that_of_floating_point() {
    let mut delays: Vec<u64> = (1..2_000).collect();
    let mut draws: Vec<u64> = Vec::new();
    for bit in 0..64 {
        for delta in 0..4u64 {
            for edge in [1u64 << bit, 3u64 << (bit % 62), 5u64 << (bit % 61)] {
                delays.push(edge.saturating_add(delta).max(1));
                delays.push(edge.saturating_sub(delta).max(1));
                draws.push(edge.wrapping_add(delta << 11));
                draws.push(edge.wrapping_sub(delta << 11));
            }
        }
    }
    // A few draws from a sequence that repeats nothing.
    let mut state: u64 = 1;
    for _ in 0..50 {
        state = state.wrapping_mul(6_364_136_223_846_793_005).wrapping_add(1);
        draws.push(state);
        delays.push(state.max(1));
    }
    for delay in &delays {
        for draw in &draws {
            assert_eq!(apply_jitter(*delay, *draw), jitter_in_floats(*delay, *draw));
        }
    }
}

#[test]
fn rounding_is_that_of_floating_point() {
    for bit in 50..64 {
        for delta in 0..3_000u64 {
            for n in [(1u64 << bit) + delta, (1u64 << bit) - delta, u64::MAX - delta] {
                assert_eq!(round(n as u128), n as f64 as u128);
            }
        }
    }
    let wide = 0xff_ffff_ffff_ffff_ffff_ffff_ffff_ffffu128;
    assert_eq!(round(wide), wide as f64 as u128);
    assert_eq!(round(0), 0);
}

#[test]
fn parse_retry_after_integer_seconds() {
    assert_eq!(parse_retry_after_ms("2"), Some(2000));
}

#[test]
fn parse_retry_after_decimal_seconds() {
    assert_eq!(parse_retry_after_ms("2.5"), Some(2000));
}

#[test]
fn parse_retry_after_empty_is_none() {
    assert_eq!(parse_retry_after_ms(""), None);
    assert_eq!(parse_retry_after_ms("   "), None);
}

#[test]
fn parse_retry_after_http_date_in_past_clamps_to_zero() {
    let ms = parse_retry_after_ms_at("Sun, 06 Nov 1994 08:49:37 GMT", UtcInstant::now());
    assert_eq!(ms, Some(0));
}

#[test]
fn retryable_status_codes() {
    assert!(is_retryable_status(429));
    assert!(is_retryable_status(503));
    assert!(!is_retryable_status(404));
    assert!(!is_retryable_status(200));
}

#[test]
fn retryable_status_bounds() {
    assert!(!is_retryable_status(499));
    assert!(is_retryable_status(500));
    assert!(is_retryable_status(599));
    assert!(!is_retryable_status(600));
    assert!(!is_retryable_status(428));
    assert!(!is_retryable_status(430));
}

#[test]
fn retry_after_seconds_edge_cases() {
    let now = at(0, 0);
    assert_eq!(parse_retry_after_ms_at(" \t7\n", now), Some(7_000));
    assert_eq!(parse_retry_after_ms_at("+5", now), Some(5_000));
    assert_eq!(parse_retry_after_ms_at("5.", now), Some(5_000));
    assert_eq!(parse_retry_after_ms_at("0.999", now), Some(0));
    assert_eq!(parse_retry_after_ms_at("1.2.3", now), Some(1_000));
    assert_eq!(parse_retry_after_ms_at("3.anything", now), Some(3_000));
    assert_eq!(parse_retry_after_ms_at(".5", now), None);
    assert_eq!(parse_retry_after_ms_at("-1", now), None);
    assert_eq!(parse_retry_after_ms_at("soon", now), None);
    assert_eq!(parse_retry_after_ms_at("18446744073709551615", now), Some(u64::MAX));
    assert_eq!(parse_retry_after_ms_at("18446744073709551616", now), None);
}

#[test]
fn all_three_http_date_formats_are_read() {
    let now = at(SUNDAY_MORNING - 10, 0);
    assert_eq!(parse_retry_after_ms_at("Sun, 06 Nov 1994 08:49:37 GMT", now), Some(10_000));
    assert_eq!(parse_retry_after_ms_at("Sunday, 06-Nov-94 08:49:37 GMT", now), Some(10_000));
    assert_eq!(parse_retry_after_ms_at("Sun Nov  6 08:49:37 1994", now), Some(10_000));
    assert_eq!(parse_retry_after_ms_at("  Sun, 06 Nov 1994 08:49:37 GMT ", now), Some(10_000));
    // A Sunday, not a Monday.
    assert_eq!(parse_retry_after_ms_at("Mon, 06 Nov 1994 08:49:37 GMT", now), None);
    assert_eq!(parse_retry_after_ms_at("Sun, 06 Nov 1994 08:49:37", now), None);
}

#[test]
fn http_date_is_told_in_seconds() {
    let date = parse_retry_after_http_date("Sun, 06 Nov 1994 08:49:37 GMT");
    assert_eq!(date, Some(at(SUNDAY_MORNING, 0)));
    assert_eq!(parse_retry_after_http_date("2"), None);
    // A leap second runs past the last second of its minute.
    let leap = parse_retry_after_http_date("Sat, 31 Dec 2016 23:59:60 GMT");
    assert_eq!(leap, Some(at(1_483_228_799, 1_000_000_000)));
}

#[test]
fn delay_counts_parts_of_a_second() {
    let date = at(SUNDAY_MORNING, 0);
    assert_eq!(delay_until(date, at(SUNDAY_MORNING - 10, 500_000_000)), 9_500);
    assert_eq!(delay_until(date, at(SUNDAY_MORNING - 10, 999_999_999)), 9_000);
    assert_eq!(delay_until(date, at(SUNDAY_MORNING, 0)), 0);
    assert_eq!(delay_until(date, at(SUNDAY_MORNING - 1, 999_999_999)), 0);
    assert_eq!(delay_until(date, at(SUNDAY_MORNING, 1)), 0);
    assert_eq!(delay_until(date, at(SUNDAY_MORNING + 1, 0)), 0);
}

#[test]
fn delay_counts_leap_seconds() {
    // From before a leap second into it.
    let leap = at(1_483_228_799, 1_000_000_000);
    assert_eq!(delay_until(leap, at(1_483_228_790, 0)), 10_000);
    // From a leap second into the next day.
    assert_eq!(delay_until(at(1_483_228_810, 0), at(1_483_228_799, 1_500_000_000)), 9_500);
    // From a leap second to later the same day: one second more.
    assert_eq!(delay_until(at(784_123_270, 0), at(784_123_259, 1_200_000_000)), 10_800);
    // Backward to a leap second of the same day.
    assert_eq!(delay_until(at(784_123_259, 1_000_000_000), at(784_123_270, 0)), 0);
}

#[test]
fn delay_over_all_of_time() {
    let ms = delay_until(at(LAST_SECOND, 999_999_999), at(FIRST_SECOND, 0));
    assert_eq!(ms, 16_544_868_105_599_999);
}

#[test]
fn seconds_take_precedence_over_a_date() {
    let date = Some(at(SUNDAY_MORNING, 0));
    let now = at(SUNDAY_MORNING - 10, 0);
    assert_eq!(retry_after_with_date("3", date, now), Some(3_000));
    assert_eq!(retry_after_with_date("some date", date, now), Some(10_000));
    assert_eq!(retry_after_with_date("some date", None, now), None);
    assert_eq!(retry_after_with_date(" ", date, now), None);
}

#[test]
fn instants_outside_the_calendar_are_refused() {
    assert!(UtcInstant::new(FIRST_SECOND, 0).is_some());
    assert!(UtcInstant::new(FIRST_SECOND - 1, 0).is_none());
    assert!(UtcInstant::new(LAST_SECOND, 1_999_999_999).is_some());
    assert!(UtcInstant::new(LAST_SECOND + 1, 0).is_none());
    assert!(UtcInstant::new(i64::MIN, 0).is_none());
    assert!(UtcInstant::new(i64::MAX, 0).is_none());
    assert!(UtcInstant::new(0, 2_000_000_000).is_none());
    // Only the last second of a minute can be a leap second.
    assert!(UtcInstant::new(0, 1_000_000_000).is_none());
    assert!(UtcInstant::new(59, 1_000_000_000).is_some());
    assert!(UtcInstant::new(-1, 1_000_000_000).is_some());
    assert!(UtcInstant::new(-2, 1_000_000_000).is_none());
}

#[test]
fn the_clock_moves_forward() {
    let a = UtcInstant::now();
    assert!(a.secs > 1_700_000_000);
    assert!(a.nanos < 1_000_000_000);
}

#[test]
fn instants_agree_with_the_calendar_crate() {
    for (secs, nanos) in [
        (FIRST_SECOND, 0),
        (FIRST_SECOND - 1, 0),
        (LAST_SECOND, 0),
        (LAST_SECOND + 1, 0),
        (59, 1_500_000_000),
        (60, 1_500_000_000),
        (-1, 1_500_000_000),
        (0, 2_000_000_000),
    ] {
        let there = chrono::DateTime::<chrono::Utc>::from_timestamp(secs, nanos).is_some();
        assert_eq!(UtcInstant::new(secs, nanos).is_some(), there);
    }
}
