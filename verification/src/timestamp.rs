//! Graph timestamps (`2024-01-01T00:00:00Z`, optionally with fractional
//! seconds) as Unix milliseconds.
//!
//! Graph timestamps are always UTC, so no time zone is read: a trailing `Z`
//! is dropped and the rest is taken as UTC.
use vstd::prelude::*;

use crate::number::{integer, parse_i64};
use crate::scan::{before, cut, split_once, up_to};
use crate::text::{chars_of, string_of};

verus! {

// ---------------------------------------------------------------------------
// Days
// ---------------------------------------------------------------------------

/// Division that rounds towards zero.
pub open spec fn quotient(a: int, b: int) -> int {
    if a >= 0 {
        a / b
    } else {
        -((-a) / b)
    }
}

/// The remainder that goes with `quotient`.
pub open spec fn remainder(a: int, b: int) -> int {
    a - quotient(a, b) * b
}

/// The year that a day is counted in when years start on the first of March.
pub open spec fn march_year(y: int, m: int) -> int {
    if m <= 2 {
        y - 1
    } else {
        y
    }
}

/// The days from the first of March to the first of the month `m`.
pub open spec fn days_before_month(m: int) -> int {
    quotient(153 * remainder(m + 9, 12) + 2, 5)
}

/// The days from the first day of the 400-year era to the given day.
pub open spec fn day_of_era(y: int, m: int, d: int) -> int {
    let yoe = march_year(y, m) % 400;
    yoe * 365 + yoe / 4 - yoe / 100 + (days_before_month(m) + d - 1)
}

/// The days from 1970-01-01 to the given day, in the proleptic Gregorian
/// calendar.
pub open spec fn civil_days(y: int, m: int, d: int) -> int {
    (march_year(y, m) / 400) * 146097 + day_of_era(y, m, d) - 719468
}

/// Whether a number is a 64-bit signed integer.
pub open spec fn fits(x: int) -> bool {
    i64::MIN <= x <= i64::MAX
}

/// Whether the day count and all it is made of stay in 64 bits.
pub open spec fn civil_days_fit(y: int, m: int, d: int) -> bool {
    let my = march_year(y, m);
    &&& fits(my)
    &&& my < 0 ==> fits(my - 399)
    &&& fits(m + 9)
    &&& fits(days_before_month(m) + d)
    &&& fits(days_before_month(m) + d - 1)
    &&& fits(day_of_era(y, m, d))
    &&& fits((my / 400) * 146097)
    &&& fits((my / 400) * 146097 + day_of_era(y, m, d))
    &&& fits(civil_days(y, m, d))
}

/// The days from 1970-01-01 to the given day, in the proleptic Gregorian
/// calendar: pure integer arithmetic on 400-year eras whose years start on
/// the first of March.
pub fn days_from_civil(y: i64, m: i64, d: i64) -> (r: i64)
    requires
        civil_days_fit(y as int, m as int, d as int),
    ensures
        r == civil_days(y as int, m as int, d as int),
{
    let y: i64 = if m <= 2 {
        y - 1
    } else {
        y
    };
    let era: i64 = (if y >= 0 {
        y
    } else {
        y - 399
    }) / 400;
    assert(era == y as int / 400);
    let yoe: i64 = y - era * 400;
    assert(yoe == y as int % 400);
    let mp: i64 = (m + 9) % 12;
    assert(mp == remainder(m + 9, 12));
    let doy: i64 = (153 * mp + 2) / 5 + d - 1;
    let doe: i64 = yoe * 365 + yoe / 4 - yoe / 100 + doy;
    era * 146097 + doe - 719468
}

fn in_i64(x: i128) -> (r: bool)
    ensures
        r == fits(x as int),
{
    i64::MIN as i128 <= x && x <= i64::MAX as i128
}

/// Whether `days_from_civil` can count to this day.
pub fn day_is_countable(y: i64, m: i64, d: i64) -> (r: bool)
    ensures
        r == civil_days_fit(y as int, m as int, d as int),
{
    let my: i128 = if m <= 2 {
        y as i128 - 1
    } else {
        y as i128
    };
    let era: i128 = (if my >= 0 {
        my
    } else {
        my - 399
    }) / 400;
    assert(era == my as int / 400);
    let yoe: i128 = my - era * 400;
    assert(yoe == my as int % 400);
    let mp: i128 = (m as i128 + 9) % 12;
    assert(mp == remainder(m + 9, 12));
    let before_month: i128 = (153 * mp + 2) / 5;
    let doe: i128 = yoe * 365 + yoe / 4 - yoe / 100 + (before_month + d as i128 - 1);
    in_i64(my) && (my >= 0 || in_i64(my - 399)) && in_i64(m as i128 + 9) && in_i64(
        before_month + d as i128,
    ) && in_i64(before_month + d as i128 - 1) && in_i64(doe) && in_i64(era * 146097) && in_i64(
        era * 146097 + doe,
    ) && in_i64(era * 146097 + doe - 719468)
}

// ---------------------------------------------------------------------------
// The fields of a timestamp
// ---------------------------------------------------------------------------

/// The fields that a timestamp names.
#[derive(Clone, Copy)]
pub struct CivilTime {
    pub year: i64,
    pub month: i64,
    pub day: i64,
    pub hour: i64,
    pub minute: i64,
    pub second: i64,
    pub millis: i64,
}

/// The `k`-th of the parts that stand between occurrences of `c`, counted
/// from zero. Nothing where there are not that many.
pub open spec fn part(s: Seq<char>, c: char, k: nat) -> Option<Seq<char>>
    decreases k,
{
    if k == 0 {
        Some(before(s, c))
    } else {
        match cut(s, c) {
            Some((_, tail)) => part(tail, c, (k - 1) as nat),
            None => None,
        }
    }
}

/// The number that the `k`-th part says.
pub open spec fn numeric_part(s: Seq<char>, c: char, k: nat) -> Option<int> {
    match part(s, c, k) {
        Some(p) => integer(p),
        None => None,
    }
}

/// A text filled up with zeros on the right, to three characters.
pub open spec fn zero_filled(s: Seq<char>) -> Seq<char> {
    if s.len() >= 3 {
        s
    } else {
        s + Seq::new((3 - s.len()) as nat, |i: int| '0')
    }
}

/// The milliseconds that a fraction of a second says: its first three
/// characters, filled up with zeros.
pub open spec fn fraction_millis(frac: Seq<char>) -> Option<int> {
    integer(
        zero_filled(
            if frac.len() > 3 {
                frac.take(3)
            } else {
                frac
            },
        ),
    )
}

/// The whole seconds and the milliseconds of a seconds field.
pub open spec fn seconds_field(field: Seq<char>) -> Option<(int, int)> {
    match cut(field, '.') {
        Some((whole, frac)) => match (integer(whole), fraction_millis(frac)) {
            (Some(second), Some(millis)) => Some((second, millis)),
            _ => None,
        },
        None => match integer(field) {
            Some(second) => Some((second, 0)),
            None => None,
        },
    }
}

/// A timestamp without one trailing `Z`.
pub open spec fn without_zone(s: Seq<char>) -> Seq<char> {
    if s.len() > 0 && s.last() == 'Z' {
        s.drop_last()
    } else {
        s
    }
}

/// The fields of a date and a time of day: year, month and day between
/// dashes, hour, minute and seconds between colons. What follows the third
/// part of either is not read.
pub open spec fn date_and_time(date: Seq<char>, time: Seq<char>) -> Option<CivilTime> {
    match (
        numeric_part(date, '-', 0),
        numeric_part(date, '-', 1),
        numeric_part(date, '-', 2),
        numeric_part(time, ':', 0),
        numeric_part(time, ':', 1),
        part(time, ':', 2),
    ) {
        (
            Some(year),
            Some(month),
            Some(day),
            Some(hour),
            Some(minute),
            Some(field),
        ) => match seconds_field(field) {
            Some((second, millis)) => Some(
                CivilTime {
                    year: year as i64,
                    month: month as i64,
                    day: day as i64,
                    hour: hour as i64,
                    minute: minute as i64,
                    second: second as i64,
                    millis: millis as i64,
                },
            ),
            None => None,
        },
        _ => None,
    }
}

/// The fields of a timestamp. Nothing where it is malformed.
pub open spec fn civil_time(s: Seq<char>) -> Option<CivilTime> {
    match cut(without_zone(s), 'T') {
        Some((date, time)) => date_and_time(date, time),
        None => None,
    }
}

// ---------------------------------------------------------------------------
// Milliseconds
// ---------------------------------------------------------------------------

/// The milliseconds from the Unix epoch to a time; negative before it.
pub open spec fn unix_millis(t: CivilTime) -> int {
    (civil_days(t.year as int, t.month as int, t.day as int) * 86_400 + t.hour * 3600 + t.minute
        * 60 + t.second) * 1000 + t.millis
}

/// Whether the milliseconds and all they are made of stay in 64 bits.
pub open spec fn unix_millis_fit(t: CivilTime) -> bool {
    let days = civil_days(t.year as int, t.month as int, t.day as int);
    &&& civil_days_fit(t.year as int, t.month as int, t.day as int)
    &&& fits(days * 86_400)
    &&& fits(t.hour * 3600)
    &&& fits(days * 86_400 + t.hour * 3600)
    &&& fits(t.minute * 60)
    &&& fits(days * 86_400 + t.hour * 3600 + t.minute * 60)
    &&& fits(days * 86_400 + t.hour * 3600 + t.minute * 60 + t.second)
    &&& fits((days * 86_400 + t.hour * 3600 + t.minute * 60 + t.second) * 1000)
    &&& fits(unix_millis(t))
}

/// The Unix milliseconds of a timestamp. Nothing where it is malformed, before
/// the epoch, or where counting leaves 64 bits.
pub open spec fn timestamp_millis(s: Seq<char>) -> Option<u64> {
    match civil_time(s) {
        Some(t) => if unix_millis_fit(t) && unix_millis(t) >= 0 {
            Some(unix_millis(t) as u64)
        } else {
            None
        },
        None => None,
    }
}

// ---------------------------------------------------------------------------
// Reading
// ---------------------------------------------------------------------------

fn nth_part<'a>(s: &'a str, c: char, k: usize) -> (r: Option<&'a str>)
    ensures
        match r {
            Some(p) => part(s@, c, k as nat) == Some(p@),
            None => part(s@, c, k as nat) is None,
        },
    decreases k,
{
    if k == 0 {
        return Some(up_to(s, c));
    }
    match split_once(s, c) {
        Some((_, tail)) => nth_part(tail, c, k - 1),
        None => None,
    }
}

fn nth_number(s: &str, c: char, k: usize) -> (r: Option<i64>)
    ensures
        match r {
            Some(n) => numeric_part(s@, c, k as nat) == Some(n as int),
            None => numeric_part(s@, c, k as nat) is None,
        },
{
    match nth_part(s, c, k) {
        Some(p) => parse_i64(p),
        None => None,
    }
}

/// The first three characters of a fraction, filled up with zeros.
fn fraction_digits(frac: &str) -> (r: String)
    ensures
        r@ == zero_filled(
            if frac@.len() > 3 {
                frac@.take(3)
            } else {
                frac@
            },
        ),
{
    let v = chars_of(frac);
    let n: usize = if v.len() > 3 {
        3
    } else {
        v.len()
    };
    let mut digits = string_of(&v, 0, n);
    assert(v@.subrange(0, n as int) =~= v@.take(n as int));
    let mut len: usize = n;
    while len < 3
        invariant
            n <= len <= 3,
            n <= v@.len(),
            digits@ == v@.take(n as int) + Seq::new((len - n) as nat, |i: int| '0'),
        decreases 3 - len,
    {
        digits.push('0');
        len = len + 1;
        assert(digits@ =~= v@.take(n as int) + Seq::new((len - n) as nat, |i: int| '0'));
    }
    assert(v@.len() <= 3 ==> v@.take(n as int) =~= v@);
    assert(digits@ =~= zero_filled(v@.take(n as int)));
    digits
}

fn strip_zone<'a>(s: &'a str) -> (r: &'a str)
    ensures
        r@ == without_zone(s@),
{
    let v = chars_of(s);
    if v.len() > 0 && v[v.len() - 1] == 'Z' {
        s.substring_char(0, v.len() - 1)
    } else {
        s
    }
}

/// Reads the fields of a timestamp.
pub fn read_timestamp(s: &str) -> (r: Option<CivilTime>)
    ensures
        r == civil_time(s@),
{
    let (date, time) = match split_once(strip_zone(s), 'T') {
        Some(halves) => halves,
        None => return None,
    };
    let year = match nth_number(date, '-', 0) {
        Some(n) => n,
        None => return None,
    };
    let month = match nth_number(date, '-', 1) {
        Some(n) => n,
        None => return None,
    };
    let day = match nth_number(date, '-', 2) {
        Some(n) => n,
        None => return None,
    };
    let hour = match nth_number(time, ':', 0) {
        Some(n) => n,
        None => return None,
    };
    let minute = match nth_number(time, ':', 1) {
        Some(n) => n,
        None => return None,
    };
    let field = match nth_part(time, ':', 2) {
        Some(p) => p,
        None => return None,
    };
    match split_once(field, '.') {
        Some((whole, frac)) => {
            let second = match parse_i64(whole) {
                Some(n) => n,
                None => return None,
            };
            match parse_i64(fraction_digits(frac).as_str()) {
                Some(millis) => Some(
                    CivilTime { year, month, day, hour, minute, second, millis },
                ),
                None => None,
            }
        },
        None => match parse_i64(field) {
            Some(second) => Some(
                CivilTime { year, month, day, hour, minute, second, millis: 0 },
            ),
            None => None,
        },
    }
}

/// The milliseconds from the Unix epoch to a time. Nothing where counting
/// leaves 64 bits.
fn count_millis(t: &CivilTime) -> (r: Option<i64>)
    ensures
        match r {
            Some(ms) => unix_millis_fit(*t) && ms == unix_millis(*t),
            None => !unix_millis_fit(*t),
        },
{
    if !day_is_countable(t.year, t.month, t.day) {
        return None;
    }
    let days = days_from_civil(t.year, t.month, t.day);
    let day_secs: i128 = days as i128 * 86_400;
    let hour_secs: i128 = t.hour as i128 * 3600;
    let minute_secs: i128 = t.minute as i128 * 60;
    let secs: i128 = day_secs + hour_secs + minute_secs + t.second as i128;
    let ms: i128 = secs * 1000 + t.millis as i128;
    if in_i64(day_secs) && in_i64(hour_secs) && in_i64(day_secs + hour_secs) && in_i64(minute_secs)
        && in_i64(day_secs + hour_secs + minute_secs) && in_i64(secs) && in_i64(secs * 1000)
        && in_i64(ms) {
        Some(ms as i64)
    } else {
        None
    }
}

/// Reads a Graph timestamp as Unix milliseconds. Nothing where it is
/// malformed, before the epoch, or where counting leaves 64 bits.
pub fn parse_iso8601_to_unix_ms(s: &str) -> (r: Option<u64>)
    ensures
        r == timestamp_millis(s@),
{
    match read_timestamp(s) {
        Some(t) => match count_millis(&t) {
            Some(ms) => if ms < 0 {
                None
            } else {
                Some(ms as u64)
            },
            None => None,
        },
        None => None,
    }
}

} // verus!
