//! Laws of timestamps: how their fields are read, and what each of them counts
//! for.
use vstd::prelude::*;

use crate::number::{decimal_value, digit, integer, numeral};
use crate::scan::{before, lemma_cut_joined};
use crate::timestamp::{
    civil_days, civil_time, date_and_time, days_before_month, fraction_millis, part, seconds_field,
    timestamp_millis, unix_millis, unix_millis_fit, without_zone, zero_filled, CivilTime,
};
use crate::wording::law_cutting;

verus! {

// ---------------------------------------------------------------------------
// Fields
// ---------------------------------------------------------------------------

/// What stands between the separators is a part, the last one up to the next
/// separator if there is one.
pub proof fn law_parts(a: Seq<char>, b: Seq<char>, rest: Seq<char>, c: char)
    requires
        !a.contains(c),
        !b.contains(c),
    ensures
        ({
            let s = a + seq![c] + (b + seq![c] + rest);
            &&& part(s, c, 0) == Some(a)
            &&& part(s, c, 1) == Some(b)
            &&& part(s, c, 2) == Some(before(rest, c))
        }),
        part(a, c, 0) == Some(a),
        part(a, c, 1) is None,
        part(a + seq![c] + b, c, 1) == Some(b),
        part(a + seq![c] + b, c, 2) is None,
{
    reveal_with_fuel(part, 4);
    law_cutting(a, c, b + seq![c] + rest);
    law_cutting(b, c, rest);
    law_cutting(a, c, b);
}

/// The fields of a timestamp are what stands between its separators, each a
/// whole number; a `Z` at the end is not part of it.
pub proof fn law_fields(
    year: Seq<char>,
    month: Seq<char>,
    day: Seq<char>,
    hour: Seq<char>,
    minute: Seq<char>,
    field: Seq<char>,
)
    requires
        !year.contains('-') && !year.contains('T'),
        !month.contains('-') && !month.contains('T'),
        !day.contains('-') && !day.contains('T'),
        !hour.contains(':'),
        !minute.contains(':'),
        !field.contains(':'),
        field.len() > 0 && field.last() != 'Z',
    ensures
        ({
            let date = year + seq!['-'] + (month + seq!['-'] + day);
            let time = hour + seq![':'] + (minute + seq![':'] + field);
            let stamp = date + seq!['T'] + time;
            let read = civil_time(stamp);
            &&& civil_time(stamp.push('Z')) == read
            &&& integer(year) is None || integer(month) is None || integer(day) is None || integer(
                hour,
            ) is None || integer(minute) is None || seconds_field(field) is None ==> read is None
            &&& integer(year) is Some && integer(month) is Some && integer(day) is Some && integer(
                hour,
            ) is Some && integer(minute) is Some && seconds_field(field) is Some ==> {
                &&& read is Some
                &&& Some(read.unwrap().year as int) == integer(year)
                &&& Some(read.unwrap().month as int) == integer(month)
                &&& Some(read.unwrap().day as int) == integer(day)
                &&& Some(read.unwrap().hour as int) == integer(hour)
                &&& Some(read.unwrap().minute as int) == integer(minute)
                &&& Some((read.unwrap().second as int, read.unwrap().millis as int))
                    == seconds_field(field)
            }
        }),
{
    let date = year + seq!['-'] + (month + seq!['-'] + day);
    let time = hour + seq![':'] + (minute + seq![':'] + field);
    let stamp = date + seq!['T'] + time;
    assert(!date.contains('T')) by {
        if date.contains('T') {
            let k = choose|k: int| 0 <= k < date.len() && date[k] == 'T';
            if k < year.len() {
                assert(year[k] == 'T');
            } else if year.len() < k < year.len() + 1 + month.len() {
                assert(month[k - year.len() - 1] == 'T');
            } else if k > year.len() + 1 + month.len() {
                assert(day[k - year.len() - month.len() - 2] == 'T');
            }
        }
    }
    assert(stamp.last() == field.last());
    assert(without_zone(stamp) == stamp);
    assert(without_zone(stamp.push('Z')) =~= stamp);
    lemma_cut_joined(date, 'T', time);
    law_parts(year, month, day, '-');
    law_cutting(day, '-', day);
    law_parts(hour, minute, field, ':');
    law_cutting(field, ':', field);
}

/// What follows the day behind a dash, or the seconds behind a colon, is not read.
pub proof fn law_later_parts_are_not_read(
    year: Seq<char>,
    month: Seq<char>,
    day: Seq<char>,
    after_day: Seq<char>,
    hour: Seq<char>,
    minute: Seq<char>,
    field: Seq<char>,
    after_field: Seq<char>,
)
    requires
        !year.contains('-') && !month.contains('-') && !day.contains('-'),
        !hour.contains(':') && !minute.contains(':') && !field.contains(':'),
    ensures
        ({
            let date = year + seq!['-'] + (month + seq!['-'] + day);
            let time = hour + seq![':'] + (minute + seq![':'] + field);
            let longer_date = year + seq!['-'] + (month + seq!['-'] + (day + seq!['-']
                + after_day));
            let longer_time = hour + seq![':'] + (minute + seq![':'] + (field + seq![':']
                + after_field));
            date_and_time(longer_date, longer_time) == date_and_time(date, time)
        }),
{
    law_parts(year, month, day, '-');
    law_parts(year, month, day + seq!['-'] + after_day, '-');
    law_cutting(day, '-', after_day);
    law_parts(hour, minute, field, ':');
    law_parts(hour, minute, field + seq![':'] + after_field, ':');
    law_cutting(field, ':', after_field);
}

/// The seconds field: a whole number of seconds, and where there is a dot, the
/// fraction behind it.
pub proof fn law_seconds_field(whole: Seq<char>, fraction: Seq<char>)
    requires
        !whole.contains('.'),
    ensures
        integer(whole) is None ==> seconds_field(whole) is None && seconds_field(
            whole + seq!['.'] + fraction,
        ) is None,
        integer(whole) matches Some(n) ==> seconds_field(whole) == Some((n, 0int)),
        fraction_millis(fraction) is None ==> seconds_field(whole + seq!['.'] + fraction) is None,
        integer(whole) is Some && fraction_millis(fraction) is Some ==> seconds_field(
            whole + seq!['.'] + fraction,
        ) == Some((integer(whole).unwrap(), fraction_millis(fraction).unwrap())),
{
    law_cutting(whole, '.', fraction);
}

/// The fraction of a second, to the millisecond: its digits count tenths,
/// hundredths and thousandths, those that are missing are zeros, and what
/// follows the third does not matter.
pub proof fn law_fraction(a: char, b: char, c: char, more: Seq<char>)
    requires
        digit(a),
        digit(b),
        digit(c),
    ensures
        fraction_millis(Seq::empty()) == Some(0int),
        fraction_millis(seq![a]) == Some(100 * (a as int - '0' as int)),
        fraction_millis(seq![a, b]) == Some(
            100 * (a as int - '0' as int) + 10 * (b as int - '0' as int),
        ),
        fraction_millis(seq![a, b, c] + more) == Some(
            100 * (a as int - '0' as int) + 10 * (b as int - '0' as int) + (c as int - '0' as int),
        ),
{
    lemma_three_digits('0', '0', '0');
    lemma_three_digits(a, '0', '0');
    lemma_three_digits(a, b, '0');
    lemma_three_digits(a, b, c);
    assert(zero_filled(Seq::empty()) =~= seq!['0', '0', '0']);
    assert(zero_filled(seq![a]) =~= seq![a, '0', '0']);
    assert(zero_filled(seq![a, b]) =~= seq![a, b, '0']);
    let s = seq![a, b, c] + more;
    if s.len() > 3 {
        assert(s.take(3) =~= seq![a, b, c]);
    } else {
        assert(s =~= seq![a, b, c]);
    }
}

proof fn lemma_three_digits(a: char, b: char, c: char)
    requires
        digit(a),
        digit(b),
        digit(c),
    ensures
        integer(seq![a, b, c]) == Some(
            100 * (a as int - '0' as int) + 10 * (b as int - '0' as int) + (c as int - '0' as int),
        ),
{
    let s = seq![a, b, c];
    reveal_with_fuel(decimal_value, 4);
    assert(s.drop_last() =~= seq![a, b]);
    assert(s.drop_last().drop_last() =~= seq![a]);
    assert(s.drop_last().drop_last().drop_last() =~= Seq::empty());
    assert(numeral(s));
}

/// A timestamp without a date or without a time of day is none.
pub proof fn law_both_halves_are_needed(s: Seq<char>)
    requires
        !s.contains('T'),
    ensures
        civil_time(s) is None,
        timestamp_millis(s) is None,
{
    let t = without_zone(s);
    if t.contains('T') {
        let k = choose|k: int| 0 <= k < t.len() && t[k] == 'T';
        assert(s[k] == 'T');
    }
    law_cutting(t, 'T', t);
}

// ---------------------------------------------------------------------------
// Counting
// ---------------------------------------------------------------------------

/// What each field counts for, in milliseconds.
pub proof fn law_unix_millis(t: CivilTime)
    ensures
        unix_millis(t) == civil_days(t.year as int, t.month as int, t.day as int) * 86_400_000
            + t.hour * 3_600_000 + t.minute * 60_000 + t.second * 1000 + t.millis,
{
}

/// A day more counts one more, whatever the month, and four hundred years more
/// count 146097.
pub proof fn law_days_count_on(y: int, m: int, d: int)
    ensures
        civil_days(y, m, d + 1) == civil_days(y, m, d) + 1,
        civil_days(y + 400, m, d) == civil_days(y, m, d) + 146_097,
{
}

/// The days from the first of March to the first of each month after it, up to
/// that of February.
pub proof fn law_days_before_each_month()
    ensures
        days_before_month(3) == 0,
        days_before_month(4) == 31,
        days_before_month(5) == 31 + 30,
        days_before_month(6) == 31 + 30 + 31,
        days_before_month(7) == 31 + 30 + 31 + 30,
        days_before_month(8) == 31 + 30 + 31 + 30 + 31,
        days_before_month(9) == 31 + 30 + 31 + 30 + 31 + 31,
        days_before_month(10) == 31 + 30 + 31 + 30 + 31 + 31 + 30,
        days_before_month(11) == 31 + 30 + 31 + 30 + 31 + 31 + 30 + 31,
        days_before_month(12) == 31 + 30 + 31 + 30 + 31 + 31 + 30 + 31 + 30,
        days_before_month(1) == 31 + 30 + 31 + 30 + 31 + 31 + 30 + 31 + 30 + 31,
        days_before_month(2) == 31 + 30 + 31 + 30 + 31 + 31 + 30 + 31 + 30 + 31 + 31,
{
}

/// A well-formed timestamp is told unless it lies before the epoch or counting
/// leaves 64 bits.
pub proof fn law_what_is_told(s: Seq<char>, t: CivilTime)
    requires
        civil_time(s) == Some(t),
    ensures
        unix_millis(t) < 0 ==> timestamp_millis(s) is None,
        !unix_millis_fit(t) ==> timestamp_millis(s) is None,
        unix_millis_fit(t) && unix_millis(t) >= 0 ==> (timestamp_millis(s) matches Some(ms) && ms
            == unix_millis(t)),
{
}

/// Counting stays in 64 bits for every time of two hundred million years either
/// way, also where the month, the day or the time of day runs far over.
pub proof fn law_ordinary_times_can_be_counted(t: CivilTime)
    requires
        -200_000_000 <= t.year <= 200_000_000,
        -1_000_000_000 <= t.month <= 1_000_000_000,
        -1_000_000_000 <= t.day <= 1_000_000_000,
        -1_000_000_000 <= t.hour <= 1_000_000_000,
        -1_000_000_000 <= t.minute <= 1_000_000_000,
        -1_000_000_000 <= t.second <= 1_000_000_000,
        -1_000_000_000 <= t.millis <= 1_000_000_000,
    ensures
        unix_millis_fit(t),
{
}

} // verus!
