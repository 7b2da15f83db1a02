//! Timestamps as Graph writes them, to the second: what they read as, and why
//! comparing them as text compares the times they name.
use vstd::prelude::*;

use crate::calendar::{calendar_day, earlier_day, law_earlier_day_counts_less};
use crate::number::{decimal_value, integer, numeral};
use crate::scan::{before, cut, lemma_cut_joined};
use crate::text::{lemma_precedes_at, lemma_precedes_irreflexive, lemma_precedes_transitive, precedes};
use crate::timestamp::{
    civil_time, part, timestamp_millis, unix_millis, unix_millis_fit, without_zone, CivilTime,
};

verus! {

/// Whether the fields are those of a time of the calendar, from the epoch to
/// the end of the year 9999, to the second.
pub open spec fn wall_time(t: CivilTime) -> bool {
    &&& 1970 <= t.year <= 9999
    &&& calendar_day(t.year as int, t.month as int, t.day as int)
    &&& 0 <= t.hour < 24
    &&& 0 <= t.minute < 60
    &&& 0 <= t.second < 60
    &&& t.millis == 0
}

/// The digit for a number below ten.
pub open spec fn numeral_char(n: int) -> char {
    ('0' as u32 + n) as char
}

/// A number below 100 in two digits.
pub open spec fn two_digits(n: int) -> Seq<char> {
    seq![numeral_char(n / 10), numeral_char(n % 10)]
}

/// A number below 10000 in four digits.
pub open spec fn four_digits(n: int) -> Seq<char> {
    seq![
        numeral_char(n / 1000),
        numeral_char(n / 100 % 10),
        numeral_char(n / 10 % 10),
        numeral_char(n % 10),
    ]
}

/// The date of a time: `YYYY-MM-DD`.
pub open spec fn date_text(t: CivilTime) -> Seq<char> {
    four_digits(t.year as int) + seq!['-'] + (two_digits(t.month as int) + seq!['-'] + two_digits(
        t.day as int,
    ))
}

/// The time of day: `HH:MM:SS`.
pub open spec fn clock_text(t: CivilTime) -> Seq<char> {
    two_digits(t.hour as int) + seq![':'] + (two_digits(t.minute as int) + seq![':'] + two_digits(
        t.second as int,
    ))
}

/// The timestamp of a time: `YYYY-MM-DDTHH:MM:SSZ`.
pub open spec fn stamp_text(t: CivilTime) -> Seq<char> {
    (date_text(t) + seq!['T'] + clock_text(t)).push('Z')
}

proof fn lemma_two_digits(n: int)
    requires
        0 <= n < 100,
    ensures
        integer(two_digits(n)) == Some(n),
        forall|i: int| 0 <= i < 2 ==> '0' <= #[trigger] two_digits(n)[i] <= '9',
{
    let s = two_digits(n);
    reveal_with_fuel(decimal_value, 3);
    assert(s.drop_last() =~= seq![numeral_char(n / 10)]);
    assert(s.drop_last().drop_last() =~= Seq::empty());
    assert(numeral(s));
    assert(decimal_value(s) == n);
}

proof fn lemma_four_digits(n: int)
    requires
        0 <= n < 10000,
    ensures
        integer(four_digits(n)) == Some(n),
        forall|i: int| 0 <= i < 4 ==> '0' <= #[trigger] four_digits(n)[i] <= '9',
{
    let s = four_digits(n);
    reveal_with_fuel(decimal_value, 5);
    let s3 = s.drop_last();
    let s2 = s3.drop_last();
    let s1 = s2.drop_last();
    assert(s1.drop_last() =~= Seq::empty());
    assert(numeral(s));
    assert(decimal_value(s) == n);
}

/// A text that does not hold `c` is its own first and only part.
proof fn lemma_uncut(s: Seq<char>, c: char)
    requires
        !s.contains(c),
    ensures
        cut(s, c) is None,
        before(s, c) == s,
{
    s.index_of_first_ensures(c);
}

/// Three parts with `c` between them are read back as just those parts.
proof fn lemma_three_parts(a: Seq<char>, b: Seq<char>, d: Seq<char>, c: char)
    requires
        !a.contains(c),
        !b.contains(c),
        !d.contains(c),
    ensures
        ({
            let s = a + seq![c] + (b + seq![c] + d);
            &&& part(s, c, 0) == Some(a)
            &&& part(s, c, 1) == Some(b)
            &&& part(s, c, 2) == Some(d)
        }),
{
    let s = a + seq![c] + (b + seq![c] + d);
    reveal_with_fuel(part, 4);
    lemma_cut_joined(a, c, b + seq![c] + d);
    lemma_cut_joined(b, c, d);
    lemma_uncut(d, c);
}

/// A timestamp to the second, as Graph writes it, is read as the time it
/// names.
pub proof fn law_stamp_reads_back(t: CivilTime)
    requires
        wall_time(t),
    ensures
        civil_time(stamp_text(t)) == Some(t),
        timestamp_millis(stamp_text(t)) == Some(unix_millis(t) as u64),
        unix_millis(t) >= 0,
{
    let s = stamp_text(t);
    let date = date_text(t);
    let clock = clock_text(t);
    let (y, m, d) = (t.year as int, t.month as int, t.day as int);
    lemma_four_digits(y);
    lemma_two_digits(m);
    lemma_two_digits(d);
    lemma_two_digits(t.hour as int);
    lemma_two_digits(t.minute as int);
    lemma_two_digits(t.second as int);
    assert(without_zone(s) =~= date + seq!['T'] + clock);
    assert(!date.contains('T'));
    lemma_cut_joined(date, 'T', clock);
    lemma_three_parts(four_digits(y), two_digits(m), two_digits(d), '-');
    lemma_three_parts(
        two_digits(t.hour as int),
        two_digits(t.minute as int),
        two_digits(t.second as int),
        ':',
    );
    lemma_uncut(two_digits(t.second as int), '.');
    assert(civil_time(s) == Some(t));
    lemma_wall_time_fits(t);
}

proof fn lemma_wall_time_fits(t: CivilTime)
    requires
        wall_time(t),
    ensures
        unix_millis_fit(t),
        unix_millis(t) >= 0,
{
    if (t.year as int, t.month as int, t.day as int) != (1970int, 1int, 1int) {
        law_earlier_day_counts_less((1970, 1, 1), (t.year as int, t.month as int, t.day as int));
    }
}

/// Whether one time comes before another: the first field that differs is
/// the smaller.
pub open spec fn earlier_time(a: CivilTime, b: CivilTime) -> bool {
    let day_a = (a.year as int, a.month as int, a.day as int);
    let day_b = (b.year as int, b.month as int, b.day as int);
    earlier_day(day_a, day_b) || (day_a == day_b && (a.hour < b.hour || (a.hour == b.hour && (
    a.minute < b.minute || (a.minute == b.minute && a.second < b.second)))))
}

proof fn lemma_earlier_time_has_fewer_millis(a: CivilTime, b: CivilTime)
    requires
        wall_time(a),
        wall_time(b),
        earlier_time(a, b),
    ensures
        unix_millis(a) < unix_millis(b),
{
    let day_a = (a.year as int, a.month as int, a.day as int);
    let day_b = (b.year as int, b.month as int, b.day as int);
    if earlier_day(day_a, day_b) {
        law_earlier_day_counts_less(day_a, day_b);
    }
}

/// Of two numbers in two digits at the same place, the smaller comes first as
/// text.
proof fn lemma_two_digit_field(a: Seq<char>, b: Seq<char>, at: int, x: int, y: int)
    requires
        0 <= at,
        at + 2 <= a.len(),
        at + 2 <= b.len(),
        forall|i: int| 0 <= i < at ==> a[i] == b[i],
        0 <= x < y < 100,
        a[at] == numeral_char(x / 10) && a[at + 1] == numeral_char(x % 10),
        b[at] == numeral_char(y / 10) && b[at + 1] == numeral_char(y % 10),
    ensures
        precedes(a, b),
{
    if x / 10 == y / 10 {
        lemma_precedes_at(a, b, at + 1);
    } else {
        lemma_precedes_at(a, b, at);
    }
}

/// What stands where in a timestamp.
spec fn laid_out(s: Seq<char>, t: CivilTime) -> bool {
    &&& s.len() == 20
    &&& s[0] == numeral_char(t.year as int / 1000)
    &&& s[1] == numeral_char(t.year as int / 100 % 10)
    &&& s[2] == numeral_char(t.year as int / 10 % 10)
    &&& s[3] == numeral_char(t.year as int % 10)
    &&& s[4] == '-'
    &&& s[5] == numeral_char(t.month as int / 10)
    &&& s[6] == numeral_char(t.month as int % 10)
    &&& s[7] == '-'
    &&& s[8] == numeral_char(t.day as int / 10)
    &&& s[9] == numeral_char(t.day as int % 10)
    &&& s[10] == 'T'
    &&& s[11] == numeral_char(t.hour as int / 10)
    &&& s[12] == numeral_char(t.hour as int % 10)
    &&& s[13] == ':'
    &&& s[14] == numeral_char(t.minute as int / 10)
    &&& s[15] == numeral_char(t.minute as int % 10)
    &&& s[16] == ':'
    &&& s[17] == numeral_char(t.second as int / 10)
    &&& s[18] == numeral_char(t.second as int % 10)
    &&& s[19] == 'Z'
}

proof fn lemma_stamp_laid_out(t: CivilTime)
    ensures
        laid_out(stamp_text(t), t),
{
}

proof fn lemma_four_digits_in_pairs(x: int)
    requires
        0 <= x < 10000,
    ensures
        x / 100 / 10 == x / 1000,
        x % 100 / 10 == x / 10 % 10,
        x % 100 % 10 == x % 10,
{
}

proof fn lemma_earlier_year_comes_first(p: Seq<char>, q: Seq<char>, a: CivilTime, b: CivilTime)
    requires
        laid_out(p, a),
        laid_out(q, b),
        0 <= a.year < b.year <= 9999,
    ensures
        precedes(p, q),
{
    let (x, y) = (a.year as int, b.year as int);
    lemma_four_digits_in_pairs(x);
    lemma_four_digits_in_pairs(y);
    if x / 100 < y / 100 {
        lemma_two_digit_field(p, q, 0, x / 100, y / 100);
    } else {
        lemma_two_digit_field(p, q, 2, x % 100, y % 100);
    }
}

proof fn lemma_earlier_time_comes_first(p: Seq<char>, q: Seq<char>, a: CivilTime, b: CivilTime)
    requires
        laid_out(p, a),
        laid_out(q, b),
        wall_time(a),
        wall_time(b),
        earlier_time(a, b),
    ensures
        precedes(p, q),
{
    if a.year < b.year {
        lemma_earlier_year_comes_first(p, q, a, b);
    } else if a.month < b.month {
        lemma_two_digit_field(p, q, 5, a.month as int, b.month as int);
    } else if a.day < b.day {
        lemma_two_digit_field(p, q, 8, a.day as int, b.day as int);
    } else if a.hour < b.hour {
        lemma_two_digit_field(p, q, 11, a.hour as int, b.hour as int);
    } else if a.minute < b.minute {
        lemma_two_digit_field(p, q, 14, a.minute as int, b.minute as int);
    } else {
        lemma_two_digit_field(p, q, 17, a.second as int, b.second as int);
    }
}

/// Timestamps to the second are lexically sortable: one comes before another
/// as text exactly when the time it names is the earlier one.
pub proof fn law_stamps_sort_as_times(a: CivilTime, b: CivilTime)
    requires
        wall_time(a),
        wall_time(b),
    ensures
        precedes(stamp_text(a), stamp_text(b)) <==> unix_millis(a) < unix_millis(b),
{
    let p = stamp_text(a);
    let q = stamp_text(b);
    lemma_precedes_irreflexive(p);
    lemma_stamp_laid_out(a);
    lemma_stamp_laid_out(b);
    if earlier_time(a, b) {
        lemma_earlier_time_comes_first(p, q, a, b);
        lemma_earlier_time_has_fewer_millis(a, b);
    } else if earlier_time(b, a) {
        lemma_earlier_time_comes_first(q, p, b, a);
        lemma_earlier_time_has_fewer_millis(b, a);
        if precedes(p, q) {
            lemma_precedes_transitive(p, q, p);
        }
    } else {
        assert(a == b);
    }
}

} // verus!
