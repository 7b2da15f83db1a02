//! What the day count means: it is the count of days of the proleptic
//! Gregorian calendar, from 1970-01-01.
use vstd::prelude::*;

use crate::timestamp::civil_days;

verus! {

pub open spec fn leap_year(y: int) -> bool {
    y % 4 == 0 && (y % 100 != 0 || y % 400 == 0)
}

/// The number of days of a month.
pub open spec fn month_length(y: int, m: int) -> int {
    if m == 2 {
        if leap_year(y) {
            29
        } else {
            28
        }
    } else if m == 4 || m == 6 || m == 9 || m == 11 {
        30
    } else {
        31
    }
}

/// Whether there is such a day in the calendar.
pub open spec fn calendar_day(y: int, m: int, d: int) -> bool {
    1 <= m <= 12 && 1 <= d <= month_length(y, m)
}

/// The day after a day.
pub open spec fn next_day(y: int, m: int, d: int) -> (int, int, int) {
    if d < month_length(y, m) {
        (y, m, d + 1)
    } else if m < 12 {
        (y, m + 1, 1)
    } else {
        (y + 1, 1, 1)
    }
}

/// Whether one day of the calendar comes before another.
pub open spec fn earlier_day(a: (int, int, int), b: (int, int, int)) -> bool {
    a.0 < b.0 || (a.0 == b.0 && (a.1 < b.1 || (a.1 == b.1 && a.2 < b.2)))
}

/// The count is zero on 1970-01-01.
pub proof fn law_count_starts_at_the_epoch()
    ensures
        civil_days(1970, 1, 1) == 0,
{
}

/// From one day of the calendar to the next, the count grows by one.
pub proof fn law_next_day_counts_one_more(y: int, m: int, d: int)
    requires
        calendar_day(y, m, d),
    ensures
        ({
            let n = next_day(y, m, d);
            &&& calendar_day(n.0, n.1, n.2)
            &&& civil_days(n.0, n.1, n.2) == civil_days(y, m, d) + 1
        }),
{
}

/// A year is over before the next one starts.
proof fn lemma_day_within_year(y: int, m: int, d: int)
    requires
        calendar_day(y, m, d),
    ensures
        civil_days(y, 1, 1) <= civil_days(y, m, d) < civil_days(y + 1, 1, 1),
{
}

proof fn lemma_years_in_order(y: int, later: int)
    requires
        y <= later,
    ensures
        civil_days(y, 1, 1) <= civil_days(later, 1, 1),
    decreases later - y,
{
    if y < later {
        lemma_years_in_order(y, later - 1);
        lemma_day_within_year(later - 1, 1, 1);
    }
}

/// An earlier day of the calendar has a smaller count.
pub proof fn law_earlier_day_counts_less(a: (int, int, int), b: (int, int, int))
    requires
        calendar_day(a.0, a.1, a.2),
        calendar_day(b.0, b.1, b.2),
        earlier_day(a, b),
    ensures
        civil_days(a.0, a.1, a.2) < civil_days(b.0, b.1, b.2),
{
    if a.0 < b.0 {
        lemma_day_within_year(a.0, a.1, a.2);
        lemma_years_in_order(a.0 + 1, b.0);
        lemma_day_within_year(b.0, b.1, b.2);
    }
}

} // verus!
