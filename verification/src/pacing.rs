//! Laws of waiting before a retry: how the delay follows from the attempt, the
//! draw and the cap, and how a server's own wish is read.
use vstd::arithmetic::power2::pow2;
use vstd::prelude::*;

use crate::number::natural;
use crate::retry::{
    backoff, base_delay, delay_until_date, http_date, instant, jitter_factor, jittered,
    law_jitter_near_a_quarter, law_jitter_within_a_quarter, millis_between, multiplier,
    nanos_between, parsed_date_time, retry_delay, UtcInstant, FIRST_SECOND, LAST_SECOND,
};
use crate::rounding::{lemma_rounded_near, lemma_rounded_scales, lemma_rounded_small, rounded};
use crate::scan::{before, trimmed};
use crate::text::white_space;
use crate::timestamp::civil_days;
use crate::wording::law_trimming;

verus! {

// ---------------------------------------------------------------------------
// Backoff
// ---------------------------------------------------------------------------

/// The delay before jitter and cap: the base delay times two to the power of
/// the attempt, up to the largest number there is.
pub proof fn law_base_delay(attempt: u32, base_delay_ms: u64)
    ensures
        base_delay(attempt, 0) == 0,
        base_delay_ms * pow2(attempt as nat) <= u64::MAX ==> base_delay(attempt, base_delay_ms)
            == base_delay_ms * pow2(attempt as nat),
        base_delay_ms * pow2(attempt as nat) > u64::MAX ==> base_delay(attempt, base_delay_ms)
            == u64::MAX,
{
    let b = base_delay_ms as int;
    let p = pow2(attempt as nat) as int;
    assert(0 * multiplier(attempt) == 0);
    if attempt < 64 {
        vstd::bits::lemma_u64_pow2_no_overflow(attempt as nat);
    } else {
        vstd::arithmetic::power2::lemma2_to64_rest();
        if attempt > 64 {
            vstd::arithmetic::power2::lemma_pow2_strictly_increases(64, attempt as nat);
        }
        if b > 0 {
            assert(b * p >= p) by (nonlinear_arith)
                requires
                    b >= 1,
                    p >= 0,
            ;
            let m = multiplier(attempt) as int;
            assert(b * m >= m) by (nonlinear_arith)
                requires
                    b >= 1,
                    m >= 0,
            ;
        } else {
            assert(b * p == 0) by (nonlinear_arith)
                requires
                    b == 0,
            ;
        }
    }
}

/// The delay for any attempt is the smaller of the cap and the jittered base
/// delay times two to the power of the attempt.
pub proof fn law_backoff_is_the_smaller(
    attempt: u32,
    base_delay_ms: u64,
    max_delay_ms: u64,
    random: u64,
    full: u64,
)
    requires
        full == base_delay_ms * pow2(attempt as nat) || (full == u64::MAX && base_delay_ms * pow2(
            attempt as nat,
        ) > u64::MAX),
    ensures
        jittered(full, random) <= max_delay_ms ==> backoff(
            attempt,
            base_delay_ms,
            max_delay_ms,
            random,
        ) == jittered(full, random),
        jittered(full, random) >= max_delay_ms ==> backoff(
            attempt,
            base_delay_ms,
            max_delay_ms,
            random,
        ) == max_delay_ms,
{
    law_base_delay(attempt, base_delay_ms);
}

/// Wherever the delay is below the cap, it lies within a quarter of the base
/// delay times two to the power of the attempt, either way, but for one part in
/// 2^48 and the fraction of a millisecond that is cut off.
pub proof fn law_backoff_below_the_cap(
    attempt: u32,
    base_delay_ms: u64,
    max_delay_ms: u64,
    random: u64,
)
    requires
        base_delay_ms * pow2(attempt as nat) <= u64::MAX,
        backoff(attempt, base_delay_ms, max_delay_ms, random) < max_delay_ms,
    ensures
        ({
            let full = base_delay_ms * pow2(attempt as nat);
            let delay = backoff(attempt, base_delay_ms, max_delay_ms, random);
            &&& 4 * delay <= 5 * full + full / 0x1_0000_0000_0000
            &&& 4 * delay + 4 + full / 0x1_0000_0000_0000 >= 3 * full
        }),
{
    law_base_delay(attempt, base_delay_ms);
    law_jitter_near_a_quarter(base_delay(attempt, base_delay_ms), random);
}

/// Up to 2^53 / 5 milliseconds, more than fifty thousand years, the quarter is
/// exact: a delay below the cap is no longer than five quarters and no shorter
/// than three quarters, cut to whole milliseconds.
pub proof fn law_backoff_within_a_quarter(
    attempt: u32,
    base_delay_ms: u64,
    max_delay_ms: u64,
    random: u64,
)
    requires
        5 * (base_delay_ms * pow2(attempt as nat)) <= 0x20_0000_0000_0000,
    ensures
        ({
            let full = base_delay_ms * pow2(attempt as nat);
            let delay = backoff(attempt, base_delay_ms, max_delay_ms, random);
            &&& delay <= max_delay_ms
            &&& 4 * delay <= 5 * full
            &&& delay < max_delay_ms ==> delay >= 3 * full / 4
            &&& max_delay_ms <= 3 * full / 4 ==> delay == max_delay_ms
            &&& 5 * full / 4 < max_delay_ms ==> delay < max_delay_ms
        }),
{
    law_base_delay(attempt, base_delay_ms);
    let full = base_delay(attempt, base_delay_ms);
    lemma_rounded_small(full as nat);
    lemma_rounded_small((3 * full) as nat);
    lemma_rounded_small((5 * full) as nat);
    law_jitter_within_a_quarter(full, random);
}

/// The middle draw leaves a delay as it is, up to 2^53 milliseconds, and no
/// delay stays none.
pub proof fn law_middle_draw_leaves_the_delay(delay_ms: u64, random: u64)
    requires
        delay_ms <= 0x20_0000_0000_0000,
    ensures
        jittered(delay_ms, 0x8000_0000_0000_0000) == delay_ms,
        jittered(0, random) == 0,
{
    vstd::arithmetic::power2::lemma2_to64();
    vstd::arithmetic::power2::lemma2_to64_rest();
    lemma_rounded_small(1);
    lemma_rounded_small(delay_ms as nat);
    lemma_rounded_scales(1, 54);
    lemma_rounded_scales(delay_ms as nat, 54);
    assert(jitter_factor(0x8000_0000_0000_0000) == 0x40_0000_0000_0000);
    assert(delay_ms as nat * 0x40_0000_0000_0000 / 0x40_0000_0000_0000 == delay_ms);
}

/// The delay follows the draw: three quarters of the delay, and half of it
/// times the draw as a fraction of all draws, to within a millisecond and three
/// parts in 2^52.
pub proof fn law_jitter_follows_the_draw(delay_ms: u64, random: u64)
    requires
        delay_ms <= 0x20_0000_0000_0000,
    ensures
        ({
            let exact = delay_ms * (0x30_0000_0000_0000 + random / 0x800);
            let given = 0x40_0000_0000_0000 * jittered(delay_ms, random);
            &&& given <= exact + 12 * delay_ms
            &&& exact < given + 0x40_0000_0000_0000 + 12 * delay_ms
        }),
{
    let d = delay_ms as int;
    let raw = (0x30_0000_0000_0000 + random / 0x800) as nat;
    let f = jitter_factor(random) as int;
    lemma_rounded_small(delay_ms as nat);
    lemma_rounded_near(raw);
    assert(raw - 3 <= f <= raw + 3);
    assert(d * raw - 3 * d <= d * f <= d * raw + 3 * d) by (nonlinear_arith)
        requires
            0 <= d,
            raw - 3 <= f <= raw + 3,
    ;
    assert(0 <= d * f <= d * 0x60_0000_0000_0000) by (nonlinear_arith)
        requires
            0 <= d,
            0 <= f <= 0x60_0000_0000_0000,
    ;
    lemma_rounded_near((d * f) as nat);
    let product = rounded((d * f) as nat) as int;
    assert(d * raw == d * (0x30_0000_0000_0000 + random / 0x800));
    assert(product <= d * f + 3 * d);
    assert(d * f <= product + 3 * d);
    assert(product / 0x40_0000_0000_0000 <= u64::MAX);
}

// ---------------------------------------------------------------------------
// Points in time
// ---------------------------------------------------------------------------

/// The points in time are those of the years from -262143 to 262142.
pub proof fn law_years_that_can_be_told()
    ensures
        FIRST_SECOND == civil_days(-262_143, 1, 1) * 86_400,
        LAST_SECOND == civil_days(262_143, 1, 1) * 86_400 - 1,
{
}

/// Which pairs of numbers are points in time: any whole second of those years
/// with less than a second of nanoseconds, and the last second of a minute with
/// less than two.
pub proof fn law_points_in_time(t: UtcInstant)
    ensures
        t.nanos < 1_000_000_000 ==> (t.valid() <==> FIRST_SECOND <= t.secs <= LAST_SECOND),
        1_000_000_000 <= t.nanos < 2_000_000_000 ==> (t.valid() <==> FIRST_SECOND <= t.secs
            <= LAST_SECOND && t.secs as int % 60 == 59),
        t.nanos >= 2_000_000_000 ==> !t.valid(),
{
}

/// Outside of leap seconds, the time between two points is what their seconds
/// and nanoseconds differ by; and it is as long one way as the other.
pub proof fn law_time_between(from: UtcInstant, to: UtcInstant)
    ensures
        from.nanos < 1_000_000_000 && to.nanos < 1_000_000_000 ==> nanos_between(from, to) == (
        to.secs - from.secs) * 1_000_000_000 + to.nanos - from.nanos,
        nanos_between(to, from) == -nanos_between(from, to),
        nanos_between(from, to) >= 0 ==> millis_between(from, to) == nanos_between(from, to)
            / 1_000_000,
        millis_between(to, from) == -millis_between(from, to),
{
}

/// A leap second counts as a second of its own: from within it to a later time
/// of the day takes what is left of it and no more.
pub proof fn law_leap_second_counts(from: UtcInstant, to: UtcInstant)
    requires
        from.nanos >= 1_000_000_000,
        to.nanos < 1_000_000_000,
        from.secs as int / 86_400 == to.secs as int / 86_400,
        from.secs < to.secs,
    ensures
        nanos_between(from, to) == (to.secs - from.secs - 1) * 1_000_000_000 + to.nanos + (
        2_000_000_000 - from.nanos),
{
}

// ---------------------------------------------------------------------------
// Retry-After
// ---------------------------------------------------------------------------

/// White space around a value makes no difference.
pub proof fn law_white_space_around_a_value(
    front: Seq<char>,
    value: Seq<char>,
    back: Seq<char>,
    date: Option<UtcInstant>,
    now: UtcInstant,
)
    requires
        forall|i: int| 0 <= i < front.len() ==> white_space(#[trigger] front[i]),
        forall|i: int| 0 <= i < back.len() ==> white_space(#[trigger] back[i]),
        value.len() > 0 ==> !white_space(value[0]) && !white_space(value.last()),
    ensures
        retry_delay(front + value + back, date, now) == retry_delay(value, date, now),
{
    law_trimming(front, value, back);
    let none = Seq::<char>::empty();
    law_trimming(none, value, none);
    assert(none + value + none =~= value);
}

/// How a value is read: as a number of seconds, told in milliseconds as far as
/// the numbers go; else by what stands before its first dot, in the same way;
/// else as a date, which gives the time until then.
pub proof fn law_reading_a_value(value: Seq<char>, date: Option<UtcInstant>, now: UtcInstant)
    requires
        trimmed(value) == value,
        value.len() > 0,
    ensures
        natural(value, u64::MAX as nat) matches Some(n) ==> retry_delay(value, date, now) == Some(
            if n * 1000 <= u64::MAX {
                (n * 1000) as u64
            } else {
                u64::MAX
            },
        ),
        natural(value, u64::MAX as nat) is None ==> (natural(
            before(value, '.'),
            u64::MAX as nat,
        ) matches Some(n) ==> retry_delay(value, date, now) == Some(
            if n * 1000 <= u64::MAX {
                (n * 1000) as u64
            } else {
                u64::MAX
            },
        )),
        natural(value, u64::MAX as nat) is None && natural(
            before(value, '.'),
            u64::MAX as nat,
        ) is None ==> (match date {
            Some(d) => retry_delay(value, date, now) == Some(delay_until_date(d, now)),
            None => retry_delay(value, date, now) is None,
        }),
{
}

/// The delay until a date to come is the time until then, in milliseconds; a
/// date that has passed gives none.
pub proof fn law_delay_until_a_date(date: UtcInstant, now: UtcInstant)
    requires
        date.valid(),
        now.valid(),
        date.nanos < 1_000_000_000,
        now.nanos < 1_000_000_000,
    ensures
        ({
            let nanos = (date.secs - now.secs) * 1_000_000_000 + date.nanos - now.nanos;
            &&& nanos >= 0 ==> delay_until_date(date, now) == nanos / 1_000_000
            &&& nanos <= 0 ==> delay_until_date(date, now) == 0
        }),
{
}

/// A date is read in the format of HTTP, else in that of RFC 850, else in that
/// of C, and what was read is the point in time.
pub proof fn law_date_formats(value: Seq<char>)
    ensures
        parsed_date_time(value, "%a, %d %b %Y %H:%M:%S GMT"@) matches Some((secs, nanos))
            ==> http_date(value) == Some(UtcInstant { secs, nanos }),
        parsed_date_time(value, "%a, %d %b %Y %H:%M:%S GMT"@) is None ==> (parsed_date_time(
            value,
            "%A, %d-%b-%y %H:%M:%S GMT"@,
        ) matches Some((secs, nanos)) ==> http_date(value) == Some(UtcInstant { secs, nanos })),
        parsed_date_time(value, "%a, %d %b %Y %H:%M:%S GMT"@) is None && parsed_date_time(
            value,
            "%A, %d-%b-%y %H:%M:%S GMT"@,
        ) is None ==> http_date(value) == instant(
            parsed_date_time(value, "%a %b %e %H:%M:%S %Y"@),
        ),
{
}

/// What was read of a date is the point in time.
pub proof fn law_instant(secs: i64, nanos: u32)
    ensures
        instant(Some((secs, nanos))) == Some(UtcInstant { secs, nanos }),
        instant(None) is None,
{
}

} // verus!
