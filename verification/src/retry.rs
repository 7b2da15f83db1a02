//! Exponential backoff and `Retry-After` parsing for HTTP retry loops.
use std::time::Duration;

use chrono::{DateTime, NaiveDateTime, Utc};
use vstd::arithmetic::power2::pow2;
use vstd::prelude::*;

use crate::graph::duration_of_millis;
use crate::number::{
    decimal, digit, lemma_decimal_reads_back, natural, numeral, parse_u64, saturating_mul,
    saturating_product,
};
use crate::rounding::{
    lemma_rounded_keeps_order, lemma_rounded_near, lemma_rounded_scales, lemma_rounded_small,
    round, rounded,
};
use crate::scan::{before, lemma_cut_joined, trim, trimmed, up_to};
use crate::text::white_space;

verus! {

// ---------------------------------------------------------------------------
// Backoff
// ---------------------------------------------------------------------------

/// How often the base delay is taken for an attempt, counted from zero: twice
/// as often each time, as far as the numbers go.
pub open spec fn multiplier(attempt: u32) -> u64 {
    if attempt < 64 {
        pow2(attempt as nat) as u64
    } else {
        u64::MAX
    }
}

/// The delay for an attempt, before jitter and cap.
pub open spec fn base_delay(attempt: u32, base_delay_ms: u64) -> u64 {
    saturating_product(base_delay_ms, multiplier(attempt))
}

/// The jitter factor for a random number, in units of 2^-54: three quarters,
/// and the 53 high bits of the random number as a fraction of a half, rounded
/// to double precision.
pub open spec fn jitter_factor(random: u64) -> nat {
    rounded((0x30_0000_0000_0000 + random / 0x800) as nat)
}

/// A delay with jitter: the delay times the factor, in double precision, cut to
/// whole milliseconds, as far as the numbers go. No delay gets no jitter.
pub open spec fn jittered(delay_ms: u64, random: u64) -> u64 {
    if delay_ms == 0 {
        0
    } else {
        let product = rounded(rounded(delay_ms as nat) * jitter_factor(random));
        let whole = product / 0x40_0000_0000_0000;
        if whole <= u64::MAX {
            whole as u64
        } else {
            u64::MAX
        }
    }
}

/// The delay for an attempt: with jitter, and then at most the cap.
pub open spec fn backoff(attempt: u32, base_delay_ms: u64, max_delay_ms: u64, random: u64) -> u64 {
    let delay = jittered(base_delay(attempt, base_delay_ms), random);
    if delay < max_delay_ms {
        delay
    } else {
        max_delay_ms
    }
}

fn power(attempt: u32) -> (r: u64)
    ensures
        r == multiplier(attempt),
{
    if attempt < 64 {
        proof {
            vstd::bits::lemma_u64_pow2_no_overflow(attempt as nat);
            vstd::bits::lemma_u64_shl_is_mul(1, attempt as u64);
        }
        1u64 << (attempt as u64)
    } else {
        u64::MAX
    }
}

/// How large the numbers get that jitter is made of.
proof fn lemma_jitter_sizes(delay_ms: u64, random: u64)
    ensures
        0x30_0000_0000_0000 <= jitter_factor(random) <= 0x50_0000_0000_0000,
        rounded(delay_ms as nat) <= 0x1_0000_0000_0000_0000,
        rounded(delay_ms as nat) * jitter_factor(random) <= 0x1_0000_0000_0000_0000
            * 0x50_0000_0000_0000,
{
    vstd::arithmetic::power2::lemma2_to64();
    vstd::arithmetic::power2::lemma2_to64_rest();
    let raw = (0x30_0000_0000_0000 + random / 0x800) as nat;
    lemma_rounded_scales(3, 52);
    lemma_rounded_scales(5, 52);
    lemma_rounded_scales(1, 64);
    lemma_rounded_small(1);
    lemma_rounded_small(3);
    lemma_rounded_small(5);
    lemma_rounded_keeps_order(0x30_0000_0000_0000, raw);
    lemma_rounded_keeps_order(raw, 0x50_0000_0000_0000);
    lemma_rounded_keeps_order(delay_ms as nat, 0x1_0000_0000_0000_0000);
    let (d, f) = (rounded(delay_ms as nat) as int, jitter_factor(random) as int);
    assert(d * f <= 0x1_0000_0000_0000_0000 * 0x50_0000_0000_0000) by (nonlinear_arith)
        requires
            0 <= d <= 0x1_0000_0000_0000_0000,
            0 <= f <= 0x50_0000_0000_0000,
    ;
}

/// A delay with a quarter of jitter either way, so that callers that fail
/// together do not retry together.
pub fn apply_jitter(delay_ms: u64, random: u64) -> (r: u64)
    ensures
        r == jittered(delay_ms, random),
{
    if delay_ms == 0 {
        return 0;
    }
    proof {
        lemma_jitter_sizes(delay_ms, random);
    }
    let factor: u128 = round(0x30_0000_0000_0000u128 + (random / 0x800) as u128);
    let product: u128 = round(round(delay_ms as u128) * factor);
    let whole: u128 = product / 0x40_0000_0000_0000u128;
    if whole <= u64::MAX as u128 {
        whole as u64
    } else {
        u64::MAX
    }
}

/// The delay in milliseconds for an attempt, by the given random number.
pub fn backoff_ms(attempt: u32, base_delay_ms: u64, max_delay_ms: u64, random: u64) -> (r: u64)
    ensures
        r == backoff(attempt, base_delay_ms, max_delay_ms, random),
{
    let base = saturating_mul(base_delay_ms, power(attempt));
    let delay = apply_jitter(base, random);
    if delay < max_delay_ms {
        delay
    } else {
        max_delay_ms
    }
}

/// Trusted: draws a number through `rand::random`, from all 64-bit numbers.
/// Which one is left to chance, so nothing is stated of it.
#[verifier::external_body]
fn random_number() -> (r: u64) {
    rand::random::<u64>()
}

/// Exponential backoff with jitter, bounded by `max_delay_ms`. `attempt` is
/// counted from zero, the first retry. Jitter comes before the cap, so the
/// delay is never longer than `max_delay_ms`.
pub fn compute_backoff(attempt: u32, base_delay_ms: u64, max_delay_ms: u64) -> (r: Duration)
    ensures
        exists|random: u64|
            r == duration_of_millis(
                #[trigger] backoff(attempt, base_delay_ms, max_delay_ms, random),
            ),
{
    let random = random_number();
    Duration::from_millis(backoff_ms(attempt, base_delay_ms, max_delay_ms, random))
}

/// Each attempt waits twice as long as the one before it, jitter and cap
/// aside.
pub proof fn law_delay_doubles(attempt: u32, base_delay_ms: u64)
    requires
        attempt < 63,
        base_delay_ms * pow2((attempt + 1) as nat) <= u64::MAX,
    ensures
        base_delay((attempt + 1) as u32, base_delay_ms) == 2 * base_delay(attempt, base_delay_ms),
        base_delay(0, base_delay_ms) == base_delay_ms,
{
    vstd::bits::lemma_u64_pow2_no_overflow(attempt as nat);
    vstd::bits::lemma_u64_pow2_no_overflow((attempt + 1) as nat);
    vstd::arithmetic::power2::lemma_pow2_unfold((attempt + 1) as nat);
    vstd::arithmetic::power2::lemma2_to64();
    let p = pow2(attempt as nat) as int;
    let b = base_delay_ms as int;
    assert(b * (2 * p) == 2 * (b * p)) by (nonlinear_arith);
    assert(0 <= b * p) by (nonlinear_arith)
        requires
            0 <= b,
            0 <= p,
    ;
    assert(multiplier(0) == 1);
    assert(b * 1 == b);
}

/// A larger draw never gives a shorter delay, so the lowest and the highest
/// draw bound it.
pub proof fn law_jitter_grows_with_the_draw(delay_ms: u64, random: u64, higher: u64)
    requires
        random <= higher,
    ensures
        jittered(delay_ms, random) <= jittered(delay_ms, higher),
{
    let d = rounded(delay_ms as nat) as int;
    let (f, g) = (jitter_factor(random) as int, jitter_factor(higher) as int);
    lemma_rounded_keeps_order(
        (0x30_0000_0000_0000 + random / 0x800) as nat,
        (0x30_0000_0000_0000 + higher / 0x800) as nat,
    );
    assert(d * f <= d * g) by (nonlinear_arith)
        requires
            0 <= d,
            f <= g,
    ;
    lemma_rounded_keeps_order((d * f) as nat, (d * g) as nat);
}

/// Jitter changes a delay by at most a quarter, either way, where a double
/// holds the delay, three times the delay and five times the delay exactly, as
/// it does up to 2^53 / 5 milliseconds.
pub proof fn law_jitter_within_a_quarter(delay_ms: u64, random: u64)
    requires
        rounded(delay_ms as nat) == delay_ms,
        rounded((3 * delay_ms) as nat) == 3 * delay_ms,
        rounded((5 * delay_ms) as nat) == 5 * delay_ms,
    ensures
        4 * jittered(delay_ms, random) <= 5 * delay_ms,
        jittered(delay_ms, random) >= 3 * delay_ms / 4,
{
    vstd::arithmetic::power2::lemma2_to64();
    vstd::arithmetic::power2::lemma2_to64_rest();
    lemma_jitter_sizes(delay_ms, random);
    let d = delay_ms as int;
    let f = jitter_factor(random) as int;
    assert(3 * d * 0x10_0000_0000_0000 <= d * f <= 5 * d * 0x10_0000_0000_0000) by (nonlinear_arith)
        requires
            0 <= d,
            0x30_0000_0000_0000 <= f <= 0x50_0000_0000_0000,
    ;
    lemma_rounded_scales((3 * d) as nat, 52);
    lemma_rounded_scales((5 * d) as nat, 52);
    lemma_rounded_keeps_order((3 * d * 0x10_0000_0000_0000) as nat, (d * f) as nat);
    lemma_rounded_keeps_order((d * f) as nat, (5 * d * 0x10_0000_0000_0000) as nat);
}

/// Jitter changes any delay by at most a quarter, either way, but for one part
/// in 2^48 and the fraction of a millisecond that is cut off.
pub proof fn law_jitter_near_a_quarter(delay_ms: u64, random: u64)
    ensures
        4 * jittered(delay_ms, random) <= 5 * delay_ms + delay_ms / 0x1_0000_0000_0000,
        jittered(delay_ms, random) < u64::MAX ==> 4 * jittered(delay_ms, random) + 4 + delay_ms
            / 0x1_0000_0000_0000 >= 3 * delay_ms,
{
    lemma_jitter_sizes(delay_ms, random);
    let x = delay_ms as nat;
    if 5 * x <= 0x20_0000_0000_0000 {
        lemma_rounded_small(x);
        lemma_rounded_small((3 * x) as nat);
        lemma_rounded_small((5 * x) as nat);
        law_jitter_within_a_quarter(delay_ms, random);
    } else {
        let d = rounded(x) as int;
        let f = jitter_factor(random) as int;
        lemma_rounded_near(x);
        assert(3 * d * 0x10_0000_0000_0000 <= d * f <= 5 * d * 0x10_0000_0000_0000)
            by (nonlinear_arith)
            requires
                0 <= d,
                0x30_0000_0000_0000 <= f <= 0x50_0000_0000_0000,
        ;
        lemma_rounded_near((d * f) as nat);
    }
}

/// No delay is longer than the cap.
pub proof fn law_backoff_is_capped(
    attempt: u32,
    base_delay_ms: u64,
    max_delay_ms: u64,
    random: u64,
)
    ensures
        backoff(attempt, base_delay_ms, max_delay_ms, random) <= max_delay_ms,
{
}

/// Once the lowest draw reaches the cap, the delay is the cap, whatever chance
/// says.
pub proof fn law_backoff_reaches_the_cap(
    attempt: u32,
    base_delay_ms: u64,
    max_delay_ms: u64,
    random: u64,
)
    requires
        jittered(base_delay(attempt, base_delay_ms), 0) >= max_delay_ms,
    ensures
        backoff(attempt, base_delay_ms, max_delay_ms, random) == max_delay_ms,
{
    law_jitter_grows_with_the_draw(base_delay(attempt, base_delay_ms), 0, random);
}

/// The lowest draw leaves three quarters of a delay, and so reaches every cap
/// up to that, where a double holds the delay and three times the delay
/// exactly.
pub proof fn law_lowest_draw_leaves_three_quarters(delay_ms: u64)
    requires
        rounded(delay_ms as nat) == delay_ms,
        rounded((3 * delay_ms) as nat) == 3 * delay_ms,
    ensures
        jittered(delay_ms, 0) == 3 * delay_ms / 4,
{
    vstd::arithmetic::power2::lemma2_to64();
    vstd::arithmetic::power2::lemma2_to64_rest();
    lemma_rounded_small(3);
    lemma_rounded_scales(3, 52);
    lemma_rounded_scales((3 * delay_ms) as nat, 52);
    let d = delay_ms as int;
    assert(d * 0x30_0000_0000_0000 == 3 * d * 0x10_0000_0000_0000);
}

// ---------------------------------------------------------------------------
// Instants
// ---------------------------------------------------------------------------

/// A point in time, in UTC: seconds since the Unix epoch and nanoseconds
/// within the second. During a leap second the nanoseconds go on past a whole
/// second.
#[derive(Debug, Clone, Copy, PartialEq, Eq, Structural)]
pub struct UtcInstant {
    pub secs: i64,
    pub nanos: u32,
}

/// The first second of the years that can be told.
pub const FIRST_SECOND: i64 = -8_334_601_228_800;

/// The last second of the years that can be told.
pub const LAST_SECOND: i64 = 8_210_266_876_799;

impl UtcInstant {
    /// Whether this is a point in time: in the years from -262143 to 262142,
    /// and with more than a second of nanoseconds only at the end of a minute.
    pub open spec fn valid(self) -> bool {
        &&& FIRST_SECOND <= self.secs <= LAST_SECOND
        &&& self.nanos < 2_000_000_000
        &&& self.nanos >= 1_000_000_000 ==> self.secs as int % 60 == 59
    }

    /// The point in time with these parts, if there is one.
    pub fn new(secs: i64, nanos: u32) -> (r: Option<UtcInstant>)
        ensures
            match r {
                Some(t) => t == (UtcInstant { secs, nanos }) && t.valid(),
                None => !(UtcInstant { secs, nanos }).valid(),
            },
    {
        if secs < FIRST_SECOND || secs > LAST_SECOND || nanos >= 2_000_000_000 {
            return None;
        }
        // Shifted by a whole number of minutes, so that the remainder counts
        // up from the start of the minute before the epoch too.
        if nanos >= 1_000_000_000 && (secs + 8_334_601_228_800) % 60 != 59 {
            return None;
        }
        Some(UtcInstant { secs, nanos })
    }

    /// The point in time now. The clock does not tell leap seconds.
    pub fn now() -> (r: UtcInstant)
        ensures
            r.valid(),
            r.nanos < 1_000_000_000,
    {
        let (secs, nanos) = utc_now();
        UtcInstant { secs, nanos }
    }

    /// The second of the day.
    pub open spec fn second_of_day(self) -> int {
        self.secs as int % 86_400
    }
}

/// Trusted: reads the clock through `chrono::Utc::now`, as seconds and
/// nanoseconds (`timestamp`, `timestamp_subsec_nanos`). What it shows is a
/// point in time that chrono can tell, and never one in a leap second: the
/// nanoseconds are a part of a second. Which one it is rests on the clock and is
/// not stated. `Utc::now` panics where the clock stands before the Unix epoch.
#[verifier::external_body]
fn utc_now() -> (r: (i64, u32))
    ensures
        (UtcInstant { secs: r.0, nanos: r.1 }).valid(),
        r.1 < 1_000_000_000,
{
    let now = Utc::now();
    (now.timestamp(), now.timestamp_subsec_nanos())
}

/// The leap second between two times of day, where one of them lies in a leap
/// second: one more second from a leap second to a later time of the day.
pub open spec fn leap_between(from: UtcInstant, to: UtcInstant) -> int {
    if to.second_of_day() > from.second_of_day() && from.nanos >= 1_000_000_000 {
        1
    } else if to.second_of_day() < from.second_of_day() && to.nanos >= 1_000_000_000 {
        -1
    } else {
        0
    }
}

/// The nanoseconds from one point in time to another.
pub open spec fn nanos_between(from: UtcInstant, to: UtcInstant) -> int {
    (to.secs - from.secs + leap_between(from, to)) * 1_000_000_000 + (to.nanos - from.nanos)
}

/// The whole milliseconds from one point in time to another, rounded toward
/// zero.
pub open spec fn millis_between(from: UtcInstant, to: UtcInstant) -> int {
    let nanos = nanos_between(from, to);
    if nanos >= 0 {
        nanos / 1_000_000
    } else {
        -((-nanos) / 1_000_000)
    }
}

/// Trusted: chrono's `DateTime::signed_duration_since`, as whole milliseconds
/// (`TimeDelta::num_milliseconds`). It counts whole days and the difference of
/// the two times of day, a leap second included as `leap_between` says, and
/// rounds toward zero. The two points in time are handed over through
/// `DateTime::from_timestamp`, which takes each that is valid.
#[verifier::external_body]
fn millis_since(to: UtcInstant, from: UtcInstant) -> (r: i64)
    requires
        to.valid(),
        from.valid(),
    ensures
        r == millis_between(from, to),
{
    let to = DateTime::<Utc>::from_timestamp(to.secs, to.nanos).unwrap();
    let from = DateTime::<Utc>::from_timestamp(from.secs, from.nanos).unwrap();
    to.signed_duration_since(from).num_milliseconds()
}

// ---------------------------------------------------------------------------
// Retry-After
// ---------------------------------------------------------------------------

/// What `chrono::NaiveDateTime::parse_from_str` makes of a text by a format:
/// the seconds since the Unix epoch and the nanoseconds, where the text has
/// that format and names a point in time.
pub uninterp spec fn parsed_date_time(text: Seq<char>, format: Seq<char>) -> Option<(i64, u32)>;

/// Trusted: `chrono::NaiveDateTime::parse_from_str`, with the date and time
/// that it reads taken as UTC (`and_utc`) and told as seconds and nanoseconds
/// (`timestamp`, `timestamp_subsec_nanos`). The result depends on the text and
/// the format alone, and where there is one it is a point in time that chrono
/// can tell. How the text is read is not stated.
#[verifier::external_body]
fn parse_date_time(text: &str, format: &str) -> (r: Option<(i64, u32)>)
    ensures
        r == parsed_date_time(text@, format@),
        r matches Some((secs, nanos)) ==> (UtcInstant { secs, nanos }).valid(),
{
    NaiveDateTime::parse_from_str(text, format).ok().map(
        |date| (date.and_utc().timestamp(), date.and_utc().timestamp_subsec_nanos()),
    )
}

/// The point in time for what was read of a date.
pub open spec fn instant(read: Option<(i64, u32)>) -> Option<UtcInstant> {
    match read {
        Some((secs, nanos)) => Some(UtcInstant { secs, nanos }),
        None => None,
    }
}

/// The date in a `Retry-After` value, in one of the three formats that HTTP
/// allows; the first that fits counts.
pub open spec fn http_date(value: Seq<char>) -> Option<UtcInstant> {
    let fixed = parsed_date_time(value, "%a, %d %b %Y %H:%M:%S GMT"@);
    let obsolete = parsed_date_time(value, "%A, %d-%b-%y %H:%M:%S GMT"@);
    if fixed is Some {
        instant(fixed)
    } else if obsolete is Some {
        instant(obsolete)
    } else {
        instant(parsed_date_time(value, "%a %b %e %H:%M:%S %Y"@))
    }
}

/// Reads an HTTP date.
pub fn parse_retry_after_http_date(value: &str) -> (r: Option<UtcInstant>)
    ensures
        r == http_date(value@),
        r matches Some(date) ==> date.valid(),
{
    if let Some((secs, nanos)) = parse_date_time(value, "%a, %d %b %Y %H:%M:%S GMT") {
        return Some(UtcInstant { secs, nanos });
    }
    if let Some((secs, nanos)) = parse_date_time(value, "%A, %d-%b-%y %H:%M:%S GMT") {
        return Some(UtcInstant { secs, nanos });
    }
    match parse_date_time(value, "%a %b %e %H:%M:%S %Y") {
        Some((secs, nanos)) => Some(UtcInstant { secs, nanos }),
        None => None,
    }
}

/// The delay until a date: none where the date has passed.
pub open spec fn delay_until_date(date: UtcInstant, now: UtcInstant) -> u64 {
    let millis = millis_between(now, date);
    if millis <= 0 {
        0
    } else {
        millis as u64
    }
}

/// The delay in milliseconds from now until a date.
pub fn delay_until(date: UtcInstant, now: UtcInstant) -> (r: u64)
    requires
        date.valid(),
        now.valid(),
    ensures
        r == delay_until_date(date, now),
{
    let millis = millis_since(date, now);
    if millis <= 0 {
        0
    } else {
        millis as u64
    }
}

/// The delay that a trimmed `Retry-After` value gives in seconds: a whole
/// number, or what stands before the first dot.
pub open spec fn delay_in_seconds(value: Seq<char>) -> Option<u64> {
    match natural(value, u64::MAX as nat) {
        Some(seconds) => Some(saturating_product(seconds as u64, 1_000)),
        None => match natural(before(value, '.'), u64::MAX as nat) {
            Some(seconds) => Some(saturating_product(seconds as u64, 1_000)),
            None => None,
        },
    }
}

fn parse_seconds(value: &str) -> (r: Option<u64>)
    ensures
        r == delay_in_seconds(value@),
{
    if let Some(seconds) = parse_u64(value) {
        return Some(saturating_mul(seconds, 1_000));
    }
    match parse_u64(up_to(value, '.')) {
        Some(seconds) => Some(saturating_mul(seconds, 1_000)),
        None => None,
    }
}

/// The delay that a `Retry-After` value asks for. `date` is the date that the
/// value names, without the white space around it, where it names one.
pub open spec fn retry_delay(
    value: Seq<char>,
    date: Option<UtcInstant>,
    now: UtcInstant,
) -> Option<u64> {
    let value = trimmed(value);
    if value.len() == 0 {
        None
    } else if delay_in_seconds(value) is Some {
        delay_in_seconds(value)
    } else {
        match date {
            Some(date) => Some(delay_until_date(date, now)),
            None => None,
        }
    }
}

/// The delay that a `Retry-After` value asks for, where it names the given
/// date or none.
pub fn retry_after_with_date(value: &str, date: Option<UtcInstant>, now: UtcInstant) -> (r: Option<
    u64,
>)
    requires
        date matches Some(d) ==> d.valid(),
        now.valid(),
    ensures
        r == retry_delay(value@, date, now),
{
    let value = trim(value);
    if value.is_empty() {
        return None;
    }
    if let Some(delay) = parse_seconds(value) {
        return Some(delay);
    }
    match date {
        Some(date) => Some(delay_until(date, now)),
        None => None,
    }
}

/// Parses a `Retry-After` header value into a delay in milliseconds, as of the
/// given time: integer seconds, decimal seconds, truncated to whole ones, and
/// HTTP dates.
pub fn parse_retry_after_ms_at(value: &str, now: UtcInstant) -> (r: Option<u64>)
    requires
        now.valid(),
    ensures
        r == retry_delay(value@, http_date(trimmed(value@)), now),
{
    let date = parse_retry_after_http_date(trim(value));
    retry_after_with_date(value, date, now)
}

/// Parses a `Retry-After` header value into a delay in milliseconds from now.
pub fn parse_retry_after_ms(value: &str) -> (r: Option<u64>)
    ensures
        exists|now: UtcInstant|
            now.valid() && now.nanos < 1_000_000_000 && r == #[trigger] retry_delay(
                value@,
                http_date(trimmed(value@)),
                now,
            ),
{
    let now = UtcInstant::now();
    parse_retry_after_ms_at(value, now)
}

/// Whether a response with this status is worth a retry: the rate limit and
/// every server error.
pub fn is_retryable_status(status: u16) -> (r: bool)
    ensures
        r == (status == 429 || 500 <= status < 600),
{
    status == 429 || (500 <= status && status < 600)
}

/// A whole number of seconds gives that many seconds, whatever the time.
pub proof fn law_whole_seconds(seconds: u64, date: Option<UtcInstant>, now: UtcInstant)
    ensures
        retry_delay(decimal(seconds as nat), date, now) == Some(
            saturating_product(seconds, 1_000),
        ),
{
    lemma_decimal_reads_back(seconds as nat);
    lemma_numeral_trimmed(decimal(seconds as nat));
}

/// Decimal seconds give the whole seconds, whatever follows the dot and
/// whatever the time.
pub proof fn law_decimal_seconds(
    seconds: u64,
    fraction: Seq<char>,
    date: Option<UtcInstant>,
    now: UtcInstant,
)
    requires
        fraction.len() > 0 ==> !white_space(fraction.last()),
    ensures
        retry_delay(decimal(seconds as nat) + seq!['.'] + fraction, date, now) == Some(
            saturating_product(seconds, 1_000),
        ),
{
    let whole = decimal(seconds as nat);
    let value = whole + seq!['.'] + fraction;
    lemma_decimal_reads_back(seconds as nat);
    assert(!whole.contains('.')) by {
        if whole.contains('.') {
            let k = choose|k: int| 0 <= k < whole.len() && whole[k] == '.';
            assert(digit(whole[k]));
        }
    }
    lemma_cut_joined(whole, '.', fraction);
    assert(value[0] == whole[0]);
    assert(fraction.len() == 0 ==> value.last() == '.');
    assert(fraction.len() > 0 ==> value.last() == fraction.last());
    assert(trimmed(value) == value);
    assert(value[whole.len() as int] == '.');
    assert(value.skip(1)[whole.len() - 1] == '.');
    assert(natural(value, u64::MAX as nat) is None);
}

proof fn lemma_numeral_trimmed(s: Seq<char>)
    requires
        numeral(s),
    ensures
        trimmed(s) == s,
{
    assert(digit(s[0]));
    assert(digit(s[s.len() - 1]));
}

/// A blank value gives no delay.
pub proof fn law_blank_value_gives_no_delay(
    value: Seq<char>,
    date: Option<UtcInstant>,
    now: UtcInstant,
)
    requires
        forall|i: int| 0 <= i < value.len() ==> white_space(#[trigger] value[i]),
    ensures
        retry_delay(value, date, now) is None,
    decreases value.len(),
{
    if value.len() > 0 {
        let rest = value.skip(1);
        assert forall|i: int| 0 <= i < rest.len() implies white_space(#[trigger] rest[i]) by {
            assert(rest[i] == value[i + 1]);
        }
        law_blank_value_gives_no_delay(rest, date, now);
        assert(white_space(value[0]));
    }
}

/// A date that has passed gives no wait. Dates are told to the second, so they
/// have no nanoseconds past a whole second.
pub proof fn law_past_date_gives_zero(date: UtcInstant, now: UtcInstant)
    requires
        date.valid(),
        now.valid(),
        date.nanos <= 1_000_000_000,
        date.secs < now.secs || (date.secs == now.secs && date.nanos <= now.nanos),
    ensures
        delay_until_date(date, now) == 0,
{
}

} // verus!
