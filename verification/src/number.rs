//! Decimal numbers in text: reading them and writing them.
use vstd::prelude::*;

use crate::text::chars_of;

verus! {

/// Whether `c` is one of the ten ASCII digits.
pub open spec fn digit(c: char) -> bool {
    '0' <= c <= '9'
}

/// The value of an ASCII digit.
pub open spec fn digit_value(c: char) -> nat {
    (c as int - '0' as int) as nat
}

/// Whether a text is a non-empty run of ASCII digits.
pub open spec fn numeral(s: Seq<char>) -> bool {
    s.len() > 0 && forall|i: int| 0 <= i < s.len() ==> digit(#[trigger] s[i])
}

/// The value of a run of digits in base ten.
pub open spec fn decimal_value(s: Seq<char>) -> nat
    decreases s.len(),
{
    if s.len() == 0 {
        0
    } else {
        decimal_value(s.drop_last()) * 10 + digit_value(s.last())
    }
}

/// What a text says as an unsigned number that is at most `max`: an optional
/// `+` and then digits. Nothing for any other text, nor where the value is
/// larger.
pub open spec fn natural(s: Seq<char>, max: nat) -> Option<nat> {
    let body = if s.len() > 0 && s[0] == '+' {
        s.skip(1)
    } else {
        s
    };
    if numeral(body) && decimal_value(body) <= max {
        Some(decimal_value(body))
    } else {
        None
    }
}

/// What a text says as a signed 64-bit number: an optional `+` or `-` and
/// then digits, with a value in range.
pub open spec fn integer(s: Seq<char>) -> Option<int> {
    if s.len() > 0 && s[0] == '-' {
        let body = s.skip(1);
        if numeral(body) && -decimal_value(body) >= i64::MIN {
            Some(-decimal_value(body))
        } else {
            None
        }
    } else {
        match natural(s, i64::MAX as nat) {
            Some(n) => Some(n as int),
            None => None,
        }
    }
}

/// A number written in base ten, without leading zeros.
pub open spec fn decimal(n: nat) -> Seq<char>
    decreases n,
{
    let last = ('0' as u32 + n % 10) as char;
    if n < 10 {
        seq![last]
    } else {
        decimal(n / 10).push(last)
    }
}

/// Dropping digits from the end never makes the value larger.
proof fn lemma_value_of_prefix(s: Seq<char>, k: int)
    requires
        0 <= k <= s.len(),
    ensures
        decimal_value(s.take(k)) <= decimal_value(s),
    decreases s.len() - k,
{
    if k < s.len() {
        lemma_value_of_prefix(s, k + 1);
        assert(s.take(k + 1).drop_last() =~= s.take(k));
    } else {
        assert(s.take(k) =~= s);
    }
}

/// Reads `v[from..]` as digits with a value of at most `max`.
fn read_digits(v: &Vec<char>, from: usize, max: u64) -> (r: Option<u64>)
    requires
        from <= v@.len(),
    ensures
        match r {
            Some(n) => {
                &&& numeral(v@.skip(from as int))
                &&& decimal_value(v@.skip(from as int)) == n
                &&& n <= max
            },
            None => !(numeral(v@.skip(from as int)) && decimal_value(v@.skip(from as int)) <= max),
        },
{
    let ghost s = v@.skip(from as int);
    if from == v.len() {
        return None;
    }
    let mut value: u64 = 0;
    let mut i: usize = from;
    while i < v.len()
        invariant
            from <= i <= v@.len(),
            from < v@.len(),
            s == v@.skip(from as int),
            forall|k: int| 0 <= k < i - from ==> digit(#[trigger] s[k]),
            value == decimal_value(s.take(i - from)),
            value <= max,
        decreases v@.len() - i,
    {
        let c = v[i];
        assert(c == s[i - from]);
        if !('0' <= c && c <= '9') {
            return None;
        }
        let d: u64 = (c as u32 - '0' as u32) as u64;
        assert(s.take(i - from + 1).drop_last() =~= s.take(i - from));
        proof {
            lemma_value_of_prefix(s, i - from + 1);
        }
        let wide: u128 = (value as u128) * 10 + (d as u128);
        if wide > max as u128 {
            return None;
        }
        value = wide as u64;
        i = i + 1;
    }
    assert(s.take(i - from) =~= s);
    Some(value)
}

/// Reads an unsigned number that is at most `max`.
fn parse_natural(s: &str, max: u64) -> (r: Option<u64>)
    ensures
        match r {
            Some(n) => natural(s@, max as nat) == Some(n as nat),
            None => natural(s@, max as nat) is None,
        },
{
    let v = chars_of(s);
    let signed = v.len() > 0 && v[0] == '+';
    let from: usize = if signed {
        1
    } else {
        0
    };
    assert(v@.skip(0) =~= v@);
    read_digits(&v, from, max)
}

pub fn parse_u64(s: &str) -> (r: Option<u64>)
    ensures
        match r {
            Some(n) => natural(s@, u64::MAX as nat) == Some(n as nat),
            None => natural(s@, u64::MAX as nat) is None,
        },
{
    parse_natural(s, u64::MAX)
}

pub fn parse_usize(s: &str) -> (r: Option<usize>)
    ensures
        match r {
            Some(n) => natural(s@, usize::MAX as nat) == Some(n as nat),
            None => natural(s@, usize::MAX as nat) is None,
        },
{
    match parse_natural(s, usize::MAX as u64) {
        Some(n) => Some(n as usize),
        None => None,
    }
}

pub fn parse_i64(s: &str) -> (r: Option<i64>)
    ensures
        match r {
            Some(n) => integer(s@) == Some(n as int),
            None => integer(s@) is None,
        },
{
    let v = chars_of(s);
    if v.len() > 0 && v[0] == '-' {
        match read_digits(&v, 1, 0x8000_0000_0000_0000) {
            Some(n) => {
                if n == 0x8000_0000_0000_0000 {
                    Some(i64::MIN)
                } else {
                    Some(-(n as i64))
                }
            },
            None => None,
        }
    } else {
        match parse_natural(s, i64::MAX as u64) {
            Some(n) => Some(n as i64),
            None => None,
        }
    }
}

/// Writes a number in base ten.
pub fn to_decimal(n: u64) -> (r: String)
    ensures
        r@ == decimal(n as nat),
    decreases n,
{
    let last = ('0' as u8 + (n % 10) as u8) as char;
    let mut r = if n < 10 {
        String::new()
    } else {
        to_decimal(n / 10)
    };
    r.push(last);
    assert(n < 10 ==> r@ =~= decimal(n as nat));
    r
}

/// A number that is written in base ten reads as itself.
pub proof fn lemma_decimal_reads_back(n: nat)
    ensures
        numeral(decimal(n)),
        decimal_value(decimal(n)) == n,
        digit(decimal(n)[0]),
        forall|max: nat| n <= max ==> #[trigger] natural(decimal(n), max) == Some(n),
    decreases n,
{
    let s = decimal(n);
    let last = ('0' as u32 + n % 10) as char;
    assert(digit(last) && digit_value(last) == n % 10);
    if n < 10 {
        assert(s.drop_last() =~= Seq::empty());
        assert(decimal_value(s.drop_last()) == 0);
    } else {
        lemma_decimal_reads_back(n / 10);
        assert(s.drop_last() =~= decimal(n / 10));
        assert forall|i: int| 0 <= i < s.len() implies digit(#[trigger] s[i]) by {
            if i < s.len() - 1 {
                assert(s[i] == decimal(n / 10)[i]);
            }
        }
    }
    assert(digit(s[0]));
    assert(s[0] != '+');
}

/// A product that stays at `u64::MAX` where it would be larger.
pub open spec fn saturating_product(a: u64, b: u64) -> u64 {
    if a * b <= u64::MAX {
        (a * b) as u64
    } else {
        u64::MAX
    }
}

/// The product of two numbers, or `u64::MAX` where it would be larger.
pub fn saturating_mul(a: u64, b: u64) -> (r: u64)
    ensures
        r == saturating_product(a, b),
{
    match a.checked_mul(b) {
        Some(product) => product,
        None => u64::MAX,
    }
}

} // verus!
