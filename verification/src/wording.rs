//! What the operations on text and numbers come to: how each treats a text
//! that is put together from parts.
use vstd::arithmetic::power::pow;
use vstd::prelude::*;

use crate::number::{
    decimal, decimal_value, digit, integer, lemma_decimal_reads_back, natural, numeral,
    saturating_product,
};
use crate::scan::{
    before, cut, joined, lemma_cut, lemma_cut_joined, occurs, occurs_at, replaced, trim_end,
    trim_start, trimmed, views, without_leading, words,
};
use crate::text::{lowered, precedes, white_space};

verus! {

// ---------------------------------------------------------------------------
// Characters and case
// ---------------------------------------------------------------------------

/// Lower case changes the letters `A` to `Z`, each to its small letter, and no
/// other character.
pub proof fn law_lower_case(s: Seq<char>, i: int)
    requires
        0 <= i < s.len(),
    ensures
        lowered(s).len() == s.len(),
        'A' <= s[i] <= 'Z' ==> lowered(s)[i] as int == s[i] as int + 32,
        !('A' <= s[i] <= 'Z') ==> lowered(s)[i] == s[i],
{
}

/// The lower case of a text put together from two is that of both.
pub proof fn law_lower_case_of_parts(a: Seq<char>, b: Seq<char>)
    ensures
        lowered(a + b) == lowered(a) + lowered(b),
        lowered(lowered(a)) == lowered(a),
{
    assert(lowered(a + b) =~= lowered(a) + lowered(b));
    assert(lowered(lowered(a)) =~= lowered(a));
}

// ---------------------------------------------------------------------------
// Order
// ---------------------------------------------------------------------------

/// A text comes before every text that goes on after it.
pub proof fn law_prefix_comes_first(a: Seq<char>, more: Seq<char>)
    requires
        more.len() > 0,
    ensures
        precedes(a, a + more),
        !precedes(a + more, a),
    decreases a.len(),
{
    if a.len() > 0 {
        law_prefix_comes_first(a.skip(1), more);
        assert((a + more).skip(1) =~= a.skip(1) + more);
    }
}

/// The first place at which two texts differ decides, whatever follows it.
pub proof fn law_first_difference_decides(
    front: Seq<char>,
    a: char,
    b: char,
    rest_a: Seq<char>,
    rest_b: Seq<char>,
)
    requires
        a != b,
    ensures
        precedes(front + seq![a] + rest_a, front + seq![b] + rest_b) == (a < b),
    decreases front.len(),
{
    let x = front + seq![a] + rest_a;
    let y = front + seq![b] + rest_b;
    if front.len() > 0 {
        law_first_difference_decides(front.skip(1), a, b, rest_a, rest_b);
        assert(x.skip(1) =~= front.skip(1) + seq![a] + rest_a);
        assert(y.skip(1) =~= front.skip(1) + seq![b] + rest_b);
    }
}

// ---------------------------------------------------------------------------
// Trimming
// ---------------------------------------------------------------------------

proof fn lemma_trim_start_skips(front: Seq<char>, s: Seq<char>)
    requires
        forall|i: int| 0 <= i < front.len() ==> white_space(#[trigger] front[i]),
    ensures
        trim_start(front + s) == trim_start(s),
    decreases front.len(),
{
    if front.len() > 0 {
        let rest = front.skip(1);
        assert forall|i: int| 0 <= i < rest.len() implies white_space(#[trigger] rest[i]) by {
            assert(rest[i] == front[i + 1]);
        }
        lemma_trim_start_skips(rest, s);
        assert((front + s).skip(1) =~= rest + s);
        assert(white_space(front[0]));
        assert((front + s)[0] == front[0]);
    } else {
        assert(front + s =~= s);
    }
}

proof fn lemma_trim_end_skips(s: Seq<char>, back: Seq<char>)
    requires
        forall|i: int| 0 <= i < back.len() ==> white_space(#[trigger] back[i]),
    ensures
        trim_end(s + back) == trim_end(s),
    decreases back.len(),
{
    if back.len() > 0 {
        let rest = back.drop_last();
        assert forall|i: int| 0 <= i < rest.len() implies white_space(#[trigger] rest[i]) by {
            assert(rest[i] == back[i]);
        }
        lemma_trim_end_skips(s, rest);
        assert((s + back).drop_last() =~= s + rest);
        assert(white_space(back[back.len() - 1]));
        assert((s + back).last() == back[back.len() - 1]);
    } else {
        assert(s + back =~= s);
    }
}

/// Trimming takes off the white space around a text, and nothing of a text
/// that starts and ends otherwise.
pub proof fn law_trimming(front: Seq<char>, text: Seq<char>, back: Seq<char>)
    requires
        forall|i: int| 0 <= i < front.len() ==> white_space(#[trigger] front[i]),
        forall|i: int| 0 <= i < back.len() ==> white_space(#[trigger] back[i]),
        text.len() > 0 ==> !white_space(text[0]) && !white_space(text.last()),
    ensures
        trimmed(front + text + back) == text,
{
    assert(front + text + back =~= front + (text + back));
    lemma_trim_start_skips(front, text + back);
    if text.len() > 0 {
        assert((text + back)[0] == text[0]);
        lemma_trim_end_skips(text, back);
    } else {
        assert(text + back =~= back + text);
        lemma_trim_start_skips(back, text);
        assert(text =~= Seq::empty());
    }
}

/// Leading occurrences of a character are taken off, and only those.
pub proof fn law_leading_characters(c: char, n: nat, s: Seq<char>)
    requires
        s.len() > 0 ==> s[0] != c,
    ensures
        without_leading(Seq::new(n, |i: int| c) + s, c) == s,
    decreases n,
{
    let t = Seq::new(n, |i: int| c) + s;
    if n > 0 {
        law_leading_characters(c, (n - 1) as nat, s);
        assert(t.skip(1) =~= Seq::new((n - 1) as nat, |i: int| c) + s);
    } else {
        assert(t =~= s);
    }
}

// ---------------------------------------------------------------------------
// Cutting, words, joining
// ---------------------------------------------------------------------------

/// A text is cut at its first occurrence of a character, into what stands
/// before it and all that stands after it; a text without it is not cut.
pub proof fn law_cutting(head: Seq<char>, c: char, tail: Seq<char>)
    requires
        !head.contains(c),
    ensures
        cut(head + seq![c] + tail, c) == Some((head, tail)),
        before(head + seq![c] + tail, c) == head,
        cut(head, c) is None,
        before(head, c) == head,
{
    lemma_cut_joined(head, c, tail);
    lemma_cut(head, c);
    if let Some((a, b)) = cut(head, c) {
        assert(head[a.len() as int] == c);
    }
}

/// White space before a text makes no difference to its words, and a text of
/// white space alone has none.
pub proof fn law_words_start_behind_white_space(front: Seq<char>, s: Seq<char>)
    requires
        forall|i: int| 0 <= i < front.len() ==> white_space(#[trigger] front[i]),
    ensures
        words(front + s) == words(s),
        words(front).len() == 0,
{
    lemma_trim_start_skips(front, s);
    let none = Seq::<char>::empty();
    lemma_trim_start_skips(front, none);
    assert(front + none =~= front);
}

/// Lists of texts are joined part by part: the separator stands between
/// neighbours, and nowhere else.
pub proof fn law_joining(a: Seq<Seq<char>>, b: Seq<Seq<char>>, sep: Seq<char>)
    requires
        a.len() > 0,
        b.len() > 0,
    ensures
        joined(a + b, sep) == joined(a, sep) + sep + joined(b, sep),
        joined(seq![a[0]], sep) == a[0],
        joined(Seq::empty(), sep) == Seq::<char>::empty(),
    decreases a.len(),
{
    assert((a + b)[0] == a[0]);
    if a.len() == 1 {
        assert((a + b).skip(1) =~= b);
        assert(a =~= seq![a[0]]);
    } else {
        law_joining(a.skip(1), b, sep);
        assert((a + b).skip(1) =~= a.skip(1) + b);
        assert(a[0] + sep + (joined(a.skip(1), sep) + sep + joined(b, sep)) =~= a[0] + sep + joined(
            a.skip(1),
            sep,
        ) + sep + joined(b, sep));
    }
}

/// What a list of strings holds is what each of them holds, in order.
pub proof fn law_views(v: Seq<String>, i: int)
    requires
        0 <= i < v.len(),
    ensures
        views(v).len() == v.len(),
        views(v)[i] == v[i]@,
{
}

// ---------------------------------------------------------------------------
// Searching and replacing
// ---------------------------------------------------------------------------

/// A text that is put together around a pattern holds it.
pub proof fn law_searching(front: Seq<char>, pattern: Seq<char>, back: Seq<char>)
    ensures
        occurs_at(front + pattern + back, pattern, front.len() as int),
        occurs(front + pattern + back, pattern),
{
    let s = front + pattern + back;
    assert(s.subrange(front.len() as int, front.len() as int + pattern.len()) =~= pattern);
    assert(occurs_at(s, pattern, front.len() as int));
}

/// A pattern that a text holds can be taken out of it.
pub proof fn law_found_is_there(s: Seq<char>, pattern: Seq<char>, at: int)
    requires
        occurs_at(s, pattern, at),
    ensures
        s == s.take(at) + pattern + s.skip(at + pattern.len()),
{
    let found = s.subrange(at, at + pattern.len());
    assert(s =~= s.take(at) + found + s.skip(at + pattern.len()));
}

/// The first occurrence of a pattern is replaced, and replacing goes on behind
/// it; a text without the pattern stays as it is.
pub proof fn law_replacing(front: Seq<char>, pattern: Seq<char>, by: Seq<char>, back: Seq<char>)
    requires
        pattern.len() > 0,
        !occurs(front + pattern.drop_last(), pattern),
    ensures
        replaced(front + pattern + back, pattern, by) == front + by + replaced(back, pattern, by),
        replaced(front, pattern, by) == front,
    decreases front.len(),
{
    let s = front + pattern + back;
    if front.len() == 0 {
        assert(s.subrange(0, pattern.len() as int) =~= pattern);
        assert(s.skip(pattern.len() as int) =~= back);
        assert(replaced(front, pattern, by) =~= front);
        assert(front + by + replaced(back, pattern, by) =~= by + replaced(back, pattern, by));
    } else {
        let rest = front.skip(1);
        let seen = front + pattern.drop_last();
        assert(rest + pattern.drop_last() =~= seen.skip(1));
        assert(!occurs(rest + pattern.drop_last(), pattern)) by {
            if occurs(seen.skip(1), pattern) {
                let at = choose|at: int| occurs_at(seen.skip(1), pattern, at);
                assert(seen.subrange(at + 1, at + 1 + pattern.len()) =~= seen.skip(1).subrange(
                    at,
                    at + pattern.len(),
                ));
                assert(occurs_at(seen, pattern, at + 1));
            }
        }
        law_replacing(rest, pattern, by, back);
        assert(!occurs_at(s, pattern, 0)) by {
            if occurs_at(s, pattern, 0) {
                assert(seen.subrange(0, pattern.len() as int) =~= s.subrange(
                    0,
                    pattern.len() as int,
                ));
                assert(occurs_at(seen, pattern, 0));
            }
        }
        assert(!occurs_at(front, pattern, 0)) by {
            if occurs_at(front, pattern, 0) {
                assert(seen.subrange(0, pattern.len() as int) =~= front.subrange(
                    0,
                    pattern.len() as int,
                ));
                assert(occurs_at(seen, pattern, 0));
            }
        }
        assert(s.skip(1) =~= rest + pattern + back);
        assert(seq![front[0]] + rest =~= front);
        assert(seq![front[0]] + (rest + by + replaced(back, pattern, by)) =~= front + by + replaced(
            back,
            pattern,
            by,
        ));
    }
}

// ---------------------------------------------------------------------------
// Numbers
// ---------------------------------------------------------------------------

/// Digits count by their place: those in front count ten times for each digit
/// behind them.
pub proof fn law_digits_count_by_place(a: Seq<char>, b: Seq<char>)
    ensures
        decimal_value(a + b) == decimal_value(a) * pow(10, b.len()) + decimal_value(b),
        decimal_value(Seq::empty()) == 0,
        forall|c: char|
            digit(c) ==> #[trigger] decimal_value(seq![c]) == c as int - '0' as int,
    decreases b.len(),
{
    assert forall|c: char| digit(c) implies #[trigger] decimal_value(seq![c]) == c as int
        - '0' as int by {
        assert(seq![c].drop_last() =~= Seq::empty());
        assert(decimal_value(seq![c].drop_last()) == 0);
    }
    if b.len() == 0 {
        assert(a + b =~= a);
        vstd::arithmetic::power::lemma_pow0(10);
        assert(decimal_value(a) * 1 == decimal_value(a));
    } else {
        let front = b.drop_last();
        law_digits_count_by_place(a, front);
        assert((a + b).drop_last() =~= a + front);
        assert((a + b).last() == b.last());
        reveal(pow);
        let (v, p) = (decimal_value(a) as int, pow(10, front.len()));
        assert((v * p) * 10 == v * (10 * p)) by (nonlinear_arith);
    }
}

/// A text is read as a number just where it is digits, with or without a sign
/// before them, and the number is in range.
pub proof fn law_reading_numbers(digits: Seq<char>, max: nat)
    requires
        numeral(digits),
    ensures
        natural(digits, max) == (if decimal_value(digits) <= max {
            Some(decimal_value(digits))
        } else {
            None
        }),
        natural(seq!['+'] + digits, max) == natural(digits, max),
        natural(seq!['-'] + digits, max) is None,
        integer(digits) == (if decimal_value(digits) <= i64::MAX {
            Some(decimal_value(digits) as int)
        } else {
            None
        }),
        integer(seq!['+'] + digits) == integer(digits),
        integer(seq!['-'] + digits) == (if -decimal_value(digits) >= i64::MIN {
            Some(-decimal_value(digits))
        } else {
            None
        }),
{
    assert(digit(digits[0]));
    assert((seq!['+'] + digits).skip(1) =~= digits);
    assert((seq!['-'] + digits).skip(1) =~= digits);
    assert(!digit((seq!['-'] + digits)[0]));
    assert(!numeral(seq!['-'] + digits));
}

/// A text with anything but a digit behind its first character, or with
/// anything but a digit or a sign there, is no number; nor is a lone sign or
/// nothing at all.
pub proof fn law_no_number(s: Seq<char>, i: int, max: nat)
    requires
        s.len() == 0 || (0 <= i < s.len() && !digit(s[i]) && (i > 0 || s.len() == 1 || (s[0] != '+'
            && s[0] != '-'))),
    ensures
        natural(s, max) is None,
        integer(s) is None,
{
    if s.len() > 0 {
        if i > 0 {
            assert(s.skip(1)[i - 1] == s[i]);
        }
    }
}

/// A number is written in digits that read as that number, without a zero in
/// front unless it is zero.
pub proof fn law_writing_numbers(n: nat)
    ensures
        numeral(decimal(n)),
        decimal_value(decimal(n)) == n,
        n > 0 ==> decimal(n)[0] != '0',
        n == 0 ==> decimal(n) == seq!['0'],
    decreases n,
{
    lemma_decimal_reads_back(n);
    if n >= 10 {
        law_writing_numbers(n / 10);
        lemma_decimal_reads_back(n / 10);
        assert(decimal(n)[0] == decimal(n / 10)[0]);
    }
}

/// A product is the product, up to the largest number there is.
pub proof fn law_saturating_product(a: u64, b: u64)
    ensures
        a * b <= u64::MAX ==> saturating_product(a, b) == a * b,
        a * b > u64::MAX ==> saturating_product(a, b) == u64::MAX,
{
}

/// The white space characters, by their numbers.
pub proof fn law_white_space(c: char)
    ensures
        c as int <= 0x7f ==> (white_space(c) <==> 9 <= c as int <= 13 || c as int == 32),
        c as int > 0x7f ==> (white_space(c) <==> {
            let n = c as int;
            ||| n == 0x85 || n == 0xa0 || n == 0x1680
            ||| 0x2000 <= n <= 0x200a
            ||| n == 0x2028 || n == 0x2029 || n == 0x202f || n == 0x205f || n == 0x3000
        }),
{
}

} // verus!
