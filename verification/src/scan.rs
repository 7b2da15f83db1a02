//! Scanning text: trimming, splitting, searching and replacing.
use vstd::prelude::*;

use crate::text::{chars_of, is_white_space, string_of, white_space};

verus! {

// ---------------------------------------------------------------------------
// Trimming
// ---------------------------------------------------------------------------

/// A text without its leading white space.
pub open spec fn trim_start(s: Seq<char>) -> Seq<char>
    decreases s.len(),
{
    if s.len() > 0 && white_space(s[0]) {
        trim_start(s.skip(1))
    } else {
        s
    }
}

/// A text without its trailing white space.
pub open spec fn trim_end(s: Seq<char>) -> Seq<char>
    decreases s.len(),
{
    if s.len() > 0 && white_space(s.last()) {
        trim_end(s.drop_last())
    } else {
        s
    }
}

/// A text without leading and trailing white space.
pub open spec fn trimmed(s: Seq<char>) -> Seq<char> {
    trim_end(trim_start(s))
}

pub proof fn lemma_trim_start_len(s: Seq<char>)
    ensures
        trim_start(s).len() <= s.len(),
        trim_start(s).len() > 0 ==> !white_space(trim_start(s)[0]),
    decreases s.len(),
{
    if s.len() > 0 && white_space(s[0]) {
        lemma_trim_start_len(s.skip(1));
    }
}

/// The number of characters from `pos` on that are white space.
fn skip_white_space(v: &Vec<char>, pos: usize) -> (r: usize)
    requires
        pos <= v@.len(),
    ensures
        pos <= r <= v@.len(),
        v@.skip(r as int) == trim_start(v@.skip(pos as int)),
{
    let mut i: usize = pos;
    while i < v.len() && is_white_space(v[i])
        invariant
            pos <= i <= v@.len(),
            trim_start(v@.skip(pos as int)) == trim_start(v@.skip(i as int)),
        decreases v@.len() - i,
    {
        assert(v@.skip(i as int).skip(1) =~= v@.skip(i + 1));
        i = i + 1;
    }
    i
}

/// The string without leading and trailing white space.
pub fn trim<'a>(s: &'a str) -> (r: &'a str)
    ensures
        r@ == trimmed(s@),
{
    let v = chars_of(s);
    let from = skip_white_space(&v, 0);
    let mut to: usize = v.len();
    assert(v@.skip(0) =~= v@);
    assert(v@.subrange(from as int, to as int) =~= v@.skip(from as int));
    while from < to && is_white_space(v[to - 1])
        invariant
            from <= to <= v@.len(),
            trimmed(v@) == trim_end(v@.subrange(from as int, to as int)),
        decreases to,
    {
        assert(v@.subrange(from as int, to as int).drop_last() =~= v@.subrange(
            from as int,
            to - 1,
        ));
        to = to - 1;
    }
    s.substring_char(from, to)
}

/// A text without its leading occurrences of one character.
pub open spec fn without_leading(s: Seq<char>, c: char) -> Seq<char>
    decreases s.len(),
{
    if s.len() > 0 && s[0] == c {
        without_leading(s.skip(1), c)
    } else {
        s
    }
}

/// The string without its leading occurrences of `c`.
pub fn trim_start_char<'a>(s: &'a str, c: char) -> (r: &'a str)
    ensures
        r@ == without_leading(s@, c),
{
    let v = chars_of(s);
    let mut i: usize = 0;
    assert(v@.skip(0) =~= v@);
    while i < v.len() && v[i] == c
        invariant
            i <= v@.len(),
            without_leading(v@, c) == without_leading(v@.skip(i as int), c),
        decreases v@.len() - i,
    {
        assert(v@.skip(i as int).skip(1) =~= v@.skip(i + 1));
        i = i + 1;
    }
    let r = s.substring_char(i, v.len());
    assert(r@ =~= v@.skip(i as int));
    r
}

// ---------------------------------------------------------------------------
// Cutting at a character
// ---------------------------------------------------------------------------

/// A text cut at the first occurrence of `c`: what stands before it and what
/// stands after it. Nothing where `c` does not occur.
pub open spec fn cut(s: Seq<char>, c: char) -> Option<(Seq<char>, Seq<char>)> {
    match s.index_of_first(c) {
        Some(i) => Some((s.take(i), s.skip(i + 1))),
        None => None,
    }
}

/// A text up to the first occurrence of `c`, or all of it where `c` does not
/// occur.
pub open spec fn before(s: Seq<char>, c: char) -> Seq<char> {
    match cut(s, c) {
        Some((head, _)) => head,
        None => s,
    }
}

/// What a cut gives back: the two parts, put together again around the
/// character, are the text, and the first part does not hold the character.
pub proof fn lemma_cut(s: Seq<char>, c: char)
    ensures
        match cut(s, c) {
            Some((head, tail)) => s == head + seq![c] + tail && !head.contains(c),
            None => !s.contains(c),
        },
{
    s.index_of_first_ensures(c);
    if let Some(i) = s.index_of_first(c) {
        assert(s =~= s.take(i) + seq![c] + s.skip(i + 1));
    }
}

/// A text made of a part without `c`, then `c`, then anything, is cut into
/// just those two parts.
pub proof fn lemma_cut_joined(head: Seq<char>, c: char, tail: Seq<char>)
    requires
        !head.contains(c),
    ensures
        cut(head + seq![c] + tail, c) == Some((head, tail)),
{
    let s = head + seq![c] + tail;
    s.index_of_first_ensures(c);
    assert(s[head.len() as int] == c);
    let i = s.index_of_first(c).unwrap();
    if i < head.len() {
        assert(head[i] == c);
    }
    assert(s.take(i) =~= head);
    assert(s.skip(i + 1) =~= tail);
}

/// The string cut at the first occurrence of `c`.
pub fn split_once<'a>(s: &'a str, c: char) -> (r: Option<(&'a str, &'a str)>)
    ensures
        match r {
            Some((head, tail)) => cut(s@, c) == Some((head@, tail@)),
            None => cut(s@, c) is None,
        },
{
    let v = chars_of(s);
    let mut i: usize = 0;
    while i < v.len()
        invariant
            i <= v@.len(),
            v@ == s@,
            forall|k: int| 0 <= k < i ==> v@[k] != c,
        decreases v@.len() - i,
    {
        if v[i] == c {
            let head = s.substring_char(0, i);
            let tail = s.substring_char(i + 1, v.len());
            proof {
                assert(s@ =~= head@ + seq![c] + tail@);
                lemma_cut_joined(head@, c, tail@);
            }
            return Some((head, tail));
        }
        i = i + 1;
    }
    proof {
        s@.index_of_first_ensures(c);
    }
    None
}

/// The string up to the first occurrence of `c`, or all of it.
pub fn up_to<'a>(s: &'a str, c: char) -> (r: &'a str)
    ensures
        r@ == before(s@, c),
{
    match split_once(s, c) {
        Some((head, _)) => head,
        None => s,
    }
}

// ---------------------------------------------------------------------------
// Words
// ---------------------------------------------------------------------------

/// The length of the leading run of characters that are no white space.
pub open spec fn word_len(s: Seq<char>) -> nat
    decreases s.len(),
{
    if s.len() == 0 || white_space(s[0]) {
        0
    } else {
        1 + word_len(s.skip(1))
    }
}

pub proof fn lemma_word_len(s: Seq<char>)
    ensures
        word_len(s) <= s.len(),
        forall|i: int| 0 <= i < word_len(s) ==> !white_space(#[trigger] s[i]),
        word_len(s) < s.len() ==> white_space(s[word_len(s) as int]),
    decreases s.len(),
{
    if s.len() > 0 && !white_space(s[0]) {
        let t = s.skip(1);
        lemma_word_len(t);
        assert forall|i: int| 0 <= i < word_len(s) implies !white_space(#[trigger] s[i]) by {
            if i > 0 {
                assert(s[i] == t[i - 1]);
            }
        }
    }
}

/// The words of a text: its longest runs without white space, in order.
pub open spec fn words(s: Seq<char>) -> Seq<Seq<char>>
    decreases s.len(),
{
    let t = trim_start(s);
    if t.len() == 0 {
        Seq::empty()
    } else {
        proof {
            lemma_trim_start_len(s);
            lemma_word_len(t);
        }
        seq![t.take(word_len(t) as int)] + words(t.skip(word_len(t) as int))
    }
}

/// Whether a text is one word: not empty, and without white space.
pub open spec fn is_word(s: Seq<char>) -> bool {
    s.len() > 0 && forall|i: int| 0 <= i < s.len() ==> !white_space(#[trigger] s[i])
}

/// A word, then white space, then anything: its words are that word and those
/// of the rest.
pub proof fn lemma_words_after(word: Seq<char>, gap: char, rest: Seq<char>)
    requires
        is_word(word),
        white_space(gap),
    ensures
        words(word + seq![gap] + rest) == seq![word] + words(rest),
{
    let s = word + seq![gap] + rest;
    let n = word.len();
    lemma_word_len(s);
    assert(s[0] == word[0]);
    assert(word_len(s) == n) by {
        if word_len(s) < n {
            assert(s[word_len(s) as int] == word[word_len(s) as int]);
        } else if word_len(s) > n {
            assert(s[n as int] == gap);
        }
    }
    assert(s.take(n as int) =~= word);
    let tail = s.skip(n as int);
    assert(tail[0] == gap);
    assert(tail.skip(1) =~= rest);
    assert(trim_start(tail) == trim_start(rest));
    assert(words(tail) == words(rest));
}

/// A single word has just itself for words.
pub proof fn lemma_words_of_word(word: Seq<char>)
    requires
        is_word(word),
    ensures
        words(word) == seq![word],
{
    lemma_word_len(word);
    assert(word_len(word) == word.len());
    assert(word.take(word.len() as int) =~= word);
    assert(words(word.skip(word.len() as int)) =~= Seq::empty());
    assert(words(word) =~= seq![word]);
}

/// What the words of a text are.
pub proof fn lemma_words(s: Seq<char>)
    ensures
        forall|i: int| 0 <= i < words(s).len() ==> is_word(#[trigger] words(s)[i]),
    decreases s.len(),
{
    let t = trim_start(s);
    lemma_trim_start_len(s);
    if t.len() > 0 {
        let n = word_len(t) as int;
        lemma_word_len(t);
        let rest = t.skip(n);
        lemma_words(rest);
        assert(is_word(t.take(n)));
        assert forall|i: int| 0 <= i < words(s).len() implies is_word(#[trigger] words(s)[i]) by {
            if i > 0 {
                assert(words(s)[i] == words(rest)[i - 1]);
            }
        }
    }
}

/// What a list of strings holds, as sequences of characters.
pub open spec fn views(v: Seq<String>) -> Seq<Seq<char>> {
    Seq::new(v.len(), |i: int| v[i]@)
}

/// The words of the string, in order.
pub fn split_words(s: &str) -> (r: Vec<String>)
    ensures
        views(r@) == words(s@),
{
    let v = chars_of(s);
    let mut out: Vec<String> = Vec::new();
    let mut pos: usize = skip_white_space(&v, 0);
    assert(v@.skip(0) =~= v@);
    proof {
        lemma_trim_start_len(v@);
        assert(trim_start(v@.skip(pos as int)) == v@.skip(pos as int));
    }
    assert(words(v@) == words(v@.skip(pos as int)));
    assert(words(v@) =~= views(out@) + words(v@.skip(pos as int)));
    while pos < v.len()
        invariant
            pos <= v@.len(),
            pos < v@.len() ==> !white_space(v@[pos as int]),
            words(v@) == views(out@) + words(v@.skip(pos as int)),
        decreases v@.len() - pos,
    {
        let ghost t = v@.skip(pos as int);
        let mut end: usize = pos;
        while end < v.len() && !is_white_space(v[end])
            invariant
                pos <= end <= v@.len(),
                word_len(v@.skip(pos as int)) == end - pos + word_len(v@.skip(end as int)),
            decreases v@.len() - end,
        {
            assert(v@.skip(end as int).skip(1) =~= v@.skip(end + 1));
            end = end + 1;
        }
        let ghost before_push = out@;
        let word = string_of(&v, pos, end);
        let next = skip_white_space(&v, end);
        assert(word@ =~= t.take(word_len(t) as int));
        assert(t.skip(word_len(t) as int) =~= v@.skip(end as int));
        proof {
            lemma_trim_start_len(v@.skip(end as int));
            assert(trim_start(v@.skip(next as int)) == v@.skip(next as int));
            assert(words(v@.skip(end as int)) == words(v@.skip(next as int)));
        }
        out.push(word);
        assert(views(out@) =~= views(before_push) + seq![word@]);
        assert(words(t) == seq![word@] + words(v@.skip(next as int)));
        assert(views(before_push) + (seq![word@] + words(v@.skip(next as int))) =~= views(out@)
            + words(v@.skip(next as int)));
        pos = next;
    }
    assert(words(v@.skip(pos as int)) =~= Seq::empty());
    out
}

/// A list of texts put together with `sep` between neighbours.
pub open spec fn joined(parts: Seq<Seq<char>>, sep: Seq<char>) -> Seq<char>
    decreases parts.len(),
{
    if parts.len() == 0 {
        Seq::empty()
    } else if parts.len() == 1 {
        parts[0]
    } else {
        parts[0] + sep + joined(parts.skip(1), sep)
    }
}

/// Words put together with single spaces have no white space at either end.
pub proof fn lemma_joined_words_trimmed(ws: Seq<Seq<char>>)
    requires
        forall|i: int| 0 <= i < ws.len() ==> is_word(#[trigger] ws[i]),
    ensures
        trimmed(joined(ws, " "@)) == joined(ws, " "@),
        ws.len() > 0 ==> {
            let s = joined(ws, " "@);
            s.len() > 0 && !white_space(s[0]) && !white_space(s.last())
        },
    decreases ws.len(),
{
    if ws.len() > 1 {
        let rest = ws.skip(1);
        assert forall|i: int| 0 <= i < rest.len() implies is_word(#[trigger] rest[i]) by {
            assert(rest[i] == ws[i + 1]);
        }
        lemma_joined_words_trimmed(rest);
        let s = joined(ws, " "@);
        assert(is_word(ws[0]));
        assert(s[0] == ws[0][0]);
        assert(s.last() == joined(rest, " "@).last());
    } else if ws.len() == 1 {
        assert(is_word(ws[0]));
    }
}

/// The strings from index `from` on, put together with `sep` between
/// neighbours.
pub fn join_from(parts: &Vec<String>, from: usize, sep: &str) -> (r: String)
    requires
        from <= parts@.len(),
    ensures
        r@ == joined(views(parts@).skip(from as int), sep@),
{
    let ghost all = views(parts@);
    let mut out = String::new();
    let mut i: usize = from;
    while i < parts.len()
        invariant
            from <= i <= parts@.len(),
            all == views(parts@),
            i < parts@.len() ==> joined(all.skip(from as int), sep@) == out@ + joined(
                all.skip(i as int),
                sep@,
            ),
            i == parts@.len() ==> joined(all.skip(from as int), sep@) == out@,
        decreases parts@.len() - i,
    {
        let ghost so_far = out@;
        let ghost rest = all.skip(i as int);
        out.append(parts[i].as_str());
        assert(rest.skip(1) =~= all.skip(i + 1));
        if i + 1 < parts.len() {
            out.append(sep);
            assert(so_far + (rest[0] + sep@ + joined(rest.skip(1), sep@)) =~= so_far + rest[0]
                + sep@ + joined(all.skip(i + 1), sep@));
        }
        i = i + 1;
    }
    out
}

// ---------------------------------------------------------------------------
// Searching and replacing
// ---------------------------------------------------------------------------

/// Whether `pattern` stands in `s` at position `at`.
pub open spec fn occurs_at(s: Seq<char>, pattern: Seq<char>, at: int) -> bool {
    &&& 0 <= at
    &&& at + pattern.len() <= s.len()
    &&& s.subrange(at, at + pattern.len()) == pattern
}

/// Whether `pattern` stands anywhere in `s`.
pub open spec fn occurs(s: Seq<char>, pattern: Seq<char>) -> bool {
    exists|at: int| occurs_at(s, pattern, at)
}

pub fn matches_at(v: &Vec<char>, pattern: &Vec<char>, at: usize) -> (r: bool)
    requires
        at <= v@.len(),
    ensures
        r == occurs_at(v@, pattern@, at as int),
{
    if pattern.len() > v.len() - at {
        return false;
    }
    let mut i: usize = 0;
    while i < pattern.len()
        invariant
            i <= pattern@.len(),
            at + pattern@.len() <= v.len(),
            forall|k: int| 0 <= k < i ==> v@[at + k] == pattern@[k],
        decreases pattern@.len() - i,
    {
        if v[at + i] != pattern[i] {
            assert(v@.subrange(at as int, at + pattern@.len())[i as int] != pattern@[i as int]);
            return false;
        }
        i = i + 1;
    }
    assert(v@.subrange(at as int, at + pattern@.len()) =~= pattern@);
    true
}

/// Whether `pattern` stands anywhere in `s`.
pub fn contains(s: &str, pattern: &str) -> (r: bool)
    ensures
        r == occurs(s@, pattern@),
{
    let v = chars_of(s);
    let p = chars_of(pattern);
    let mut at: usize = 0;
    loop
        invariant
            at <= v@.len(),
            v@ == s@,
            p@ == pattern@,
            forall|k: int| 0 <= k < at ==> !occurs_at(v@, p@, k),
        decreases v@.len() - at,
    {
        if matches_at(&v, &p, at) {
            return true;
        }
        if at == v.len() {
            return false;
        }
        at = at + 1;
    }
}

/// A text in which every occurrence of `pattern`, found from the left and
/// without overlap, is replaced by `by`.
pub open spec fn replaced(s: Seq<char>, pattern: Seq<char>, by: Seq<char>) -> Seq<char>
    recommends
        pattern.len() > 0,
    decreases s.len(),
{
    if s.len() == 0 {
        Seq::empty()
    } else if pattern.len() > 0 && occurs_at(s, pattern, 0) {
        by + replaced(s.skip(pattern.len() as int), pattern, by)
    } else {
        seq![s[0]] + replaced(s.skip(1), pattern, by)
    }
}

/// The string with every occurrence of `pattern` replaced by `by`.
pub fn replace_all(s: &str, pattern: &str, by: &str) -> (r: String)
    requires
        pattern@.len() > 0,
    ensures
        r@ == replaced(s@, pattern@, by@),
{
    let v = chars_of(s);
    let p = chars_of(pattern);
    let mut out = String::new();
    let mut i: usize = 0;
    assert(v@.skip(0) =~= v@);
    assert(replaced(v@, p@, by@) =~= out@ + replaced(v@.skip(0), p@, by@));
    while i < v.len()
        invariant
            i <= v@.len(),
            p@.len() > 0,
            p@ == pattern@,
            replaced(v@, p@, by@) == out@ + replaced(v@.skip(i as int), p@, by@),
        decreases v@.len() - i,
    {
        let ghost rest = v@.skip(i as int);
        let ghost so_far = out@;
        let found = matches_at(&v, &p, i);
        assert(found == occurs_at(rest, p@, 0)) by {
            if i + p@.len() <= v@.len() {
                assert(rest.subrange(0, p@.len() as int) =~= v@.subrange(i as int, i + p@.len()));
            }
        }
        if found {
            out.append(by);
            assert(rest.skip(p@.len() as int) =~= v@.skip(i + p@.len()));
            i = i + p.len();
            assert(so_far + (by@ + replaced(v@.skip(i as int), p@, by@)) =~= out@ + replaced(
                v@.skip(i as int),
                p@,
                by@,
            ));
        } else {
            out.push(v[i]);
            assert(rest.skip(1) =~= v@.skip(i + 1));
            i = i + 1;
            assert(so_far + (seq![rest[0]] + replaced(v@.skip(i as int), p@, by@)) =~= out@
                + replaced(v@.skip(i as int), p@, by@));
        }
    }
    assert(out@ + replaced(v@.skip(i as int), p@, by@) =~= out@);
    out
}

} // verus!
