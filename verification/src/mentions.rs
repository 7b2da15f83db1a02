//! Mention detection, in priority order:
//! 1. A real @-mention chip: one of the message's mentions is of the bot's
//!    application. Graph fills these in only once the bot is registered as a
//!    Teams app.
//! 2. The plain text `@name`, or the bare name as a whole word, for messages
//!    typed without the mention picker.
//!
//! Either routes the message to the agent; with neither, it is dropped.
use vstd::prelude::*;

use crate::credentials::Credentials;
use crate::graph::{GraphChatMessage, GraphMention};
use crate::scan::{
    contains, cut, lemma_cut, lemma_cut_joined, matches_at, occurs, occurs_at, replace_all,
    replaced,
};
use crate::text::{
    chars_of, eq_ignore_ascii_case, is_white_space, lower_char, lowered, to_ascii_lowercase,
    white_space,
};

verus! {

// ---------------------------------------------------------------------------
// Plain text
// ---------------------------------------------------------------------------

/// Whether a `<` that this text follows opens a tag: a `>` comes later, and no
/// white space comes first.
pub open spec fn opens_tag(rest: Seq<char>) -> bool {
    cut(rest, '>') is Some && !white_space(rest[0])
}

/// A text without its tags. A `<` opens a tag, up to the next `>`, where there
/// is one and no white space follows the `<`; every other `<` or `>` is text
/// like any other.
pub open spec fn untagged(s: Seq<char>) -> Seq<char>
    decreases s.len(),
{
    if s.len() == 0 {
        Seq::empty()
    } else {
        proof {
            lemma_cut(s.skip(1), '>');
        }
        match cut(s.skip(1), '>') {
            Some((_, tail)) => if s[0] == '<' && opens_tag(s.skip(1)) {
                untagged(tail)
            } else {
                seq![s[0]] + untagged(s.skip(1))
            },
            None => seq![s[0]] + untagged(s.skip(1)),
        }
    }
}

/// Whether a text holds a complete tag: a `<` that no white space follows, with
/// a `>` after it.
pub open spec fn holds_tag(s: Seq<char>) -> bool {
    exists|i: int, j: int|
        0 <= i < j < s.len() && #[trigger] s[i] == '<' && !white_space(s[i + 1])
            && #[trigger] s[j] == '>'
}

/// A text with the entities that Teams emits decoded, one after the other.
pub open spec fn decoded(s: Seq<char>) -> Seq<char> {
    let s = replaced(s, "&nbsp;"@, " "@);
    let s = replaced(s, "&amp;"@, "&"@);
    let s = replaced(s, "&lt;"@, "<"@);
    let s = replaced(s, "&gt;"@, ">"@);
    replaced(s, "&quot;"@, "\""@)
}

/// The plain text of a message body: tags stripped, entities decoded.
pub open spec fn plain(s: Seq<char>) -> Seq<char> {
    decoded(untagged(s))
}

/// Where the next `>` stands, from `from` on.
fn next_close(v: &Vec<char>, from: usize) -> (r: Option<usize>)
    requires
        from <= v@.len(),
    ensures
        match r {
            Some(at) => {
                &&& from <= at < v@.len()
                &&& cut(v@.skip(from as int), '>') matches Some((_, tail))
                &&& tail == v@.skip(at + 1)
            },
            None => cut(v@.skip(from as int), '>') is None,
        },
{
    let ghost rest = v@.skip(from as int);
    let mut at: usize = from;
    while at < v.len()
        invariant
            from <= at <= v@.len(),
            rest == v@.skip(from as int),
            forall|k: int| from <= k < at ==> v@[k] != '>',
        decreases v@.len() - at,
    {
        if v[at] == '>' {
            proof {
                let head = v@.subrange(from as int, at as int);
                let tail = v@.skip(at + 1);
                assert(rest =~= head + seq!['>'] + tail);
                lemma_cut_joined(head, '>', tail);
            }
            return Some(at);
        }
        at = at + 1;
    }
    proof {
        lemma_cut(rest, '>');
        if let Some((head, _)) = cut(rest, '>') {
            assert(rest[head.len() as int] == '>');
            assert(v@[from + head.len()] == '>');
        }
    }
    None
}

fn strip_tags(input: &str) -> (r: String)
    ensures
        r@ == untagged(input@),
{
    let v = chars_of(input);
    let mut out = String::new();
    let mut i: usize = 0;
    // Once no `>` is left, no `<` opens a tag any more.
    let mut may_close = true;
    assert(v@.skip(0) =~= v@);
    assert(untagged(v@) =~= out@ + untagged(v@.skip(0)));
    while i < v.len()
        invariant
            i <= v@.len(),
            untagged(v@) == out@ + untagged(v@.skip(i as int)),
            !may_close ==> forall|k: int| i <= k < v@.len() ==> v@[k] != '>',
        decreases v@.len() - i,
    {
        let ghost so_far = out@;
        let ghost rest = v@.skip(i as int);
        let c = v[i];
        assert(rest[0] == c);
        assert(rest.skip(1) =~= v@.skip(i + 1));
        proof {
            lemma_cut(v@.skip(i + 1), '>');
        }
        if c == '<' && may_close && i + 1 < v.len() && !is_white_space(v[i + 1]) {
            assert(v@.skip(i + 1)[0] == v@[i + 1]);
            match next_close(&v, i + 1) {
                Some(at) => {
                    i = at + 1;
                    continue;
                },
                None => {
                    may_close = false;
                    assert forall|k: int| i + 1 <= k < v@.len() implies v@[k] != '>' by {
                        assert(v@.skip(i + 1)[k - i - 1] == v@[k]);
                    }
                },
            }
        }
        assert(c == '<' ==> !opens_tag(v@.skip(i + 1))) by {
            if let Some((head, _)) = cut(v@.skip(i + 1), '>') {
                assert(v@.skip(i + 1)[0] == v@[i + 1]);
                assert(v@.skip(i + 1)[head.len() as int] == '>');
                assert(v@[i + 1 + head.len()] == '>');
            }
        }
        out.push(c);
        assert(so_far + (seq![c] + untagged(rest.skip(1))) =~= out@ + untagged(rest.skip(1)));
        i = i + 1;
    }
    assert(out@ + untagged(v@.skip(i as int)) =~= out@);
    out
}

/// A minimal HTML-to-text pass: strips complete tags and decodes the handful of
/// entities that Teams emits. Enough for matching trigger text and for the
/// text that the agent sees; no general HTML parser.
pub fn plain_text(input: &str) -> (r: String)
    ensures
        r@ == plain(input@),
{
    proof {
        reveal_strlit("&nbsp;");
        reveal_strlit("&amp;");
        reveal_strlit("&lt;");
        reveal_strlit("&gt;");
        reveal_strlit("&quot;");
    }
    let s = strip_tags(input);
    let s = replace_all(s.as_str(), "&nbsp;", " ");
    let s = replace_all(s.as_str(), "&amp;", "&");
    let s = replace_all(s.as_str(), "&lt;", "<");
    let s = replace_all(s.as_str(), "&gt;", ">");
    replace_all(s.as_str(), "&quot;", "\"")
}

// ---------------------------------------------------------------------------
// Mention chips
// ---------------------------------------------------------------------------

/// Whether a mention is of the application with this id, in any ASCII case.
pub open spec fn mentions_application(m: GraphMention, app_id: Seq<char>) -> bool {
    match m.mentioned.application {
        Some(app) => lowered(app.id@) == lowered(app_id),
        None => false,
    }
}

/// Whether a message has a mention of the application with this id.
pub open spec fn has_chip(msg: GraphChatMessage, app_id: Seq<char>) -> bool {
    exists|i: int|
        0 <= i < msg.mentions@.len() && mentions_application(#[trigger] msg.mentions@[i], app_id)
}

/// Whether a message has a real @-mention of the bot.
pub fn chip_match(msg: &GraphChatMessage, bot_app_id: &str) -> (r: bool)
    ensures
        r == has_chip(*msg, bot_app_id@),
{
    let mut i: usize = 0;
    while i < msg.mentions.len()
        invariant
            i <= msg.mentions@.len(),
            forall|k: int|
                0 <= k < i ==> !mentions_application(#[trigger] msg.mentions@[k], bot_app_id@),
        decreases msg.mentions@.len() - i,
    {
        if let Some(app) = &msg.mentions[i].mentioned.application {
            if eq_ignore_ascii_case(app.id.as_str(), bot_app_id) {
                assert(mentions_application(msg.mentions@[i as int], bot_app_id@));
                return true;
            }
        }
        i = i + 1;
    }
    false
}

// ---------------------------------------------------------------------------
// Names in text
// ---------------------------------------------------------------------------

/// Whether `char::is_alphanumeric` says that a character is a letter or a
/// number, by the Unicode tables that it goes by.
pub uninterp spec fn alphanumeric(c: char) -> bool;

/// Whether `c` is an ASCII letter or digit.
pub open spec fn ascii_alphanumeric(c: char) -> bool {
    'a' <= c <= 'z' || 'A' <= c <= 'Z' || '0' <= c <= '9'
}

/// Trusted: what `char::is_alphanumeric` returns depends on the character
/// alone. It goes by the Unicode tables, and in the ASCII range it says yes
/// of letters and digits and of nothing else. What it says of other
/// characters is not stated.
pub assume_specification[ char::is_alphanumeric ](c: char) -> (b: bool)
    ensures
        b == alphanumeric(c),
        c <= '\u{7f}' ==> b == ascii_alphanumeric(c),
;

/// Which characters of a text are alphanumeric.
pub open spec fn word_chars(s: Seq<char>) -> Seq<bool> {
    Seq::new(s.len(), |i: int| alphanumeric(s[i]))
}

/// Whether `word` stands in `s` at `at` as a whole word: it is made of word
/// characters, and no word character stands next to it. `in_word` tells which
/// characters of `s` are word characters.
pub open spec fn whole_word_at(s: Seq<char>, in_word: Seq<bool>, word: Seq<char>, at: int) -> bool {
    &&& occurs_at(s, word, at)
    &&& forall|k: int| at <= k < at + word.len() ==> #[trigger] in_word[k]
    &&& at > 0 ==> !in_word[at - 1]
    &&& at + word.len() < s.len() ==> !in_word[at + word.len()]
}

/// Whether `word` stands anywhere in `s` as a whole word.
pub open spec fn whole_word(s: Seq<char>, in_word: Seq<bool>, word: Seq<char>) -> bool {
    exists|at: int| whole_word_at(s, in_word, word, at)
}

/// Whether `word` stands in `text` as a whole word, by the given word
/// characters.
pub fn has_whole_word(text: &str, in_word: &Vec<bool>, word: &str) -> (r: bool)
    requires
        in_word@.len() == text@.len(),
    ensures
        r == whole_word(text@, in_word@, word@),
{
    let v = chars_of(text);
    let w = chars_of(word);
    let mut at: usize = 0;
    loop
        invariant
            at <= v.len(),
            v@ == text@,
            w@ == word@,
            in_word@.len() == v@.len(),
            forall|k: int| 0 <= k < at ==> !whole_word_at(v@, in_word@, w@, k),
        decreases v@.len() - at,
    {
        if matches_at(&v, &w, at) {
            let end: usize = at + w.len();
            let mut all = true;
            let mut k: usize = at;
            while k < end
                invariant
                    at <= k <= end <= v@.len(),
                    in_word@.len() == v@.len(),
                    all == (forall|j: int| at <= j < k ==> #[trigger] in_word@[j]),
                decreases end - k,
            {
                if !in_word[k] {
                    all = false;
                }
                k = k + 1;
            }
            if all && (at == 0 || !in_word[at - 1]) && (end == v.len() || !in_word[end]) {
                assert(whole_word_at(v@, in_word@, w@, at as int));
                return true;
            }
        }
        assert(!whole_word_at(v@, in_word@, w@, at as int));
        if at == v.len() {
            return false;
        }
        at = at + 1;
    }
}

/// Which characters of a string are alphanumeric.
fn flag_word_chars(s: &str) -> (r: Vec<bool>)
    ensures
        r@ == word_chars(s@),
{
    let v = chars_of(s);
    let mut out: Vec<bool> = Vec::new();
    let mut i: usize = 0;
    while i < v.len()
        invariant
            i <= v@.len(),
            out@.len() == i,
            forall|k: int| 0 <= k < i ==> out@[k] == alphanumeric(v@[k]),
        decreases v@.len() - i,
    {
        out.push(v[i].is_alphanumeric());
        i = i + 1;
    }
    out
}

/// Whether a plain text names the bot, ASCII case aside: as `@name`, or as
/// the bare name standing as a whole word. No text names a bot without a name.
pub open spec fn names_bot(text: Seq<char>, name: Seq<char>) -> bool {
    let text = lowered(text);
    let name = lowered(name);
    name.len() > 0 && (occurs(text, seq!['@'] + name) || whole_word(text, word_chars(text), name))
}

/// Whether the text of a message body names the bot.
pub fn text_fallback_match(body_content: &str, bot_display_name: &str) -> (r: bool)
    ensures
        r == names_bot(plain(body_content@), bot_display_name@),
{
    if bot_display_name.is_empty() {
        return false;
    }
    let text = plain_text(body_content);
    let text_lower = to_ascii_lowercase(text.as_str());
    let name_lower = to_ascii_lowercase(bot_display_name);
    let mut at_form = String::new();
    at_form.push('@');
    at_form.append(name_lower.as_str());
    assert(at_form@ =~= seq!['@'] + name_lower@);
    if contains(text_lower.as_str(), at_form.as_str()) {
        return true;
    }
    // The picker may have dropped the "@" and kept the rest of the chip.
    let in_word = flag_word_chars(text_lower.as_str());
    has_whole_word(text_lower.as_str(), &in_word, name_lower.as_str())
}

/// Whether a message is addressed to the bot.
pub open spec fn mentioned(msg: GraphChatMessage, creds: Credentials) -> bool {
    has_chip(msg, creds.bot_app_id@) || names_bot(
        plain(msg.body.content@),
        creds.bot_display_name@,
    )
}

/// Whether a message mentions the bot, by a chip or in its text.
pub fn message_mentions_bot(msg: &GraphChatMessage, creds: &Credentials) -> (r: bool)
    ensures
        r == mentioned(*msg, *creds),
{
    chip_match(msg, creds.bot_app_id.as_str()) || text_fallback_match(
        msg.body.content.as_str(),
        creds.bot_display_name.as_str(),
    )
}

// ---------------------------------------------------------------------------
// Laws
// ---------------------------------------------------------------------------

proof fn lemma_replaced_absent(s: Seq<char>, pattern: Seq<char>, by: Seq<char>)
    requires
        pattern.len() > 0,
        !occurs(s, pattern),
    ensures
        replaced(s, pattern, by) == s,
    decreases s.len(),
{
    if s.len() > 0 {
        assert(!occurs_at(s, pattern, 0));
        let rest = s.skip(1);
        assert(!occurs(rest, pattern)) by {
            if occurs(rest, pattern) {
                let at = choose|at: int| occurs_at(rest, pattern, at);
                assert(s.subrange(at + 1, at + 1 + pattern.len()) =~= rest.subrange(
                    at,
                    at + pattern.len(),
                ));
                assert(occurs_at(s, pattern, at + 1));
            }
        }
        lemma_replaced_absent(rest, pattern, by);
        assert(seq![s[0]] + rest =~= s);
    } else {
        assert(replaced(s, pattern, by) =~= s);
    }
}

/// A text without a complete tag has none after its first character either.
proof fn lemma_no_tag_in_rest(s: Seq<char>)
    requires
        s.len() > 0,
        !holds_tag(s),
    ensures
        !holds_tag(s.skip(1)),
        s[0] == '<' ==> !opens_tag(s.skip(1)),
{
    let rest = s.skip(1);
    if holds_tag(rest) {
        let (i, j) = choose|i: int, j: int|
            0 <= i < j < rest.len() && #[trigger] rest[i] == '<' && !white_space(rest[i + 1])
                && #[trigger] rest[j] == '>';
        assert(s[i + 1] == '<' && !white_space(s[i + 1 + 1]) && s[j + 1] == '>');
    }
    lemma_cut(rest, '>');
    if let Some((head, _)) = cut(rest, '>') {
        assert(rest[0] == s[1]);
        assert(rest[head.len() as int] == '>');
        assert(s[head.len() as int + 1] == '>');
    }
}

/// What stripping leaves holds no complete tag, and no `>` that the text does
/// not hold.
pub proof fn law_no_tag_survives_stripping(s: Seq<char>)
    ensures
        !holds_tag(untagged(s)),
        !s.contains('>') ==> !untagged(s).contains('>'),
    decreases s.len(),
{
    if s.len() > 0 {
        let rest = s.skip(1);
        lemma_cut(rest, '>');
        if s[0] == '<' && opens_tag(rest) {
            let (head, tail) = cut(rest, '>').unwrap();
            law_no_tag_survives_stripping(tail);
            assert(rest[head.len() as int] == '>');
            assert(s[head.len() as int + 1] == '>');
        } else {
            law_no_tag_survives_stripping(rest);
            let kept = untagged(rest);
            let r = seq![s[0]] + kept;
            assert(untagged(s) == r);
            assert(!s.contains('>') ==> !rest.contains('>')) by {
                if rest.contains('>') {
                    let k = choose|k: int| 0 <= k < rest.len() && rest[k] == '>';
                    assert(s[k + 1] == '>');
                }
            }
            if holds_tag(r) {
                let (i, j) = choose|i: int, j: int|
                    0 <= i < j < r.len() && #[trigger] r[i] == '<' && !white_space(r[i + 1])
                        && #[trigger] r[j] == '>';
                assert(kept[j - 1] == '>');
                if i > 0 {
                    assert(kept[i - 1] == '<' && !white_space(kept[i - 1 + 1]));
                } else {
                    // White space after a `<` stays there.
                    assert(r[1] == kept[0]);
                    if cut(rest, '>') is Some {
                        assert(kept[0] == rest[0]);
                    }
                }
            }
            if !s.contains('>') && r.contains('>') {
                let k = choose|k: int| 0 <= k < r.len() && r[k] == '>';
                if k > 0 {
                    assert(kept[k - 1] == '>');
                } else {
                    assert(s[0] == '>');
                }
            }
        }
    }
}

/// Stripping does nothing to text without a complete tag.
pub proof fn law_stripping_keeps_plain_text(s: Seq<char>)
    requires
        !holds_tag(s),
    ensures
        untagged(s) == s,
    decreases s.len(),
{
    if s.len() > 0 {
        lemma_no_tag_in_rest(s);
        law_stripping_keeps_plain_text(s.skip(1));
        assert(seq![s[0]] + s.skip(1) =~= s);
    } else {
        assert(untagged(s) =~= s);
    }
}

/// A tag before a text does not matter.
pub proof fn law_leading_tag_is_stripped(inside: Seq<char>, s: Seq<char>)
    requires
        !inside.contains('>'),
        inside.len() > 0 ==> !white_space(inside[0]),
    ensures
        plain(seq!['<'] + inside + seq!['>'] + s) == plain(s),
{
    let t = seq!['<'] + inside + seq!['>'] + s;
    assert(t[0] == '<');
    assert(t.skip(1) =~= inside + seq!['>'] + s);
    lemma_cut_joined(inside, '>', s);
    assert(opens_tag(t.skip(1)));
}

/// A tag after a text without a `<` does not matter.
pub proof fn law_trailing_tag_is_stripped(s: Seq<char>, inside: Seq<char>)
    requires
        !s.contains('<'),
        !inside.contains('>'),
        inside.len() > 0 ==> !white_space(inside[0]),
    ensures
        untagged(s + seq!['<'] + inside + seq!['>']) == s,
        plain(s + seq!['<'] + inside + seq!['>']) == plain(s),
    decreases s.len(),
{
    let t = s + seq!['<'] + inside + seq!['>'];
    law_stripping_keeps_plain_text(s);
    if s.len() == 0 {
        let none = Seq::<char>::empty();
        assert(t.skip(1) =~= inside + seq!['>'] + none);
        lemma_cut_joined(inside, '>', none);
        assert(opens_tag(t.skip(1)));
        assert(untagged(t) =~= s);
    } else {
        let rest = s.skip(1);
        assert(!rest.contains('<')) by {
            if rest.contains('<') {
                let k = choose|k: int| 0 <= k < rest.len() && rest[k] == '<';
                assert(s[k + 1] == '<');
            }
        }
        law_trailing_tag_is_stripped(rest, inside);
        assert(s[0] != '<');
        assert(t[0] == s[0]);
        assert(t.skip(1) =~= rest + seq!['<'] + inside + seq!['>']);
        assert(seq![s[0]] + rest =~= s);
    }
}

/// Whether a text holds one of the entities that are decoded.
pub open spec fn holds_entity(s: Seq<char>) -> bool {
    occurs(s, "&nbsp;"@) || occurs(s, "&amp;"@) || occurs(s, "&lt;"@) || occurs(s, "&gt;"@)
        || occurs(s, "&quot;"@)
}

/// Text without a complete tag and without an entity passes unchanged.
pub proof fn law_plain_text_passes_unchanged(s: Seq<char>)
    requires
        !holds_tag(s),
        !holds_entity(s),
    ensures
        plain(s) == s,
{
    law_stripping_keeps_plain_text(s);
    reveal_strlit("&nbsp;");
    reveal_strlit("&amp;");
    reveal_strlit("&lt;");
    reveal_strlit("&gt;");
    reveal_strlit("&quot;");
    lemma_replaced_absent(s, "&nbsp;"@, " "@);
    lemma_replaced_absent(s, "&amp;"@, "&"@);
    lemma_replaced_absent(s, "&lt;"@, "<"@);
    lemma_replaced_absent(s, "&gt;"@, ">"@);
    lemma_replaced_absent(s, "&quot;"@, "\""@);
}

proof fn lemma_first_char_absent(s: Seq<char>, pattern: Seq<char>)
    requires
        pattern.len() > 0,
        !s.contains(pattern[0]),
    ensures
        !occurs(s, pattern),
{
    if occurs(s, pattern) {
        let at = choose|at: int| occurs_at(s, pattern, at);
        assert(s.subrange(at, at + pattern.len())[0] == pattern[0]);
        assert(s[at] == pattern[0]);
    }
}

/// Text without a complete tag and without an ampersand passes unchanged.
pub proof fn law_text_without_ampersand_passes_unchanged(s: Seq<char>)
    requires
        !holds_tag(s),
        !s.contains('&'),
    ensures
        plain(s) == s,
{
    reveal_strlit("&nbsp;");
    reveal_strlit("&amp;");
    reveal_strlit("&lt;");
    reveal_strlit("&gt;");
    reveal_strlit("&quot;");
    lemma_first_char_absent(s, "&nbsp;"@);
    lemma_first_char_absent(s, "&amp;"@);
    lemma_first_char_absent(s, "&lt;"@);
    lemma_first_char_absent(s, "&gt;"@);
    lemma_first_char_absent(s, "&quot;"@);
    law_plain_text_passes_unchanged(s);
}

/// A text that holds `@` and then the bot's name, in any ASCII case, names the
/// bot, whatever stands around it.
pub proof fn law_at_name_is_a_mention(
    front: Seq<char>,
    typed: Seq<char>,
    back: Seq<char>,
    name: Seq<char>,
)
    requires
        name.len() > 0,
        lowered(typed) == lowered(name),
    ensures
        names_bot(front + seq!['@'] + typed + back, name),
{
    let text = lowered(front + seq!['@'] + typed + back);
    let pattern = seq!['@'] + lowered(name);
    let at = front.len() as int;
    assert(typed.len() == lowered(typed).len());
    assert(text.subrange(at, at + pattern.len()) =~= pattern) by {
        assert forall|k: int| 0 <= k < pattern.len() implies text[at + k] == pattern[k] by {
            if k > 0 {
                assert(text[at + k] == lower_char(typed[k - 1]));
                assert(lowered(typed)[k - 1] == lowered(name)[k - 1]);
            }
        }
    }
    assert(occurs_at(text, pattern, at));
}

/// A text that holds the bot's bare name, in any ASCII case, as a whole word
/// names the bot.
pub proof fn law_whole_word_is_a_mention(
    front: Seq<char>,
    typed: Seq<char>,
    back: Seq<char>,
    name: Seq<char>,
)
    requires
        name.len() > 0,
        lowered(typed) == lowered(name),
        forall|k: int| 0 <= k < name.len() ==> alphanumeric(#[trigger] lowered(name)[k]),
        front.len() > 0 ==> !alphanumeric(lower_char(front.last())),
        back.len() > 0 ==> !alphanumeric(lower_char(back[0])),
    ensures
        names_bot(front + typed + back, name),
{
    let text = lowered(front + typed + back);
    let word = lowered(name);
    let at = front.len() as int;
    assert(typed.len() == lowered(typed).len());
    assert forall|k: int| at <= k < at + word.len() implies text[k] == word[k - at] by {
        assert(lowered(typed)[k - at] == lowered(name)[k - at]);
    }
    assert(text.subrange(at, at + word.len()) =~= word);
    assert forall|k: int| at <= k < at + word.len() implies #[trigger] word_chars(text)[k] by {
        assert(alphanumeric(lowered(name)[k - at]));
    }
    assert(whole_word_at(text, word_chars(text), word, at));
}

/// A name that occurs only inside longer words is no mention: where the text
/// does not hold `@name` and every occurrence of the name touches a word
/// character, the bot is not named.
pub proof fn law_part_of_a_word_is_no_mention(text: Seq<char>, name: Seq<char>)
    requires
        !occurs(lowered(text), seq!['@'] + lowered(name)),
        forall|at: int| #[trigger]
            occurs_at(lowered(text), lowered(name), at) ==> (at > 0 && alphanumeric(
                lowered(text)[at - 1],
            )) || (at + name.len() < text.len() && alphanumeric(lowered(text)[at + name.len()])),
    ensures
        !names_bot(text, name),
{
}

/// A bot without a name is never named, and a chip is enough whatever the
/// text says.
pub proof fn law_chip_decides_for_a_nameless_bot(msg: GraphChatMessage, creds: Credentials)
    ensures
        creds.bot_display_name@.len() == 0 ==> mentioned(msg, creds) == has_chip(
            msg,
            creds.bot_app_id@,
        ),
        has_chip(msg, creds.bot_app_id@) ==> mentioned(msg, creds),
{
}

/// A tag is cut out of the text around it, and stripping goes on behind it. The
/// text before the tag holds no `<` but such as white space follows.
pub proof fn law_tag_is_cut_out(front: Seq<char>, inside: Seq<char>, back: Seq<char>)
    requires
        forall|i: int|
            0 <= i < front.len() && #[trigger] front[i] == '<' ==> i + 1 < front.len()
                && white_space(front[i + 1]),
        !inside.contains('>'),
        inside.len() > 0 ==> !white_space(inside[0]),
    ensures
        untagged(front + seq!['<'] + inside + seq!['>'] + back) == front + untagged(back),
    decreases front.len(),
{
    let t = front + seq!['<'] + inside + seq!['>'] + back;
    if front.len() == 0 {
        assert(t[0] == '<');
        assert(t.skip(1) =~= inside + seq!['>'] + back);
        lemma_cut_joined(inside, '>', back);
        assert(opens_tag(t.skip(1)));
        assert(front + untagged(back) =~= untagged(back));
    } else {
        let rest = front.skip(1);
        assert forall|i: int| 0 <= i < rest.len() && #[trigger] rest[i] == '<' implies i + 1
            < rest.len() && white_space(rest[i + 1]) by {
            assert(front[i + 1] == '<');
        }
        law_tag_is_cut_out(rest, inside, back);
        assert(t.skip(1) =~= rest + seq!['<'] + inside + seq!['>'] + back);
        assert(t[0] == front[0]);
        if front[0] == '<' {
            assert(t.skip(1)[0] == front[1]);
        }
        assert(seq![front[0]] + (rest + untagged(back)) =~= front + untagged(back));
    }
}

/// An entity that starts with another `&` word than the pattern is passed over
/// by replacing, and so is all text without `&` before it.
proof fn lemma_replaced_behind(
    front: Seq<char>,
    other: Seq<char>,
    back: Seq<char>,
    pattern: Seq<char>,
    by: Seq<char>,
)
    requires
        pattern.len() > 1,
        pattern[0] == '&',
        !front.contains('&'),
        other.len() > 1 && other[0] == '&' && other[1] != pattern[1],
        forall|i: int| 1 <= i < other.len() ==> #[trigger] other[i] != '&',
    ensures
        replaced(front + other + back, pattern, by) == front + other + replaced(back, pattern, by),
{
    lemma_passed_over(front + other, back, pattern, by);
}

/// Text that nowhere starts the pattern is passed over by replacing.
proof fn lemma_passed_over(front: Seq<char>, back: Seq<char>, pattern: Seq<char>, by: Seq<char>)
    requires
        pattern.len() > 1,
        forall|i: int|
            0 <= i < front.len() && #[trigger] front[i] == pattern[0] ==> i + 1 < front.len()
                && front[i + 1] != pattern[1],
    ensures
        replaced(front + back, pattern, by) == front + replaced(back, pattern, by),
    decreases front.len(),
{
    let s = front + back;
    if front.len() == 0 {
        assert(s =~= back);
        assert(front + replaced(back, pattern, by) =~= replaced(back, pattern, by));
    } else {
        let rest = front.skip(1);
        assert forall|i: int| 0 <= i < rest.len() && #[trigger] rest[i] == pattern[0] implies i + 1
            < rest.len() && rest[i + 1] != pattern[1] by {
            assert(front[i + 1] == pattern[0]);
        }
        lemma_passed_over(rest, back, pattern, by);
        assert(s.skip(1) =~= rest + back);
        assert(!occurs_at(s, pattern, 0)) by {
            if occurs_at(s, pattern, 0) {
                let found = s.subrange(0, pattern.len() as int);
                assert(found[0] == s[0] && found[1] == s[1]);
                assert(front[0] == pattern[0]);
                assert(s[1] == front[1]);
            }
        }
        assert(seq![front[0]] + (rest + replaced(back, pattern, by)) =~= front + replaced(
            back,
            pattern,
            by,
        ));
    }
}

/// An entity is replaced where it stands, behind text without `&`.
proof fn lemma_replaced_here(
    front: Seq<char>,
    pattern: Seq<char>,
    back: Seq<char>,
    by: Seq<char>,
)
    requires
        pattern.len() > 1,
        !front.contains(pattern[0]),
    ensures
        replaced(front + pattern + back, pattern, by) == front + by + replaced(back, pattern, by),
{
    let s = pattern + back;
    assert(front + pattern + back =~= front + s);
    assert forall|i: int| 0 <= i < front.len() && #[trigger] front[i] == pattern[0] implies i + 1
        < front.len() && front[i + 1] != pattern[1] by {}
    lemma_passed_over(front, s, pattern, by);
    assert(s.subrange(0, pattern.len() as int) =~= pattern);
    assert(s.skip(pattern.len() as int) =~= back);
    assert(front + (by + replaced(back, pattern, by)) =~= front + by + replaced(
        back,
        pattern,
        by,
    ));
}

proof fn lemma_passed_over_text(
    front: Seq<char>,
    middle: Seq<char>,
    back: Seq<char>,
    pattern: Seq<char>,
    by: Seq<char>,
)
    requires
        pattern.len() > 1,
        pattern[0] == '&',
        !front.contains('&'),
        !middle.contains('&'),
    ensures
        replaced(front + middle + back, pattern, by) == front + middle + replaced(
            back,
            pattern,
            by,
        ),
{
    let all = front + middle;
    assert forall|i: int| 0 <= i < all.len() && #[trigger] all[i] == pattern[0] implies i + 1
        < all.len() && all[i + 1] != pattern[1] by {
        if i < front.len() {
            assert(front[i] == '&');
        } else {
            assert(middle[i - front.len()] == '&');
        }
    }
    lemma_passed_over(all, back, pattern, by);
}

/// The four entities that stand for a character other than `&` are decoded
/// where they stand, one as well as many, and decoding goes on behind them.
pub proof fn law_entities_are_decoded(front: Seq<char>, back: Seq<char>)
    requires
        !front.contains('&'),
    ensures
        decoded(front + "&nbsp;"@ + back) == front + seq![' '] + decoded(back),
        decoded(front + "&lt;"@ + back) == front + seq!['<'] + decoded(back),
        decoded(front + "&gt;"@ + back) == front + seq!['>'] + decoded(back),
        decoded(front + "&quot;"@ + back) == front + seq!['"'] + decoded(back),
{
    reveal_strlit("&nbsp;");
    reveal_strlit("&amp;");
    reveal_strlit("&lt;");
    reveal_strlit("&gt;");
    reveal_strlit("&quot;");
    reveal_strlit(" ");
    reveal_strlit("&");
    reveal_strlit("<");
    reveal_strlit(">");
    reveal_strlit("\"");
    let (nbsp, amp, lt, gt, quot) = ("&nbsp;"@, "&amp;"@, "&lt;"@, "&gt;"@, "&quot;"@);
    let b1 = replaced(back, nbsp, " "@);
    let b2 = replaced(b1, amp, "&"@);
    let b3 = replaced(b2, lt, "<"@);
    let b4 = replaced(b3, gt, ">"@);
    assert(" "@ =~= seq![' ']);
    assert("<"@ =~= seq!['<']);
    assert(">"@ =~= seq!['>']);
    assert("\""@ =~= seq!['"']);
    // A space.
    lemma_replaced_here(front, nbsp, back, " "@);
    lemma_passed_over_text(front, " "@, b1, amp, "&"@);
    lemma_passed_over_text(front, " "@, b2, lt, "<"@);
    lemma_passed_over_text(front, " "@, b3, gt, ">"@);
    lemma_passed_over_text(front, " "@, b4, quot, "\""@);
    // The opening bracket.
    lemma_replaced_behind(front, lt, back, nbsp, " "@);
    lemma_replaced_behind(front, lt, b1, amp, "&"@);
    lemma_replaced_here(front, lt, b2, "<"@);
    lemma_passed_over_text(front, "<"@, b3, gt, ">"@);
    lemma_passed_over_text(front, "<"@, b4, quot, "\""@);
    // The closing bracket.
    lemma_replaced_behind(front, gt, back, nbsp, " "@);
    lemma_replaced_behind(front, gt, b1, amp, "&"@);
    lemma_replaced_behind(front, gt, b2, lt, "<"@);
    lemma_replaced_here(front, gt, b3, ">"@);
    lemma_passed_over_text(front, ">"@, b4, quot, "\""@);
    // The quotation mark.
    lemma_replaced_behind(front, quot, back, nbsp, " "@);
    lemma_replaced_behind(front, quot, b1, amp, "&"@);
    lemma_replaced_behind(front, quot, b2, lt, "<"@);
    lemma_replaced_behind(front, quot, b3, gt, ">"@);
    lemma_replaced_here(front, quot, b4, "\""@);
}

/// The entity for `&` is decoded where it stands, and a lone `&` stays, where
/// what follows, up to the next `&`, does not make another entity of it.
pub proof fn law_ampersands_are_decoded(front: Seq<char>, back: Seq<char>)
    requires
        !front.contains('&'),
        back.len() > 0,
        back[0] != '&' && back[0] != 'n' && back[0] != 'a' && back[0] != 'l' && back[0] != 'g'
            && back[0] != 'q',
    ensures
        decoded(front + "&amp;"@ + back) == front + seq!['&'] + decoded(back),
        decoded(front + seq!['&'] + back) == front + seq!['&'] + decoded(back),
{
    reveal_strlit("&nbsp;");
    reveal_strlit("&amp;");
    reveal_strlit("&lt;");
    reveal_strlit("&gt;");
    reveal_strlit("&quot;");
    reveal_strlit("&");
    let (nbsp, amp, lt, gt, quot) = ("&nbsp;"@, "&amp;"@, "&lt;"@, "&gt;"@, "&quot;"@);
    let first = seq![back[0]];
    let rest = back.skip(1);
    let kept = seq!['&', back[0]];
    let none = Seq::<char>::empty();
    assert(back =~= first + rest);
    let r1 = replaced(rest, nbsp, " "@);
    let r2 = replaced(r1, amp, "&"@);
    let r3 = replaced(r2, lt, "<"@);
    let r4 = replaced(r3, gt, ">"@);
    let r5 = replaced(r4, quot, "\""@);
    // What decoding makes of the text behind.
    assert(!none.contains('&'));
    assert(none + first =~= first);
    lemma_passed_over_text(none, first, rest, nbsp, " "@);
    lemma_passed_over_text(none, first, r1, amp, "&"@);
    lemma_passed_over_text(none, first, r2, lt, "<"@);
    lemma_passed_over_text(none, first, r3, gt, ">"@);
    lemma_passed_over_text(none, first, r4, quot, "\""@);
    assert(decoded(back) == first + r5);
    // A lone ampersand.
    assert(front + seq!['&'] + back =~= front + kept + rest);
    lemma_replaced_behind(front, kept, rest, nbsp, " "@);
    lemma_replaced_behind(front, kept, r1, amp, "&"@);
    lemma_replaced_behind(front, kept, r2, lt, "<"@);
    lemma_replaced_behind(front, kept, r3, gt, ">"@);
    lemma_replaced_behind(front, kept, r4, quot, "\""@);
    assert(front + kept + r5 =~= front + seq!['&'] + (first + r5));
    // The entity.
    lemma_replaced_behind(front, amp, back, nbsp, " "@);
    lemma_replaced_here(front, amp, first + r1, "&"@);
    assert("&"@ =~= seq!['&']);
    assert(front + "&"@ + (first + r2) =~= front + kept + r2);
}

/// A message has a chip of an application just where one of its mentions is of
/// that application, ASCII case aside.
pub proof fn law_chip(msg: GraphChatMessage, app_id: Seq<char>)
    ensures
        has_chip(msg, app_id) <==> exists|i: int|
            0 <= i < msg.mentions@.len() && (
            (#[trigger] msg.mentions@[i]).mentioned.application matches Some(app) && lowered(
                app.id@,
            ) == lowered(app_id)),
{
    if has_chip(msg, app_id) {
        let i = choose|i: int|
            0 <= i < msg.mentions@.len() && mentions_application(
                #[trigger] msg.mentions@[i],
                app_id,
            );
        assert(msg.mentions@[i].mentioned.application is Some);
    }
    if exists|i: int|
        0 <= i < msg.mentions@.len() && (
        (#[trigger] msg.mentions@[i]).mentioned.application matches Some(app) && lowered(app.id@)
            == lowered(app_id)) {
        let i = choose|i: int|
            0 <= i < msg.mentions@.len() && (
            (#[trigger] msg.mentions@[i]).mentioned.application matches Some(app) && lowered(
                app.id@,
            ) == lowered(app_id));
        assert(mentions_application(msg.mentions@[i], app_id));
    }
}

/// A message is for the bot just where it has a chip of the bot or its plain
/// text names the bot: either is enough, and nothing else is.
pub proof fn law_either_is_a_mention(msg: GraphChatMessage, creds: Credentials)
    ensures
        has_chip(msg, creds.bot_app_id@) ==> mentioned(msg, creds),
        names_bot(plain(msg.body.content@), creds.bot_display_name@) ==> mentioned(msg, creds),
        !has_chip(msg, creds.bot_app_id@) && !names_bot(
            plain(msg.body.content@),
            creds.bot_display_name@,
        ) ==> !mentioned(msg, creds),
{
}

/// A name with a character that belongs to no word is named by `@name` alone,
/// and no text names a bot without a name.
pub proof fn law_name_of_several_words(text: Seq<char>, name: Seq<char>, i: int)
    requires
        0 <= i < name.len(),
        !alphanumeric(lowered(name)[i]),
    ensures
        names_bot(text, name) <==> occurs(lowered(text), seq!['@'] + lowered(name)),
        !names_bot(text, Seq::empty()),
{
    let t = lowered(text);
    let n = lowered(name);
    if whole_word(t, word_chars(t), n) {
        let at = choose|at: int| whole_word_at(t, word_chars(t), n, at);
        assert(t.subrange(at, at + n.len())[i] == t[at + i]);
        assert(word_chars(t)[at + i]);
    }
}

/// A word is a whole word of a text just where it stands there, made of word
/// characters, with none next to it.
pub proof fn law_whole_word(
    front: Seq<char>,
    word: Seq<char>,
    back: Seq<char>,
    in_word: Seq<bool>,
)
    requires
        in_word.len() == front.len() + word.len() + back.len(),
    ensures
        whole_word_at(front + word + back, in_word, word, front.len() as int) <==> (forall|k: int|
            front.len() <= k < front.len() + word.len() ==> #[trigger] in_word[k]) && (front.len()
            > 0 ==> !in_word[front.len() - 1]) && (back.len() > 0 ==> !in_word[front.len() as int
            + word.len()]),
{
    let s = front + word + back;
    assert(s.subrange(front.len() as int, front.len() as int + word.len()) =~= word);
}

/// Tags go first and entities after them: what stripping leaves is decoded, all
/// of it.
pub proof fn law_plain_text(s: Seq<char>)
    ensures
        plain(s) == decoded(untagged(s)),
        !holds_tag(s) ==> plain(s) == decoded(s),
        !holds_entity(untagged(s)) ==> plain(s) == untagged(s),
{
    if !holds_tag(s) {
        law_stripping_keeps_plain_text(s);
    }
    if !holds_entity(untagged(s)) {
        law_no_tag_survives_stripping(s);
        law_plain_text_passes_unchanged(untagged(s));
        law_stripping_keeps_plain_text(untagged(s));
    }
}

/// Escapes are undone in order: first those for spaces, then those for `&`, then
/// the others, so that one of these is decoded also where its `&` was escaped.
pub proof fn law_escaped_entities_are_decoded(front: Seq<char>, back: Seq<char>)
    requires
        !front.contains('&'),
    ensures
        decoded(front + "&amp;lt;"@ + back) == front + seq!['<'] + decoded(back),
        decoded(front + "&amp;gt;"@ + back) == front + seq!['>'] + decoded(back),
        decoded(front + "&amp;quot;"@ + back) == front + seq!['"'] + decoded(back),
        decoded(front + "&amp;nbsp;"@ + back) == front + "&nbsp;"@ + decoded(back),
{
    reveal_strlit("&nbsp;");
    reveal_strlit("&amp;");
    reveal_strlit("&lt;");
    reveal_strlit("&gt;");
    reveal_strlit("&quot;");
    reveal_strlit("&amp;lt;");
    reveal_strlit("&amp;gt;");
    reveal_strlit("&amp;quot;");
    reveal_strlit("&amp;nbsp;");
    reveal_strlit(" ");
    reveal_strlit("&");
    reveal_strlit("<");
    reveal_strlit(">");
    reveal_strlit("\"");
    let (nbsp, amp, lt, gt, quot) = ("&nbsp;"@, "&amp;"@, "&lt;"@, "&gt;"@, "&quot;"@);
    let b1 = replaced(back, nbsp, " "@);
    let b2 = replaced(b1, amp, "&"@);
    let b3 = replaced(b2, lt, "<"@);
    let b4 = replaced(b3, gt, ">"@);
    assert("<"@ =~= seq!['<']);
    assert(">"@ =~= seq!['>']);
    assert("\""@ =~= seq!['"']);
    assert("&amp;lt;"@ =~= amp + lt.skip(1));
    lemma_unescaped(front, "&amp;lt;"@, lt, back);
    lemma_replaced_here(front, lt, b2, "<"@);
    lemma_passed_over_text(front, "<"@, b3, gt, ">"@);
    lemma_passed_over_text(front, "<"@, b4, quot, "\""@);
    assert("&amp;gt;"@ =~= amp + gt.skip(1));
    lemma_unescaped(front, "&amp;gt;"@, gt, back);
    lemma_replaced_behind(front, gt, b2, lt, "<"@);
    lemma_replaced_here(front, gt, b3, ">"@);
    lemma_passed_over_text(front, ">"@, b4, quot, "\""@);
    assert("&amp;quot;"@ =~= amp + quot.skip(1));
    lemma_unescaped(front, "&amp;quot;"@, quot, back);
    lemma_replaced_behind(front, quot, b2, lt, "<"@);
    lemma_replaced_behind(front, quot, b3, gt, ">"@);
    lemma_replaced_here(front, quot, b4, "\""@);
    assert("&amp;nbsp;"@ =~= amp + nbsp.skip(1));
    lemma_unescaped(front, "&amp;nbsp;"@, nbsp, back);
    lemma_replaced_behind(front, nbsp, b2, lt, "<"@);
    lemma_replaced_behind(front, nbsp, b3, gt, ">"@);
    lemma_replaced_behind(front, nbsp, b4, quot, "\""@);
}

/// What the first two steps of decoding make of an escaped entity.
proof fn lemma_unescaped(
    front: Seq<char>,
    escaped: Seq<char>,
    entity: Seq<char>,
    back: Seq<char>,
)
    requires
        !front.contains('&'),
        entity.len() > 1 && entity[0] == '&',
        forall|i: int| 1 <= i < entity.len() ==> #[trigger] entity[i] != '&',
        escaped == "&amp;"@ + entity.skip(1),
    ensures
        replaced(replaced(front + escaped + back, "&nbsp;"@, " "@), "&amp;"@, "&"@) == front
            + entity + replaced(replaced(back, "&nbsp;"@, " "@), "&amp;"@, "&"@),
{
    reveal_strlit("&nbsp;");
    reveal_strlit("&amp;");
    reveal_strlit("&");
    let (nbsp, amp) = ("&nbsp;"@, "&amp;"@);
    let tail = entity.skip(1);
    let b1 = replaced(back, nbsp, " "@);
    let b2 = replaced(b1, amp, "&"@);
    assert forall|i: int| 1 <= i < escaped.len() implies #[trigger] escaped[i] != '&' by {
        if i >= amp.len() {
            assert(escaped[i] == entity[i - amp.len() + 1]);
        }
    }
    lemma_replaced_behind(front, escaped, back, nbsp, " "@);
    assert(front + escaped + b1 =~= front + amp + (tail + b1));
    lemma_replaced_here(front, amp, tail + b1, "&"@);
    let none = Seq::<char>::empty();
    assert(!tail.contains('&'));
    assert(none + tail =~= tail);
    lemma_passed_over_text(none, tail, b1, amp, "&"@);
    assert(front + "&"@ + (tail + b2) =~= front + entity + b2);
}

/// Whether a word stands in a text at a place, with all its characters word
/// characters and no word character before or behind it.
pub open spec fn stands_alone_at(text: Seq<char>, word: Seq<char>, at: int) -> bool {
    &&& 0 <= at && at + word.len() <= text.len()
    &&& forall|k: int| 0 <= k < word.len() ==> #[trigger] word[k] == text[at + k]
    &&& forall|k: int| 0 <= k < word.len() ==> alphanumeric(#[trigger] word[k])
    &&& at > 0 ==> !alphanumeric(text[at - 1])
    &&& at + word.len() < text.len() ==> !alphanumeric(text[at + word.len()])
}

/// Which texts name a bot that has a name: those that hold an `@` and the name,
/// and those in which the name stands alone; ASCII case aside.
pub proof fn law_naming(text: Seq<char>, name: Seq<char>)
    requires
        name.len() > 0,
    ensures
        names_bot(text, name) <==> occurs(lowered(text), seq!['@'] + lowered(name)) || exists|
            at: int,
        |
            stands_alone_at(lowered(text), lowered(name), at),
{
    let t = lowered(text);
    let n = lowered(name);
    assert(n.len() == name.len());
    let marks = word_chars(t);
    if whole_word(t, marks, n) {
        let at = choose|at: int| whole_word_at(t, marks, n, at);
        let found = t.subrange(at, at + n.len());
        assert forall|k: int| 0 <= k < n.len() implies #[trigger] n[k] == t[at + k] && alphanumeric(
            n[k],
        ) by {
            assert(found[k] == t[at + k]);
            assert(marks[at + k]);
        }
        assert(stands_alone_at(t, n, at));
    }
    if exists|at: int| stands_alone_at(t, n, at) {
        let at = choose|at: int| stands_alone_at(t, n, at);
        assert(t.subrange(at, at + n.len()) =~= n);
        assert forall|k: int| at <= k < at + n.len() implies #[trigger] marks[k] by {
            assert(n[k - at] == t[k]);
            assert(alphanumeric(n[k - at]));
        }
        assert(whole_word_at(t, marks, n, at));
    }
}

} // verus!
