//! Laws of asking an operator: which answers are understood, and which
//! messages count.
use vstd::prelude::*;

use crate::approval::{
    choice, choice_by_text, choice_picked, first_choice, first_reply, latest, lemma_choice_by_text,
    may_answer, reply, token_char, token_seed, token_shaped, token_text, verdict, TOKEN_LEN,
};
use crate::graph::{
    chronological, created_before, law_chronological, sender, GraphChatMessage,
};
use crate::mentions::{
    holds_entity, holds_tag, law_leading_tag_is_stripped, law_plain_text_passes_unchanged,
    law_trailing_tag_is_stripped, plain,
};
use crate::number::{decimal, digit, lemma_decimal_reads_back, natural};
use crate::protocol::ApprovalResponse;
use crate::scan::{
    is_word, joined, lemma_joined_words_trimmed, lemma_words, lemma_words_after,
    lemma_words_of_word, occurs, occurs_at, trimmed, words,
};
use crate::text::{lemma_precedes_irreflexive, lower_char, lowered, white_space};

verus! {

// ---------------------------------------------------------------------------
// Tokens
// ---------------------------------------------------------------------------

/// Seeds that leave different remainders by the number of token characters
/// have different tokens.
pub proof fn law_tokens_of_unlike_seeds_differ(a: u64, b: u64)
    requires
        a % 36 != b % 36,
    ensures
        token_text(a, TOKEN_LEN as nat) != token_text(b, TOKEN_LEN as nat),
{
    assert(token_text(a, TOKEN_LEN as nat)[0] == token_char(a as int % 36));
    assert(token_text(b, TOKEN_LEN as nat)[0] == token_char(b as int % 36));
}

proof fn lemma_next_count(base: u64, counter: u64)
    ensures
        base.wrapping_add(counter.wrapping_add(1)) == base.wrapping_add(counter).wrapping_add(1),
{
}

proof fn lemma_next_remainder(seed: u64)
    ensures
        seed % 36 != seed.wrapping_add(1) % 36,
{
}

/// Two tokens made one after the other in the same millisecond differ.
pub proof fn law_consecutive_tokens_differ(now_ms: u64, counter: u64)
    ensures
        token_text(token_seed(now_ms, counter), TOKEN_LEN as nat) != token_text(
            token_seed(now_ms, counter.wrapping_add(1)),
            TOKEN_LEN as nat,
        ),
{
    let seed = token_seed(now_ms, counter);
    assert(token_seed(now_ms, counter.wrapping_add(1)) == seed.wrapping_add(1)) by {
        reveal(token_seed);
        lemma_next_count(now_ms.wrapping_mul(2_654_435_761), counter);
    }
    lemma_next_remainder(seed);
    law_tokens_of_unlike_seeds_differ(seed, seed.wrapping_add(1));
}

/// Tokens that are equal but for ASCII case are equal.
proof fn lemma_lowered_tokens(a: Seq<char>, b: Seq<char>)
    requires
        token_shaped(a),
        token_shaped(b),
        lowered(a) == lowered(b),
    ensures
        a == b,
{
    assert forall|i: int| 0 <= i < a.len() implies a[i] == b[i] by {
        assert(lowered(a)[i] == lowered(b)[i]);
        assert(lowered(a)[i] == lower_char(a[i]));
        assert(lowered(b)[i] == lower_char(b[i]));
    }
    assert(a =~= b);
}

/// A message answers at most one token.
pub proof fn law_answer_fits_one_token(
    body: Seq<char>,
    a: Seq<char>,
    b: Seq<char>,
    choices: Seq<String>,
)
    requires
        token_shaped(a),
        token_shaped(b),
        reply(body, a) is Some || choice(body, a, choices) is Some,
        a != b,
    ensures
        reply(body, b) is None,
        choice(body, b, choices) is None,
{
    if lowered(words(plain(body))[0]) == lowered(b) {
        lemma_lowered_tokens(a, b);
    }
}

// ---------------------------------------------------------------------------
// Answers that are understood
// ---------------------------------------------------------------------------

/// What is typed for a token, in any ASCII case, is one word without markup.
proof fn lemma_typed_token(typed: Seq<char>, token: Seq<char>)
    requires
        token_shaped(token),
        lowered(typed) == lowered(token),
    ensures
        is_word(typed),
        !typed.contains('<'),
        !typed.contains('&'),
{
    assert(typed.len() == lowered(typed).len());
    assert(token.len() == lowered(token).len());
    assert forall|i: int| 0 <= i < typed.len() implies {
        let c = #[trigger] typed[i];
        'A' <= c <= 'Z' || 'a' <= c <= 'z' || '0' <= c <= '9'
    } by {
        assert(lowered(typed)[i] == lowered(token)[i]);
        assert(lowered(typed)[i] == lower_char(typed[i]));
        assert(lowered(token)[i] == lower_char(token[i]));
    }
}

/// A text behind a part without markup holds markup only if it did before.
proof fn lemma_markup_stays_behind(front: Seq<char>, rest: Seq<char>)
    requires
        !front.contains('<'),
        !front.contains('&'),
        !holds_tag(rest),
        !holds_entity(rest),
    ensures
        !holds_tag(front + rest),
        !holds_entity(front + rest),
{
    let s = front + rest;
    let n = front.len() as int;
    if holds_tag(s) {
        let (i, j) = choose|i: int, j: int|
            0 <= i < j < s.len() && #[trigger] s[i] == '<' && !white_space(s[i + 1])
                && #[trigger] s[j] == '>';
        if i < n {
            assert(front[i] == '<');
        } else {
            assert(rest[i - n] == '<' && !white_space(rest[i - n + 1]) && rest[j - n] == '>');
        }
    }
    reveal_strlit("&nbsp;");
    reveal_strlit("&amp;");
    reveal_strlit("&lt;");
    reveal_strlit("&gt;");
    reveal_strlit("&quot;");
    lemma_entity_stays_behind(front, rest, "&nbsp;"@);
    lemma_entity_stays_behind(front, rest, "&amp;"@);
    lemma_entity_stays_behind(front, rest, "&lt;"@);
    lemma_entity_stays_behind(front, rest, "&gt;"@);
    lemma_entity_stays_behind(front, rest, "&quot;"@);
}

proof fn lemma_entity_stays_behind(front: Seq<char>, rest: Seq<char>, entity: Seq<char>)
    requires
        entity.len() > 0,
        !front.contains(entity[0]),
        !occurs(rest, entity),
    ensures
        !occurs(front + rest, entity),
{
    let s = front + rest;
    let n = front.len() as int;
    if occurs(s, entity) {
        let at = choose|at: int| occurs_at(s, entity, at);
        assert(s.subrange(at, at + entity.len())[0] == entity[0]);
        assert(s[at] == entity[0]);
        if at < n {
            assert(front[at] == entity[0]);
        } else {
            assert(rest.subrange(at - n, at - n + entity.len()) =~= s.subrange(
                at,
                at + entity.len(),
            ));
            assert(occurs_at(rest, entity, at - n));
        }
    }
}

/// The words of a message that is a token, a space and more text.
pub proof fn lemma_words_of_answer(typed: Seq<char>, token: Seq<char>, rest: Seq<char>)
    requires
        token_shaped(token),
        lowered(typed) == lowered(token),
        !holds_tag(rest),
        !holds_entity(rest),
    ensures
        words(plain(typed + seq![' '] + rest)) == seq![typed] + words(rest),
{
    lemma_typed_token(typed, token);
    let front = typed + seq![' '];
    assert forall|c: char| c == '<' || c == '&' implies !(#[trigger] front.contains(c)) by {
        if front.contains(c) {
            let k = choose|k: int| 0 <= k < front.len() && front[k] == c;
            assert(typed[k] == c);
        }
    }
    lemma_markup_stays_behind(front, rest);
    law_plain_text_passes_unchanged(typed + seq![' '] + rest);
    lemma_words_after(typed, ' ', rest);
}

/// Text without `<` and `&` has no markup.
pub proof fn lemma_no_markup(s: Seq<char>)
    requires
        !s.contains('<'),
        !s.contains('&'),
    ensures
        !holds_tag(s),
        !holds_entity(s),
{
    let none = Seq::<char>::empty();
    assert(s + none =~= s);
    reveal_strlit("&nbsp;");
    reveal_strlit("&amp;");
    reveal_strlit("&lt;");
    reveal_strlit("&gt;");
    reveal_strlit("&quot;");
    lemma_markup_stays_behind(s, none);
}

/// The word of a verdict is one word without markup.
proof fn lemma_verdict_word(word: Seq<char>)
    requires
        verdict(word) is Some,
    ensures
        is_word(word),
        !word.contains('<'),
        !word.contains('&'),
{
    reveal_strlit("approve");
    reveal_strlit("deny");
    reveal_strlit("always");
    let w = lowered(word);
    assert(word.len() == w.len());
    assert forall|i: int| 0 <= i < word.len() implies {
        let c = #[trigger] word[i];
        'A' <= c <= 'Z' || 'a' <= c <= 'z'
    } by {
        assert(w[i] == lower_char(word[i]));
        assert('a' <= w[i] <= 'z');
    }
}

/// The replies that the prompt asks for are understood: the token, a space
/// and one of the three words, each in any ASCII case.
pub proof fn law_advertised_reply_is_understood(
    typed: Seq<char>,
    token: Seq<char>,
    word: Seq<char>,
)
    requires
        token_shaped(token),
        lowered(typed) == lowered(token),
        verdict(word) is Some,
    ensures
        reply(typed + seq![' '] + word, token) == verdict(word),
{
    lemma_verdict_word(word);
    lemma_no_markup(word);
    lemma_words_of_answer(typed, token, word);
    lemma_words_of_word(word);
    let ws = words(plain(typed + seq![' '] + word));
    assert(ws =~= seq![typed, word]);
}

/// An answer may be wrapped in a tag, as Teams does with what is typed.
pub proof fn law_answer_may_be_wrapped_in_a_tag(
    open_tag: Seq<char>,
    body: Seq<char>,
    close_tag: Seq<char>,
    token: Seq<char>,
    choices: Seq<String>,
)
    requires
        !open_tag.contains('>'),
        open_tag.len() > 0 ==> !white_space(open_tag[0]),
        !body.contains('<'),
        !close_tag.contains('>'),
        close_tag.len() > 0 ==> !white_space(close_tag[0]),
    ensures
        ({
            let wrapped = seq!['<'] + open_tag + seq!['>'] + (body + seq!['<'] + close_tag + seq![
                '>',
            ]);
            &&& reply(wrapped, token) == reply(body, token)
            &&& choice(wrapped, token, choices) == choice(body, token, choices)
        }),
{
    let tail = body + seq!['<'] + close_tag + seq!['>'];
    law_leading_tag_is_stripped(open_tag, tail);
    law_trailing_tag_is_stripped(body, close_tag);
}

/// The three words and what they mean.
pub proof fn law_verdicts()
    ensures
        verdict("approve"@) == Some(ApprovalResponse::Approve),
        verdict("deny"@) == Some(ApprovalResponse::Deny),
        verdict("always"@) == Some(ApprovalResponse::AlwaysApprove),
{
    reveal_strlit("approve");
    reveal_strlit("deny");
    reveal_strlit("always");
    assert(lowered("approve"@) =~= "approve"@);
    assert(lowered("deny"@) =~= "deny"@);
    assert(lowered("always"@) =~= "always"@);
    assert("approve"@.len() == 7 && "deny"@.len() == 4 && "always"@.len() == 6);
}

/// The token, a space and the number of a choice, as the prompt lists it,
/// pick that choice.
pub proof fn law_number_picks_choice(
    typed: Seq<char>,
    token: Seq<char>,
    choices: Seq<String>,
    number: nat,
)
    requires
        token_shaped(token),
        lowered(typed) == lowered(token),
        1 <= number <= choices.len(),
        choices.len() <= usize::MAX,
    ensures
        choice(typed + seq![' '] + decimal(number), token, choices) == Some(number - 1),
{
    let text = decimal(number);
    lemma_decimal_reads_back(number);
    assert forall|i: int| 0 <= i < text.len() implies !white_space(#[trigger] text[i]) && text[i]
        != '<' && text[i] != '&' by {
        assert(digit(text[i]));
    }
    lemma_no_markup(text);
    lemma_words_of_answer(typed, token, text);
    lemma_words_of_word(text);
    let ws = words(plain(typed + seq![' '] + text));
    assert(ws.skip(1) =~= seq![text]);
    assert(joined(ws.skip(1), " "@) == text);
    lemma_joined_words_trimmed(seq![text]);
    assert(natural(text, usize::MAX as nat) == Some(number));
}

/// The token, a space and the text of a choice pick the first choice that is
/// equal to that text, ASCII case aside. The text is free of markup, has
/// single spaces between its words, and is not itself the number of a choice.
pub proof fn law_text_picks_choice(
    typed: Seq<char>,
    token: Seq<char>,
    choices: Seq<String>,
    text: Seq<char>,
    at: int,
)
    requires
        token_shaped(token),
        lowered(typed) == lowered(token),
        !holds_tag(text),
        !holds_entity(text),
        joined(words(text), " "@) == text,
        !(natural(text, usize::MAX as nat) matches Some(k) && 1 <= k <= choices.len()),
        0 <= at < choices.len(),
        lowered(choices[at]@) == lowered(text),
        forall|k: int| 0 <= k < at ==> lowered((#[trigger] choices[k])@) != lowered(text),
    ensures
        choice(typed + seq![' '] + text, token, choices) == Some(at),
{
    lemma_words_of_answer(typed, token, text);
    let ws = words(plain(typed + seq![' '] + text));
    assert(ws.skip(1) =~= words(text));
    lemma_words(text);
    lemma_joined_words_trimmed(words(text));
    lemma_choice_by_text(choices, text);
    let found = choice_by_text(choices, text);
    assert(found is Some) by {
        if found is None {
            assert(lowered(choices[at]@) != lowered(text));
        }
    }
    let i = found.unwrap();
    assert(i == at) by {
        if i < at {
            assert(lowered(choices[i]@) != lowered(text));
        } else if i > at {
            assert(lowered(choices[at]@) != lowered(text));
        }
    }
    assert(choice_picked(choices, text) == Some(at));
}

/// The word after the token is what counts; later words do not matter. For an
/// approval that is always so, for a choice where the words together pick
/// nothing.
pub proof fn law_later_words_do_not_matter(
    typed: Seq<char>,
    token: Seq<char>,
    word: Seq<char>,
    more: Seq<char>,
    choices: Seq<String>,
)
    requires
        token_shaped(token),
        lowered(typed) == lowered(token),
        is_word(word),
        !holds_tag(word + seq![' '] + more),
        !holds_entity(word + seq![' '] + more),
    ensures
        ({
            let rest = word + seq![' '] + more;
            let body = typed + seq![' '] + rest;
            &&& reply(body, token) == verdict(word)
            &&& choice_picked(choices, trimmed(joined(words(rest), " "@))) is None ==> choice(
                body,
                token,
                choices,
            ) == choice_picked(choices, word)
        }),
{
    let rest = word + seq![' '] + more;
    lemma_words_of_answer(typed, token, rest);
    lemma_words_after(word, ' ', more);
    let ws = words(plain(typed + seq![' '] + rest));
    assert(ws[0] == typed);
    assert(ws[1] == word);
    assert(ws.skip(1) =~= words(rest));
}

// ---------------------------------------------------------------------------
// Messages that count
// ---------------------------------------------------------------------------

/// Whether a message answers an approval.
pub open spec fn gives_reply(
    msg: GraphChatMessage,
    since: Seq<char>,
    bot: Seq<char>,
    token: Seq<char>,
) -> bool {
    may_answer(msg, since, bot) && reply(msg.body.content@, token) is Some
}

/// Whether a message picks a choice.
pub open spec fn gives_choice(
    msg: GraphChatMessage,
    since: Seq<char>,
    bot: Seq<char>,
    token: Seq<char>,
    choices: Seq<String>,
) -> bool {
    may_answer(msg, since, bot) && choice(msg.body.content@, token, choices) is Some
}

/// The first answer to an approval counts: where a message answers it and none
/// before it does, that message decides.
pub proof fn law_first_reply_decides(
    msgs: Seq<GraphChatMessage>,
    since: Seq<char>,
    bot: Seq<char>,
    token: Seq<char>,
    at: int,
)
    requires
        0 <= at < msgs.len(),
        gives_reply(msgs[at], since, bot, token),
        forall|k: int| 0 <= k < at ==> !gives_reply(#[trigger] msgs[k], since, bot, token),
    ensures
        first_reply(msgs, since, bot, token) == reply(msgs[at].body.content@, token),
    decreases at,
{
    if at > 0 {
        let rest = msgs.skip(1);
        assert(!gives_reply(msgs[0], since, bot, token));
        assert forall|k: int| 0 <= k < at - 1 implies !gives_reply(
            #[trigger] rest[k],
            since,
            bot,
            token,
        ) by {
            assert(rest[k] == msgs[k + 1]);
        }
        law_first_reply_decides(rest, since, bot, token, at - 1);
    }
}

/// The first choice made counts: where a message picks one and none before it
/// does, that message decides.
pub proof fn law_first_choice_decides(
    msgs: Seq<GraphChatMessage>,
    since: Seq<char>,
    bot: Seq<char>,
    token: Seq<char>,
    choices: Seq<String>,
    at: int,
)
    requires
        0 <= at < msgs.len(),
        gives_choice(msgs[at], since, bot, token, choices),
        forall|k: int|
            0 <= k < at ==> !gives_choice(#[trigger] msgs[k], since, bot, token, choices),
    ensures
        first_choice(msgs, since, bot, token, choices) == choice(
            msgs[at].body.content@,
            token,
            choices,
        ),
    decreases at,
{
    if at > 0 {
        let rest = msgs.skip(1);
        assert(!gives_choice(msgs[0], since, bot, token, choices));
        assert forall|k: int| 0 <= k < at - 1 implies !gives_choice(
            #[trigger] rest[k],
            since,
            bot,
            token,
            choices,
        ) by {
            assert(rest[k] == msgs[k + 1]);
        }
        law_first_choice_decides(rest, since, bot, token, choices, at - 1);
    }
}

/// Nothing else decides: where no message answers, whether because it is the
/// bot's own, or not newer than what was looked at, or says something else,
/// waiting goes on.
pub proof fn law_no_answer_without_a_message(
    msgs: Seq<GraphChatMessage>,
    since: Seq<char>,
    bot: Seq<char>,
    token: Seq<char>,
    choices: Seq<String>,
)
    ensures
        (forall|k: int|
            0 <= k < msgs.len() ==> !gives_reply(#[trigger] msgs[k], since, bot, token))
            ==> first_reply(msgs, since, bot, token) is None,
        (forall|k: int|
            0 <= k < msgs.len() ==> !gives_choice(#[trigger] msgs[k], since, bot, token, choices))
            ==> first_choice(msgs, since, bot, token, choices) is None,
    decreases msgs.len(),
{
    if msgs.len() > 0 {
        let rest = msgs.skip(1);
        law_no_answer_without_a_message(rest, since, bot, token, choices);
        assert forall|k: int| 0 <= k < rest.len() implies rest[k] == #[trigger] msgs[k + 1] by {}
        if forall|k: int|
            0 <= k < msgs.len() ==> !gives_reply(#[trigger] msgs[k], since, bot, token) {
            assert(!gives_reply(msgs[0], since, bot, token));
            assert forall|k: int| 0 <= k < rest.len() implies !gives_reply(
                #[trigger] rest[k],
                since,
                bot,
                token,
            ) by {
                assert(!gives_reply(msgs[k + 1], since, bot, token));
            }
        }
        if forall|k: int|
            0 <= k < msgs.len() ==> !gives_choice(
                #[trigger] msgs[k],
                since,
                bot,
                token,
                choices,
            ) {
            assert(!gives_choice(msgs[0], since, bot, token, choices));
            assert forall|k: int| 0 <= k < rest.len() implies !gives_choice(
                #[trigger] rest[k],
                since,
                bot,
                token,
                choices,
            ) by {
                assert(!gives_choice(msgs[k + 1], since, bot, token, choices));
            }
        }
    }
}

/// After a look, no message of that look is looked at again.
pub proof fn law_looked_at_messages_are_done(
    msgs: Seq<GraphChatMessage>,
    since: Seq<char>,
    bot: Seq<char>,
    at: int,
)
    requires
        0 <= at < msgs.len(),
    ensures
        !may_answer(chronological(msgs)[at], latest(chronological(msgs), since), bot),
{
    law_chronological(msgs);
    let sorted = chronological(msgs);
    let last = sorted.last();
    if at < sorted.len() - 1 {
        assert(!created_before(sorted[sorted.len() - 1], sorted[at]));
    } else {
        lemma_precedes_irreflexive(last.created_date_time@);
    }
}

// ---------------------------------------------------------------------------
// Waiting as a whole
// ---------------------------------------------------------------------------

/// What waiting for an approval comes to after some looks at the channel, each
/// with the time before it and the page that it found. Nothing while waiting
/// goes on.
pub open spec fn approval_outcome(
    looks: Seq<(u64, Seq<GraphChatMessage>)>,
    since: Seq<char>,
    deadline_ms: u64,
    bot: Seq<char>,
    token: Seq<char>,
) -> Option<ApprovalResponse>
    decreases looks.len(),
{
    if looks.len() == 0 {
        None
    } else if looks[0].0 >= deadline_ms {
        Some(ApprovalResponse::Deny)
    } else {
        let page = chronological(looks[0].1);
        match first_reply(page, since, bot, token) {
            Some(response) => Some(response),
            None => approval_outcome(looks.skip(1), latest(page, since), deadline_ms, bot, token),
        }
    }
}

/// What waiting for a choice comes to after some looks at the channel: the
/// choice, or none at the deadline. Nothing while waiting goes on.
pub open spec fn choice_outcome(
    looks: Seq<(u64, Seq<GraphChatMessage>)>,
    since: Seq<char>,
    deadline_ms: u64,
    bot: Seq<char>,
    token: Seq<char>,
    choices: Seq<String>,
) -> Option<Option<int>>
    decreases looks.len(),
{
    if looks.len() == 0 {
        None
    } else if looks[0].0 >= deadline_ms {
        Some(None)
    } else {
        let page = chronological(looks[0].1);
        match first_choice(page, since, bot, token, choices) {
            Some(i) => Some(Some(i)),
            None => choice_outcome(
                looks.skip(1),
                latest(page, since),
                deadline_ms,
                bot,
                token,
                choices,
            ),
        }
    }
}

/// Waiting is over once the clock has reached the deadline.
pub proof fn law_waiting_ends_at_the_deadline(
    looks: Seq<(u64, Seq<GraphChatMessage>)>,
    since: Seq<char>,
    deadline_ms: u64,
    bot: Seq<char>,
    token: Seq<char>,
    choices: Seq<String>,
)
    requires
        looks.len() > 0,
        looks.last().0 >= deadline_ms,
    ensures
        approval_outcome(looks, since, deadline_ms, bot, token) is Some,
        choice_outcome(looks, since, deadline_ms, bot, token, choices) is Some,
    decreases looks.len(),
{
    if looks.len() > 1 {
        let rest = looks.skip(1);
        assert(rest.last() == looks.last());
        law_waiting_ends_at_the_deadline(
            rest,
            latest(chronological(looks[0].1), since),
            deadline_ms,
            bot,
            token,
            choices,
        );
    }
}

/// Whether a look before the deadline found a message of someone other than
/// the bot that says this.
pub open spec fn someone_said(
    looks: Seq<(u64, Seq<GraphChatMessage>)>,
    deadline_ms: u64,
    bot: Seq<char>,
    token: Seq<char>,
    response: ApprovalResponse,
    k: int,
    i: int,
) -> bool {
    &&& 0 <= k < looks.len()
    &&& looks[k].0 < deadline_ms
    &&& 0 <= i < chronological(looks[k].1).len()
    &&& sender(chronological(looks[k].1)[i]) != Some(bot)
    &&& reply(chronological(looks[k].1)[i].body.content@, token) == Some(response)
}

proof fn lemma_reply_has_a_message(
    msgs: Seq<GraphChatMessage>,
    since: Seq<char>,
    bot: Seq<char>,
    token: Seq<char>,
) -> (i: int)
    requires
        first_reply(msgs, since, bot, token) is Some,
    ensures
        0 <= i < msgs.len(),
        may_answer(msgs[i], since, bot),
        reply(msgs[i].body.content@, token) == first_reply(msgs, since, bot, token),
    decreases msgs.len(),
{
    if gives_reply(msgs[0], since, bot, token) {
        0
    } else {
        let i = lemma_reply_has_a_message(msgs.skip(1), since, bot, token);
        i + 1
    }
}

/// Nothing is approved unless someone other than the bot has said so before
/// the deadline.
pub proof fn law_approval_needs_a_message(
    looks: Seq<(u64, Seq<GraphChatMessage>)>,
    since: Seq<char>,
    deadline_ms: u64,
    bot: Seq<char>,
    token: Seq<char>,
)
    ensures
        match approval_outcome(looks, since, deadline_ms, bot, token) {
            Some(response) => response != ApprovalResponse::Deny ==> exists|k: int, i: int|
                someone_said(looks, deadline_ms, bot, token, response, k, i),
            None => true,
        },
    decreases looks.len(),
{
    if looks.len() > 0 && looks[0].0 < deadline_ms {
        let page = chronological(looks[0].1);
        if first_reply(page, since, bot, token) is Some {
            let i = lemma_reply_has_a_message(page, since, bot, token);
            let response = first_reply(page, since, bot, token).unwrap();
            assert(someone_said(looks, deadline_ms, bot, token, response, 0, i));
        } else {
            let rest = looks.skip(1);
            let later = latest(page, since);
            law_approval_needs_a_message(rest, later, deadline_ms, bot, token);
            if let Some(response) = approval_outcome(rest, later, deadline_ms, bot, token) {
                if response != ApprovalResponse::Deny {
                    let (k, i) = choose|k: int, i: int|
                        someone_said(rest, deadline_ms, bot, token, response, k, i);
                    assert(rest[k] == looks[k + 1]);
                    assert(someone_said(looks, deadline_ms, bot, token, response, k + 1, i));
                }
            }
        }
    }
}

/// Silence is denial: where nobody but the bot says the token and one of the
/// words before the deadline, an approval is denied at the deadline.
pub proof fn law_silence_is_denial(
    looks: Seq<(u64, Seq<GraphChatMessage>)>,
    since: Seq<char>,
    deadline_ms: u64,
    bot: Seq<char>,
    token: Seq<char>,
)
    requires
        looks.len() > 0,
        looks.last().0 >= deadline_ms,
        forall|response: ApprovalResponse, k: int, i: int|
            !someone_said(looks, deadline_ms, bot, token, response, k, i),
    ensures
        approval_outcome(looks, since, deadline_ms, bot, token) == Some(ApprovalResponse::Deny),
{
    law_waiting_ends_at_the_deadline(looks, since, deadline_ms, bot, token, Seq::empty());
    law_approval_needs_a_message(looks, since, deadline_ms, bot, token);
}

/// Whether a look before the deadline found a message of someone other than
/// the bot that picks this choice.
pub open spec fn someone_picked(
    looks: Seq<(u64, Seq<GraphChatMessage>)>,
    deadline_ms: u64,
    bot: Seq<char>,
    token: Seq<char>,
    choices: Seq<String>,
    picked: int,
    k: int,
    i: int,
) -> bool {
    &&& 0 <= k < looks.len()
    &&& looks[k].0 < deadline_ms
    &&& 0 <= i < chronological(looks[k].1).len()
    &&& sender(chronological(looks[k].1)[i]) != Some(bot)
    &&& choice(chronological(looks[k].1)[i].body.content@, token, choices) == Some(picked)
}

proof fn lemma_choice_has_a_message(
    msgs: Seq<GraphChatMessage>,
    since: Seq<char>,
    bot: Seq<char>,
    token: Seq<char>,
    choices: Seq<String>,
) -> (i: int)
    requires
        first_choice(msgs, since, bot, token, choices) is Some,
    ensures
        0 <= i < msgs.len(),
        may_answer(msgs[i], since, bot),
        choice(msgs[i].body.content@, token, choices) == first_choice(
            msgs,
            since,
            bot,
            token,
            choices,
        ),
    decreases msgs.len(),
{
    if gives_choice(msgs[0], since, bot, token, choices) {
        0
    } else {
        let i = lemma_choice_has_a_message(msgs.skip(1), since, bot, token, choices);
        i + 1
    }
}

/// Nothing is chosen unless someone other than the bot has picked it before the
/// deadline.
pub proof fn law_choice_needs_a_message(
    looks: Seq<(u64, Seq<GraphChatMessage>)>,
    since: Seq<char>,
    deadline_ms: u64,
    bot: Seq<char>,
    token: Seq<char>,
    choices: Seq<String>,
)
    ensures
        choice_outcome(looks, since, deadline_ms, bot, token, choices) matches Some(
            Some(picked),
        ) ==> exists|k: int, i: int|
            someone_picked(looks, deadline_ms, bot, token, choices, picked, k, i),
    decreases looks.len(),
{
    if looks.len() > 0 && looks[0].0 < deadline_ms {
        let page = chronological(looks[0].1);
        if first_choice(page, since, bot, token, choices) is Some {
            let i = lemma_choice_has_a_message(page, since, bot, token, choices);
            let picked = first_choice(page, since, bot, token, choices).unwrap();
            assert(someone_picked(looks, deadline_ms, bot, token, choices, picked, 0, i));
        } else {
            let rest = looks.skip(1);
            let later = latest(page, since);
            law_choice_needs_a_message(rest, later, deadline_ms, bot, token, choices);
            if let Some(Some(picked)) = choice_outcome(
                rest,
                later,
                deadline_ms,
                bot,
                token,
                choices,
            ) {
                let (k, i) = choose|k: int, i: int|
                    someone_picked(rest, deadline_ms, bot, token, choices, picked, k, i);
                assert(rest[k] == looks[k + 1]);
                assert(someone_picked(looks, deadline_ms, bot, token, choices, picked, k + 1, i));
            }
        }
    }
}

} // verus!
