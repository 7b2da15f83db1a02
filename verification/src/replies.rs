//! Laws of prompts and replies: what a prompt says, and how what is typed is
//! read, word by word.
use vstd::prelude::*;

use crate::answers::{
    gives_reply, law_first_reply_decides, lemma_no_markup, lemma_words_of_answer,
};
use crate::approval::{
    addressed, approval_prompt_text, choice, choice_by_text, choice_picked, choice_prompt_text,
    effective_timeout, first_reply, latest, lemma_choice_by_text, may_answer, next_seed,
    option_lines, reply, token_char, token_seed, token_shaped, token_text, verdict,
    Question,
};
use crate::graph::GraphChatMessage;
use crate::mentions::{holds_entity, holds_tag, plain};
use crate::number::{decimal, natural};
use crate::protocol::ApprovalResponse;
use crate::reaching::{law_sender, sent_by};
use crate::scan::{
    is_word, joined, lemma_cut, lemma_cut_joined, lemma_words_of_word, trimmed, words,
};
use crate::text::{lower_char, lowered, precedes};

verus! {

// ---------------------------------------------------------------------------
// Replies to an approval
// ---------------------------------------------------------------------------

/// How a word is read, by its ASCII lower case alone.
pub proof fn law_verdict_by_lower_case(word: Seq<char>)
    ensures
        lowered(word) == "approve"@ ==> verdict(word) == Some(ApprovalResponse::Approve),
        lowered(word) == "deny"@ ==> verdict(word) == Some(ApprovalResponse::Deny),
        lowered(word) == "always"@ ==> verdict(word) == Some(ApprovalResponse::AlwaysApprove),
        lowered(word) != "approve"@ && lowered(word) != "deny"@ && lowered(word) != "always"@
            ==> verdict(word) is None,
{
    reveal_strlit("approve");
    reveal_strlit("deny");
    reveal_strlit("always");
    assert("approve"@.len() == 7 && "deny"@.len() == 4 && "always"@.len() == 6);
}

/// A word whose lower case is of letters alone is one word without markup.
proof fn lemma_letters(word: Seq<char>)
    requires
        word.len() > 0,
        forall|i: int| 0 <= i < word.len() ==> 'a' <= #[trigger] lowered(word)[i] <= 'z',
    ensures
        is_word(word),
        !holds_tag(word),
        !holds_entity(word),
{
    assert forall|i: int| 0 <= i < word.len() implies {
        let c = #[trigger] word[i];
        'A' <= c <= 'Z' || 'a' <= c <= 'z'
    } by {
        assert(lowered(word)[i] == lower_char(word[i]));
    }
    lemma_no_markup(word);
}

proof fn lemma_reply_of_word(typed: Seq<char>, token: Seq<char>, word: Seq<char>)
    requires
        token_shaped(token),
        lowered(typed) == lowered(token),
        is_word(word),
        !holds_tag(word),
        !holds_entity(word),
    ensures
        reply(typed + seq![' '] + word, token) == verdict(word),
{
    lemma_words_of_answer(typed, token, word);
    lemma_words_of_word(word);
    let ws = words(plain(typed + seq![' '] + word));
    assert(ws =~= seq![typed, word]);
}

/// The token, a space and a word are read by the word's ASCII lower case:
/// `approve` approves, `deny` denies and `always` always approves, however the
/// letters of the token and of the word are written.
pub proof fn law_reply_by_lower_case(typed: Seq<char>, token: Seq<char>, word: Seq<char>)
    requires
        token_shaped(token),
        lowered(typed) == lowered(token),
    ensures
        lowered(word) == "approve"@ ==> reply(typed + seq![' '] + word, token) == Some(
            ApprovalResponse::Approve,
        ),
        lowered(word) == "deny"@ ==> reply(typed + seq![' '] + word, token) == Some(
            ApprovalResponse::Deny,
        ),
        lowered(word) == "always"@ ==> reply(typed + seq![' '] + word, token) == Some(
            ApprovalResponse::AlwaysApprove,
        ),
{
    reveal_strlit("approve");
    reveal_strlit("deny");
    reveal_strlit("always");
    let w = lowered(word);
    assert(word.len() == w.len());
    law_verdict_by_lower_case(word);
    if w == "approve"@ || w == "deny"@ || w == "always"@ {
        assert forall|i: int| 0 <= i < word.len() implies 'a' <= #[trigger] w[i] <= 'z' by {}
        lemma_letters(word);
        lemma_reply_of_word(typed, token, word);
    }
}

/// The token, a space and any other word are no answer.
pub proof fn law_other_words_are_no_reply(typed: Seq<char>, token: Seq<char>, word: Seq<char>)
    requires
        token_shaped(token),
        lowered(typed) == lowered(token),
        is_word(word),
        !holds_tag(word),
        !holds_entity(word),
        lowered(word) != "approve"@,
        lowered(word) != "deny"@,
        lowered(word) != "always"@,
    ensures
        reply(typed + seq![' '] + word, token) is None,
{
    law_verdict_by_lower_case(word);
    lemma_reply_of_word(typed, token, word);
}

/// How any message is read: its first word has to be the token, ASCII case
/// aside, and its second word decides by its ASCII lower case.
pub proof fn law_first_two_words_decide(body: Seq<char>, token: Seq<char>)
    ensures
        words(plain(body)).len() < 2 ==> reply(body, token) is None,
        words(plain(body)).len() >= 2 ==> {
            let first = words(plain(body))[0];
            let second = words(plain(body))[1];
            &&& lowered(first) != lowered(token) ==> reply(body, token) is None
            &&& lowered(first) == lowered(token) && lowered(second) == "approve"@ ==> reply(
                body,
                token,
            ) == Some(ApprovalResponse::Approve)
            &&& lowered(first) == lowered(token) && lowered(second) == "deny"@ ==> reply(
                body,
                token,
            ) == Some(ApprovalResponse::Deny)
            &&& lowered(first) == lowered(token) && lowered(second) == "always"@ ==> reply(
                body,
                token,
            ) == Some(ApprovalResponse::AlwaysApprove)
            &&& lowered(second) != "approve"@ && lowered(second) != "deny"@ && lowered(second)
                != "always"@ ==> reply(body, token) is None
        },
{
    if words(plain(body)).len() >= 2 {
        law_verdict_by_lower_case(words(plain(body))[1]);
    }
}

// ---------------------------------------------------------------------------
// Picking a choice
// ---------------------------------------------------------------------------

/// A number from one to as many as there are choices picks the choice of that
/// number.
pub proof fn law_number_counts_from_one(choices: Seq<String>, text: Seq<char>, number: nat)
    requires
        natural(text, usize::MAX as nat) == Some(number),
        1 <= number <= choices.len(),
    ensures
        choice_picked(choices, text) == Some(number - 1),
{
}

/// A text that is not such a number picks the first choice that is equal to it
/// but for ASCII case.
pub proof fn law_text_is_compared_by_lower_case(choices: Seq<String>, text: Seq<char>, at: int)
    requires
        !(natural(text, usize::MAX as nat) matches Some(k) && 1 <= k <= choices.len()),
        0 <= at < choices.len(),
        lowered(choices[at]@) == lowered(text),
        forall|k: int| 0 <= k < at ==> lowered((#[trigger] choices[k])@) != lowered(text),
    ensures
        choice_picked(choices, text) == Some(at),
{
    lemma_choice_by_text(choices, text);
    match choice_by_text(choices, text) {
        Some(i) => {
            if i < at {
                assert(lowered(choices[i]@) != lowered(text));
            } else if i > at {
                assert(lowered(choices[at]@) != lowered(text));
            }
        },
        None => {
            assert(lowered(choices[at]@) != lowered(text));
        },
    }
}

/// A text that is neither picks nothing; in particular a number beyond the
/// last choice does not.
pub proof fn law_other_texts_pick_nothing(choices: Seq<String>, text: Seq<char>)
    requires
        !(natural(text, usize::MAX as nat) matches Some(k) && 1 <= k <= choices.len()),
        forall|k: int|
            0 <= k < choices.len() ==> lowered((#[trigger] choices[k])@) != lowered(text),
    ensures
        choice_picked(choices, text) is None,
{
    lemma_choice_by_text(choices, text);
    if let Some(i) = choice_by_text(choices, text) {
        assert(lowered(choices[i]@) != lowered(text));
    }
}

/// How any message picks: its first word has to be the token, ASCII case
/// aside; all words behind it, with one space between them, pick a choice, and
/// where they pick none, the second word does.
pub proof fn law_words_behind_the_token_pick(
    body: Seq<char>,
    token: Seq<char>,
    choices: Seq<String>,
)
    ensures
        words(plain(body)).len() == 0 ==> choice(body, token, choices) is None,
        words(plain(body)).len() > 0 ==> {
            let ws = words(plain(body));
            let all = choice_picked(choices, trimmed(joined(ws.skip(1), " "@)));
            &&& lowered(ws[0]) != lowered(token) ==> choice(body, token, choices) is None
            &&& lowered(ws[0]) == lowered(token) && all is Some ==> choice(body, token, choices)
                == all
            &&& lowered(ws[0]) == lowered(token) && all is None && ws.len() > 1 ==> choice(
                body,
                token,
                choices,
            ) == choice_picked(choices, ws[1])
            &&& all is None && ws.len() == 1 ==> choice(body, token, choices) is None
        },
{
}

// ---------------------------------------------------------------------------
// Tokens
// ---------------------------------------------------------------------------

/// The token characters: the letters from `A` to `Z`, then the digits from `0`
/// to `9`.
pub proof fn law_token_characters(i: int)
    requires
        0 <= i < 36,
    ensures
        i < 26 ==> token_char(i) as u32 == 65 + i,
        i >= 26 ==> token_char(i) as u32 == 48 + i - 26,
{
}

/// A product and a sum in 64 bits.
proof fn lemma_in_64_bits(x: u64, a: u64, b: u64)
    ensures
        x.wrapping_mul(a).wrapping_add(b) == (x * a + b) % 0x1_0000_0000_0000_0000,
{
    let all: int = 0x1_0000_0000_0000_0000;
    let p = x * a;
    vstd::arithmetic::mul::lemma_mul_nonnegative(x as int, a as int);
    vstd::arithmetic::div_mod::lemma_fundamental_div_mod(p, all);
    vstd::arithmetic::div_mod::lemma_mod_bound(p, all);
    let (q, r) = (p / all, p % all);
    assert(x.wrapping_mul(a) == r);
    if r + b < all {
        vstd::arithmetic::div_mod::lemma_fundamental_div_mod_converse(p + b, all, q, r + b);
    } else {
        vstd::arithmetic::div_mod::lemma_fundamental_div_mod_converse(
            p + b,
            all,
            q + 1,
            r + b - all,
        );
    }
}

/// The seed of a token, from the time and the counter, and the seed after a
/// seed, in the arithmetic of 64 bits.
pub proof fn law_seeds(now_ms: u64, counter: u64, seed: u64)
    ensures
        token_seed(now_ms, counter) == (now_ms * 2_654_435_761 + counter)
            % 0x1_0000_0000_0000_0000,
        next_seed(seed) == (seed * 6_364_136_223_846_793_005 + 1) % 0x1_0000_0000_0000_0000,
{
    reveal(token_seed);
    reveal(next_seed);
    lemma_in_64_bits(now_ms, 2_654_435_761, counter);
    lemma_in_64_bits(seed, 6_364_136_223_846_793_005, 1);
}

/// A token has as many characters as asked for; the first is picked by the
/// seed's remainder by the number of token characters, and the others by the
/// seeds after it.
pub proof fn law_token(seed: u64, n: nat)
    ensures
        token_text(seed, n).len() == n,
        n > 0 ==> token_text(seed, n)[0] == token_char((seed % 36) as int),
        n > 0 ==> token_text(seed, n).skip(1) == token_text(next_seed(seed), (n - 1) as nat),
    decreases n,
{
    if n > 0 {
        law_token(next_seed(seed), (n - 1) as nat);
        assert(token_text(seed, n).skip(1) =~= token_text(next_seed(seed), (n - 1) as nat));
    }
}

// ---------------------------------------------------------------------------
// Prompts
// ---------------------------------------------------------------------------

/// The prompt for an approval holds the whole name of the tool and the whole
/// summary of its arguments, and asks for the token with each of the words.
pub proof fn law_approval_prompt(
    token: Seq<char>,
    tool_name: Seq<char>,
    arguments_summary: Seq<char>,
)
    ensures
        ({
            let title = "APPROVAL REQUIRED ["@ + token + "]"@;
            let tool = "\nTool: "@ + tool_name;
            let arguments = "\nArgs: "@ + arguments_summary;
            let approve = "`"@ + token + " approve`"@;
            let deny = "`"@ + token + " deny`"@;
            let always = "`"@ + token + " always`"@;
            approval_prompt_text(token, tool_name, arguments_summary) == title + tool + arguments
                + "\n\nReply "@ + approve + ", "@ + deny + ", or "@ + always + "."@
        }),
{
    reveal_strlit("APPROVAL REQUIRED [");
    reveal_strlit("]");
    reveal_strlit("]\nTool: ");
    reveal_strlit("\nTool: ");
    reveal_strlit("\nArgs: ");
    reveal_strlit("`");
    reveal_strlit(" approve`");
    reveal_strlit(" deny`");
    reveal_strlit(" always`");
    reveal_strlit(" approve`, `");
    reveal_strlit(" deny`, or `");
    reveal_strlit(" always`.");
    reveal_strlit("\n\nReply ");
    reveal_strlit("\n\nReply `");
    reveal_strlit(", ");
    reveal_strlit(", or ");
    reveal_strlit(".");
    assert("]\nTool: "@ =~= "]"@ + "\nTool: "@);
    assert("\n\nReply `"@ =~= "\n\nReply "@ + "`"@);
    assert(" approve`, `"@ =~= " approve`"@ + ", "@ + "`"@);
    assert(" deny`, or `"@ =~= " deny`"@ + ", or "@ + "`"@);
    assert(" always`."@ =~= " always`"@ + "."@);
    let title = "APPROVAL REQUIRED ["@ + token + "]"@;
    let tool = "\nTool: "@ + tool_name;
    let arguments = "\nArgs: "@ + arguments_summary;
    let approve = "`"@ + token + " approve`"@;
    let deny = "`"@ + token + " deny`"@;
    let always = "`"@ + token + " always`"@;
    assert(approval_prompt_text(token, tool_name, arguments_summary) =~= title + tool + arguments
        + "\n\nReply "@ + approve + ", "@ + deny + ", or "@ + always + "."@);
}

/// Every choice has a line of its own, in the order given: its number, counted
/// from one, and its whole text.
pub proof fn law_option_lines(choices: Seq<String>)
    ensures
        option_lines(choices).len() == choices.len(),
        forall|i: int|
            0 <= i < choices.len() ==> #[trigger] option_lines(choices)[i] == decimal(
                (i + 1) as nat,
            ) + seq!['.', ' '] + choices[i]@,
{
    reveal_strlit(". ");
    assert(". "@ =~= seq!['.', ' ']);
}

/// The prompt for a question holds the whole question and the lines for all
/// choices, and asks for the token with a number or a text.
pub proof fn law_choice_prompt(token: Seq<char>, question: Seq<char>, choices: Seq<String>)
    ensures
        ({
            let title = "QUESTION ["@ + token + "]"@;
            let answer = "`"@ + token + " <number or choice text>`"@;
            choice_prompt_text(token, question, choices) == title + "\n"@ + question + "\n"@
                + joined(option_lines(choices), "\n"@) + "\n\nReply "@ + answer + "."@
        }),
{
    reveal_strlit("QUESTION [");
    reveal_strlit("]");
    reveal_strlit("\n");
    reveal_strlit("]\n");
    reveal_strlit("`");
    reveal_strlit(".");
    reveal_strlit("\n\nReply ");
    reveal_strlit("\n\nReply `");
    reveal_strlit(" <number or choice text>`");
    reveal_strlit(" <number or choice text>`.");
    assert("]\n"@ =~= "]"@ + "\n"@);
    assert("\n\nReply `"@ =~= "\n\nReply "@ + "`"@);
    assert(" <number or choice text>`."@ =~= " <number or choice text>`"@ + "."@);
    let title = "QUESTION ["@ + token + "]"@;
    let answer = "`"@ + token + " <number or choice text>`"@;
    assert(choice_prompt_text(token, question, choices) =~= title + "\n"@ + question + "\n"@
        + joined(option_lines(choices), "\n"@) + "\n\nReply "@ + answer + "."@);
}

/// A question goes to the channel that the recipient names: the ids of its
/// team and channel, with a slash between them, are the whole recipient.
pub proof fn law_question_goes_to_the_recipient(
    question: Question,
    recipient: Seq<char>,
    token: Seq<char>,
    prompt: Seq<char>,
)
    ensures
        addressed(question, recipient, token, prompt) <==> {
            &&& recipient == question.team_id@ + seq!['/'] + question.channel_id@
            &&& !question.team_id@.contains('/')
            &&& question.token@ == token
            &&& question.prompt@ == prompt
        },
{
    lemma_cut(recipient, '/');
    if !question.team_id@.contains('/') {
        lemma_cut_joined(question.team_id@, '/', question.channel_id@);
    }
}

// ---------------------------------------------------------------------------
// Waiting
// ---------------------------------------------------------------------------

/// How long a choice is waited for: as long as asked, but a second at least.
pub proof fn law_timeout(timeout_secs: u64)
    ensures
        timeout_secs == 0 ==> effective_timeout(timeout_secs) == 1,
        timeout_secs > 0 ==> effective_timeout(timeout_secs) == timeout_secs,
{
}

/// Which messages may answer: those that were created later than the time
/// looked on from and that the bot did not send.
pub proof fn law_who_may_answer(msg: GraphChatMessage, since: Seq<char>, bot: Seq<char>)
    ensures
        may_answer(msg, since, bot) <==> precedes(since, msg.created_date_time@) && !sent_by(
            msg,
            bot,
        ),
{
    law_sender(msg, bot);
}

/// The next look starts from the time of the last message, or from where this
/// one did if there was no message.
pub proof fn law_next_look(
    msgs: Seq<GraphChatMessage>,
    msg: GraphChatMessage,
    since: Seq<char>,
)
    ensures
        latest(Seq::empty(), since) == since,
        latest(msgs.push(msg), since) == msg.created_date_time@,
{
}

/// What an operator types is taken: a message created after the prompt by
/// someone other than the bot, which is the token, a space and one of the
/// three words, decides if no message before it answers.
pub proof fn law_operators_reply_is_taken(
    msgs: Seq<GraphChatMessage>,
    since: Seq<char>,
    bot: Seq<char>,
    token: Seq<char>,
    at: int,
    typed: Seq<char>,
    word: Seq<char>,
)
    requires
        token_shaped(token),
        lowered(typed) == lowered(token),
        0 <= at < msgs.len(),
        precedes(since, msgs[at].created_date_time@),
        !sent_by(msgs[at], bot),
        msgs[at].body.content@ == typed + seq![' '] + word,
        forall|k: int|
            0 <= k < at ==> !precedes(since, (#[trigger] msgs[k]).created_date_time@) || sent_by(
                msgs[k],
                bot,
            ) || reply(msgs[k].body.content@, token) is None,
    ensures
        lowered(word) == "approve"@ ==> first_reply(msgs, since, bot, token) == Some(
            ApprovalResponse::Approve,
        ),
        lowered(word) == "deny"@ ==> first_reply(msgs, since, bot, token) == Some(
            ApprovalResponse::Deny,
        ),
        lowered(word) == "always"@ ==> first_reply(msgs, since, bot, token) == Some(
            ApprovalResponse::AlwaysApprove,
        ),
{
    law_reply_by_lower_case(typed, token, word);
    law_who_may_answer(msgs[at], since, bot);
    if reply(msgs[at].body.content@, token) is Some {
        assert(gives_reply(msgs[at], since, bot, token));
        assert forall|k: int| 0 <= k < at implies !gives_reply(
            #[trigger] msgs[k],
            since,
            bot,
            token,
        ) by {
            law_who_may_answer(msgs[k], since, bot);
        }
        law_first_reply_decides(msgs, since, bot, token, at);
    }
}

} // verus!
