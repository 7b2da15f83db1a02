//! Asking an operator in the channel itself: a prompt with a short token is
//! posted, and an operator answers with `<token> approve|deny|always`, or
//! with `<token> <choice>`.
//!
//! While an answer is awaited no other request is served, so inbound delivery
//! pauses for every channel, not only for the one that is asked.
use vstd::prelude::*;

use crate::graph::{
    bad_recipient, chronological, now_ms, sender, sort_by_created, split_recipient,
    GraphChatMessage,
};
use crate::mentions::{plain, plain_text};
use crate::number::{decimal, natural, parse_usize, to_decimal};
use crate::protocol::{ApprovalRequest, ApprovalResponse};
use crate::scan::{cut, join_from, joined, split_words, trim, trimmed, views, words};
use crate::text::{
    eq_ignore_ascii_case, lowered, precedes, str_eq, str_less, to_ascii_lowercase,
};

verus! {

/// How long an approval is awaited.
pub const DEFAULT_TIMEOUT_SECS: u64 = 300;

/// How long to wait between two looks at the channel.
pub const POLL_INTERVAL_MS: u64 = 1_500;

/// The number of characters of a token.
pub const TOKEN_LEN: usize = 6;

// ---------------------------------------------------------------------------
// Tokens
// ---------------------------------------------------------------------------

/// The `i`-th of the characters that tokens are made of: the capital letters,
/// then the digits.
pub open spec fn token_char(i: int) -> char {
    if i < 26 {
        ('A' as u32 + i) as char
    } else {
        ('0' as u32 + (i - 26)) as char
    }
}

/// The seed after a seed.
#[verifier::opaque]
pub open spec fn next_seed(seed: u64) -> u64 {
    seed.wrapping_mul(6_364_136_223_846_793_005).wrapping_add(1)
}

/// The `n` token characters that a seed stands for.
pub open spec fn token_text(seed: u64, n: nat) -> Seq<char>
    decreases n,
{
    if n == 0 {
        Seq::empty()
    } else {
        seq![token_char(seed as int % 36)] + token_text(next_seed(seed), (n - 1) as nat)
    }
}

/// Whether a text has the shape of a token.
pub open spec fn token_shaped(s: Seq<char>) -> bool {
    &&& s.len() == TOKEN_LEN
    &&& forall|i: int|
        0 <= i < s.len() ==> ('A' <= #[trigger] s[i] <= 'Z' || '0' <= s[i] <= '9')
}

/// The token that a seed stands for.
pub fn encode_token(seed: u64) -> (r: String)
    ensures
        r@ == token_text(seed, TOKEN_LEN as nat),
        token_shaped(r@),
{
    let mut seed: u64 = seed;
    let ghost first = seed;
    let mut token = String::new();
    let mut i: usize = 0;
    assert(token@ + token_text(seed, TOKEN_LEN as nat) =~= token_text(seed, TOKEN_LEN as nat));
    while i < TOKEN_LEN
        invariant
            i <= TOKEN_LEN,
            token@.len() == i,
            token_text(first, TOKEN_LEN as nat) == token@ + token_text(
                seed,
                (TOKEN_LEN - i) as nat,
            ),
            forall|k: int|
                0 <= k < i ==> ('A' <= #[trigger] token@[k] <= 'Z' || '0' <= token@[k] <= '9'),
        decreases TOKEN_LEN - i,
    {
        let ghost so_far = token@;
        let idx: u8 = (seed % 36) as u8;
        let c = if idx < 26 {
            ('A' as u8 + idx) as char
        } else {
            ('0' as u8 + (idx - 26)) as char
        };
        assert(c == token_char(seed as int % 36));
        token.push(c);
        let next: u64 = seed.wrapping_mul(6_364_136_223_846_793_005).wrapping_add(1);
        i = i + 1;
        assert(next == next_seed(seed)) by {
            reveal(next_seed);
        }
        assert(so_far + (seq![c] + token_text(next, (TOKEN_LEN - i) as nat)) =~= token@
            + token_text(next, (TOKEN_LEN - i) as nat));
        seed = next;
    }
    assert(token@ + token_text(seed, 0) =~= token@);
    token
}

/// The seed of the `counter`-th token, made at a time.
#[verifier::opaque]
pub open spec fn token_seed(now_ms: u64, counter: u64) -> u64 {
    now_ms.wrapping_mul(2_654_435_761).wrapping_add(counter)
}

/// The token made at the given time, as the next one of the counter.
pub fn token_at(counter: &mut u64, now_ms: u64) -> (r: String)
    ensures
        *final(counter) == old(counter).wrapping_add(1),
        r@ == token_text(token_seed(now_ms, *final(counter)), TOKEN_LEN as nat),
        token_shaped(r@),
{
    *counter = counter.wrapping_add(1);
    let seed: u64 = now_ms.wrapping_mul(2_654_435_761).wrapping_add(*counter);
    assert(seed == token_seed(now_ms, *counter)) by {
        reveal(token_seed);
    }
    encode_token(seed)
}

/// Makes a token. It only has to tell one prompt from unrelated text in the
/// channel, since at most one is outstanding; it is not cryptographically
/// secure.
pub fn generate_token(counter: &mut u64) -> (r: String)
    ensures
        *final(counter) == old(counter).wrapping_add(1),
        exists|now: u64|
            r@ == #[trigger] token_text(
                token_seed(now, *final(counter)),
                TOKEN_LEN as nat,
            ),
        token_shaped(r@),
{
    let now = now_ms();
    token_at(counter, now)
}

// ---------------------------------------------------------------------------
// Answers
// ---------------------------------------------------------------------------

/// What an operator's word says, ASCII case aside.
pub open spec fn verdict(word: Seq<char>) -> Option<ApprovalResponse> {
    let w = lowered(word);
    if w == "approve"@ {
        Some(ApprovalResponse::Approve)
    } else if w == "deny"@ {
        Some(ApprovalResponse::Deny)
    } else if w == "always"@ {
        Some(ApprovalResponse::AlwaysApprove)
    } else {
        None
    }
}

/// What a message body answers to an approval: its plain text starts with the
/// token, ASCII case aside, and goes on with one of the three words.
pub open spec fn reply(body: Seq<char>, token: Seq<char>) -> Option<ApprovalResponse> {
    let ws = words(plain(body));
    if ws.len() >= 2 && lowered(ws[0]) == lowered(token) {
        verdict(ws[1])
    } else {
        None
    }
}

/// Reads a message body as an answer to an approval.
pub fn parse_token_reply(body_content: &str, token: &str) -> (r: Option<ApprovalResponse>)
    ensures
        r == reply(body_content@, token@),
{
    let text = plain_text(body_content);
    let ws = split_words(text.as_str());
    assert(ws@.len() == words(text@).len());
    if ws.len() < 2 {
        return None;
    }
    assert(ws@[0]@ == words(text@)[0]);
    assert(ws@[1]@ == words(text@)[1]);
    if !eq_ignore_ascii_case(ws[0].as_str(), token) {
        return None;
    }
    let word = to_ascii_lowercase(ws[1].as_str());
    proof {
        reveal_strlit("approve");
        reveal_strlit("deny");
        reveal_strlit("always");
        assert("approve"@.len() == 7 && "deny"@.len() == 4 && "always"@.len() == 6);
    }
    if str_eq(word.as_str(), "approve") {
        Some(ApprovalResponse::Approve)
    } else if str_eq(word.as_str(), "deny") {
        Some(ApprovalResponse::Deny)
    } else if str_eq(word.as_str(), "always") {
        Some(ApprovalResponse::AlwaysApprove)
    } else {
        None
    }
}

/// Where the first choice stands that is equal to a text, ASCII case aside.
pub open spec fn choice_by_text(choices: Seq<String>, text: Seq<char>) -> Option<int>
    decreases choices.len(),
{
    if choices.len() == 0 {
        None
    } else {
        match choice_by_text(choices.drop_last(), text) {
            Some(i) => Some(i),
            None => if lowered(choices.last()@) == lowered(text) {
                Some(choices.len() - 1)
            } else {
                None
            },
        }
    }
}

/// Where the choice stands that a text picks: by number, counted from one, or
/// by its own text.
pub open spec fn choice_picked(choices: Seq<String>, text: Seq<char>) -> Option<int> {
    match natural(text, usize::MAX as nat) {
        Some(k) => if 1 <= k <= choices.len() {
            Some(k - 1)
        } else {
            choice_by_text(choices, text)
        },
        None => choice_by_text(choices, text),
    }
}

/// What a message body picks: its plain text starts with the token, ASCII
/// case aside, and the words after it, with one space between them, pick a
/// choice. Where they pick none, the first of them decides, and the words
/// after it do not matter.
pub open spec fn choice(body: Seq<char>, token: Seq<char>, choices: Seq<String>) -> Option<int> {
    let ws = words(plain(body));
    if ws.len() >= 1 && lowered(ws[0]) == lowered(token) {
        let whole = choice_picked(choices, trimmed(joined(ws.skip(1), " "@)));
        if whole is Some {
            whole
        } else if ws.len() >= 2 {
            choice_picked(choices, ws[1])
        } else {
            None
        }
    } else {
        None
    }
}

/// What the first choice that is equal to a text is.
pub proof fn lemma_choice_by_text(choices: Seq<String>, text: Seq<char>)
    ensures
        match choice_by_text(choices, text) {
            Some(i) => {
                &&& 0 <= i < choices.len()
                &&& lowered(choices[i]@) == lowered(text)
                &&& forall|k: int|
                    0 <= k < i ==> lowered((#[trigger] choices[k])@) != lowered(text)
            },
            None => forall|k: int|
                0 <= k < choices.len() ==> lowered((#[trigger] choices[k])@) != lowered(text),
        },
    decreases choices.len(),
{
    if choices.len() > 0 {
        let front = choices.drop_last();
        lemma_choice_by_text(front, text);
        assert forall|k: int| 0 <= k < front.len() implies front[k] == #[trigger] choices[k] by {}
    }
}

fn find_choice(choices: &[String], text: &str) -> (r: Option<usize>)
    ensures
        match r {
            Some(i) => i < choices@.len() && choice_by_text(choices@, text@) == Some(i as int),
            None => choice_by_text(choices@, text@) is None,
        },
{
    let mut i: usize = 0;
    while i < choices.len()
        invariant
            i <= choices@.len(),
            forall|k: int| 0 <= k < i ==> lowered((#[trigger] choices@[k])@) != lowered(text@),
        decreases choices@.len() - i,
    {
        if eq_ignore_ascii_case(choices[i].as_str(), text) {
            proof {
                lemma_choice_by_text(choices@, text@);
                let j = choice_by_text(choices@, text@).unwrap();
                assert(lowered(choices@[i as int]@) == lowered(text@));
            }
            return Some(i);
        }
        i = i + 1;
    }
    proof {
        lemma_choice_by_text(choices@, text@);
    }
    None
}

fn pick(choices: &[String], text: &str) -> (r: Option<usize>)
    ensures
        match r {
            Some(i) => i < choices@.len() && choice_picked(choices@, text@) == Some(i as int),
            None => choice_picked(choices@, text@) is None,
        },
{
    if let Some(index) = parse_usize(text) {
        if index >= 1 && index <= choices.len() {
            return Some(index - 1);
        }
    }
    find_choice(choices, text)
}

/// Reads a message body as an answer to a question with choices: the token,
/// then the number or the text of a choice. What follows may be one word or
/// several; where all of it together is no choice, the word after the token
/// counts, as it does for an approval.
pub fn parse_token_choice(body_content: &str, token: &str, choices: &[String]) -> (r: Option<
    String,
>)
    ensures
        match r {
            Some(picked) => {
                &&& choice(body_content@, token@, choices@) matches Some(i)
                &&& 0 <= i < choices@.len()
                &&& picked@ == choices@[i]@
            },
            None => choice(body_content@, token@, choices@) is None,
        },
{
    let text = plain_text(body_content);
    let ws = split_words(text.as_str());
    assert(ws@.len() == words(text@).len());
    if ws.len() < 1 {
        return None;
    }
    assert(ws@[0]@ == words(text@)[0]);
    if !eq_ignore_ascii_case(ws[0].as_str(), token) {
        return None;
    }
    let joined_rest = join_from(&ws, 1, " ");
    if let Some(i) = pick(choices, trim(joined_rest.as_str())) {
        return Some(choices[i].clone());
    }
    if ws.len() < 2 {
        return None;
    }
    assert(ws@[1]@ == words(text@)[1]);
    match pick(choices, ws[1].as_str()) {
        Some(i) => Some(choices[i].clone()),
        None => None,
    }
}

// ---------------------------------------------------------------------------
// Prompts
// ---------------------------------------------------------------------------

/// The prompt for an approval.
pub open spec fn approval_prompt_text(
    token: Seq<char>,
    tool_name: Seq<char>,
    arguments_summary: Seq<char>,
) -> Seq<char> {
    "APPROVAL REQUIRED ["@ + token + "]\nTool: "@ + tool_name + "\nArgs: "@ + arguments_summary
        + "\n\nReply `"@ + token + " approve`, `"@ + token + " deny`, or `"@ + token + " always`."@
}

/// Writes the prompt for an approval.
pub fn approval_prompt(token: &str, request: &ApprovalRequest) -> (r: String)
    ensures
        r@ == approval_prompt_text(token@, request.tool_name@, request.arguments_summary@),
{
    let mut p = String::new();
    p.append("APPROVAL REQUIRED [");
    p.append(token);
    p.append("]\nTool: ");
    p.append(request.tool_name.as_str());
    p.append("\nArgs: ");
    p.append(request.arguments_summary.as_str());
    p.append("\n\nReply `");
    p.append(token);
    p.append(" approve`, `");
    p.append(token);
    p.append(" deny`, or `");
    p.append(token);
    p.append(" always`.");
    assert(Seq::<char>::empty() + "APPROVAL REQUIRED ["@ =~= "APPROVAL REQUIRED ["@);
    p
}

/// The line for one choice: its number, counted from one, and its text.
pub open spec fn option_line(number: nat, text: Seq<char>) -> Seq<char> {
    decimal(number) + ". "@ + text
}

/// The lines for all choices.
pub open spec fn option_lines(choices: Seq<String>) -> Seq<Seq<char>> {
    Seq::new(choices.len(), |i: int| option_line((i + 1) as nat, choices[i]@))
}

/// The prompt for a question with choices.
pub open spec fn choice_prompt_text(
    token: Seq<char>,
    question: Seq<char>,
    choices: Seq<String>,
) -> Seq<char> {
    "QUESTION ["@ + token + "]\n"@ + question + "\n"@ + joined(option_lines(choices), "\n"@)
        + "\n\nReply `"@ + token + " <number or choice text>`."@
}

/// Writes the prompt for a question with choices.
pub fn choice_prompt(token: &str, question: &str, choices: &[String]) -> (r: String)
    ensures
        r@ == choice_prompt_text(token@, question@, choices@),
{
    let mut lines: Vec<String> = Vec::new();
    let mut i: usize = 0;
    while i < choices.len()
        invariant
            i <= choices@.len(),
            lines@.len() == i,
            forall|k: int| 0 <= k < i ==> (#[trigger] lines@[k])@ == option_lines(choices@)[k],
        decreases choices@.len() - i,
    {
        let mut line = to_decimal(i as u64 + 1);
        line.append(". ");
        line.append(choices[i].as_str());
        lines.push(line);
        i = i + 1;
    }
    let options = join_from(&lines, 0, "\n");
    assert(views(lines@).skip(0) =~= option_lines(choices@));
    let mut p = String::new();
    p.append("QUESTION [");
    p.append(token);
    p.append("]\n");
    p.append(question);
    p.append("\n");
    p.append(options.as_str());
    p.append("\n\nReply `");
    p.append(token);
    p.append(" <number or choice text>`.");
    assert(Seq::<char>::empty() + "QUESTION ["@ =~= "QUESTION ["@);
    p
}

// ---------------------------------------------------------------------------
// Asking
// ---------------------------------------------------------------------------

/// A question to an operator: the token that answers it, the channel to post
/// it to, and the prompt to post.
#[derive(Debug, Clone)]
pub struct Question {
    pub token: String,
    pub team_id: String,
    pub channel_id: String,
    pub prompt: String,
}

/// Whether a question is the one that is to be posted to a recipient.
pub open spec fn addressed(
    question: Question,
    recipient: Seq<char>,
    token: Seq<char>,
    prompt: Seq<char>,
) -> bool {
    &&& cut(recipient, '/') == Some((question.team_id@, question.channel_id@))
    &&& question.token@ == token
    &&& question.prompt@ == prompt
}

/// Asks for an approval with the given token, or says that the recipient names
/// no channel.
pub fn approval_question(recipient: &str, request: &ApprovalRequest, token: String) -> (r: Result<
    Question,
    String,
>)
    ensures
        match r {
            Ok(question) => addressed(
                question,
                recipient@,
                token@,
                approval_prompt_text(token@, request.tool_name@, request.arguments_summary@),
            ),
            Err(e) => cut(recipient@, '/') is None && e@ == bad_recipient(recipient@),
        },
{
    match split_recipient(recipient) {
        Ok((team_id, channel_id)) => {
            let prompt = approval_prompt(token.as_str(), request);
            Ok(
                Question {
                    token,
                    team_id: team_id.to_owned(),
                    channel_id: channel_id.to_owned(),
                    prompt,
                },
            )
        },
        Err(e) => Err(e),
    }
}

/// Asks a question with choices with the given token, or says that the
/// recipient names no channel.
pub fn choice_question(recipient: &str, question: &str, choices: &[String], token: String) -> (r:
    Result<Question, String>)
    ensures
        match r {
            Ok(asked) => addressed(
                asked,
                recipient@,
                token@,
                choice_prompt_text(token@, question@, choices@),
            ),
            Err(e) => cut(recipient@, '/') is None && e@ == bad_recipient(recipient@),
        },
{
    match split_recipient(recipient) {
        Ok((team_id, channel_id)) => {
            let prompt = choice_prompt(token.as_str(), question, choices);
            Ok(
                Question {
                    token,
                    team_id: team_id.to_owned(),
                    channel_id: channel_id.to_owned(),
                    prompt,
                },
            )
        },
        Err(e) => Err(e),
    }
}

/// Asks for an approval, with a token of its own. The prompt is to be posted,
/// and the channel watched for the answer.
pub fn request_approval(recipient: &str, request: &ApprovalRequest, counter: &mut u64) -> (r: Result<
    Question,
    String,
>)
    ensures
        match r {
            Ok(question) => {
                &&& *final(counter) == old(counter).wrapping_add(1)
                &&& token_shaped(question.token@)
                &&& exists|now: u64|
                    question.token@ == #[trigger] token_text(
                        token_seed(now, *final(counter)),
                        TOKEN_LEN as nat,
                    )
                &&& addressed(
                    question,
                    recipient@,
                    question.token@,
                    approval_prompt_text(
                        question.token@,
                        request.tool_name@,
                        request.arguments_summary@,
                    ),
                )
            },
            Err(e) => {
                &&& *final(counter) == *old(counter)
                &&& cut(recipient@, '/') is None
                &&& e@ == bad_recipient(recipient@)
            },
        },
{
    if let Err(e) = split_recipient(recipient) {
        return Err(e);
    }
    let token = generate_token(counter);
    approval_question(recipient, request, token)
}

/// Asks a question with choices, with a token of its own. The prompt is to be
/// posted, and the channel watched for the answer.
pub fn request_choice(recipient: &str, question: &str, choices: &[String], counter: &mut u64) -> (r:
    Result<Question, String>)
    ensures
        match r {
            Ok(asked) => {
                &&& *final(counter) == old(counter).wrapping_add(1)
                &&& token_shaped(asked.token@)
                &&& exists|now: u64|
                    asked.token@ == #[trigger] token_text(
                        token_seed(now, *final(counter)),
                        TOKEN_LEN as nat,
                    )
                &&& addressed(
                    asked,
                    recipient@,
                    asked.token@,
                    choice_prompt_text(asked.token@, question@, choices@),
                )
            },
            Err(e) => {
                &&& *final(counter) == *old(counter)
                &&& cut(recipient@, '/') is None
                &&& e@ == bad_recipient(recipient@)
            },
        },
{
    if let Err(e) = split_recipient(recipient) {
        return Err(e);
    }
    let token = generate_token(counter);
    choice_question(recipient, question, choices, token)
}

// ---------------------------------------------------------------------------
// Waiting for an answer
// ---------------------------------------------------------------------------

/// What is kept while an answer is awaited.
#[derive(Debug)]
pub struct ReplyWait {
    pub token: String,
    /// Only messages created after this are looked at.
    pub since: String,
    /// When waiting ends, in Unix milliseconds.
    pub deadline_ms: u64,
}

/// What a step of waiting comes to.
#[derive(Debug)]
pub enum Awaited<T> {
    /// Waiting is over, with or without an answer.
    Settled(Option<T>),
    /// Not yet: pause, then look at the channel's messages again.
    Pending,
}

/// How long a question is awaited, in seconds: at least one.
pub open spec fn effective_timeout(timeout_secs: u64) -> u64 {
    if timeout_secs < 1 {
        1
    } else {
        timeout_secs
    }
}

impl ReplyWait {
    /// Waiting for an approval, from the time its prompt was posted.
    pub fn for_approval(token: String, since: String, now_ms: u64) -> (r: ReplyWait)
        requires
            now_ms + DEFAULT_TIMEOUT_SECS * 1_000 <= u64::MAX,
        ensures
            r.token == token,
            r.since == since,
            r.deadline_ms == now_ms + 300_000,
    {
        ReplyWait { token, since, deadline_ms: now_ms + DEFAULT_TIMEOUT_SECS * 1_000 }
    }

    /// Waiting for a choice, from the time its prompt was posted.
    pub fn for_choice(token: String, since: String, now_ms: u64, timeout_secs: u64) -> (r:
        ReplyWait)
        requires
            now_ms + effective_timeout(timeout_secs) * 1_000 <= u64::MAX,
        ensures
            r.token == token,
            r.since == since,
            r.deadline_ms == now_ms + effective_timeout(timeout_secs) * 1_000,
    {
        let secs: u64 = if timeout_secs < 1 {
            1
        } else {
            timeout_secs
        };
        ReplyWait { token, since, deadline_ms: now_ms + secs * 1_000 }
    }
}

/// Whether a message can be an answer: created after a time, and not the
/// bot's own.
pub open spec fn may_answer(msg: GraphChatMessage, since: Seq<char>, bot: Seq<char>) -> bool {
    precedes(since, msg.created_date_time@) && sender(msg) != Some(bot)
}

/// The answer to an approval in a list of messages: that of the first message
/// that gives one.
pub open spec fn first_reply(
    msgs: Seq<GraphChatMessage>,
    since: Seq<char>,
    bot: Seq<char>,
    token: Seq<char>,
) -> Option<ApprovalResponse>
    decreases msgs.len(),
{
    if msgs.len() == 0 {
        None
    } else if may_answer(msgs[0], since, bot) && reply(msgs[0].body.content@, token) is Some {
        reply(msgs[0].body.content@, token)
    } else {
        first_reply(msgs.skip(1), since, bot, token)
    }
}

/// The choice picked in a list of messages: that of the first message that
/// picks one.
pub open spec fn first_choice(
    msgs: Seq<GraphChatMessage>,
    since: Seq<char>,
    bot: Seq<char>,
    token: Seq<char>,
    choices: Seq<String>,
) -> Option<int>
    decreases msgs.len(),
{
    if msgs.len() == 0 {
        None
    } else if may_answer(msgs[0], since, bot) && choice(
        msgs[0].body.content@,
        token,
        choices,
    ) is Some {
        choice(msgs[0].body.content@, token, choices)
    } else {
        first_choice(msgs.skip(1), since, bot, token, choices)
    }
}

/// The time to look on from: that of the last message, if there is any.
pub open spec fn latest(msgs: Seq<GraphChatMessage>, since: Seq<char>) -> Seq<char> {
    if msgs.len() == 0 {
        since
    } else {
        msgs.last().created_date_time@
    }
}

fn can_answer(msg: &GraphChatMessage, since: &str, bot_app_id: &str) -> (r: bool)
    ensures
        r == may_answer(*msg, since@, bot_app_id@),
{
    if !str_less(since, msg.created_date_time.as_str()) {
        return false;
    }
    match msg.sender_id() {
        Some(id) => !str_eq(id, bot_app_id),
        None => true,
    }
}

/// Before each look at the channel: waiting for an approval ends at the
/// deadline, and counts as a denial.
pub fn approval_at(wait: &ReplyWait, now_ms: u64) -> (r: Awaited<ApprovalResponse>)
    ensures
        r == (if now_ms >= wait.deadline_ms {
            Awaited::Settled(Some(ApprovalResponse::Deny))
        } else {
            Awaited::Pending
        }),
{
    if now_ms >= wait.deadline_ms {
        Awaited::Settled(Some(ApprovalResponse::Deny))
    } else {
        Awaited::Pending
    }
}

/// Before each look at the channel: waiting for a choice ends at the
/// deadline, without an answer.
pub fn choice_at(wait: &ReplyWait, now_ms: u64) -> (r: Awaited<String>)
    ensures
        r == (if now_ms >= wait.deadline_ms {
            Awaited::<String>::Settled(None)
        } else {
            Awaited::Pending
        }),
{
    if now_ms >= wait.deadline_ms {
        Awaited::Settled(None)
    } else {
        Awaited::Pending
    }
}

/// Looks for the answer to an approval among the channel's messages, oldest
/// first. Where there is none, the next look starts after the newest message.
pub fn look_for_reply(
    wait: &mut ReplyWait,
    messages: Vec<GraphChatMessage>,
    bot_app_id: &str,
) -> (r: Awaited<ApprovalResponse>)
    ensures
        final(wait).token == old(wait).token,
        final(wait).deadline_ms == old(wait).deadline_ms,
        match first_reply(
            chronological(messages@),
            old(wait).since@,
            bot_app_id@,
            old(wait).token@,
        ) {
            Some(response) => r == Awaited::Settled(Some(response)) && final(wait).since@ == old(
                wait,
            ).since@,
            None => r == Awaited::<ApprovalResponse>::Pending && final(wait).since@ == latest(
                chronological(messages@),
                old(wait).since@,
            ),
        },
{
    let sorted = sort_by_created(messages);
    let mut i: usize = 0;
    assert(sorted@.skip(0) =~= sorted@);
    while i < sorted.len()
        invariant
            i <= sorted@.len(),
            sorted@ == chronological(messages@),
            *wait == *old(wait),
            first_reply(sorted@, wait.since@, bot_app_id@, wait.token@) == first_reply(
                sorted@.skip(i as int),
                wait.since@,
                bot_app_id@,
                wait.token@,
            ),
        decreases sorted@.len() - i,
    {
        let msg = &sorted[i];
        assert(sorted@.skip(i as int)[0] == *msg);
        assert(sorted@.skip(i as int).skip(1) =~= sorted@.skip(i + 1));
        if can_answer(msg, wait.since.as_str(), bot_app_id) {
            if let Some(response) = parse_token_reply(
                msg.body.content.as_str(),
                wait.token.as_str(),
            ) {
                return Awaited::Settled(Some(response));
            }
        }
        i = i + 1;
    }
    if sorted.len() > 0 {
        wait.since = sorted[sorted.len() - 1].created_date_time.clone();
    }
    Awaited::Pending
}

/// Looks for the choice among the channel's messages, oldest first. Where
/// there is none, the next look starts after the newest message.
pub fn look_for_choice(
    wait: &mut ReplyWait,
    messages: Vec<GraphChatMessage>,
    bot_app_id: &str,
    choices: &[String],
) -> (r: Awaited<String>)
    ensures
        final(wait).token == old(wait).token,
        final(wait).deadline_ms == old(wait).deadline_ms,
        match first_choice(
            chronological(messages@),
            old(wait).since@,
            bot_app_id@,
            old(wait).token@,
            choices@,
        ) {
            Some(i) => {
                &&& 0 <= i < choices@.len()
                &&& r matches Awaited::Settled(Some(picked))
                &&& picked@ == choices@[i]@
                &&& final(wait).since@ == old(wait).since@
            },
            None => r == Awaited::<String>::Pending && final(wait).since@ == latest(
                chronological(messages@),
                old(wait).since@,
            ),
        },
{
    let sorted = sort_by_created(messages);
    let mut i: usize = 0;
    assert(sorted@.skip(0) =~= sorted@);
    while i < sorted.len()
        invariant
            i <= sorted@.len(),
            sorted@ == chronological(messages@),
            *wait == *old(wait),
            first_choice(sorted@, wait.since@, bot_app_id@, wait.token@, choices@)
                == first_choice(
                sorted@.skip(i as int),
                wait.since@,
                bot_app_id@,
                wait.token@,
                choices@,
            ),
        decreases sorted@.len() - i,
    {
        let msg = &sorted[i];
        assert(sorted@.skip(i as int)[0] == *msg);
        assert(sorted@.skip(i as int).skip(1) =~= sorted@.skip(i + 1));
        if can_answer(msg, wait.since.as_str(), bot_app_id) {
            if let Some(picked) = parse_token_choice(
                msg.body.content.as_str(),
                wait.token.as_str(),
                choices,
            ) {
                return Awaited::Settled(Some(picked));
            }
        }
        i = i + 1;
    }
    if sorted.len() > 0 {
        wait.since = sorted[sorted.len() - 1].created_date_time.clone();
    }
    Awaited::Pending
}

} // verus!
