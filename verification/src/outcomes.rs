//! Laws of what the functions of the library return, said of what goes in and
//! what comes out.
use std::time::Duration;

use vstd::arithmetic::power2::pow2;
use vstd::prelude::*;

use crate::answers::{
    gives_choice, gives_reply, law_first_choice_decides, law_no_answer_without_a_message,
    law_number_picks_choice, lemma_words_of_answer,
};
use crate::approval::{
    approval_at, approval_question, choice, choice_at, choice_question, encode_token,
    look_for_choice, look_for_reply, parse_token_choice, parse_token_reply, reply, token_shaped,
    Awaited, Question, ReplyWait,
};
use crate::calendar::{
    calendar_day, law_count_starts_at_the_epoch, law_earlier_day_counts_less,
};
use crate::channel::{law_bare_handle, posting, Outgoing, TeamsChannel};
use crate::clocks::{law_ordinary_times_can_be_counted, law_unix_millis, law_what_is_told};
use crate::credentials::{Credentials, TeamChannelConfig};
use crate::delivery::law_cycle_leaves_other_channels_alone;
use crate::graph::{
    chronological, duration_of_millis, get_token, granted_token, graph_error, keep_token,
    law_chronological, law_recipient_needs_a_slash, list_channel_messages, list_replies, refused,
    send_message, send_reply, split_recipient, token_error, CachedToken, GraphChatMessage,
    GraphRequest, Method,
};
use crate::mentions::{
    chip_match, has_chip, holds_entity, holds_tag, law_chip, law_either_is_a_mention,
    law_plain_text_passes_unchanged, message_mentions_bot, names_bot, plain, plain_text,
    text_fallback_match,
};
use crate::number::{decimal, natural};
use crate::pacing::{
    law_backoff_within_a_quarter, law_delay_until_a_date, law_reading_a_value,
};
use crate::poll_gate::{
    begin_cycle, channel_key, contents, cycle_inbound, deliver, held, inbound, inbound_all,
    next_poll_time, poll, read, read_channel, rotate_index, run_poll_cycle, should_poll, step_team,
    surfaced, to_inbound_message, PollGate, PollStep,
};
use crate::protocol::{ApprovalRequest, ApprovalResponse, InboundMessage, SendMessage};
use crate::reaching::{
    law_addressed_message_reaches_the_agent, law_chip_is_enough, law_cycle_reads_its_channels,
    law_inbound, law_name_is_enough, law_recording, law_rotation, law_sender, mention_of, not_seen,
    only_step_for_its_channel, sent_by,
};
use crate::replies::{
    law_operators_reply_is_taken, law_other_texts_pick_nothing, law_other_words_are_no_reply,
    law_question_goes_to_the_recipient, law_reply_by_lower_case,
    law_text_is_compared_by_lower_case, law_token, law_who_may_answer,
};
use crate::retry::{
    backoff, backoff_ms, compute_backoff, is_retryable_status, law_whole_seconds,
    retry_after_with_date, UtcInstant,
};
use crate::scan::{
    before, is_word, joined, lemma_cut, lemma_joined_words_trimmed, lemma_words_of_word, trimmed,
    words,
};
use crate::state::{is_new, record_seen, ChannelState, State};
use crate::text::{lemma_precedes_irreflexive, lowered, precedes};
use crate::timestamp::{
    civil_days, civil_time, parse_iso8601_to_unix_ms, timestamp_millis, CivilTime,
};

verus! {

// ---------------------------------------------------------------------------
// Messages to the agent
// ---------------------------------------------------------------------------

/// What the agent gets for a message: the whole plain text of its body, which
/// is the body itself where that has no markup; and the message's id, sender,
/// channel and thread.
pub proof fn law_to_inbound_message(
    msg: GraphChatMessage,
    team: TeamChannelConfig,
    r: InboundMessage,
)
    requires
        call_ensures(to_inbound_message, (&msg, &team), r),
    ensures
        r.content@ == plain(msg.body.content@),
        !holds_tag(msg.body.content@) && !holds_entity(msg.body.content@) ==> r.content@
            == msg.body.content@,
        r.id@ == msg.id@,
        msg.from.application is None && msg.from.user is None ==> r.sender@.len() == 0,
        msg.from.application is Some || msg.from.user is Some ==> sent_by(msg, r.sender@),
        r.reply_target@ == team.team_id@ + seq!['/'] + team.channel_id@,
        r.channel@ == "microsoft-teams"@,
        timestamp_millis(msg.created_date_time@) == Some(r.timestamp) || (timestamp_millis(
            msg.created_date_time@,
        ) is None && r.timestamp == 0),
        team.alias is None ==> r.channel_alias is None,
        team.alias matches Some(name) ==> r.channel_alias matches Some(alias) && alias@ == name@,
        msg.reply_to_id matches Some(root) ==> (r.thread_ts matches Some(t) && t@ == root@) && (
        r.interruption_scope_id matches Some(t) && t@ == root@),
        msg.reply_to_id is None ==> (r.thread_ts matches Some(t) && t@ == msg.id@)
            && r.interruption_scope_id is None,
        r.attachments@.len() == 0,
        r.subject is None,
{
    law_inbound(msg, team);
    law_sender(msg, r.sender@);
    assert(r@ == inbound(msg, team));
}

/// Reading a page hands on a message that the channel has not seen, that the
/// bot did not send, and that has a mention of the bot, whatever its text says,
/// or names the bot in its plain text, whatever its mentions are. What was
/// handed on before stays.
pub proof fn law_read_channel(
    state: &mut ChannelState,
    page: Vec<GraphChatMessage>,
    creds: Credentials,
    team: TeamChannelConfig,
    out: &mut Vec<InboundMessage>,
    i: int,
)
    requires
        call_ensures(read_channel, (state, page, &creds, &team, out), ()),
        0 <= i < page@.len(),
        not_seen(old(state)@, page@[i]),
        !sent_by(page@[i], creds.bot_app_id@),
        forall|j: int|
            0 <= j < page@.len() && j != i ==> (#[trigger] page@[j]).created_date_time@
                != page@[i].created_date_time@ || page@[j].id@ != page@[i].id@,
    ensures
        (exists|m: int| mention_of(page@[i], creds.bot_app_id@, m)) ==> exists|p: int|
            old(out)@.len() <= p < final(out)@.len() && (#[trigger] final(out)@[p])@ == inbound(
                page@[i],
                team,
            ),
        names_bot(plain(page@[i].body.content@), creds.bot_display_name@) ==> exists|p: int|
            old(out)@.len() <= p < final(out)@.len() && (#[trigger] final(out)@[p])@ == inbound(
                page@[i],
                team,
            ),
        forall|p: int|
            0 <= p < old(out)@.len() ==> (#[trigger] final(out)@[p])@ == old(out)@[p]@,
{
    let found = surfaced(old(state)@, chronological(page@), creds);
    let (was, now) = (contents(old(out)@), contents(final(out)@));
    assert(now == was + inbound_all(found, team));
    assert(now.len() == final(out)@.len());
    if exists|m: int| mention_of(page@[i], creds.bot_app_id@, m) {
        let m = choose|m: int| mention_of(page@[i], creds.bot_app_id@, m);
        law_chip_is_enough(old(state)@, page@, creds, i, m);
        let q = choose|q: int| 0 <= q < found.len() && found[q] == page@[i];
        assert(now[was.len() + q] == inbound(page@[i], team));
        assert(final(out)@[was.len() + q]@ == now[was.len() + q]);
    }
    if names_bot(plain(page@[i].body.content@), creds.bot_display_name@) {
        law_name_is_enough(old(state)@, page@, creds, i);
        let q = choose|q: int| 0 <= q < found.len() && found[q] == page@[i];
        assert(now[was.len() + q] == inbound(page@[i], team));
        assert(final(out)@[was.len() + q]@ == now[was.len() + q]);
    }
    assert forall|p: int| 0 <= p < old(out)@.len() implies (#[trigger] final(out)@[p])@
        == old(out)@[p]@ by {
        assert(now[p] == was[p]);
    }
}

/// A poll cycle hands on every message on a page of it that its channel has not
/// seen, that the bot did not send, and that has a mention of the bot or names
/// it.
pub proof fn law_run_poll_cycle(
    state: &mut State,
    creds: Credentials,
    start: usize,
    fetched: Vec<Option<Vec<GraphChatMessage>>>,
    r: Vec<InboundMessage>,
    k: int,
    page: Vec<GraphChatMessage>,
    i: int,
)
    requires
        call_ensures(run_poll_cycle, (state, &creds, start, fetched), r),
        0 <= k < creds.teams@.len(),
        only_step_for_its_channel(creds, start as int, creds.teams@.len() as int, k),
        fetched@[k] == Some(page),
        0 <= i < page@.len(),
        not_seen(held(old(state)@, channel_key(step_team(creds, start as int, k))), page@[i]),
        !sent_by(page@[i], creds.bot_app_id@),
        (exists|c: int| mention_of(page@[i], creds.bot_app_id@, c)) || names_bot(
            plain(page@[i].body.content@),
            creds.bot_display_name@,
        ),
        forall|j: int|
            0 <= j < page@.len() && j != i ==> (#[trigger] page@[j]).created_date_time@
                != page@[i].created_date_time@ || page@[j].id@ != page@[i].id@,
    ensures
        exists|p: int|
            0 <= p < r@.len() && (#[trigger] r@[p])@ == inbound(
                page@[i],
                step_team(creds, start as int, k),
            ),
{
    let n = creds.teams@.len() as int;
    let all = cycle_inbound(old(state)@, creds, start as int, fetched@, n);
    law_addressed_message_reaches_the_agent(
        old(state)@,
        creds,
        start as int,
        fetched@,
        n,
        k,
        page,
        i,
    );
    assert(contents(r@) == all);
    let given = inbound(page@[i], step_team(creds, start as int, k));
    let p = choose|p: int| 0 <= p < all.len() && all[p] == given;
    assert(contents(r@)[p] == r@[p]@);
}

/// A poll cycle leaves each channel of it with its page read, or as it was where
/// the fetch failed, and any other channel as it was.
pub proof fn law_states_after_a_cycle(
    state: &mut State,
    creds: Credentials,
    start: usize,
    fetched: Vec<Option<Vec<GraphChatMessage>>>,
    r: Vec<InboundMessage>,
    k: int,
    other: Seq<char>,
)
    requires
        call_ensures(run_poll_cycle, (state, &creds, start, fetched), r),
        0 <= k < creds.teams@.len(),
        only_step_for_its_channel(creds, start as int, creds.teams@.len() as int, k),
        forall|j: int|
            0 <= j < creds.teams@.len() ==> channel_key(
                #[trigger] step_team(creds, start as int, j),
            ) != other,
    ensures
        ({
            let key = channel_key(step_team(creds, start as int, k));
            &&& final(state)@.contains_key(key)
            &&& fetched@[k] matches Some(page) ==> final(state)@[key] == read(
                held(old(state)@, key),
                chronological(page@),
            )
            &&& fetched@[k] is None ==> final(state)@[key] == held(old(state)@, key)
        }),
        held(final(state)@, other) == held(old(state)@, other),
{
    let n = creds.teams@.len() as int;
    law_cycle_reads_its_channels(old(state)@, creds, start as int, fetched@, n, k);
    law_cycle_leaves_other_channels_alone(old(state)@, creds, start as int, fetched@, n, other);
}

/// Taking a channel's state out leaves the others, and putting one in sets just
/// that one.
pub proof fn law_take_and_put(
    taken_from: &mut State,
    key: &str,
    taken: ChannelState,
    put_into: &mut State,
    name: String,
    c: ChannelState,
    other: Seq<char>,
)
    requires
        call_ensures(State::take_channel, (taken_from, key), taken),
        call_ensures(State::put_channel, (put_into, name, c), ()),
    ensures
        taken@ == held(old(taken_from)@, key@),
        !final(taken_from)@.contains_key(key@),
        other != key@ ==> held(final(taken_from)@, other) == held(old(taken_from)@, other),
        held(final(put_into)@, name@) == c@,
        other != name@ ==> held(final(put_into)@, other) == held(old(put_into)@, other),
{
}

/// Which messages mention the bot, by their fields.
pub proof fn law_message_mentions_bot(msg: GraphChatMessage, creds: Credentials, r: bool)
    requires
        call_ensures(message_mentions_bot, (&msg, &creds), r),
    ensures
        r <==> (exists|m: int| mention_of(msg, creds.bot_app_id@, m)) || names_bot(
            plain(msg.body.content@),
            creds.bot_display_name@,
        ),
{
    law_either_is_a_mention(msg, creds);
    law_chip(msg, creds.bot_app_id@);
    if exists|m: int| mention_of(msg, creds.bot_app_id@, m) {
        let m = choose|m: int| mention_of(msg, creds.bot_app_id@, m);
        assert(msg.mentions@[m].mentioned.application is Some);
    }
    if has_chip(msg, creds.bot_app_id@) {
        let i = choose|i: int|
            0 <= i < msg.mentions@.len() && (
            (#[trigger] msg.mentions@[i]).mentioned.application matches Some(app) && lowered(
                app.id@,
            ) == lowered(creds.bot_app_id@));
        assert(mention_of(msg, creds.bot_app_id@, i));
    }
}

/// Text without markup is its own plain text, every line of it.
pub proof fn law_plain_text_returned(input: &str, r: String)
    requires
        call_ensures(plain_text, (input,), r),
    ensures
        !holds_tag(input@) && !holds_entity(input@) ==> r@ == input@,
{
    if !holds_tag(input@) && !holds_entity(input@) {
        law_plain_text_passes_unchanged(input@);
    }
}

/// A chip counts by the application's id, ASCII case aside, and the text by its
/// plain text.
pub proof fn law_ways_to_be_mentioned(
    msg: GraphChatMessage,
    app_id: &str,
    by_chip: bool,
    text: &str,
    name: &str,
    by_name: bool,
    m: int,
)
    requires
        call_ensures(chip_match, (&msg, app_id), by_chip),
        call_ensures(text_fallback_match, (text, name), by_name),
    ensures
        mention_of(msg, app_id@, m) ==> by_chip,
        msg.mentions@.len() == 0 ==> !by_chip,
        by_name <==> names_bot(plain(text@), name@),
        name@.len() == 0 ==> !by_name,
{
    law_chip(msg, app_id@);
    if mention_of(msg, app_id@, m) {
        assert(msg.mentions@[m].mentioned.application is Some);
    }
}

/// A message is new to a channel if it is later than the newest time seen, or has
/// that time and an id that is not kept.
pub proof fn law_is_new(state: ChannelState, time: &str, id: &str, r: bool)
    requires
        call_ensures(is_new, (&state, time, id), r),
    ensures
        state.last_seen is None ==> r,
        state.last_seen matches Some(last) ==> (r <==> precedes(last@, time@) || (last@ == time@
            && forall|k: int|
            0 <= k < state.seen_ids@.len() ==> (#[trigger] state.seen_ids@[k])@ != id@)),
{
    let ids = state@.seen_ids;
    if ids.contains(id@) {
        let k = choose|k: int| 0 <= k < ids.len() && ids[k] == id@;
        assert(state.seen_ids@[k]@ == id@);
    }
    if exists|k: int| 0 <= k < state.seen_ids@.len() && (#[trigger] state.seen_ids@[k])@ == id@ {
        let k = choose|k: int|
            0 <= k < state.seen_ids@.len() && (#[trigger] state.seen_ids@[k])@ == id@;
        assert(ids[k] == id@);
    }
    if let Some(last) = state.last_seen {
        assert(state@.last_seen == Some(last@));
        lemma_precedes_irreflexive(last@);
    }
}

/// Recording a message beyond the newest time seen sets that time and keeps its
/// id alone; at that time its id is kept behind the others, of which the oldest
/// goes where there are two hundred.
pub proof fn law_record_seen(state: &mut ChannelState, time: &str, id: &str)
    requires
        call_ensures(record_seen, (state, time, id), ()),
    ensures
        final(state)@.delta_link == old(state)@.delta_link,
        ({
            let (was, now) = (old(state)@, final(state)@);
            let later = match was.last_seen {
                Some(last) => precedes(last, time@),
                None => true,
            };
            &&& later ==> now.last_seen == Some(time@) && now.seen_ids == seq![id@]
            &&& !later ==> now.last_seen == was.last_seen
            &&& !later && was.seen_ids.len() < 200 ==> now.seen_ids == was.seen_ids.push(id@)
            &&& !later && was.seen_ids.len() == 200 ==> now.seen_ids == was.seen_ids.skip(1).push(
                id@,
            )
        }),
{
    law_recording(old(state)@, time@, id@);
}

// ---------------------------------------------------------------------------
// Polling
// ---------------------------------------------------------------------------

/// A request for a message hands out the oldest buffered one; where there is
/// none, a cycle is run unless one was run within the last five seconds. No
/// buffered message is lost, and the clock of the cycles moves only with a
/// cycle.
pub proof fn law_poll(gate: &mut PollGate, now_ms: u64, r: PollStep)
    requires
        call_ensures(poll, (gate, now_ms), r),
    ensures
        r is Deliver <==> old(gate).buffer@.len() > 0,
        r matches PollStep::Deliver(msg) ==> old(gate).buffer@ == seq![msg] + final(gate).buffer@,
        r !is Deliver ==> final(gate).buffer@.len() == 0,
        old(gate).buffer@.len() == 0 ==> (r is RunCycle <==> now_ms
            >= old(gate).next_allowed_poll_ms),
        r !is RunCycle ==> final(gate).next_allowed_poll_ms == old(gate).next_allowed_poll_ms,
        r is RunCycle && now_ms + 5_000 <= u64::MAX ==> final(gate).next_allowed_poll_ms == now_ms
            + 5_000,
        r is RunCycle && now_ms + 5_000 > u64::MAX ==> final(gate).next_allowed_poll_ms
            == u64::MAX,
        final(gate).round_robin_index == old(gate).round_robin_index,
{
    if let PollStep::Deliver(msg) = r {
        assert(old(gate).buffer@ =~= seq![msg] + final(gate).buffer@);
    }
}

/// A new gate holds no message, and its first cycle is due at once, whatever the
/// time, with the first channel.
pub proof fn law_new_gate(gate: PollGate, now_ms: u64, due: bool)
    requires
        call_ensures(PollGate::new, (), gate),
        call_ensures(should_poll, (gate.next_allowed_poll_ms, now_ms), due),
    ensures
        due,
        gate.buffer@.len() == 0,
        gate.round_robin_index == 0,
{
}

/// When to poll, and when next.
pub proof fn law_poll_times(
    allowed_ms: u64,
    now_ms: u64,
    interval_ms: u64,
    due: bool,
    next_ms: u64,
)
    requires
        call_ensures(should_poll, (allowed_ms, now_ms), due),
        call_ensures(next_poll_time, (now_ms, interval_ms), next_ms),
    ensures
        due <==> allowed_ms <= now_ms,
        next_ms == now_ms + interval_ms || (next_ms == u64::MAX && now_ms + interval_ms > u64::MAX),
{
}

/// A cycle starts with the channel after that of the cycle before it, going
/// round.
pub proof fn law_begin_cycle(gate: &mut PollGate, n: usize, r: usize)
    requires
        call_ensures(begin_cycle, (gate, n), r),
        n > 0,
    ensures
        old(gate).round_robin_index < n ==> r == old(gate).round_robin_index,
        r + 1 < n ==> final(gate).round_robin_index == r + 1,
        r + 1 == n ==> final(gate).round_robin_index == 0,
        r < n,
        final(gate).next_allowed_poll_ms == old(gate).next_allowed_poll_ms,
        final(gate).buffer@ == old(gate).buffer@,
{
    law_rotation(r as int, n as int);
    if old(gate).round_robin_index < n {
        vstd::arithmetic::div_mod::lemma_small_mod(
            old(gate).round_robin_index as nat,
            n as nat,
        );
    }
}

/// The next index, going round.
pub proof fn law_rotate_index(current: usize, len: usize, r: usize)
    requires
        call_ensures(rotate_index, (current, len), r),
    ensures
        len == 0 ==> r == 0,
        current + 1 < len ==> r == current + 1,
        current + 1 == len ==> r == 0,
{
    if current < len {
        law_rotation(current as int, len as int);
    }
}

/// What a cycle surfaced goes to the end of the buffer, all of it, and the
/// oldest message of the buffer is handed out.
pub proof fn law_deliver(
    gate: &mut PollGate,
    new_messages: Vec<InboundMessage>,
    r: Option<InboundMessage>,
)
    requires
        call_ensures(deliver, (gate, new_messages), r),
    ensures
        new_messages@.len() == 0 ==> r is None && final(gate).buffer@ == old(gate).buffer@,
        new_messages@.len() > 0 ==> (r matches Some(msg) && seq![msg] + final(gate).buffer@
            == old(gate).buffer@ + new_messages@),
        final(gate).round_robin_index == old(gate).round_robin_index,
        final(gate).next_allowed_poll_ms == old(gate).next_allowed_poll_ms,
{
    if let Some(msg) = r {
        assert(seq![msg] + final(gate).buffer@ =~= old(gate).buffer@ + new_messages@);
    }
}

// ---------------------------------------------------------------------------
// Asking
// ---------------------------------------------------------------------------

/// How a reply is read: the token, a space and a word whose lower case is one
/// of the three words give that answer, and any other word gives none.
pub proof fn law_parse_token_reply(
    body: &str,
    token: &str,
    typed: Seq<char>,
    word: Seq<char>,
    r: Option<ApprovalResponse>,
)
    requires
        call_ensures(parse_token_reply, (body, token), r),
        token_shaped(token@),
        lowered(typed) == lowered(token@),
        body@ == typed + seq![' '] + word,
    ensures
        lowered(word) == "approve"@ ==> r == Some(ApprovalResponse::Approve),
        lowered(word) == "deny"@ ==> r == Some(ApprovalResponse::Deny),
        lowered(word) == "always"@ ==> r == Some(ApprovalResponse::AlwaysApprove),
        is_word(word) && !holds_tag(word) && !holds_entity(word) && lowered(word) != "approve"@
            && lowered(word) != "deny"@ && lowered(word) != "always"@ ==> r is None,
{
    law_reply_by_lower_case(typed, token@, word);
    if is_word(word) && !holds_tag(word) && !holds_entity(word) && lowered(word) != "approve"@
        && lowered(word) != "deny"@ && lowered(word) != "always"@ {
        law_other_words_are_no_reply(typed, token@, word);
    }
}

/// A message whose first word is not the token gives no answer.
pub proof fn law_parse_needs_the_token(
    body: &str,
    token: &str,
    choices: &[String],
    answer: Option<ApprovalResponse>,
    picked: Option<String>,
)
    requires
        call_ensures(parse_token_reply, (body, token), answer),
        call_ensures(parse_token_choice, (body, token, choices), picked),
        words(plain(body@)).len() == 0 || lowered(words(plain(body@))[0]) != lowered(token@),
    ensures
        answer is None,
        picked is None,
{
}

/// The token, a space and the number of a choice give the text of that choice,
/// all of it.
pub proof fn law_parse_token_choice(
    body: &str,
    token: &str,
    choices: &[String],
    typed: Seq<char>,
    number: nat,
    r: Option<String>,
)
    requires
        call_ensures(parse_token_choice, (body, token, choices), r),
        token_shaped(token@),
        lowered(typed) == lowered(token@),
        1 <= number <= choices@.len(),
        choices@.len() <= usize::MAX,
        body@ == typed + seq![' '] + decimal(number),
    ensures
        r matches Some(text) && text@ == choices@[number - 1]@,
{
    law_number_picks_choice(typed, token@, choices@, number);
}

/// The token, a space and the text of a choice, ASCII case aside, give the first
/// choice with that text, as the choice was given.
pub proof fn law_parse_token_choice_by_text(
    body: &str,
    token: &str,
    choices: &[String],
    typed: Seq<char>,
    word: Seq<char>,
    at: int,
    r: Option<String>,
)
    requires
        call_ensures(parse_token_choice, (body, token, choices), r),
        token_shaped(token@),
        lowered(typed) == lowered(token@),
        is_word(word) && !holds_tag(word) && !holds_entity(word),
        natural(word, usize::MAX as nat) is None,
        body@ == typed + seq![' '] + word,
    ensures
        0 <= at < choices@.len() && lowered(choices@[at]@) == lowered(word) && (forall|k: int|
            0 <= k < at ==> lowered((#[trigger] choices@[k])@) != lowered(word)) ==> (
        r matches Some(text) && text@ == choices@[at]@),
        (forall|k: int|
            0 <= k < choices@.len() ==> lowered((#[trigger] choices@[k])@) != lowered(word))
            ==> r is None,
{
    lemma_words_of_answer(typed, token@, word);
    lemma_words_of_word(word);
    let ws = words(plain(body@));
    assert(ws =~= seq![typed, word]);
    assert(ws.skip(1) =~= seq![word]);
    assert(joined(seq![word], " "@) == word);
    lemma_joined_words_trimmed(seq![word]);
    if 0 <= at < choices@.len() && lowered(choices@[at]@) == lowered(word) && (forall|k: int|
        0 <= k < at ==> lowered((#[trigger] choices@[k])@) != lowered(word)) {
        law_text_is_compared_by_lower_case(choices@, word, at);
    }
    if forall|k: int|
        0 <= k < choices@.len() ==> lowered((#[trigger] choices@[k])@) != lowered(word) {
        law_other_texts_pick_nothing(choices@, word);
    }
}

/// A look at the channel takes the choice of the first message, oldest first,
/// that was created after the prompt, that the bot did not send, and that picks
/// one.
pub proof fn law_look_for_choice(
    wait: &mut ReplyWait,
    messages: Vec<GraphChatMessage>,
    bot: &str,
    choices: &[String],
    r: Awaited<String>,
    at: int,
    picked: int,
)
    requires
        call_ensures(look_for_choice, (wait, messages, bot, choices), r),
        0 <= at < messages@.len(),
        precedes(old(wait).since@, chronological(messages@)[at].created_date_time@),
        !sent_by(chronological(messages@)[at], bot@),
        choice(chronological(messages@)[at].body.content@, old(wait).token@, choices@) == Some(
            picked,
        ),
        forall|k: int|
            0 <= k < at ==> !precedes(
                old(wait).since@,
                (#[trigger] chronological(messages@)[k]).created_date_time@,
            ) || sent_by(chronological(messages@)[k], bot@) || choice(
                chronological(messages@)[k].body.content@,
                old(wait).token@,
                choices@,
            ) is None,
    ensures
        r matches Awaited::Settled(Some(text)) && text@ == choices@[picked]@,
        final(wait).token == old(wait).token,
        final(wait).deadline_ms == old(wait).deadline_ms,
{
    law_chronological(messages@);
    let msgs = chronological(messages@);
    let (since, token) = (old(wait).since@, old(wait).token@);
    law_who_may_answer(msgs[at], since, bot@);
    assert(gives_choice(msgs[at], since, bot@, token, choices@));
    assert forall|k: int| 0 <= k < at implies !gives_choice(
        #[trigger] msgs[k],
        since,
        bot@,
        token,
        choices@,
    ) by {
        law_who_may_answer(msgs[k], since, bot@);
    }
    law_first_choice_decides(msgs, since, bot@, token, choices@, at);
}

/// Messages that are not later than what was looked at, or that the bot sent,
/// settle nothing; the next look starts from the newest message.
pub proof fn law_look_goes_on(
    wait: &mut ReplyWait,
    messages: Vec<GraphChatMessage>,
    bot: &str,
    r: Awaited<ApprovalResponse>,
)
    requires
        call_ensures(look_for_reply, (wait, messages, bot), r),
        messages@.len() > 0,
        forall|k: int|
            0 <= k < messages@.len() ==> !precedes(
                old(wait).since@,
                (#[trigger] chronological(messages@)[k]).created_date_time@,
            ) || sent_by(chronological(messages@)[k], bot@),
    ensures
        r is Pending,
        final(wait).since@ == chronological(messages@).last().created_date_time@,
{
    law_chronological(messages@);
    let msgs = chronological(messages@);
    let (since, token) = (old(wait).since@, old(wait).token@);
    assert forall|k: int| 0 <= k < msgs.len() implies !gives_reply(
        #[trigger] msgs[k],
        since,
        bot@,
        token,
    ) by {
        law_who_may_answer(msgs[k], since, bot@);
    }
    law_no_answer_without_a_message(msgs, since, bot@, token, Seq::empty());
}

/// A token has six characters, each picked by a seed, and the first by the seed
/// that was given: a letter for a remainder below 26, a digit for the others.
pub proof fn law_encode_token(seed: u64, r: String)
    requires
        call_ensures(encode_token, (seed,), r),
    ensures
        r@.len() == 6,
        seed % 36 < 26 ==> r@[0] as int == 'A' as int + seed % 36,
        seed % 36 >= 26 ==> r@[0] as int == '0' as int + seed % 36 - 26,
        forall|i: int|
            0 <= i < 6 ==> ('A' <= #[trigger] r@[i] && r@[i] <= 'Z') || ('0' <= r@[i] && r@[i]
                <= '9'),
{
    law_token(seed, 6);
}

/// Waiting for an approval ends at the deadline with a denial, and waiting for a
/// choice without an answer; before it, waiting goes on.
pub proof fn law_deadlines(
    wait: ReplyWait,
    now_ms: u64,
    approval: Awaited<ApprovalResponse>,
    choice: Awaited<String>,
)
    requires
        call_ensures(approval_at, (&wait, now_ms), approval),
        call_ensures(choice_at, (&wait, now_ms), choice),
    ensures
        now_ms < wait.deadline_ms ==> approval is Pending && choice is Pending,
        now_ms >= wait.deadline_ms ==> approval == Awaited::Settled(Some(ApprovalResponse::Deny))
            && choice == Awaited::<String>::Settled(None),
{
}

/// How long an answer is awaited: an approval five minutes, a choice as long as
/// asked but a second at least; from the time of the prompt.
pub proof fn law_waits(
    token: String,
    since: String,
    now_ms: u64,
    timeout_secs: u64,
    approval: ReplyWait,
    choice: ReplyWait,
)
    requires
        call_ensures(ReplyWait::for_approval, (token, since, now_ms), approval),
        call_ensures(ReplyWait::for_choice, (token, since, now_ms, timeout_secs), choice),
    ensures
        approval.token == token && choice.token == token,
        approval.since == since && choice.since == since,
        approval.deadline_ms == now_ms + 300_000,
        timeout_secs == 0 ==> choice.deadline_ms == now_ms + 1_000,
        timeout_secs > 0 ==> choice.deadline_ms == now_ms + timeout_secs * 1_000,
{
}

/// A look at the channel takes the reply of the first message, oldest first,
/// that was created after the prompt, that the bot did not send, and that
/// answers.
pub proof fn law_look_for_reply(
    wait: &mut ReplyWait,
    messages: Vec<GraphChatMessage>,
    bot: &str,
    r: Awaited<ApprovalResponse>,
    at: int,
    typed: Seq<char>,
    word: Seq<char>,
)
    requires
        call_ensures(look_for_reply, (wait, messages, bot), r),
        token_shaped(old(wait).token@),
        lowered(typed) == lowered(old(wait).token@),
        0 <= at < messages@.len(),
        precedes(old(wait).since@, chronological(messages@)[at].created_date_time@),
        !sent_by(chronological(messages@)[at], bot@),
        chronological(messages@)[at].body.content@ == typed + seq![' '] + word,
        forall|k: int|
            0 <= k < at ==> !precedes(
                old(wait).since@,
                (#[trigger] chronological(messages@)[k]).created_date_time@,
            ) || sent_by(chronological(messages@)[k], bot@) || reply(
                chronological(messages@)[k].body.content@,
                old(wait).token@,
            ) is None,
    ensures
        lowered(word) == "approve"@ ==> r == Awaited::Settled(Some(ApprovalResponse::Approve)),
        lowered(word) == "deny"@ ==> r == Awaited::Settled(Some(ApprovalResponse::Deny)),
        lowered(word) == "always"@ ==> r == Awaited::Settled(
            Some(ApprovalResponse::AlwaysApprove),
        ),
        final(wait).token == old(wait).token,
        final(wait).deadline_ms == old(wait).deadline_ms,
{
    law_chronological(messages@);
    law_operators_reply_is_taken(
        chronological(messages@),
        old(wait).since@,
        bot@,
        old(wait).token@,
        at,
        typed,
        word,
    );
}

/// A look that finds no message at all leaves everything as it is.
pub proof fn law_look_at_nothing(
    wait: &mut ReplyWait,
    messages: Vec<GraphChatMessage>,
    bot: &str,
    r: Awaited<ApprovalResponse>,
)
    requires
        call_ensures(look_for_reply, (wait, messages, bot), r),
        messages@.len() == 0,
    ensures
        r is Pending,
        final(wait).since@ == old(wait).since@,
{
    law_chronological(messages@);
}

/// A question goes to the recipient's team and channel, whole, and carries the
/// token; a recipient without a slash is refused, and told.
pub proof fn law_questions(
    recipient: &str,
    request: ApprovalRequest,
    question: &str,
    choices: &[String],
    token: String,
    approval: Result<Question, String>,
    choice: Result<Question, String>,
)
    requires
        call_ensures(approval_question, (recipient, &request, token), approval),
        call_ensures(choice_question, (recipient, question, choices, token), choice),
    ensures
        approval is Ok <==> recipient@.contains('/'),
        choice is Ok <==> recipient@.contains('/'),
        approval matches Ok(q) ==> recipient@ == q.team_id@ + seq!['/'] + q.channel_id@
            && !q.team_id@.contains('/') && q.token@ == token@,
        choice matches Ok(q) ==> recipient@ == q.team_id@ + seq!['/'] + q.channel_id@
            && !q.team_id@.contains('/') && q.token@ == token@,
{
    law_recipient_needs_a_slash(recipient@);
    lemma_cut(recipient@, '/');
    if let Ok(q) = approval {
        law_question_goes_to_the_recipient(q, recipient@, token@, q.prompt@);
    }
    if let Ok(q) = choice {
        law_question_goes_to_the_recipient(q, recipient@, token@, q.prompt@);
    }
}

// ---------------------------------------------------------------------------
// Requests
// ---------------------------------------------------------------------------

/// Requests go to the channel's messages, with the whole team id and the whole
/// channel id in the path, or to the replies of a message there.
pub proof fn law_request_urls(
    token: &str,
    team_id: &str,
    channel_id: &str,
    root: &str,
    content: &str,
    list: GraphRequest,
    replies: GraphRequest,
    post: GraphRequest,
    answer: GraphRequest,
)
    requires
        call_ensures(list_channel_messages, (token, team_id, channel_id), list),
        call_ensures(list_replies, (token, team_id, channel_id, root), replies),
        call_ensures(send_message, (token, team_id, channel_id, content), post),
        call_ensures(send_reply, (token, team_id, channel_id, root, content), answer),
    ensures
        list.url@ == "https://graph.microsoft.com/v1.0/teams/"@ + team_id@ + "/channels/"@
            + channel_id@ + "/messages"@,
        replies.url@ == list.url@ + "/"@ + root@ + "/replies"@,
        post.url@ == list.url@,
        answer.url@ == replies.url@,
        list.authorization@ == "Bearer "@ + token@,
        replies.authorization@ == list.authorization@,
        post.authorization@ == list.authorization@,
        answer.authorization@ == list.authorization@,
        list.method == Method::Get && replies.method == Method::Get,
        post.method == Method::Post && answer.method == Method::Post,
        list.content is None && replies.content is None,
        post.content matches Some(c) && c@ == content@,
        answer.content matches Some(c) && c@ == content@,
        list.query@.len() == 1 && list.query@[0].0@ == "$top"@ && list.query@[0].1@ == "50"@,
        replies.query@.len() == 0 && post.query@.len() == 0 && answer.query@.len() == 0,
{
    assert(list@.query.len() == 1 && list@.query[0] == ("$top"@, "50"@));
    assert(replies@.query.len() == 0);
    assert(post@.query.len() == 0);
    assert(answer@.query.len() == 0);
    assert(post@.content == Some(content@));
    assert(answer@.content == Some(content@));
}

/// A recipient is split at its first slash, and nothing of it is lost; without
/// a slash it is refused, and told.
pub proof fn law_split_recipient<'a>(recipient: &'a str, r: Result<(&'a str, &'a str), String>)
    requires
        call_ensures(split_recipient, (recipient,), r),
    ensures
        r is Ok <==> recipient@.contains('/'),
        r matches Ok((team, channel)) ==> recipient@ == team@ + seq!['/'] + channel@
            && !team@.contains('/'),
        r matches Err(e) ==> e@ == "invalid recipient (expected \"team_id/channel_id\"): "@
            + recipient@,
{
    law_recipient_needs_a_slash(recipient@);
    lemma_cut(recipient@, '/');
}

/// A response refuses its request from status 400 on; the error tells the status
/// and what the server said.
pub proof fn law_errors(
    status: u16,
    body: &str,
    message: Option<&str>,
    no: bool,
    of_token: Option<String>,
    of_graph: Option<String>,
)
    requires
        call_ensures(refused, (status,), no),
        call_ensures(token_error, (status, body), of_token),
        call_ensures(graph_error, (status, body, message), of_graph),
    ensures
        no <==> status >= 400,
        of_token is Some <==> status >= 400,
        of_graph is Some <==> status >= 400,
        of_token matches Some(e) ==> e@ == "token request returned "@ + decimal(status as nat)
            + ": "@ + body@,
        of_graph matches Some(e) ==> (message matches Some(m) ==> e@ == "graph api returned "@
            + decimal(status as nat) + ": "@ + m@),
        of_graph matches Some(e) ==> (message is None ==> e@ == "graph api returned "@ + decimal(
            status as nat,
        ) + ": "@ + body@),
{
}

/// A granted token is kept whole, for as many seconds as it was granted for, and
/// is handed out again until a minute before its life ends.
pub proof fn law_token_cache(
    access_token: String,
    expires_in: u64,
    granted_ms: u64,
    fresh: CachedToken,
    cache: &mut Option<CachedToken>,
    first: String,
    now_ms: u64,
    again: Option<String>,
)
    requires
        call_ensures(granted_token, (access_token, expires_in, granted_ms), fresh),
        call_ensures(keep_token, (cache, fresh), first),
        call_ensures(get_token, (final(cache), now_ms), again),
        granted_ms + expires_in * 1_000 <= u64::MAX,
    ensures
        first@ == access_token@,
        fresh.expires_at_unix_ms == granted_ms + expires_in * 1_000,
        now_ms + 60_000 < granted_ms + expires_in * 1_000 ==> (again matches Some(t) && t@
            == access_token@),
        now_ms + 60_000 >= granted_ms + expires_in * 1_000 ==> again is None,
{
}

/// No cached token, none to hand out.
pub proof fn law_empty_token_cache(now_ms: u64, r: Option<String>)
    requires
        call_ensures(get_token, (&None::<CachedToken>, now_ms), r),
    ensures
        r is None,
{
}

// ---------------------------------------------------------------------------
// The channel
// ---------------------------------------------------------------------------

/// A message goes to the channel that its recipient names, as a reply where it
/// names a root message; its content goes out whole.
pub proof fn law_send(
    message: SendMessage,
    token: &str,
    r: Result<Outgoing, String>,
    request: GraphRequest,
)
    requires
        call_ensures(TeamsChannel::send, (&message,), r),
        r matches Ok(outgoing) ==> call_ensures(Outgoing::request, (&outgoing, token), request),
    ensures
        r is Ok <==> message.recipient@.contains('/'),
        r matches Ok(outgoing) ==> {
            &&& message.recipient@ == outgoing.team_id@ + seq!['/'] + outgoing.channel_id@
            &&& !outgoing.team_id@.contains('/')
            &&& outgoing.content@ == message.content@
            &&& request.method == Method::Post
            &&& request.content matches Some(c) && c@ == message.content@
            &&& request.authorization@ == "Bearer "@ + token@
            &&& message.thread_ts is None ==> request.url@
                == "https://graph.microsoft.com/v1.0/teams/"@ + outgoing.team_id@ + "/channels/"@
                + outgoing.channel_id@ + "/messages"@
            &&& message.thread_ts matches Some(root) ==> request.url@
                == "https://graph.microsoft.com/v1.0/teams/"@ + outgoing.team_id@ + "/channels/"@
                + outgoing.channel_id@ + "/messages"@ + "/"@ + root@ + "/replies"@
        },
        r matches Err(e) ==> e@ == "invalid recipient (expected \"team_id/channel_id\"): "@
            + message.recipient@,
{
    law_recipient_needs_a_slash(message.recipient@);
    lemma_cut(message.recipient@, '/');
    if let Ok(outgoing) = r {
        assert(request@ == posting(outgoing, token@));
        assert(request@.content == Some(outgoing.content@));
    }
}

/// The bot's handle is its application's id, and it is addressed by an `@` and
/// its name; both whole.
pub proof fn law_handles(
    creds: Credentials,
    handle: Option<String>,
    mention: Option<String>,
    no_handle: Option<String>,
    no_mention: Option<String>,
)
    requires
        call_ensures(TeamsChannel::self_handle, (Some(&creds),), handle),
        call_ensures(TeamsChannel::self_addressed_mention, (Some(&creds),), mention),
        call_ensures(TeamsChannel::self_handle, (None::<&Credentials>,), no_handle),
        call_ensures(TeamsChannel::self_addressed_mention, (None::<&Credentials>,), no_mention),
    ensures
        handle matches Some(h) && h@ == creds.bot_app_id@,
        mention matches Some(m) && m@ == "@"@ + creds.bot_display_name@,
        no_handle is None,
        no_mention is None,
{
}

/// A message is dropped as the bot's own just where its sender is the bot's id,
/// ASCII case and any number of leading `@`s aside; never without credentials or
/// without an id.
pub proof fn law_drop_self_message(
    creds: Credentials,
    msg: InboundMessage,
    r: bool,
    without: bool,
    n: nat,
    m: nat,
    id: Seq<char>,
    from: Seq<char>,
)
    requires
        call_ensures(TeamsChannel::drop_self_message, (Some(&creds), &msg), r),
        call_ensures(TeamsChannel::drop_self_message, (None::<&Credentials>, &msg), without),
        id.len() > 0 ==> id[0] != '@',
        from.len() > 0 ==> from[0] != '@',
        creds.bot_app_id@ == Seq::new(n, |i: int| '@') + id,
        msg.sender@ == Seq::new(m, |i: int| '@') + from,
    ensures
        r <==> id.len() > 0 && lowered(id) == lowered(from),
        !without,
{
    law_bare_handle(n, id);
    law_bare_handle(m, from);
    assert(lowered(id).len() == id.len());
}

/// The channel goes by one name: messages to the agent carry the name that the
/// host knows it by.
pub proof fn law_name(
    msg: GraphChatMessage,
    team: TeamChannelConfig,
    sent: InboundMessage,
    name: String,
)
    requires
        call_ensures(to_inbound_message, (&msg, &team), sent),
        call_ensures(TeamsChannel::name, (), name),
    ensures
        sent.channel@ == name@,
        name@ == "microsoft-teams"@,
{
    law_to_inbound_message(msg, team, sent);
}

/// A question goes to the first configured channel.
pub proof fn law_choice_recipient(creds: Credentials, r: Result<String, String>)
    requires
        call_ensures(TeamsChannel::choice_recipient, (&creds,), r),
    ensures
        creds.teams@.len() > 0 ==> (r matches Ok(text) && text@ == creds.teams@[0].team_id@ + seq![
            '/',
        ] + creds.teams@[0].channel_id@),
        creds.teams@.len() == 0 ==> (r matches Err(e) && e@
            == "no teams configured in credentials.toml"@),
{
}

// ---------------------------------------------------------------------------
// Retrying
// ---------------------------------------------------------------------------

/// The delay for an attempt: never longer than the cap, and where it is below
/// the cap, within a quarter of the base delay times two to the power of the
/// attempt.
pub proof fn law_backoff_ms(
    attempt: u32,
    base_delay_ms: u64,
    max_delay_ms: u64,
    random: u64,
    r: u64,
)
    requires
        call_ensures(backoff_ms, (attempt, base_delay_ms, max_delay_ms, random), r),
        5 * (base_delay_ms * pow2(attempt as nat)) <= 0x20_0000_0000_0000,
    ensures
        ({
            let full = base_delay_ms * pow2(attempt as nat);
            &&& r <= max_delay_ms
            &&& 4 * r <= 5 * full
            &&& r < max_delay_ms ==> r >= 3 * full / 4
            &&& max_delay_ms <= 3 * full / 4 ==> r == max_delay_ms
            &&& 5 * full / 4 < max_delay_ms ==> r < max_delay_ms
        }),
{
    law_backoff_within_a_quarter(attempt, base_delay_ms, max_delay_ms, random);
}

/// The drawn delay is a whole number of milliseconds within the same bounds.
pub proof fn law_compute_backoff(
    attempt: u32,
    base_delay_ms: u64,
    max_delay_ms: u64,
    r: Duration,
)
    requires
        call_ensures(compute_backoff, (attempt, base_delay_ms, max_delay_ms), r),
        5 * (base_delay_ms * pow2(attempt as nat)) <= 0x20_0000_0000_0000,
    ensures
        exists|ms: u64|
            {
                let full = base_delay_ms * pow2(attempt as nat);
                &&& r == #[trigger] duration_of_millis(ms)
                &&& ms <= max_delay_ms
                &&& 4 * ms <= 5 * full
                &&& ms < max_delay_ms ==> ms >= 3 * full / 4
            },
{
    let random = choose|random: u64|
        r == duration_of_millis(#[trigger] backoff(attempt, base_delay_ms, max_delay_ms, random));
    law_backoff_within_a_quarter(attempt, base_delay_ms, max_delay_ms, random);
    assert(r == duration_of_millis(backoff(attempt, base_delay_ms, max_delay_ms, random)));
}

/// Worth a retry are the status 429 and the server errors, those of the fifth
/// hundred.
pub proof fn law_retryable(status: u16, r: bool)
    requires
        call_ensures(is_retryable_status, (status,), r),
    ensures
        r <==> status == 429 || status / 100 == 5,
{
}

/// A number of seconds asks for that many seconds, whatever the date and the
/// time.
pub proof fn law_retry_after(
    value: &str,
    date: Option<UtcInstant>,
    now: UtcInstant,
    r: Option<u64>,
    seconds: u64,
)
    requires
        call_ensures(retry_after_with_date, (value, date, now), r),
        value@ == decimal(seconds as nat),
    ensures
        seconds * 1000 <= u64::MAX ==> r == Some((seconds * 1000) as u64),
        seconds * 1000 > u64::MAX ==> r == Some(u64::MAX),
{
    law_whole_seconds(seconds, date, now);
}

/// A date asks for the time until then, where the value is no number, and for no
/// wait once it has passed.
pub proof fn law_retry_at_a_date(
    value: &str,
    date: UtcInstant,
    now: UtcInstant,
    r: Option<u64>,
    without: Option<u64>,
)
    requires
        call_ensures(retry_after_with_date, (value, Some(date), now), r),
        call_ensures(retry_after_with_date, (value, None::<UtcInstant>, now), without),
        date.valid(),
        now.valid(),
        date.nanos < 1_000_000_000,
        now.nanos < 1_000_000_000,
        value@.len() > 0,
        trimmed(value@) == value@,
        natural(value@, u64::MAX as nat) is None,
        natural(before(value@, '.'), u64::MAX as nat) is None,
    ensures
        ({
            let nanos = (date.secs - now.secs) * 1_000_000_000 + date.nanos - now.nanos;
            &&& nanos >= 0 ==> (r matches Some(ms) && ms == nanos / 1_000_000)
            &&& nanos <= 0 ==> r == Some(0u64)
        }),
        without is None,
{
    law_reading_a_value(value@, Some(date), now);
    law_reading_a_value(value@, None, now);
    law_delay_until_a_date(date, now);
}

/// A timestamp reads as the milliseconds of its fields, where these are of a
/// time from the epoch on.
pub proof fn law_parse_iso8601(s: &str, t: CivilTime, r: Option<u64>)
    requires
        call_ensures(parse_iso8601_to_unix_ms, (s,), r),
        civil_time(s@) == Some(t),
        1970 <= t.year <= 200_000_000,
        calendar_day(t.year as int, t.month as int, t.day as int),
        0 <= t.hour < 24,
        0 <= t.minute < 60,
        0 <= t.second <= 60,
        0 <= t.millis < 1000,
    ensures
        r matches Some(ms) && ms == civil_days(t.year as int, t.month as int, t.day as int)
            * 86_400_000 + t.hour * 3_600_000 + t.minute * 60_000 + t.second * 1000 + t.millis,
{
    law_ordinary_times_can_be_counted(t);
    law_unix_millis(t);
    law_what_is_told(s@, t);
    law_count_starts_at_the_epoch();
    let day = (t.year as int, t.month as int, t.day as int);
    if day != (1970int, 1int, 1int) {
        law_earlier_day_counts_less((1970, 1, 1), day);
    }
}

/// The parts of a point in time are kept as given.
pub proof fn law_new_instant(secs: i64, nanos: u32, r: Option<UtcInstant>)
    requires
        call_ensures(UtcInstant::new, (secs, nanos), r),
    ensures
        r matches Some(t) ==> t.secs == secs && t.nanos == nanos,
        nanos < 1_000_000_000 && -8_334_601_228_800 <= secs <= 8_210_266_876_799 ==> r is Some,
        nanos >= 2_000_000_000 ==> r is None,
{
}

} // verus!
