//! What reaches the agent: which messages, said over their own fields, and
//! what of them.
use vstd::prelude::*;

use crate::credentials::{Credentials, TeamChannelConfig};
use crate::delivery::{
    law_cycle_leaves_other_channels_alone, law_new_mention_is_surfaced,
    law_only_addressed_messages_surface, law_reading_never_moves_the_watermark_back, same_message,
};
use crate::graph::{chronological, created_before, law_chronological, sender, GraphChatMessage};
use crate::mentions::{
    has_chip, holds_entity, holds_tag, law_plain_text, law_plain_text_passes_unchanged,
    law_stripping_keeps_plain_text, law_tag_is_cut_out, mentions_application, names_bot, plain,
};
use crate::poll_gate::{
    channel_key, contents, cycle_inbound, cycle_states, for_agent, held, inbound, inbound_all,
    lemma_visited, new_to, poll_time, read, rotated, step_surfaced, step_team, surfaced,
};
use crate::protocol::InboundMessage;
use crate::state::{
    beyond, fresh, law_seen_message_stays_seen, lemma_channel_map, newest, recorded, ChannelState,
    ChannelView, State, SEEN_IDS_RING_SIZE,
};
use crate::text::{
    lemma_precedes_irreflexive, lemma_precedes_total, lemma_precedes_transitive, lowered, precedes,
    white_space,
};
use crate::timestamp::timestamp_millis;

verus! {

// ---------------------------------------------------------------------------
// Messages, over their fields
// ---------------------------------------------------------------------------

/// Whether a message was sent by the application or the user with this id: the
/// application where the message names one.
pub open spec fn sent_by(msg: GraphChatMessage, id: Seq<char>) -> bool {
    match msg.from.application {
        Some(app) => app.id@ == id,
        None => msg.from.user matches Some(user) && user.id@ == id,
    }
}

/// Whether a channel has not seen a message: it was created after the newest
/// time seen, or at that time under an id that is not kept.
pub open spec fn not_seen(c: ChannelView, msg: GraphChatMessage) -> bool {
    match c.last_seen {
        None => true,
        Some(last) => precedes(last, msg.created_date_time@) || (last == msg.created_date_time@
            && !c.seen_ids.contains(msg.id@)),
    }
}

/// Whether one of the message's mentions is of the application with this id,
/// ASCII case aside.
pub open spec fn mention_of(msg: GraphChatMessage, app_id: Seq<char>, m: int) -> bool {
    &&& 0 <= m < msg.mentions@.len()
    &&& msg.mentions@[m].mentioned.application matches Some(app)
    &&& lowered(app.id@) == lowered(app_id)
}

/// Who sent a message.
pub proof fn law_sender(msg: GraphChatMessage, id: Seq<char>)
    ensures
        sent_by(msg, id) <==> sender(msg) == Some(id),
        msg.from.application is None && msg.from.user is None <==> sender(msg) is None,
{
}

/// When a message is new to a channel.
pub proof fn law_new(c: ChannelView, msg: GraphChatMessage)
    ensures
        new_to(c, msg) <==> not_seen(c, msg),
        fresh(c, msg.created_date_time@, msg.id@) <==> not_seen(c, msg),
{
}

/// Which messages are for the agent: those that the bot did not send and that
/// have a mention of the bot or name it in their plain text.
pub proof fn law_for_agent(msg: GraphChatMessage, creds: Credentials)
    ensures
        for_agent(msg, creds) <==> !sent_by(msg, creds.bot_app_id@) && ((exists|m: int|
            mention_of(msg, creds.bot_app_id@, m)) || names_bot(
            plain(msg.body.content@),
            creds.bot_display_name@,
        )),
{
    law_sender(msg, creds.bot_app_id@);
    if has_chip(msg, creds.bot_app_id@) {
        let i = choose|i: int|
            0 <= i < msg.mentions@.len() && mentions_application(
                #[trigger] msg.mentions@[i],
                creds.bot_app_id@,
            );
        assert(mention_of(msg, creds.bot_app_id@, i));
    }
    if exists|m: int| mention_of(msg, creds.bot_app_id@, m) {
        let m = choose|m: int| mention_of(msg, creds.bot_app_id@, m);
        assert(mentions_application(msg.mentions@[m], creds.bot_app_id@));
    }
}

// ---------------------------------------------------------------------------
// Which messages of a page surface
// ---------------------------------------------------------------------------

/// Chronological order, by the times themselves: no message comes before one
/// with an earlier time, and the messages are those that were given.
pub proof fn law_page_order(page: Seq<GraphChatMessage>, i: int, j: int)
    requires
        0 <= i < j < page.len(),
    ensures
        chronological(page).len() == page.len(),
        !precedes(
            chronological(page)[j].created_date_time@,
            chronological(page)[i].created_date_time@,
        ),
        chronological(page).to_multiset() == page.to_multiset(),
{
    law_chronological(page);
    assert(!created_before(chronological(page)[j], chronological(page)[i]));
}

proof fn lemma_sorted_is_the_page(page: Seq<GraphChatMessage>, x: GraphChatMessage)
    ensures
        chronological(page).contains(x) <==> page.contains(x),
{
    broadcast use vstd::seq_lib::group_to_multiset_ensures;

    law_chronological(page);
    assert(page.to_multiset().count(x) == chronological(page).to_multiset().count(x));
}

/// A message of a page that is not the bot's own, that its channel has not
/// seen, and that is addressed to the bot surfaces when the page is read. No
/// other message of the page has its time and its id.
proof fn lemma_surfaces(
    c: ChannelView,
    page: Seq<GraphChatMessage>,
    creds: Credentials,
    i: int,
)
    requires
        0 <= i < page.len(),
        not_seen(c, page[i]),
        for_agent(page[i], creds),
        forall|j: int|
            0 <= j < page.len() && j != i ==> (#[trigger] page[j]).created_date_time@
                != page[i].created_date_time@ || page[j].id@ != page[i].id@,
    ensures
        surfaced(c, chronological(page), creds).contains(page[i]),
{
    let sorted = chronological(page);
    let msg = page[i];
    law_chronological(page);
    lemma_sorted_is_the_page(page, msg);
    assert(page.contains(page[i]));
    let p = first_like(sorted, msg, 0);
    lemma_first_like(sorted, msg, 0);
    lemma_sorted_is_the_page(page, sorted[p]);
    assert(sorted.contains(sorted[p]));
    let k = choose|k: int| 0 <= k < page.len() && page[k] == sorted[p];
    assert(k == i);
    law_new(c, msg);
    law_new_mention_is_surfaced(c, sorted, creds, p);
}

/// The first place from `at` on of a message with the same time and id.
spec fn first_like(msgs: Seq<GraphChatMessage>, msg: GraphChatMessage, at: int) -> int
    decreases msgs.len() - at,
{
    if at >= msgs.len() || same_message(msgs[at], msg) {
        at
    } else {
        first_like(msgs, msg, at + 1)
    }
}

proof fn lemma_first_like(msgs: Seq<GraphChatMessage>, msg: GraphChatMessage, at: int)
    requires
        0 <= at <= msgs.len(),
        msgs.contains(msg),
        forall|j: int| 0 <= j < at ==> !same_message(#[trigger] msgs[j], msg),
    ensures
        at <= first_like(msgs, msg, at) < msgs.len(),
        same_message(msgs[first_like(msgs, msg, at)], msg),
        forall|j: int|
            0 <= j < first_like(msgs, msg, at) ==> !same_message(#[trigger] msgs[j], msg),
    decreases msgs.len() - at,
{
    let k = choose|k: int| 0 <= k < msgs.len() && msgs[k] == msg;
    assert(same_message(msgs[k], msg));
    if at < msgs.len() && !same_message(msgs[at], msg) {
        lemma_first_like(msgs, msg, at + 1);
    }
}

/// A mention chip of the bot is enough: a message of a page that its channel
/// has not seen, that the bot did not send, and one of whose mentions is of the
/// bot's application, surfaces whatever its text says.
pub proof fn law_chip_is_enough(
    c: ChannelView,
    page: Seq<GraphChatMessage>,
    creds: Credentials,
    i: int,
    m: int,
)
    requires
        0 <= i < page.len(),
        not_seen(c, page[i]),
        !sent_by(page[i], creds.bot_app_id@),
        mention_of(page[i], creds.bot_app_id@, m),
        forall|j: int|
            0 <= j < page.len() && j != i ==> (#[trigger] page[j]).created_date_time@
                != page[i].created_date_time@ || page[j].id@ != page[i].id@,
    ensures
        surfaced(c, chronological(page), creds).contains(page[i]),
{
    law_for_agent(page[i], creds);
    lemma_surfaces(c, page, creds, i);
}

/// The name in the text is enough: a message of a page that its channel has not
/// seen, that the bot did not send, and whose plain text names the bot,
/// surfaces whatever its mentions are.
pub proof fn law_name_is_enough(
    c: ChannelView,
    page: Seq<GraphChatMessage>,
    creds: Credentials,
    i: int,
)
    requires
        0 <= i < page.len(),
        not_seen(c, page[i]),
        !sent_by(page[i], creds.bot_app_id@),
        names_bot(plain(page[i].body.content@), creds.bot_display_name@),
        forall|j: int|
            0 <= j < page.len() && j != i ==> (#[trigger] page[j]).created_date_time@
                != page[i].created_date_time@ || page[j].id@ != page[i].id@,
    ensures
        surfaced(c, chronological(page), creds).contains(page[i]),
{
    law_for_agent(page[i], creds);
    lemma_surfaces(c, page, creds, i);
}

/// A message that is not new stays so while no id is pushed out.
proof fn lemma_seen_stays_seen(
    c: ChannelView,
    msgs: Seq<GraphChatMessage>,
    msg: GraphChatMessage,
)
    requires
        c.seen_ids.len() + msgs.len() <= SEEN_IDS_RING_SIZE,
        !new_to(c, msg),
    ensures
        !new_to(read(c, msgs), msg),
        read(c, msgs).seen_ids.len() <= c.seen_ids.len() + msgs.len(),
    decreases msgs.len(),
{
    if msgs.len() > 0 {
        let front = msgs.drop_last();
        let x = msgs.last();
        lemma_seen_stays_seen(c, front, msg);
        let p = read(c, front);
        if new_to(p, x) {
            let (t, id) = (x.created_date_time@, x.id@);
            if p.last_seen == Some(msg.created_date_time@) && !beyond(p, t) {
                lemma_precedes_irreflexive(msg.created_date_time@);
                let k = choose|k: int| 0 <= k < p.seen_ids.len() && p.seen_ids[k] == msg.id@;
                assert(recorded(p, t, id).seen_ids[k] == msg.id@);
            }
            law_seen_message_stays_seen(p, t, id, msg.created_date_time@, msg.id@);
        }
    }
}

/// Messages surface one by one, each once: a message that has not been seen when
/// its turn comes, that the bot did not send, and that has a mention of the bot
/// or names it, surfaces behind those before it, and any other does not.
pub proof fn law_messages_surface_one_by_one(
    c: ChannelView,
    msgs: Seq<GraphChatMessage>,
    msg: GraphChatMessage,
    creds: Credentials,
)
    ensures
        surfaced(c, Seq::empty(), creds).len() == 0,
        ({
            let due = not_seen(read(c, msgs), msg) && !sent_by(msg, creds.bot_app_id@) && ((exists|
                m: int,
            |
                mention_of(msg, creds.bot_app_id@, m)) || names_bot(
                plain(msg.body.content@),
                creds.bot_display_name@,
            ));
            &&& due ==> surfaced(c, msgs.push(msg), creds) == surfaced(c, msgs, creds).push(msg)
            &&& !due ==> surfaced(c, msgs.push(msg), creds) == surfaced(c, msgs, creds)
        }),
{
    law_for_agent(msg, creds);
    law_new(read(c, msgs), msg);
    assert(msgs.push(msg).drop_last() =~= msgs);
}

/// Nothing but new messages surfaces, as long as the ids of a page and those
/// that are kept do not exceed the bound on how many are kept: what surfaces
/// was not seen before, was not sent by the bot, and has a mention of the bot
/// or names it.
pub proof fn law_only_unseen_messages_surface(
    c: ChannelView,
    msgs: Seq<GraphChatMessage>,
    creds: Credentials,
    i: int,
)
    requires
        c.seen_ids.len() + msgs.len() <= SEEN_IDS_RING_SIZE,
        0 <= i < surfaced(c, msgs, creds).len(),
    ensures
        ({
            let msg = surfaced(c, msgs, creds)[i];
            &&& msgs.contains(msg)
            &&& not_seen(c, msg)
            &&& !sent_by(msg, creds.bot_app_id@)
            &&& (exists|m: int| mention_of(msg, creds.bot_app_id@, m)) || names_bot(
                plain(msg.body.content@),
                creds.bot_display_name@,
            )
        }),
    decreases msgs.len(),
{
    law_only_addressed_messages_surface(c, msgs, creds);
    let msg = surfaced(c, msgs, creds)[i];
    law_for_agent(msg, creds);
    let front = msgs.drop_last();
    if i < surfaced(c, front, creds).len() {
        law_only_unseen_messages_surface(c, front, creds, i);
    } else {
        law_new(c, msg);
        if !new_to(c, msg) {
            lemma_seen_stays_seen(c, front, msg);
        }
    }
}

/// Whatever is kept, nothing that was created before the watermark surfaces.
pub proof fn law_nothing_before_the_watermark_surfaces(
    c: ChannelView,
    msgs: Seq<GraphChatMessage>,
    creds: Credentials,
    i: int,
)
    requires
        0 <= i < surfaced(c, msgs, creds).len(),
    ensures
        c.last_seen matches Some(last) ==> !precedes(
            surfaced(c, msgs, creds)[i].created_date_time@,
            last,
        ),
    decreases msgs.len(),
{
    let front = msgs.drop_last();
    if i < surfaced(c, front, creds).len() {
        law_nothing_before_the_watermark_surfaces(c, front, creds, i);
    } else if let Some(last) = c.last_seen {
        law_reading_never_moves_the_watermark_back(c, front);
        let t = msgs.last().created_date_time@;
        let now = read(c, front).last_seen.unwrap();
        lemma_precedes_total(now, last);
        if precedes(t, last) && precedes(now, t) {
            lemma_precedes_transitive(now, t, last);
        }
    }
}

// ---------------------------------------------------------------------------
// What reading leaves behind
// ---------------------------------------------------------------------------

/// What is recorded of a message: beyond the watermark, its time and its id
/// alone; at the watermark, its id behind those that are kept, of which the
/// oldest goes where there is no more room. Nothing else changes.
pub proof fn law_recording(c: ChannelView, time: Seq<char>, id: Seq<char>)
    ensures
        recorded(c, time, id).delta_link == c.delta_link,
        c.last_seen is None ==> recorded(c, time, id).last_seen == Some(time) && recorded(
            c,
            time,
            id,
        ).seen_ids == seq![id],
        c.last_seen matches Some(last) && precedes(last, time) ==> recorded(c, time, id).last_seen
            == Some(time) && recorded(c, time, id).seen_ids == seq![id],
        c.last_seen matches Some(last) && !precedes(last, time) ==> recorded(c, time, id).last_seen
            == c.last_seen && (c.seen_ids.len() < 200 ==> recorded(c, time, id).seen_ids
            == c.seen_ids.push(id)) && (c.seen_ids.len() == 200 ==> recorded(c, time, id).seen_ids
            == c.seen_ids.skip(1).push(id)),
{
    if beyond(c, time) {
        assert(newest(Seq::empty().push(id), 200) =~= seq![id]);
    } else if c.seen_ids.len() == 200 {
        assert(newest(c.seen_ids.push(id), 200) =~= c.seen_ids.skip(1).push(id));
    }
}

/// Reading takes the messages one by one: a message that has not been seen is
/// recorded, whoever sent it and whatever it says, and any other leaves the
/// channel's state as it is.
pub proof fn law_reading_records_what_is_new(
    c: ChannelView,
    msgs: Seq<GraphChatMessage>,
    msg: GraphChatMessage,
)
    ensures
        read(c, Seq::empty()) == c,
        not_seen(read(c, msgs), msg) ==> read(c, msgs.push(msg)) == recorded(
            read(c, msgs),
            msg.created_date_time@,
            msg.id@,
        ),
        !not_seen(read(c, msgs), msg) ==> read(c, msgs.push(msg)) == read(c, msgs),
{
    assert(msgs.push(msg).drop_last() =~= msgs);
}

/// After a page has been read, the watermark is the newest time of all: none
/// of the page is beyond it, and it is what it was or the time of a message
/// of the page. The delta link is kept.
pub proof fn law_watermark_is_the_newest_time(c: ChannelView, msgs: Seq<GraphChatMessage>)
    ensures
        read(c, msgs).delta_link == c.delta_link,
        forall|i: int|
            0 <= i < msgs.len() ==> (read(c, msgs).last_seen matches Some(last) && !precedes(
                last,
                (#[trigger] msgs[i]).created_date_time@,
            )),
        read(c, msgs).last_seen == c.last_seen || exists|i: int|
            0 <= i < msgs.len() && read(c, msgs).last_seen == Some(
                (#[trigger] msgs[i]).created_date_time@,
            ),
    decreases msgs.len(),
{
    if msgs.len() > 0 {
        let front = msgs.drop_last();
        let x = msgs.last();
        law_watermark_is_the_newest_time(c, front);
        let p = read(c, front);
        let r = read(c, msgs);
        assert forall|i: int| 0 <= i < msgs.len() implies (r.last_seen matches Some(
            last,
        ) && !precedes(last, (#[trigger] msgs[i]).created_date_time@)) by {
            let t = msgs[i].created_date_time@;
            let xt = x.created_date_time@;
            lemma_precedes_irreflexive(xt);
            if i < front.len() {
                assert(front[i] == msgs[i]);
                let was = p.last_seen.unwrap();
                if new_to(p, x) && beyond(p, xt) && precedes(xt, t) {
                    lemma_precedes_transitive(was, xt, t);
                }
            }
        }
        if r.last_seen != c.last_seen {
            if r.last_seen == p.last_seen {
                let i = choose|i: int|
                    0 <= i < front.len() && p.last_seen == Some(
                        (#[trigger] front[i]).created_date_time@,
                    );
                assert(msgs[i] == front[i]);
            } else {
                assert(msgs[msgs.len() - 1] == x);
            }
        }
    }
}

/// What a channel's state holds is what its fields hold.
pub proof fn law_channel_state(s: ChannelState)
    ensures
        s@.last_seen is Some <==> s.last_seen is Some,
        s.last_seen matches Some(t) ==> s@.last_seen == Some(t@),
        s@.seen_ids.len() == s.seen_ids@.len(),
        forall|i: int|
            0 <= i < s.seen_ids@.len() ==> #[trigger] s@.seen_ids[i] == s.seen_ids@[i]@,
        s@.delta_link is Some <==> s.delta_link is Some,
        s.delta_link matches Some(t) ==> s@.delta_link == Some(t@),
{
}

/// What a state holds for a channel is the entry under the channel's key.
pub proof fn law_state(s: State, i: int)
    requires
        s.well_formed(),
        0 <= i < s.channels@.len(),
    ensures
        s@.contains_key(s.channels@[i].0@),
        s@[s.channels@[i].0@] == s.channels@[i].1@,
        held(s@, s.channels@[i].0@) == s.channels@[i].1@,
{
    lemma_channel_map(s.channels@, s.channels@[i].0@);
}

/// A state holds nothing for a key that has no entry.
pub proof fn law_state_without_entry(s: State, key: Seq<char>)
    requires
        s.well_formed(),
        forall|i: int| 0 <= i < s.channels@.len() ==> (#[trigger] s.channels@[i]).0@ != key,
    ensures
        !s@.contains_key(key),
        held(s@, key).last_seen is None,
        held(s@, key).seen_ids.len() == 0,
        held(s@, key).delta_link is None,
{
    lemma_channel_map(s.channels@, key);
}

// ---------------------------------------------------------------------------
// What the agent gets
// ---------------------------------------------------------------------------

/// What the agent gets of a message: its id, who sent it, the channel to
/// reply to, and the whole plain text of its body. A body without a complete
/// tag and without an entity comes as it is, every line of it.
pub proof fn law_inbound(msg: GraphChatMessage, team: TeamChannelConfig)
    ensures
        inbound(msg, team).id == msg.id@,
        sender(msg) is Some ==> sent_by(msg, inbound(msg, team).sender),
        sender(msg) is None ==> inbound(msg, team).sender.len() == 0,
        inbound(msg, team).reply_target == team.team_id@ + seq!['/'] + team.channel_id@,
        inbound(msg, team).content == plain(msg.body.content@),
        !holds_tag(msg.body.content@) && !holds_entity(msg.body.content@) ==> inbound(
            msg,
            team,
        ).content == msg.body.content@,
        inbound(msg, team).channel == "microsoft-teams"@,
        team.alias matches Some(name) ==> inbound(msg, team).channel_alias == Some(name@),
        team.alias is None ==> inbound(msg, team).channel_alias is None,
        inbound(msg, team).attachments.len() == 0,
        inbound(msg, team).subject is None,
{
    law_sender(msg, inbound(msg, team).sender);
    if !holds_tag(msg.body.content@) && !holds_entity(msg.body.content@) {
        law_plain_text_passes_unchanged(msg.body.content@);
    }
}

/// What is outside of every tag comes to the agent: where a body has a tag
/// between two texts that hold none, the agent gets the two texts.
pub proof fn law_inbound_around_a_tag(
    msg: GraphChatMessage,
    team: TeamChannelConfig,
    front: Seq<char>,
    inside: Seq<char>,
    back: Seq<char>,
)
    requires
        msg.body.content@ == front + seq!['<'] + inside + seq!['>'] + back,
        !front.contains('<'),
        !holds_tag(back),
        !inside.contains('>'),
        inside.len() > 0 ==> !white_space(inside[0]),
        !holds_entity(front + back),
    ensures
        inbound(msg, team).content == front + back,
{
    law_tag_is_cut_out(front, inside, back);
    law_stripping_keeps_plain_text(back);
    law_plain_text(msg.body.content@);
}

/// When a message was sent, as the agent gets it: what its time reads as, or
/// zero where it does not read as a time.
pub proof fn law_inbound_time(msg: GraphChatMessage, team: TeamChannelConfig)
    ensures
        timestamp_millis(msg.created_date_time@) is None ==> inbound(msg, team).timestamp == 0,
        timestamp_millis(msg.created_date_time@) is Some ==> timestamp_millis(
            msg.created_date_time@,
        ) == Some(inbound(msg, team).timestamp),
{
}

/// The thread that a message belongs to: a reply belongs to the thread of its
/// root, which is also what it interrupts; any other message starts a thread
/// of its own and interrupts nothing.
pub proof fn law_inbound_thread(msg: GraphChatMessage, team: TeamChannelConfig)
    ensures
        msg.reply_to_id matches Some(root) ==> inbound(msg, team).thread_ts == Some(root@)
            && inbound(msg, team).interruption_scope_id == Some(root@),
        msg.reply_to_id is None ==> inbound(msg, team).thread_ts == Some(msg.id@) && inbound(
            msg,
            team,
        ).interruption_scope_id is None,
{
}

/// What a message to the agent holds is what its fields hold.
pub proof fn law_inbound_message(m: InboundMessage)
    ensures
        m@.id == m.id@,
        m@.sender == m.sender@,
        m@.reply_target == m.reply_target@,
        m@.content == m.content@,
        m@.channel == m.channel@,
        m@.timestamp == m.timestamp,
        m@.attachments == m.attachments@,
        m@.channel_alias is Some <==> m.channel_alias is Some,
        m.channel_alias matches Some(t) ==> m@.channel_alias == Some(t@),
        m@.thread_ts is Some <==> m.thread_ts is Some,
        m.thread_ts matches Some(t) ==> m@.thread_ts == Some(t@),
        m@.interruption_scope_id is Some <==> m.interruption_scope_id is Some,
        m.interruption_scope_id matches Some(t) ==> m@.interruption_scope_id == Some(t@),
        m@.subject is Some <==> m.subject is Some,
        m.subject matches Some(t) ==> m@.subject == Some(t@),
{
}

/// The agent gets every message that surfaces, in the same order.
pub proof fn law_every_surfaced_message_is_handed_on(
    msgs: Seq<GraphChatMessage>,
    team: TeamChannelConfig,
    list: Seq<InboundMessage>,
)
    ensures
        inbound_all(msgs, team).len() == msgs.len(),
        forall|i: int|
            0 <= i < msgs.len() ==> #[trigger] inbound_all(msgs, team)[i] == inbound(msgs[i], team),
        contents(list).len() == list.len(),
        forall|i: int| 0 <= i < list.len() ==> #[trigger] contents(list)[i] == list[i]@,
{
}

// ---------------------------------------------------------------------------
// Cycles
// ---------------------------------------------------------------------------

/// When the next cycle may start: one interval on, where the clock can show
/// that, and never before now.
pub proof fn law_poll_time(now_ms: u64, interval_ms: u64)
    ensures
        now_ms + interval_ms <= u64::MAX ==> poll_time(now_ms, interval_ms) == now_ms + interval_ms,
        now_ms + interval_ms > u64::MAX ==> poll_time(now_ms, interval_ms) == u64::MAX,
{
}

/// The next channel, going round.
pub proof fn law_rotation(current: int, len: int)
    requires
        0 <= current < len,
    ensures
        current + 1 < len ==> rotated(current, len) == current + 1,
        current + 1 == len ==> rotated(current, len) == 0,
        rotated(current, 0) == 0,
{
    if current + 1 < len {
        vstd::arithmetic::div_mod::lemma_small_mod((current + 1) as nat, len as nat);
    } else {
        vstd::arithmetic::div_mod::lemma_mod_self_0(len);
    }
}

/// Whether no other of the first `n` steps of a cycle is for the channel of
/// the step `k`.
pub open spec fn only_step_for_its_channel(creds: Credentials, start: int, n: int, k: int) -> bool {
    forall|j: int|
        0 <= j < n && j != k ==> channel_key(#[trigger] step_team(creds, start, j)) != channel_key(
            step_team(creds, start, k),
        )
}

/// A step of a cycle is for the channel that lies as many channels on from the
/// start, going round.
pub proof fn law_step_team(creds: Credentials, start: int, k: int)
    requires
        0 <= start < creds.teams@.len(),
        0 <= k < creds.teams@.len(),
    ensures
        start + k < creds.teams@.len() ==> step_team(creds, start, k) == creds.teams@[start + k],
        start + k >= creds.teams@.len() ==> step_team(creds, start, k) == creds.teams@[start + k
            - creds.teams@.len()],
{
    lemma_visited(start, k, creds.teams@.len() as int);
}

/// What a cycle leaves for a channel: the channel's state once the page that
/// was fetched for it has been read, or as it was where the fetch failed.
pub proof fn law_cycle_reads_its_channels(
    m: Map<Seq<char>, ChannelView>,
    creds: Credentials,
    start: int,
    fetched: Seq<Option<Vec<GraphChatMessage>>>,
    n: int,
    k: int,
)
    requires
        0 <= k < n,
        only_step_for_its_channel(creds, start, n, k),
    ensures
        ({
            let key = channel_key(step_team(creds, start, k));
            let after = cycle_states(m, creds, start, fetched, n);
            &&& after.contains_key(key)
            &&& fetched[k] matches Some(page) ==> after[key] == read(
                held(m, key),
                chronological(page@),
            )
            &&& fetched[k] is None ==> after[key] == held(m, key)
        }),
    decreases n,
{
    let key = channel_key(step_team(creds, start, k));
    if k == n - 1 {
        assert forall|j: int| 0 <= j < k implies channel_key(#[trigger] step_team(creds, start, j))
            != key by {}
        law_cycle_leaves_other_channels_alone(m, creds, start, fetched, k, key);
    } else {
        assert(channel_key(step_team(creds, start, n - 1)) != key);
        law_cycle_reads_its_channels(m, creds, start, fetched, n - 1, k);
    }
}

/// What a cycle hands to the agent is what its steps surface, one step after
/// the other, and nothing else.
pub proof fn law_cycle_hands_on_every_step(
    m: Map<Seq<char>, ChannelView>,
    creds: Credentials,
    start: int,
    fetched: Seq<Option<Vec<GraphChatMessage>>>,
    n: int,
    k: int,
)
    requires
        0 <= k < n,
    ensures
        ({
            let before = cycle_inbound(m, creds, start, fetched, k);
            let found = step_surfaced(m, creds, start, fetched, k);
            let all = cycle_inbound(m, creds, start, fetched, n);
            &&& before.len() + found.len() <= all.len()
            &&& forall|i: int|
                0 <= i < found.len() ==> all[before.len() + i] == inbound(
                    #[trigger] found[i],
                    step_team(creds, start, k),
                )
            &&& k == 0 ==> before.len() == 0
            &&& k == n - 1 ==> all.len() == before.len() + found.len()
        }),
    decreases n,
{
    if k < n - 1 {
        law_cycle_hands_on_every_step(m, creds, start, fetched, n - 1, k);
    }
}

/// What a step of a cycle surfaces is what the page of its channel surfaces;
/// nothing surfaces where the fetch failed.
pub proof fn law_step_surfaces_its_page(
    m: Map<Seq<char>, ChannelView>,
    creds: Credentials,
    start: int,
    fetched: Seq<Option<Vec<GraphChatMessage>>>,
    n: int,
    k: int,
)
    requires
        0 <= k < n,
        only_step_for_its_channel(creds, start, n, k),
    ensures
        ({
            let key = channel_key(step_team(creds, start, k));
            let found = step_surfaced(m, creds, start, fetched, k);
            &&& fetched[k] matches Some(page) ==> found == surfaced(
                held(m, key),
                chronological(page@),
                creds,
            )
            &&& fetched[k] is None ==> found.len() == 0
        }),
{
    let key = channel_key(step_team(creds, start, k));
    assert forall|j: int| 0 <= j < k implies channel_key(#[trigger] step_team(creds, start, j))
        != key by {}
    law_cycle_leaves_other_channels_alone(m, creds, start, fetched, k, key);
}

/// A message that is addressed to the bot reaches the agent: if it is on the
/// page that was fetched for its channel, the channel has not seen it, the bot
/// did not send it, and it has a mention of the bot or names it, then what the
/// cycle hands to the agent holds it.
pub proof fn law_addressed_message_reaches_the_agent(
    m: Map<Seq<char>, ChannelView>,
    creds: Credentials,
    start: int,
    fetched: Seq<Option<Vec<GraphChatMessage>>>,
    n: int,
    k: int,
    page: Vec<GraphChatMessage>,
    i: int,
)
    requires
        0 <= k < n,
        only_step_for_its_channel(creds, start, n, k),
        fetched[k] == Some(page),
        0 <= i < page@.len(),
        not_seen(held(m, channel_key(step_team(creds, start, k))), page@[i]),
        !sent_by(page@[i], creds.bot_app_id@),
        (exists|c: int| mention_of(page@[i], creds.bot_app_id@, c)) || names_bot(
            plain(page@[i].body.content@),
            creds.bot_display_name@,
        ),
        forall|j: int|
            0 <= j < page@.len() && j != i ==> (#[trigger] page@[j]).created_date_time@
                != page@[i].created_date_time@ || page@[j].id@ != page@[i].id@,
    ensures
        cycle_inbound(m, creds, start, fetched, n).contains(
            inbound(page@[i], step_team(creds, start, k)),
        ),
{
    let c = held(m, channel_key(step_team(creds, start, k)));
    let found = step_surfaced(m, creds, start, fetched, k);
    law_for_agent(page@[i], creds);
    lemma_surfaces(c, page@, creds, i);
    law_step_surfaces_its_page(m, creds, start, fetched, n, k);
    law_cycle_hands_on_every_step(m, creds, start, fetched, n, k);
    let p = choose|p: int| 0 <= p < found.len() && found[p] == page@[i];
    let before = cycle_inbound(m, creds, start, fetched, k);
    assert(cycle_inbound(m, creds, start, fetched, n)[before.len() + p] == inbound(
        found[p],
        step_team(creds, start, k),
    ));
}

} // verus!
