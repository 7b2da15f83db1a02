//! Drives one Graph poll cycle per interval, however often the host asks for
//! a message. Between cycles a request is answered at once, without Graph
//! traffic.
//!
//! One cycle can surface a backlog over several channels; what it finds is
//! buffered and handed out one message per request.
use std::collections::VecDeque;

use vstd::prelude::*;

use crate::credentials::{Credentials, TeamChannelConfig};
use crate::graph::{chronological, recipient_text, sender, sort_by_created, GraphChatMessage};
use crate::mentions::{mentioned, message_mentions_bot, plain, plain_text};
use crate::protocol::{InboundMessage, InboundView};
use crate::state::{
    fresh, is_new, record_seen, recorded, text_of, unseen, ChannelState, ChannelView, State,
};
use crate::text::str_eq;
use crate::timestamp::{parse_iso8601_to_unix_ms, timestamp_millis};

verus! {

/// The least time between two poll cycles.
pub const GRAPH_POLL_INTERVAL_MS: u64 = 5_000;

// ---------------------------------------------------------------------------
// When to poll
// ---------------------------------------------------------------------------

/// Whether it is time for another poll cycle.
pub fn should_poll(next_allowed_poll_ms: u64, now_ms: u64) -> (r: bool)
    ensures
        r == (now_ms >= next_allowed_poll_ms),
{
    now_ms >= next_allowed_poll_ms
}

/// When the next poll cycle may start: one interval on, or at the end of time.
pub open spec fn poll_time(now_ms: u64, interval_ms: u64) -> u64 {
    if now_ms + interval_ms > u64::MAX {
        u64::MAX
    } else {
        (now_ms + interval_ms) as u64
    }
}

/// When the next poll cycle may start.
pub fn next_poll_time(now_ms: u64, interval_ms: u64) -> (r: u64)
    ensures
        r == poll_time(now_ms, interval_ms),
{
    now_ms.saturating_add(interval_ms)
}

/// The channel after a channel, going round.
pub open spec fn rotated(current: int, len: int) -> int {
    if len == 0 {
        0
    } else {
        (current + 1) % len
    }
}

/// The channel that the next cycle starts with, for fair coverage of the
/// configured channels.
pub fn rotate_index(current: usize, len: usize) -> (r: usize)
    requires
        len != 0 ==> current < usize::MAX,
    ensures
        r == rotated(current as int, len as int),
{
    if len == 0 {
        0
    } else {
        (current + 1) % len
    }
}

/// What is kept from one request for a message to the next.
#[derive(Debug)]
pub struct PollGate {
    pub next_allowed_poll_ms: u64,
    pub round_robin_index: usize,
    pub buffer: VecDeque<InboundMessage>,
}

/// What a request for a message comes to.
pub enum PollStep {
    /// Hand out this message.
    Deliver(InboundMessage),
    /// There is none.
    Wait,
    /// Run a poll cycle.
    RunCycle,
}

impl PollGate {
    /// Before the first request: a cycle may start, and nothing is buffered.
    pub fn new() -> (r: PollGate)
        ensures
            r.next_allowed_poll_ms == 0,
            r.round_robin_index == 0,
            r.buffer@.len() == 0,
    {
        PollGate { next_allowed_poll_ms: 0, round_robin_index: 0, buffer: VecDeque::new() }
    }
}

/// Answers a request for a message: the oldest buffered message if there is
/// one, otherwise a poll cycle if its time has come. After that, no
/// other may start for one interval.
pub fn poll(gate: &mut PollGate, now_ms: u64) -> (r: PollStep)
    ensures
        final(gate).round_robin_index == old(gate).round_robin_index,
        match r {
            PollStep::Deliver(msg) => {
                &&& old(gate).buffer@.len() > 0
                &&& msg == old(gate).buffer@[0]
                &&& final(gate).buffer@ == old(gate).buffer@.skip(1)
                &&& final(gate).next_allowed_poll_ms == old(gate).next_allowed_poll_ms
            },
            PollStep::Wait => {
                &&& old(gate).buffer@.len() == 0
                &&& now_ms < old(gate).next_allowed_poll_ms
                &&& final(gate).buffer@ == old(gate).buffer@
                &&& final(gate).next_allowed_poll_ms == old(gate).next_allowed_poll_ms
            },
            PollStep::RunCycle => {
                &&& old(gate).buffer@.len() == 0
                &&& now_ms >= old(gate).next_allowed_poll_ms
                &&& final(gate).buffer@ == old(gate).buffer@
                &&& final(gate).next_allowed_poll_ms == poll_time(now_ms, GRAPH_POLL_INTERVAL_MS)
            },
        },
{
    if let Some(msg) = gate.buffer.pop_front() {
        return PollStep::Deliver(msg);
    }
    if !should_poll(gate.next_allowed_poll_ms, now_ms) {
        return PollStep::Wait;
    }
    gate.next_allowed_poll_ms = next_poll_time(now_ms, GRAPH_POLL_INTERVAL_MS);
    PollStep::RunCycle
}

// ---------------------------------------------------------------------------
// Messages to the agent
// ---------------------------------------------------------------------------

/// How a channel is named where one text names it: `team_id/channel_id`.
pub open spec fn channel_key(team: TeamChannelConfig) -> Seq<char> {
    recipient_text(team.team_id@, team.channel_id@)
}

/// How a channel is named in one string.
pub fn key_of(team: &TeamChannelConfig) -> (r: String)
    ensures
        r@ == channel_key(*team),
{
    let mut key = team.team_id.clone();
    key.push('/');
    key.append(team.channel_id.as_str());
    assert(key@ =~= channel_key(*team));
    key
}

/// What the agent gets for a message of a channel.
pub open spec fn inbound(msg: GraphChatMessage, team: TeamChannelConfig) -> InboundView {
    InboundView {
        id: msg.id@,
        sender: match sender(msg) {
            Some(id) => id,
            None => Seq::empty(),
        },
        reply_target: channel_key(team),
        content: plain(msg.body.content@),
        channel: "microsoft-teams"@,
        channel_alias: text_of(team.alias),
        timestamp: match timestamp_millis(msg.created_date_time@) {
            Some(ms) => ms,
            None => 0,
        },
        thread_ts: match msg.reply_to_id {
            Some(root) => Some(root@),
            None => Some(msg.id@),
        },
        interruption_scope_id: text_of(msg.reply_to_id),
        attachments: Seq::empty(),
        subject: None,
    }
}

/// Turns a message of a channel into one for the agent.
pub fn to_inbound_message(msg: &GraphChatMessage, team_cfg: &TeamChannelConfig) -> (r:
    InboundMessage)
    ensures
        r@ == inbound(*msg, *team_cfg),
{
    let sender_text = match msg.sender_id() {
        Some(id) => id.to_owned(),
        None => String::new(),
    };
    let timestamp: u64 = match parse_iso8601_to_unix_ms(msg.created_date_time.as_str()) {
        Some(ms) => ms,
        None => 0,
    };
    let thread = match &msg.reply_to_id {
        Some(root) => root.clone(),
        None => msg.id.clone(),
    };
    let scope = match &msg.reply_to_id {
        Some(root) => Some(root.clone()),
        None => None,
    };
    let alias = match &team_cfg.alias {
        Some(name) => Some(name.clone()),
        None => None,
    };
    InboundMessage {
        id: msg.id.clone(),
        sender: sender_text,
        reply_target: key_of(team_cfg),
        content: plain_text(msg.body.content.as_str()),
        channel: "microsoft-teams".to_owned(),
        channel_alias: alias,
        timestamp,
        thread_ts: Some(thread),
        interruption_scope_id: scope,
        attachments: Vec::new(),
        subject: None,
    }
}

// ---------------------------------------------------------------------------
// One channel
// ---------------------------------------------------------------------------

/// Whether a message is for the agent: not the bot's own, and addressed to
/// the bot.
pub open spec fn for_agent(msg: GraphChatMessage, creds: Credentials) -> bool {
    sender(msg) != Some(creds.bot_app_id@) && mentioned(msg, creds)
}

/// Whether a message is new to a channel.
pub open spec fn new_to(c: ChannelView, msg: GraphChatMessage) -> bool {
    fresh(c, msg.created_date_time@, msg.id@)
}

/// A channel's state after messages have been read one by one: those that
/// are new are recorded.
pub open spec fn read(c: ChannelView, msgs: Seq<GraphChatMessage>) -> ChannelView
    decreases msgs.len(),
{
    if msgs.len() == 0 {
        c
    } else {
        let so_far = read(c, msgs.drop_last());
        let msg = msgs.last();
        if new_to(so_far, msg) {
            recorded(so_far, msg.created_date_time@, msg.id@)
        } else {
            so_far
        }
    }
}

/// The messages that reading surfaces: those that are new when their turn
/// comes and are for the agent.
pub open spec fn surfaced(
    c: ChannelView,
    msgs: Seq<GraphChatMessage>,
    creds: Credentials,
) -> Seq<GraphChatMessage>
    decreases msgs.len(),
{
    if msgs.len() == 0 {
        Seq::empty()
    } else {
        let before = surfaced(c, msgs.drop_last(), creds);
        let msg = msgs.last();
        if new_to(read(c, msgs.drop_last()), msg) && for_agent(msg, creds) {
            before.push(msg)
        } else {
            before
        }
    }
}

/// What the agent gets for messages of a channel.
pub open spec fn inbound_all(msgs: Seq<GraphChatMessage>, team: TeamChannelConfig) -> Seq<
    InboundView,
> {
    Seq::new(msgs.len(), |i: int| inbound(msgs[i], team))
}

/// What a list of messages for the agent holds.
pub open spec fn contents(msgs: Seq<InboundMessage>) -> Seq<InboundView> {
    Seq::new(msgs.len(), |i: int| msgs[i]@)
}

/// Reads a page of messages of one channel, oldest first: records the new
/// ones in the channel's state and appends those that are for the agent to
/// `out`.
pub fn read_channel(
    state: &mut ChannelState,
    messages: Vec<GraphChatMessage>,
    creds: &Credentials,
    team_cfg: &TeamChannelConfig,
    out: &mut Vec<InboundMessage>,
)
    ensures
        final(state)@ == read(old(state)@, chronological(messages@)),
        contents(final(out)@) == contents(old(out)@) + inbound_all(
            surfaced(old(state)@, chronological(messages@), *creds),
            *team_cfg,
        ),
{
    let sorted = sort_by_created(messages);
    let ghost start = state@;
    let ghost given = contents(out@);
    let mut i: usize = 0;
    assert(inbound_all(surfaced(start, sorted@.take(0), *creds), *team_cfg) =~= Seq::empty());
    assert(given + Seq::<InboundView>::empty() =~= given);
    while i < sorted.len()
        invariant
            i <= sorted@.len(),
            sorted@ == chronological(messages@),
            start == old(state)@,
            given == contents(old(out)@),
            state@ == read(start, sorted@.take(i as int)),
            contents(out@) == given + inbound_all(
                surfaced(start, sorted@.take(i as int), *creds),
                *team_cfg,
            ),
        decreases sorted@.len() - i,
    {
        let msg = &sorted[i];
        let ghost before = sorted@.take(i as int);
        let ghost after = sorted@.take(i + 1);
        let ghost found = surfaced(start, before, *creds);
        assert(after.drop_last() =~= before);
        assert(after.last() == *msg);
        i = i + 1;
        if !is_new(state, msg.created_date_time.as_str(), msg.id.as_str()) {
            continue;
        }
        record_seen(state, msg.created_date_time.as_str(), msg.id.as_str());
        let own = match msg.sender_id() {
            Some(id) => str_eq(id, creds.bot_app_id.as_str()),
            None => false,
        };
        if own || !message_mentions_bot(msg, creds) {
            continue;
        }
        assert(surfaced(start, after, *creds) == found.push(*msg));
        let ghost so_far = out@;
        out.push(to_inbound_message(msg, team_cfg));
        assert(contents(out@) =~= contents(so_far).push(inbound(*msg, *team_cfg)));
        assert(inbound_all(found.push(*msg), *team_cfg) =~= inbound_all(found, *team_cfg).push(
            inbound(*msg, *team_cfg),
        ));
        assert((given + inbound_all(found, *team_cfg)).push(inbound(*msg, *team_cfg)) =~= given
            + inbound_all(found.push(*msg), *team_cfg));
    }
    assert(sorted@.take(sorted@.len() as int) =~= sorted@);
}

// ---------------------------------------------------------------------------
// A cycle over all channels
// ---------------------------------------------------------------------------

/// The channel that a cycle visits at its `k`-th step.
pub open spec fn visited(start: int, k: int, n: int) -> int {
    (start + k) % n
}

/// The channel that a cycle over `n` channels visits at its `k`-th step.
pub fn channel_at(start: usize, k: usize, n: usize) -> (r: usize)
    requires
        start < n,
        k < n,
    ensures
        r == visited(start as int, k as int, n as int),
        r < n,
{
    proof {
        lemma_visited(start as int, k as int, n as int);
    }
    if k < n - start {
        start + k
    } else {
        k - (n - start)
    }
}

/// Going round at most once is going on, or coming back to the front.
pub proof fn lemma_visited(start: int, k: int, n: int)
    requires
        0 <= start < n,
        0 <= k <= n,
    ensures
        visited(start, k, n) == if start + k < n {
            start + k
        } else {
            start + k - n
        },
{
    if start + k < n {
        vstd::arithmetic::div_mod::lemma_small_mod((start + k) as nat, n as nat);
    } else {
        vstd::arithmetic::div_mod::lemma_fundamental_div_mod_converse(
            start + k,
            n,
            1,
            start + k - n,
        );
    }
}

/// Starts a poll cycle over `n` channels: returns the channel that it starts
/// with, and moves on the start of the next cycle.
pub fn begin_cycle(gate: &mut PollGate, n: usize) -> (r: usize)
    requires
        n > 0,
    ensures
        r < n,
        r == old(gate).round_robin_index % n,
        final(gate).round_robin_index == rotated(r as int, n as int),
        final(gate).next_allowed_poll_ms == old(gate).next_allowed_poll_ms,
        final(gate).buffer@ == old(gate).buffer@,
{
    let idx: usize = gate.round_robin_index % n;
    gate.round_robin_index = rotate_index(idx, n);
    idx
}

/// The state that is held for a channel, an empty one if there is none.
pub open spec fn held(m: Map<Seq<char>, ChannelView>, key: Seq<char>) -> ChannelView {
    if m.contains_key(key) {
        m[key]
    } else {
        unseen()
    }
}

/// The channel of the `k`-th step of a cycle.
pub open spec fn step_team(creds: Credentials, start: int, k: int) -> TeamChannelConfig {
    creds.teams@[visited(start, k, creds.teams@.len() as int)]
}

/// The states after the first `k` steps of a cycle. A step reads the page
/// that was fetched for its channel; where the fetch failed, the channel's
/// state is held as it was.
pub open spec fn cycle_states(
    m: Map<Seq<char>, ChannelView>,
    creds: Credentials,
    start: int,
    fetched: Seq<Option<Vec<GraphChatMessage>>>,
    k: int,
) -> Map<Seq<char>, ChannelView>
    decreases k,
{
    if k <= 0 {
        m
    } else {
        let before = cycle_states(m, creds, start, fetched, k - 1);
        let key = channel_key(step_team(creds, start, k - 1));
        let c = held(before, key);
        before.insert(
            key,
            match fetched[k - 1] {
                Some(page) => read(c, chronological(page@)),
                None => c,
            },
        )
    }
}

/// The messages that the `k`-th step of a cycle surfaces.
pub open spec fn step_surfaced(
    m: Map<Seq<char>, ChannelView>,
    creds: Credentials,
    start: int,
    fetched: Seq<Option<Vec<GraphChatMessage>>>,
    k: int,
) -> Seq<GraphChatMessage> {
    let before = cycle_states(m, creds, start, fetched, k);
    let c = held(before, channel_key(step_team(creds, start, k)));
    match fetched[k] {
        Some(page) => surfaced(c, chronological(page@), creds),
        None => Seq::empty(),
    }
}

/// What the agent gets from the first `k` steps of a cycle, in their order.
pub open spec fn cycle_inbound(
    m: Map<Seq<char>, ChannelView>,
    creds: Credentials,
    start: int,
    fetched: Seq<Option<Vec<GraphChatMessage>>>,
    k: int,
) -> Seq<InboundView>
    decreases k,
{
    if k <= 0 {
        Seq::empty()
    } else {
        cycle_inbound(m, creds, start, fetched, k - 1) + inbound_all(
            step_surfaced(m, creds, start, fetched, k - 1),
            step_team(creds, start, k - 1),
        )
    }
}

/// Reads what was fetched for all channels in one cycle: `fetched[k]` is the
/// page of the channel visited at step `k`, or nothing where the fetch failed.
/// Returns the messages for the agent.
pub fn run_poll_cycle(
    state: &mut State,
    creds: &Credentials,
    start: usize,
    fetched: Vec<Option<Vec<GraphChatMessage>>>,
) -> (r: Vec<InboundMessage>)
    requires
        old(state).well_formed(),
        start < creds.teams@.len(),
        fetched@.len() == creds.teams@.len(),
    ensures
        final(state).well_formed(),
        final(state)@ == cycle_states(
            old(state)@,
            *creds,
            start as int,
            fetched@,
            creds.teams@.len() as int,
        ),
        contents(r@) == cycle_inbound(
            old(state)@,
            *creds,
            start as int,
            fetched@,
            creds.teams@.len() as int,
        ),
{
    let ghost m = state@;
    let n: usize = creds.teams.len();
    let mut new_messages: Vec<InboundMessage> = Vec::new();
    let mut offset: usize = 0;
    assert(contents(new_messages@) =~= Seq::empty());
    for page in it: fetched
        invariant
            it.seq() == fetched@,
            offset == it.index(),
            m == old(state)@,
            n == creds.teams@.len() == fetched@.len(),
            start < n,
            state.well_formed(),
            state@ == cycle_states(m, *creds, start as int, fetched@, offset as int),
            contents(new_messages@) == cycle_inbound(
                m,
                *creds,
                start as int,
                fetched@,
                offset as int,
            ),
    {
        let team_cfg = &creds.teams[channel_at(start, offset, n)];
        let key = key_of(team_cfg);
        let mut channel_state = state.take_channel(key.as_str());
        let ghost before = cycle_states(m, *creds, start as int, fetched@, offset as int);
        assert(channel_state@ == held(before, key@));
        if let Some(messages) = page {
            read_channel(&mut channel_state, messages, creds, team_cfg, &mut new_messages);
        } else {
            assert(inbound_all(Seq::empty(), *team_cfg) =~= Seq::empty());
            assert(contents(new_messages@) + Seq::<InboundView>::empty() =~= contents(
                new_messages@,
            ));
        }
        state.put_channel(key, channel_state);
        assert(before.remove(key@).insert(key@, channel_state@) =~= before.insert(
            key@,
            channel_state@,
        ));
        offset = offset + 1;
    }
    new_messages
}

/// Buffers what a cycle surfaced and hands out the oldest buffered message.
/// Nothing is handed out after a cycle that surfaced nothing.
pub fn deliver(gate: &mut PollGate, new_messages: Vec<InboundMessage>) -> (r: Option<
    InboundMessage,
>)
    ensures
        final(gate).round_robin_index == old(gate).round_robin_index,
        final(gate).next_allowed_poll_ms == old(gate).next_allowed_poll_ms,
        match r {
            Some(msg) => {
                &&& new_messages@.len() > 0
                &&& msg == (old(gate).buffer@ + new_messages@)[0]
                &&& final(gate).buffer@ == (old(gate).buffer@ + new_messages@).skip(1)
            },
            None => {
                &&& new_messages@.len() == 0
                &&& final(gate).buffer@ == old(gate).buffer@
            },
        },
{
    if new_messages.is_empty() {
        return None;
    }
    let ghost held_before = gate.buffer@;
    assert(held_before + new_messages@.take(0) =~= held_before);
    for msg in it: new_messages
        invariant
            it.seq() == new_messages@,
            gate.buffer@ == held_before + new_messages@.take(it.index()),
            gate.round_robin_index == old(gate).round_robin_index,
            gate.next_allowed_poll_ms == old(gate).next_allowed_poll_ms,
    {
        assert(new_messages@.take(it.index() + 1) =~= new_messages@.take(it.index()).push(msg));
        gate.buffer.push_back(msg);
        assert(gate.buffer@ =~= held_before + new_messages@.take(it.index() + 1));
    }
    assert(new_messages@.take(new_messages@.len() as int) =~= new_messages@);
    gate.buffer.pop_front()
}

} // verus!
