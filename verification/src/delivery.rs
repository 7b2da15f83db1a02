//! What polling guarantees: which messages reach the agent, in what order,
//! how often, and how evenly the channels are covered.
use vstd::prelude::*;

use crate::credentials::{Credentials, TeamChannelConfig};
use crate::graph::{created_before, in_order, law_recipient_splits_back, GraphChatMessage};
use crate::poll_gate::{
    channel_key, cycle_states, for_agent, held, inbound, lemma_visited, new_to, poll_time, read,
    rotated, step_team, surfaced, visited,
};
use crate::scan::cut;
use crate::state::{
    beyond, law_watermark_never_moves_back, newest, recorded, ChannelView, SEEN_IDS_RING_SIZE,
};
use crate::text::{
    lemma_precedes_irreflexive, lemma_precedes_total, lemma_precedes_transitive, precedes,
};

verus! {

// ---------------------------------------------------------------------------
// Cycles
// ---------------------------------------------------------------------------

/// Within one interval of a cycle no other may start, up to the last moment
/// that the clock can show.
pub proof fn law_gate_stays_closed_for_an_interval(now_ms: u64, interval_ms: u64, later_ms: u64)
    requires
        later_ms < now_ms + interval_ms,
        later_ms < u64::MAX,
    ensures
        later_ms < poll_time(now_ms, interval_ms),
{
}

/// Whether a cycle visits the channel `i`.
pub open spec fn comes_to(start: int, i: int, n: int) -> bool {
    exists|k: int| 0 <= k < n && #[trigger] visited(start, k, n) == i
}

/// A cycle visits every channel, and none twice.
pub proof fn law_cycle_visits_each_channel_once(start: int, n: int)
    requires
        0 <= start < n,
    ensures
        forall|k: int| 0 <= k < n ==> 0 <= #[trigger] visited(start, k, n) < n,
        forall|j: int, k: int|
            0 <= j < k < n ==> #[trigger] visited(start, j, n) != #[trigger] visited(start, k, n),
        forall|i: int| 0 <= i < n ==> #[trigger] comes_to(start, i, n),
{
    assert forall|k: int| 0 <= k < n implies 0 <= #[trigger] visited(start, k, n) < n by {
        lemma_visited(start, k, n);
    }
    assert forall|j: int, k: int| 0 <= j < k < n implies #[trigger] visited(start, j, n)
        != #[trigger] visited(start, k, n) by {
        lemma_visited(start, j, n);
        lemma_visited(start, k, n);
    }
    assert forall|i: int| 0 <= i < n implies #[trigger] comes_to(start, i, n) by {
        let k = if start <= i {
            i - start
        } else {
            i - start + n
        };
        lemma_visited(start, k, n);
        assert(visited(start, k, n) == i);
    }
}

/// Successive cycles start with successive channels, going round: the cycle
/// `c` cycles on starts `c` channels on.
pub proof fn law_cycle_starts_go_round(start: int, c: int, n: int)
    requires
        0 <= start < n,
        0 <= c,
    ensures
        visited(start, 0, n) == start,
        rotated(visited(start, c, n), n) == visited(start, c + 1, n),
{
    lemma_visited(start, 0, n);
    vstd::arithmetic::div_mod::lemma_add_mod_noop(start + c, 1, n);
    if n == 1 {
        vstd::arithmetic::div_mod::lemma_mod_self_0(1);
    } else {
        vstd::arithmetic::div_mod::lemma_small_mod(1, n as nat);
    }
    assert(((start + c) % n + 1) % n == (start + c + 1) % n);
}

/// A cycle changes the states of the channels that it visits, and no other.
pub proof fn law_cycle_leaves_other_channels_alone(
    m: Map<Seq<char>, ChannelView>,
    creds: Credentials,
    start: int,
    fetched: Seq<Option<Vec<GraphChatMessage>>>,
    k: int,
    key: Seq<char>,
)
    requires
        forall|j: int| 0 <= j < k ==> channel_key(#[trigger] step_team(creds, start, j)) != key,
    ensures
        cycle_states(m, creds, start, fetched, k).contains_key(key) == m.contains_key(key),
        held(cycle_states(m, creds, start, fetched, k), key) == held(m, key),
    decreases k,
{
    if k > 0 {
        law_cycle_leaves_other_channels_alone(m, creds, start, fetched, k - 1, key);
        assert(channel_key(step_team(creds, start, k - 1)) != key);
    }
}

// ---------------------------------------------------------------------------
// Messages
// ---------------------------------------------------------------------------

/// Only messages of the page surface, and only those that mention the bot and
/// are not its own.
pub proof fn law_only_addressed_messages_surface(
    c: ChannelView,
    msgs: Seq<GraphChatMessage>,
    creds: Credentials,
)
    ensures
        forall|i: int|
            0 <= i < surfaced(c, msgs, creds).len() ==> for_agent(
                #[trigger] surfaced(c, msgs, creds)[i],
                creds,
            ) && msgs.contains(surfaced(c, msgs, creds)[i]),
    decreases msgs.len(),
{
    if msgs.len() > 0 {
        let front = msgs.drop_last();
        law_only_addressed_messages_surface(c, front, creds);
        let found = surfaced(c, msgs, creds);
        assert forall|i: int| 0 <= i < found.len() implies for_agent(#[trigger] found[i], creds)
            && msgs.contains(found[i]) by {
            if i < surfaced(c, front, creds).len() {
                let m = surfaced(c, front, creds)[i];
                let j = choose|j: int| 0 <= j < front.len() && front[j] == m;
                assert(msgs[j] == m);
            } else {
                assert(msgs[msgs.len() - 1] == found[i]);
            }
        }
    }
}

/// What a page in chronological order surfaces is in chronological order.
pub proof fn law_messages_surface_in_order(
    c: ChannelView,
    msgs: Seq<GraphChatMessage>,
    creds: Credentials,
)
    requires
        in_order(msgs),
    ensures
        in_order(surfaced(c, msgs, creds)),
    decreases msgs.len(),
{
    if msgs.len() > 0 {
        let front = msgs.drop_last();
        let before = surfaced(c, front, creds);
        let found = surfaced(c, msgs, creds);
        lemma_in_order_front(msgs);
        law_messages_surface_in_order(c, front, creds);
        law_only_addressed_messages_surface(c, front, creds);
        assert forall|i: int, j: int| 0 <= i < j < found.len() implies !created_before(
            #[trigger] found[j],
            #[trigger] found[i],
        ) by {
            assert(found[i] == before[i]);
            if j < before.len() {
                assert(found[j] == before[j]);
            } else {
                let p = choose|p: int| 0 <= p < front.len() && front[p] == before[i];
                assert(!created_before(msgs[msgs.len() - 1], msgs[p]));
            }
        }
    }
}

proof fn lemma_in_order_front(msgs: Seq<GraphChatMessage>)
    requires
        in_order(msgs),
        msgs.len() > 0,
    ensures
        in_order(msgs.drop_last()),
{
    let front = msgs.drop_last();
    assert forall|i: int, j: int| 0 <= i < j < front.len() implies !created_before(
        #[trigger] front[j],
        #[trigger] front[i],
    ) by {
        assert(!created_before(msgs[j], msgs[i]));
    }
}

/// Whether two messages are the same to the watermark: created at the same
/// time, under the same id.
pub open spec fn same_message(a: GraphChatMessage, b: GraphChatMessage) -> bool {
    a.created_date_time@ == b.created_date_time@ && a.id@ == b.id@
}

/// A message that is new stays so while messages are read that were not
/// created after it and are not the same.
proof fn lemma_new_until_read(c: ChannelView, msgs: Seq<GraphChatMessage>, msg: GraphChatMessage)
    requires
        new_to(c, msg),
        forall|i: int|
            0 <= i < msgs.len() ==> !created_before(msg, #[trigger] msgs[i]) && !same_message(
                msgs[i],
                msg,
            ),
    ensures
        new_to(read(c, msgs), msg),
    decreases msgs.len(),
{
    if msgs.len() > 0 {
        let front = msgs.drop_last();
        let x = msgs.last();
        assert forall|i: int| 0 <= i < front.len() implies !created_before(msg, #[trigger] front[i])
            && !same_message(front[i], msg) by {
            assert(front[i] == msgs[i]);
        }
        lemma_new_until_read(c, front, msg);
        let p = read(c, front);
        let t = msg.created_date_time@;
        assert(!created_before(msg, msgs[msgs.len() - 1]) && !same_message(
            msgs[msgs.len() - 1],
            msg,
        ));
        if new_to(p, x) {
            lemma_precedes_total(x.created_date_time@, t);
            let r = recorded(p, x.created_date_time@, x.id@);
            if !beyond(r, t) {
                assert(r.last_seen == Some(t));
                if r.seen_ids.contains(msg.id@) {
                    let k = choose|k: int| 0 <= k < r.seen_ids.len() && r.seen_ids[k] == msg.id@;
                    let ids = if beyond(p, x.created_date_time@) {
                        Seq::empty()
                    } else {
                        p.seen_ids
                    };
                    let all = ids.push(x.id@);
                    let shift = all.len() - r.seen_ids.len();
                    assert(all[k + shift] == msg.id@);
                    if k + shift < ids.len() {
                        assert(ids[k + shift] == msg.id@);
                        assert(p.seen_ids.contains(msg.id@));
                    }
                }
            }
        }
    }
}

/// A message for the agent that is new to its channel is surfaced when its
/// page, in chronological order, is read; of several that are the same, the
/// first.
pub proof fn law_new_mention_is_surfaced(
    c: ChannelView,
    msgs: Seq<GraphChatMessage>,
    creds: Credentials,
    i: int,
)
    requires
        in_order(msgs),
        0 <= i < msgs.len(),
        new_to(c, msgs[i]),
        for_agent(msgs[i], creds),
        forall|j: int| 0 <= j < i ==> !same_message(#[trigger] msgs[j], msgs[i]),
    ensures
        surfaced(c, msgs, creds).contains(msgs[i]),
    decreases msgs.len(),
{
    let front = msgs.drop_last();
    if i < front.len() {
        lemma_in_order_front(msgs);
        assert forall|j: int| 0 <= j < i implies !same_message(#[trigger] front[j], front[i]) by {
            assert(front[j] == msgs[j]);
        }
        law_new_mention_is_surfaced(c, front, creds, i);
        let before = surfaced(c, front, creds);
        let k = choose|k: int| 0 <= k < before.len() && before[k] == msgs[i];
        assert(surfaced(c, msgs, creds)[k] == msgs[i]);
    } else {
        let msg = msgs[i];
        assert forall|j: int| 0 <= j < front.len() implies !created_before(msg, #[trigger] front[j])
            && !same_message(front[j], msg) by {
            assert(front[j] == msgs[j]);
            assert(!created_before(msgs[i], msgs[j]));
        }
        lemma_new_until_read(c, front, msg);
        let found = surfaced(c, msgs, creds);
        assert(found[found.len() - 1] == msg);
    }
}

/// Reading never moves a channel's watermark back.
pub proof fn law_reading_never_moves_the_watermark_back(
    c: ChannelView,
    msgs: Seq<GraphChatMessage>,
)
    ensures
        c.last_seen matches Some(was) ==> read(c, msgs).last_seen matches Some(now) && !precedes(
            now,
            was,
        ),
    decreases msgs.len(),
{
    if let Some(was) = c.last_seen {
        lemma_precedes_irreflexive(was);
        if msgs.len() > 0 {
            let front = msgs.drop_last();
            let x = msgs.last();
            law_reading_never_moves_the_watermark_back(c, front);
            let mid = read(c, front).last_seen.unwrap();
            if new_to(read(c, front), x) {
                law_watermark_never_moves_back(read(c, front), x.created_date_time@, x.id@);
                let now = read(c, msgs).last_seen.unwrap();
                if precedes(now, was) {
                    lemma_precedes_total(mid, was);
                    lemma_precedes_total(now, mid);
                    if precedes(mid, now) {
                        lemma_precedes_transitive(mid, now, was);
                    }
                }
            }
        }
    }
}

// ---------------------------------------------------------------------------
// Once only
// ---------------------------------------------------------------------------

/// All ids seen at the watermark's time, were there no bound on how many are
/// kept.
pub open spec fn watermark_ids(c: ChannelView, msgs: Seq<GraphChatMessage>) -> Seq<Seq<char>>
    decreases msgs.len(),
{
    if msgs.len() == 0 {
        c.seen_ids
    } else {
        let ids = watermark_ids(c, msgs.drop_last());
        let so_far = read(c, msgs.drop_last());
        let msg = msgs.last();
        if !new_to(so_far, msg) {
            ids
        } else if beyond(so_far, msg.created_date_time@) {
            seq![msg.id@]
        } else {
            ids.push(msg.id@)
        }
    }
}

/// Whether the bound on the list of ids has pushed out a message of the
/// watermark's time.
pub open spec fn pushed_out(
    c: ChannelView,
    msgs: Seq<GraphChatMessage>,
    msg: GraphChatMessage,
) -> bool {
    &&& read(c, msgs).last_seen == Some(msg.created_date_time@)
    &&& !newest(watermark_ids(c, msgs), SEEN_IDS_RING_SIZE as int).contains(msg.id@)
}

/// The ids that are kept are the end of all that were seen, and at least the
/// newest of them.
pub proof fn lemma_kept_ids(c: ChannelView, msgs: Seq<GraphChatMessage>)
    ensures
        ({
            let kept = read(c, msgs).seen_ids;
            let all = watermark_ids(c, msgs);
            &&& kept.len() <= all.len()
            &&& kept.len() >= newest(all, SEEN_IDS_RING_SIZE as int).len()
            &&& kept == all.skip(all.len() - kept.len())
        }),
    decreases msgs.len(),
{
    let kept = read(c, msgs).seen_ids;
    let all = watermark_ids(c, msgs);
    if msgs.len() == 0 {
        assert(all.skip(0) =~= all);
    } else {
        let front = msgs.drop_last();
        lemma_kept_ids(c, front);
        let kept_before = read(c, front).seen_ids;
        let all_before = watermark_ids(c, front);
        if new_to(read(c, front), msgs.last()) {
            let id = msgs.last().id@;
            if beyond(read(c, front), msgs.last().created_date_time@) {
                assert(kept =~= seq![id]);
                assert(all.skip(0) =~= all);
            } else {
                assert(kept =~= all.skip(all.len() - kept.len()));
            }
        }
    }
}

/// After reading, no message of the page is beyond the watermark, and those
/// at the watermark are among the ids seen there.
proof fn lemma_page_within_watermark(c: ChannelView, msgs: Seq<GraphChatMessage>, i: int)
    requires
        0 <= i < msgs.len(),
    ensures
        !beyond(read(c, msgs), msgs[i].created_date_time@),
        read(c, msgs).last_seen == Some(msgs[i].created_date_time@) ==> watermark_ids(
            c,
            msgs,
        ).contains(msgs[i].id@),
    decreases msgs.len(),
{
    let front = msgs.drop_last();
    let x = msgs.last();
    let p = read(c, front);
    let t = msgs[i].created_date_time@;
    let id = msgs[i].id@;
    let xt = x.created_date_time@;
    lemma_kept_ids(c, front);
    lemma_precedes_irreflexive(t);
    if i < front.len() {
        lemma_page_within_watermark(c, front, i);
        let was = p.last_seen.unwrap();
        lemma_precedes_total(was, t);
        if new_to(p, x) {
            if beyond(p, xt) {
                // The watermark moves on, past `t`.
                if precedes(xt, t) {
                    lemma_precedes_transitive(was, xt, t);
                }
                if xt == t {
                    assert(precedes(was, t));
                }
            } else if p.last_seen == Some(t) {
                let k = choose|k: int|
                    0 <= k < watermark_ids(c, front).len() && watermark_ids(c, front)[k] == id;
                assert(watermark_ids(c, msgs)[k] == id);
            }
        }
    } else {
        if new_to(p, x) {
            let all = watermark_ids(c, msgs);
            assert(all[all.len() - 1] == id);
        } else if p.last_seen == Some(t) {
            assert(p.seen_ids.contains(id));
            let k = choose|k: int| 0 <= k < p.seen_ids.len() && p.seen_ids[k] == id;
            let all = watermark_ids(c, front);
            assert(all[all.len() - p.seen_ids.len() + k] == id);
        }
    }
}

/// A message that has been read is not new any more, unless it was created at
/// the watermark and the bound on the list of ids has pushed its id out.
pub proof fn law_read_message_is_not_new(c: ChannelView, msgs: Seq<GraphChatMessage>, i: int)
    requires
        0 <= i < msgs.len(),
        !pushed_out(c, msgs, msgs[i]),
    ensures
        !new_to(read(c, msgs), msgs[i]),
{
    lemma_page_within_watermark(c, msgs, i);
    lemma_kept_ids(c, msgs);
    let kept = read(c, msgs).seen_ids;
    let all = watermark_ids(c, msgs);
    let last = newest(all, SEEN_IDS_RING_SIZE as int);
    if last.contains(msgs[i].id@) {
        let k = choose|k: int| 0 <= k < last.len() && last[k] == msgs[i].id@;
        assert(kept[kept.len() - last.len() + k] == last[k]);
    }
}

/// No id is pushed out while at most as many messages as are kept share the
/// watermark's time.
pub proof fn law_no_id_pushed_out_within_the_bound(
    c: ChannelView,
    msgs: Seq<GraphChatMessage>,
    i: int,
)
    requires
        0 <= i < msgs.len(),
        watermark_ids(c, msgs).len() <= SEEN_IDS_RING_SIZE,
    ensures
        !pushed_out(c, msgs, msgs[i]),
{
    lemma_page_within_watermark(c, msgs, i);
}

proof fn lemma_nothing_new(c: ChannelView, msgs: Seq<GraphChatMessage>, creds: Credentials)
    requires
        forall|i: int| 0 <= i < msgs.len() ==> !new_to(c, #[trigger] msgs[i]),
    ensures
        read(c, msgs) == c,
        surfaced(c, msgs, creds).len() == 0,
    decreases msgs.len(),
{
    if msgs.len() > 0 {
        let front = msgs.drop_last();
        assert forall|i: int| 0 <= i < front.len() implies !new_to(c, #[trigger] front[i]) by {
            assert(front[i] == msgs[i]);
        }
        lemma_nothing_new(c, front, creds);
        assert(!new_to(c, msgs[msgs.len() - 1]));
    }
}

/// Messages are surfaced once: after a page has been read, reading any of its
/// messages again surfaces nothing and changes nothing, unless the bound on
/// the list of ids has pushed one of them out.
pub proof fn law_messages_surface_once(
    c: ChannelView,
    msgs: Seq<GraphChatMessage>,
    again: Seq<GraphChatMessage>,
    creds: Credentials,
)
    requires
        forall|j: int|
            0 <= j < again.len() ==> msgs.contains(#[trigger] again[j]) && !pushed_out(
                c,
                msgs,
                again[j],
            ),
    ensures
        surfaced(read(c, msgs), again, creds).len() == 0,
        read(read(c, msgs), again) == read(c, msgs),
{
    assert forall|j: int| 0 <= j < again.len() implies !new_to(
        read(c, msgs),
        #[trigger] again[j],
    ) by {
        let i = choose|i: int| 0 <= i < msgs.len() && msgs[i] == again[j];
        law_read_message_is_not_new(c, msgs, i);
    }
    lemma_nothing_new(read(c, msgs), again, creds);
}

// ---------------------------------------------------------------------------
// Channels
// ---------------------------------------------------------------------------

/// A reply to a message goes to the channel that the message came from, where
/// the team id holds no slash.
pub proof fn law_reply_target_names_its_channel(msg: GraphChatMessage, team: TeamChannelConfig)
    requires
        !team.team_id@.contains('/'),
    ensures
        cut(inbound(msg, team).reply_target, '/') == Some((team.team_id@, team.channel_id@)),
{
    law_recipient_splits_back(team.team_id@, team.channel_id@);
}

/// Different channels have states of their own, where the team ids hold no
/// slash.
pub proof fn law_channels_have_states_of_their_own(a: TeamChannelConfig, b: TeamChannelConfig)
    requires
        !a.team_id@.contains('/'),
        !b.team_id@.contains('/'),
        a.team_id@ != b.team_id@ || a.channel_id@ != b.channel_id@,
    ensures
        channel_key(a) != channel_key(b),
{
    law_recipient_splits_back(a.team_id@, a.channel_id@);
    law_recipient_splits_back(b.team_id@, b.channel_id@);
}

} // verus!
