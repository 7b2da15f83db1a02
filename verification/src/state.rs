//! Poll state: how far each channel has been read.
//!
//! A channel's watermark is the newest creation time seen. Timestamps are to
//! the second, so ties happen: the ids seen at the watermark's own time are
//! kept as well, the newest of them only, so that the state stays small.
//! Kept across restarts, this is what stops the most recent page of messages
//! from being surfaced again.
use std::collections::VecDeque;

use vstd::prelude::*;

use crate::scan::views;
use crate::text::{
    lemma_precedes_irreflexive, lemma_precedes_total, lemma_precedes_transitive, precedes, str_eq,
    str_less,
};

verus! {

/// How many ids are kept of the messages seen at the watermark's time.
pub const SEEN_IDS_RING_SIZE: usize = 200;

// ---------------------------------------------------------------------------
// One channel
// ---------------------------------------------------------------------------

#[derive(Debug, Clone)]
pub struct ChannelState {
    /// The newest creation time seen in this channel, as Graph writes it.
    pub last_seen: Option<String>,
    /// The ids of the messages seen at that time, oldest first.
    pub seen_ids: VecDeque<String>,
    /// Reserved for reading by delta link; not used.
    pub delta_link: Option<String>,
}

/// What a channel's state holds.
#[verifier::ext_equal]
pub struct ChannelView {
    pub last_seen: Option<Seq<char>>,
    pub seen_ids: Seq<Seq<char>>,
    pub delta_link: Option<Seq<char>>,
}

/// What an optional string holds.
pub open spec fn text_of(s: Option<String>) -> Option<Seq<char>> {
    match s {
        Some(t) => Some(t@),
        None => None,
    }
}

impl View for ChannelState {
    type V = ChannelView;

    open spec fn view(&self) -> ChannelView {
        ChannelView {
            last_seen: text_of(self.last_seen),
            seen_ids: views(self.seen_ids@),
            delta_link: text_of(self.delta_link),
        }
    }
}

/// The state of a channel of which nothing has been seen.
pub open spec fn unseen() -> ChannelView {
    ChannelView { last_seen: None, seen_ids: Seq::empty(), delta_link: None }
}

impl Default for ChannelState {
    fn default() -> (r: Self)
        ensures
            r@ == unseen(),
    {
        let r = ChannelState { last_seen: None, seen_ids: VecDeque::new(), delta_link: None };
        assert(views(r.seen_ids@) =~= Seq::empty());
        r
    }
}

/// Whether a time lies beyond the watermark.
pub open spec fn beyond(c: ChannelView, time: Seq<char>) -> bool {
    match c.last_seen {
        None => true,
        Some(last) => precedes(last, time),
    }
}

/// Whether a message is new to a channel: created after the watermark, or at
/// it under an id that is not among those seen.
pub open spec fn fresh(c: ChannelView, time: Seq<char>, id: Seq<char>) -> bool {
    beyond(c, time) || (c.last_seen == Some(time) && !c.seen_ids.contains(id))
}

/// The last `n` of a list, or all of it.
pub open spec fn newest<T>(s: Seq<T>, n: int) -> Seq<T> {
    if s.len() <= n {
        s
    } else {
        s.skip(s.len() - n)
    }
}

/// A channel's state once a message has been seen: the watermark moves up to
/// a later time and then starts with no ids; the id is added, and the newest
/// ids are kept.
pub open spec fn recorded(c: ChannelView, time: Seq<char>, id: Seq<char>) -> ChannelView {
    let ids = if beyond(c, time) {
        Seq::empty()
    } else {
        c.seen_ids
    };
    ChannelView {
        last_seen: if beyond(c, time) {
            Some(time)
        } else {
            c.last_seen
        },
        seen_ids: newest(ids.push(id), SEEN_IDS_RING_SIZE as int),
        delta_link: c.delta_link,
    }
}

fn ring_contains(ids: &VecDeque<String>, id: &str) -> (r: bool)
    ensures
        r == views(ids@).contains(id@),
{
    let mut i: usize = 0;
    while i < ids.len()
        invariant
            i <= ids@.len(),
            forall|k: int| 0 <= k < i ==> ids@[k]@ != id@,
        decreases ids@.len() - i,
    {
        if str_eq(ids[i].as_str(), id) {
            assert(views(ids@)[i as int] == id@);
            return true;
        }
        i = i + 1;
    }
    false
}

/// Whether a message is new relative to the channel's watermark.
pub fn is_new(state: &ChannelState, created_date_time: &str, id: &str) -> (r: bool)
    ensures
        r == fresh(state@, created_date_time@, id@),
{
    match &state.last_seen {
        None => true,
        Some(last_seen) => if str_less(last_seen.as_str(), created_date_time) {
            true
        } else if str_eq(last_seen.as_str(), created_date_time) {
            !ring_contains(&state.seen_ids, id)
        } else {
            false
        },
    }
}

/// Drops ids from the front until at most `n` are left.
fn keep_newest(ids: &mut VecDeque<String>, n: usize)
    ensures
        views(final(ids)@) == newest(views(old(ids)@), n as int),
{
    let ghost all = views(ids@);
    while ids.len() > n
        invariant
            newest(views(ids@), n as int) == newest(all, n as int),
        decreases ids@.len(),
    {
        let ghost before = views(ids@);
        let _ = ids.pop_front();
        assert(views(ids@) =~= before.skip(1));
        assert(before.skip(1).skip(before.len() - 1 - n) =~= before.skip(before.len() - n));
        assert(newest(before.skip(1), n as int) =~= newest(before, n as int));
    }
}

/// Records a message as seen: advances the watermark and maintains the
/// bounded list of ids. To be called for messages that are new.
pub fn record_seen(state: &mut ChannelState, created_date_time: &str, id: &str)
    ensures
        final(state)@ == recorded(old(state)@, created_date_time@, id@),
{
    let advanced = match &state.last_seen {
        None => true,
        Some(last_seen) => str_less(last_seen.as_str(), created_date_time),
    };
    if advanced {
        state.last_seen = Some(created_date_time.to_owned());
        state.seen_ids.clear();
        assert(views(state.seen_ids@) =~= Seq::empty());
    }
    let ghost ids = views(state.seen_ids@);
    state.seen_ids.push_back(id.to_owned());
    assert(views(state.seen_ids@) =~= ids.push(id@));
    keep_newest(&mut state.seen_ids, SEEN_IDS_RING_SIZE);
}

/// A message that has just been recorded is not new any more.
pub proof fn law_recorded_message_is_not_new(c: ChannelView, time: Seq<char>, id: Seq<char>)
    requires
        fresh(c, time, id),
    ensures
        !fresh(recorded(c, time, id), time, id),
{
    lemma_precedes_irreflexive(time);
    let r = recorded(c, time, id);
    assert(r.seen_ids.last() == id);
    assert(r.seen_ids[r.seen_ids.len() - 1] == id);
}

/// The watermark never moves back, and after a record it is never before the
/// recorded time.
pub proof fn law_watermark_never_moves_back(c: ChannelView, time: Seq<char>, id: Seq<char>)
    ensures
        recorded(c, time, id).last_seen matches Some(now) && !precedes(now, time) && (c.last_seen
            matches Some(was) ==> !precedes(now, was)),
{
    lemma_precedes_irreflexive(time);
    if let Some(was) = c.last_seen {
        lemma_precedes_irreflexive(was);
        if precedes(was, time) && precedes(time, was) {
            lemma_precedes_transitive(was, time, was);
        }
    }
}

/// The list of ids stays bounded.
pub proof fn law_seen_ids_stay_bounded(c: ChannelView, time: Seq<char>, id: Seq<char>)
    ensures
        recorded(c, time, id).seen_ids.len() <= SEEN_IDS_RING_SIZE,
{
}

/// A message that is not new stays so when another message is recorded,
/// unless it was created at the watermark and the bound on the list of ids
/// has just pushed its id out.
pub proof fn law_seen_message_stays_seen(
    c: ChannelView,
    time: Seq<char>,
    id: Seq<char>,
    seen_time: Seq<char>,
    seen_id: Seq<char>,
)
    requires
        !fresh(c, seen_time, seen_id),
        c.last_seen == Some(seen_time) && !beyond(c, time) ==> recorded(
            c,
            time,
            id,
        ).seen_ids.contains(seen_id),
    ensures
        !fresh(recorded(c, time, id), seen_time, seen_id),
{
    let last = c.last_seen.unwrap();
    lemma_precedes_total(last, seen_time);
    if beyond(c, time) {
        // The watermark moves beyond everything that it stood at or after.
        if precedes(time, seen_time) {
            lemma_precedes_transitive(last, time, seen_time);
        }
        if last == seen_time {
            lemma_precedes_irreflexive(last);
        } else if time == seen_time {
            assert(precedes(last, seen_time));
        }
    }
}

// ---------------------------------------------------------------------------
// All channels
// ---------------------------------------------------------------------------

/// The state of every channel, keyed by `team_id/channel_id`.
#[derive(Debug, Clone)]
pub struct State {
    /// No key occurs twice.
    pub channels: Vec<(String, ChannelState)>,
}

/// What a list of keyed states maps each key to.
pub open spec fn channel_map(s: Seq<(String, ChannelState)>) -> Map<Seq<char>, ChannelView>
    decreases s.len(),
{
    if s.len() == 0 {
        Map::empty()
    } else {
        channel_map(s.drop_last()).insert(s.last().0@, s.last().1@)
    }
}

/// Whether no key occurs twice.
pub open spec fn distinct_keys(s: Seq<(String, ChannelState)>) -> bool {
    forall|i: int, j: int| 0 <= i < j < s.len() ==> (#[trigger] s[i]).0@ != (#[trigger] s[j]).0@
}

impl View for State {
    type V = Map<Seq<char>, ChannelView>;

    open spec fn view(&self) -> Map<Seq<char>, ChannelView> {
        channel_map(self.channels@)
    }
}

/// What the map says of each key.
pub proof fn lemma_channel_map(s: Seq<(String, ChannelState)>, key: Seq<char>)
    requires
        distinct_keys(s),
    ensures
        channel_map(s).contains_key(key) <==> exists|i: int|
            0 <= i < s.len() && (#[trigger] s[i]).0@ == key,
        forall|i: int|
            0 <= i < s.len() && (#[trigger] s[i]).0@ == key ==> channel_map(s)[key] == s[i].1@,
    decreases s.len(),
{
    if s.len() > 0 {
        let front = s.drop_last();
        assert(distinct_keys(front)) by {
            assert forall|i: int, j: int| 0 <= i < j < front.len() implies (#[trigger] front[i]).0@
                != (#[trigger] front[j]).0@ by {
                assert(s[i].0@ != s[j].0@);
            }
        }
        lemma_channel_map(front, key);
        if channel_map(s).contains_key(key) {
            if s.last().0@ == key {
                assert(s[s.len() - 1].0@ == key);
            } else {
                let i = choose|i: int| 0 <= i < front.len() && (#[trigger] front[i]).0@ == key;
                assert(s[i].0@ == key);
            }
        }
        assert forall|i: int| 0 <= i < s.len() && (#[trigger] s[i]).0@ == key implies channel_map(
            s,
        )[key] == s[i].1@ && channel_map(s).contains_key(key) by {
            if i < s.len() - 1 {
                assert(front[i] == s[i]);
                assert(s[i].0@ != s[s.len() - 1].0@);
            }
        }
    }
}

impl State {
    /// No key occurs twice.
    pub open spec fn well_formed(&self) -> bool {
        distinct_keys(self.channels@)
    }

    /// The state before any poll.
    pub fn new() -> (r: State)
        ensures
            r.well_formed(),
            r@ == Map::<Seq<char>, ChannelView>::empty(),
    {
        State { channels: Vec::new() }
    }

    /// Where the key stands, if it does.
    fn position(&self, key: &str) -> (r: Option<usize>)
        ensures
            match r {
                Some(i) => i < self.channels@.len() && self.channels@[i as int].0@ == key@,
                None => forall|i: int|
                    0 <= i < self.channels@.len() ==> (#[trigger] self.channels@[i]).0@ != key@,
            },
    {
        let mut i: usize = 0;
        while i < self.channels.len()
            invariant
                i <= self.channels@.len(),
                forall|k: int| 0 <= k < i ==> (#[trigger] self.channels@[k]).0@ != key@,
            decreases self.channels@.len() - i,
        {
            if str_eq(self.channels[i].0.as_str(), key) {
                return Some(i);
            }
            i = i + 1;
        }
        None
    }

    /// The state of one channel, if it has one.
    pub fn channel(&self, key: &str) -> (r: Option<&ChannelState>)
        requires
            self.well_formed(),
        ensures
            match r {
                Some(c) => self@.contains_key(key@) && c@ == self@[key@],
                None => !self@.contains_key(key@),
            },
    {
        proof {
            lemma_channel_map(self.channels@, key@);
        }
        match self.position(key) {
            Some(i) => Some(&self.channels[i].1),
            None => None,
        }
    }

    /// Takes the state of a channel out of the map, or an empty one where the
    /// channel has none yet.
    pub fn take_channel(&mut self, key: &str) -> (r: ChannelState)
        requires
            old(self).well_formed(),
        ensures
            final(self).well_formed(),
            final(self)@ == old(self)@.remove(key@),
            r@ == (if old(self)@.contains_key(key@) {
                old(self)@[key@]
            } else {
                unseen()
            }),
    {
        let ghost was = self.channels@;
        proof {
            lemma_channel_map(was, key@);
        }
        match self.position(key) {
            Some(i) => {
                let (_, c) = self.channels.remove(i);
                proof {
                    let now = self.channels@;
                    assert(distinct_keys(now)) by {
                        assert forall|a: int, b: int| 0 <= a < b < now.len() implies (
                        #[trigger] now[a]).0@ != (#[trigger] now[b]).0@ by {
                            let p = if a < i {
                                a
                            } else {
                                a + 1
                            };
                            let q = if b < i {
                                b
                            } else {
                                b + 1
                            };
                            assert(was[p].0@ != was[q].0@);
                        }
                    }
                    assert forall|k: Seq<char>|
                        #![trigger channel_map(now).contains_key(k)]
                        channel_map(now).contains_key(k) == channel_map(was).remove(
                            key@,
                        ).contains_key(k) && (channel_map(now).contains_key(k) ==> channel_map(
                            now,
                        )[k] == channel_map(was)[k]) by {
                        lemma_channel_map(now, k);
                        lemma_channel_map(was, k);
                        if channel_map(now).contains_key(k) {
                            let a = choose|a: int| 0 <= a < now.len() && (#[trigger] now[a]).0@ == k;
                            let p = if a < i {
                                a
                            } else {
                                a + 1
                            };
                            assert(was[p] == now[a]);
                            if p < i {
                                assert(was[p].0@ != was[i as int].0@);
                            } else {
                                assert(was[i as int].0@ != was[p].0@);
                            }
                        }
                        if channel_map(was).contains_key(k) && k != key@ {
                            let p = choose|p: int| 0 <= p < was.len() && (#[trigger] was[p]).0@ == k;
                            let a = if p < i {
                                p
                            } else {
                                p - 1
                            };
                            assert(now[a] == was[p]);
                        }
                    }
                    assert(channel_map(now) =~= channel_map(was).remove(key@));
                }
                c
            },
            None => {
                assert(channel_map(was) =~= channel_map(was).remove(key@));
                ChannelState::default()
            },
        }
    }

    /// Puts the state of a channel into the map, in place of any it had.
    pub fn put_channel(&mut self, key: String, c: ChannelState)
        requires
            old(self).well_formed(),
        ensures
            final(self).well_formed(),
            final(self)@ == old(self)@.insert(key@, c@),
    {
        let _ = self.take_channel(key.as_str());
        let ghost was = self.channels@;
        proof {
            lemma_channel_map(was, key@);
        }
        self.channels.push((key, c));
        proof {
            let now = self.channels@;
            assert(now.drop_last() =~= was);
            assert(distinct_keys(now)) by {
                assert forall|a: int, b: int| 0 <= a < b < now.len() implies (#[trigger] now[a]).0@
                    != (#[trigger] now[b]).0@ by {
                    assert(now[a] == was[a]);
                    if b < was.len() {
                        assert(now[b] == was[b]);
                    }
                }
            }
            assert(channel_map(now) =~= old(self)@.insert(key@, c@));
        }
    }
}

impl Default for State {
    fn default() -> (r: Self)
        ensures
            r.well_formed(),
            r@ == Map::<Seq<char>, ChannelView>::empty(),
    {
        State::new()
    }
}

} // verus!
