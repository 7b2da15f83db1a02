//! Once only, over any number of poll cycles: what a channel's state has read
//! is the list of all messages ever fetched for it, and of that list nothing
//! is new twice.
use vstd::prelude::*;

use crate::credentials::Credentials;
use crate::delivery::{
    law_no_id_pushed_out_within_the_bound, law_read_message_is_not_new, lemma_kept_ids,
    same_message, watermark_ids,
};
use crate::graph::{chronological, law_chronological, GraphChatMessage};
use crate::poll_gate::{
    channel_key, cycle_states, held, new_to, read, step_surfaced, step_team, surfaced,
};
use crate::state::{beyond, unseen, ChannelView, SEEN_IDS_RING_SIZE};

verus! {

// ---------------------------------------------------------------------------
// One channel
// ---------------------------------------------------------------------------

/// Reading one list after another is reading both as one.
proof fn lemma_read_appended(
    c: ChannelView,
    a: Seq<GraphChatMessage>,
    b: Seq<GraphChatMessage>,
)
    ensures
        read(c, a + b) == read(read(c, a), b),
    decreases b.len(),
{
    if b.len() == 0 {
        assert(a + b =~= a);
    } else {
        lemma_read_appended(c, a, b.drop_last());
        assert((a + b).drop_last() =~= a + b.drop_last());
        assert((a + b).last() == b.last());
    }
}

/// Whether all messages of a list that were created at a time have their ids
/// in another list.
pub open spec fn covered(msgs: Seq<GraphChatMessage>, time: Seq<char>, ids: Seq<Seq<char>>) -> bool {
    forall|i: int|
        0 <= i < msgs.len() && (#[trigger] msgs[i]).created_date_time@ == time ==> ids.contains(
            msgs[i].id@,
        )
}

/// Whether at most as many different messages share this time as ids are kept.
pub open spec fn few_at(msgs: Seq<GraphChatMessage>, time: Seq<char>) -> bool {
    exists|ids: Seq<Seq<char>>|
        ids.len() <= SEEN_IDS_RING_SIZE && #[trigger] covered(msgs, time, ids)
}

/// Whether at most as many different messages share a time as ids are kept.
pub open spec fn few_at_once(msgs: Seq<GraphChatMessage>) -> bool {
    forall|time: Seq<char>| #[trigger] few_at(msgs, time)
}

/// Whether a list holds a message created at a time under an id.
spec fn holds_id(msgs: Seq<GraphChatMessage>, time: Option<Seq<char>>, id: Seq<char>) -> bool {
    exists|i: int|
        0 <= i < msgs.len() && (#[trigger] msgs[i]).id@ == id && Some(msgs[i].created_date_time@)
            == time
}

/// A list without repetition whose items are all in another list is no longer
/// than that list.
proof fn lemma_no_longer(a: Seq<Seq<char>>, b: Seq<Seq<char>>)
    requires
        a.no_duplicates(),
        forall|i: int| 0 <= i < a.len() ==> b.contains(#[trigger] a[i]),
    ensures
        a.len() <= b.len(),
    decreases a.len(),
{
    if a.len() > 0 {
        let x = a.last();
        let front = a.drop_last();
        assert(b.contains(a[a.len() - 1]));
        let k = choose|k: int| 0 <= k < b.len() && b[k] == x;
        let rest = b.remove(k);
        assert forall|i: int| 0 <= i < front.len() implies rest.contains(#[trigger] front[i]) by {
            assert(b.contains(a[i]));
            let j = choose|j: int| 0 <= j < b.len() && b[j] == a[i];
            assert(a[i] != a[a.len() - 1]);
            if j < k {
                assert(rest[j] == b[j]);
            } else {
                assert(rest[j - 1] == b[j]);
            }
        }
        lemma_no_longer(front, rest);
    }
}

/// From nothing seen, and while few messages share a time, the ids at the
/// watermark are those of different messages of that time, and all are kept.
proof fn lemma_watermark_ids(msgs: Seq<GraphChatMessage>)
    requires
        few_at_once(msgs),
    ensures
        ({
            let ids = watermark_ids(unseen(), msgs);
            &&& ids.no_duplicates()
            &&& ids.len() <= SEEN_IDS_RING_SIZE
            &&& read(unseen(), msgs).seen_ids == ids
            &&& forall|j: int|
                0 <= j < ids.len() ==> holds_id(
                    msgs,
                    read(unseen(), msgs).last_seen,
                    #[trigger] ids[j],
                )
        }),
    decreases msgs.len(),
{
    let ids = watermark_ids(unseen(), msgs);
    if msgs.len() > 0 {
        let front = msgs.drop_last();
        let msg = msgs.last();
        let so_far = read(unseen(), front);
        let before = watermark_ids(unseen(), front);
        lemma_few_in_part(msgs, front);
        lemma_watermark_ids(front);
        assert forall|j: int| 0 <= j < ids.len() implies holds_id(
            msgs,
            read(unseen(), msgs).last_seen,
            #[trigger] ids[j],
        ) by {
            if new_to(so_far, msg) && j == ids.len() - 1 {
                assert(msgs[msgs.len() - 1].id@ == ids[j]);
            } else {
                assert(ids[j] == before[j]);
                assert(holds_id(front, so_far.last_seen, before[j]));
                let i = choose|i: int|
                    0 <= i < front.len() && (#[trigger] front[i]).id@ == before[j] && Some(
                        front[i].created_date_time@,
                    ) == so_far.last_seen;
                assert(msgs[i] == front[i]);
                assert(msgs[i].id@ == ids[j]);
            }
        }
        if new_to(so_far, msg) && !beyond(so_far, msg.created_date_time@) {
            assert(!before.contains(msg.id@));
        }
        assert(ids.no_duplicates());
    } else {
        assert(ids =~= Seq::empty());
    }
    if ids.len() > 0 {
        let time = read(unseen(), msgs).last_seen.unwrap();
        assert(few_at(msgs, time));
        let cover = choose|cover: Seq<Seq<char>>|
            cover.len() <= SEEN_IDS_RING_SIZE && #[trigger] covered(msgs, time, cover);
        assert forall|j: int| 0 <= j < ids.len() implies cover.contains(#[trigger] ids[j]) by {
            assert(holds_id(msgs, read(unseen(), msgs).last_seen, ids[j]));
            let i = choose|i: int|
                0 <= i < msgs.len() && (#[trigger] msgs[i]).id@ == ids[j] && Some(
                    msgs[i].created_date_time@,
                ) == read(unseen(), msgs).last_seen;
            assert(cover.contains(msgs[i].id@));
        }
        lemma_no_longer(ids, cover);
    }
    lemma_kept_ids(unseen(), msgs);
    assert(ids.skip(0) =~= ids);
}

/// Few messages of a part of a list share a time, where few of the list do.
proof fn lemma_few_in_part(msgs: Seq<GraphChatMessage>, part: Seq<GraphChatMessage>)
    requires
        few_at_once(msgs),
        forall|i: int| 0 <= i < part.len() ==> msgs.contains(#[trigger] part[i]),
    ensures
        few_at_once(part),
{
    assert forall|time: Seq<char>| #[trigger] few_at(part, time) by {
        assert(few_at(msgs, time));
        let ids = choose|ids: Seq<Seq<char>>|
            ids.len() <= SEEN_IDS_RING_SIZE && #[trigger] covered(msgs, time, ids);
        assert forall|i: int|
            0 <= i < part.len() && (#[trigger] part[i]).created_date_time@
                == time implies ids.contains(part[i].id@) by {
            assert(msgs.contains(part[i]));
            let k = choose|k: int| 0 <= k < msgs.len() && msgs[k] == part[i];
            assert(msgs[k].created_date_time@ == time);
        }
        assert(covered(part, time, ids));
    }
}

/// Once read, from nothing seen on, a message is never new again, however much
/// has been read since, while at most as many different messages share a time
/// as ids are kept.
pub proof fn law_read_once_from_nothing_seen(msgs: Seq<GraphChatMessage>, i: int)
    requires
        few_at_once(msgs),
        0 <= i < msgs.len(),
    ensures
        !new_to(read(unseen(), msgs), msgs[i]),
{
    lemma_watermark_ids(msgs);
    law_no_id_pushed_out_within_the_bound(unseen(), msgs, i);
    law_read_message_is_not_new(unseen(), msgs, i);
}

// ---------------------------------------------------------------------------
// Many cycles
// ---------------------------------------------------------------------------

/// A poll cycle that has been run: the credentials in force, the channel that
/// it started with, and what it fetched at each step.
pub struct PastCycle {
    pub creds: Credentials,
    pub start: int,
    pub fetched: Seq<Option<Vec<GraphChatMessage>>>,
}

impl PastCycle {
    /// The number of steps of the cycle: one for each configured channel.
    pub open spec fn steps(self) -> int {
        self.creds.teams@.len() as int
    }

    /// The key of the channel visited at a step.
    pub open spec fn key_at(self, k: int) -> Seq<char> {
        channel_key(step_team(self.creds, self.start, k))
    }

    /// The messages fetched at a step, oldest first; none where the fetch
    /// failed.
    pub open spec fn page_at(self, k: int) -> Seq<GraphChatMessage> {
        match self.fetched[k] {
            Some(page) => chronological(page@),
            None => Seq::empty(),
        }
    }

    /// The states after the first `k` steps of the cycle.
    pub open spec fn states(self, m: Map<Seq<char>, ChannelView>, k: int) -> Map<
        Seq<char>,
        ChannelView,
    > {
        cycle_states(m, self.creds, self.start, self.fetched, k)
    }
}

/// The states after the first `c` cycles, run one after the other from the
/// empty state, each on what the one before it saved.
pub open spec fn states_after(cycles: Seq<PastCycle>, c: int) -> Map<Seq<char>, ChannelView>
    decreases c,
{
    if c <= 0 {
        Map::empty()
    } else {
        cycles[c - 1].states(states_after(cycles, c - 1), cycles[c - 1].steps())
    }
}

/// The messages that the step `k` of the cycle `c` surfaces.
pub open spec fn surfaced_at(cycles: Seq<PastCycle>, c: int, k: int) -> Seq<GraphChatMessage> {
    step_surfaced(
        states_after(cycles, c),
        cycles[c].creds,
        cycles[c].start,
        cycles[c].fetched,
        k,
    )
}

/// All that the first `k` steps of a cycle fetched for one channel.
pub open spec fn fetched_in_cycle(cycle: PastCycle, key: Seq<char>, k: int) -> Seq<
    GraphChatMessage,
>
    decreases k,
{
    if k <= 0 {
        Seq::empty()
    } else if cycle.key_at(k - 1) == key {
        fetched_in_cycle(cycle, key, k - 1) + cycle.page_at(k - 1)
    } else {
        fetched_in_cycle(cycle, key, k - 1)
    }
}

/// All that the first `c` cycles fetched for one channel.
pub open spec fn fetched_for(cycles: Seq<PastCycle>, key: Seq<char>, c: int) -> Seq<
    GraphChatMessage,
>
    decreases c,
{
    if c <= 0 {
        Seq::empty()
    } else {
        fetched_for(cycles, key, c - 1) + fetched_in_cycle(
            cycles[c - 1],
            key,
            cycles[c - 1].steps(),
        )
    }
}

/// All that was fetched for one channel before the step `k` of the cycle `c`.
spec fn fetched_before(cycles: Seq<PastCycle>, key: Seq<char>, c: int, k: int) -> Seq<
    GraphChatMessage,
> {
    fetched_for(cycles, key, c) + fetched_in_cycle(cycles[c], key, k)
}

/// A channel's state is what reading all that was fetched for it comes to.
proof fn lemma_state_is_history(cycles: Seq<PastCycle>, key: Seq<char>, c: int, k: int)
    requires
        0 <= c,
        0 <= k,
    ensures
        held(cycles[c].states(states_after(cycles, c), k), key) == read(
            unseen(),
            fetched_before(cycles, key, c, k),
        ),
        k == 0 ==> held(states_after(cycles, c), key) == read(
            unseen(),
            fetched_for(cycles, key, c),
        ),
    decreases c, k,
{
    if k > 0 {
        lemma_state_is_history(cycles, key, c, k - 1);
        if cycles[c].key_at(k - 1) == key {
            lemma_read_appended(
                unseen(),
                fetched_before(cycles, key, c, k - 1),
                cycles[c].page_at(k - 1),
            );
            assert(fetched_before(cycles, key, c, k) =~= fetched_before(cycles, key, c, k - 1)
                + cycles[c].page_at(k - 1));
        }
    } else {
        assert(fetched_before(cycles, key, c, 0) =~= fetched_for(cycles, key, c));
        if c > 0 {
            let n = cycles[c - 1].steps();
            lemma_state_is_history(cycles, key, c - 1, n);
        }
    }
}

/// Whether a list starts with another.
spec fn starts_with(s: Seq<GraphChatMessage>, front: Seq<GraphChatMessage>) -> bool {
    front.len() <= s.len() && forall|i: int|
        0 <= i < front.len() ==> #[trigger] s[i] == front[i]
}

/// What was fetched before a step is where what was fetched before a later
/// step starts.
proof fn lemma_history_grows(
    cycles: Seq<PastCycle>,
    key: Seq<char>,
    c: int,
    k: int,
    later: int,
    step: int,
)
    requires
        0 <= c,
        0 <= k,
        c < later ==> k <= cycles[c].steps(),
        c < later || (c == later && k <= step),
    ensures
        starts_with(
            fetched_before(cycles, key, later, step),
            fetched_before(cycles, key, c, k),
        ),
    decreases later, step,
{
    let start = fetched_before(cycles, key, c, k);
    if c == later && k == step {
    } else if step > 0 {
        lemma_history_grows(cycles, key, c, k, later, step - 1);
        let mid = fetched_before(cycles, key, later, step - 1);
        let all = fetched_before(cycles, key, later, step);
        assert(starts_with(all, mid));
        assert forall|i: int| 0 <= i < start.len() implies #[trigger] all[i] == start[i] by {
            assert(mid[i] == start[i]);
        }
    } else {
        let n = cycles[later - 1].steps();
        lemma_history_grows(cycles, key, c, k, later - 1, n);
        assert(fetched_in_cycle(cycles[later], key, step).len() == 0);
        assert(fetched_before(cycles, key, later, step) =~= fetched_before(
            cycles,
            key,
            later - 1,
            n,
        ));
    }
}

/// Where a surfaced message stands in its page: it is new when its turn comes,
/// and as many surface before it.
proof fn lemma_surfaced_place(
    c: ChannelView,
    msgs: Seq<GraphChatMessage>,
    creds: Credentials,
    j: int,
) -> (p: int)
    requires
        0 <= j < surfaced(c, msgs, creds).len(),
    ensures
        0 <= p < msgs.len(),
        surfaced(c, msgs, creds)[j] == msgs[p],
        new_to(read(c, msgs.take(p)), msgs[p]),
        surfaced(c, msgs.take(p), creds).len() == j,
    decreases msgs.len(),
{
    let front = msgs.drop_last();
    if j < surfaced(c, front, creds).len() {
        let p = lemma_surfaced_place(c, front, creds, j);
        assert(msgs.take(p) =~= front.take(p));
        p
    } else {
        assert(msgs.take(msgs.len() - 1) =~= front);
        msgs.len() - 1
    }
}

/// A longer part of a page surfaces no less.
proof fn lemma_surfaced_grows(
    c: ChannelView,
    msgs: Seq<GraphChatMessage>,
    creds: Credentials,
    p: int,
    q: int,
)
    requires
        0 <= p <= q <= msgs.len(),
    ensures
        surfaced(c, msgs.take(p), creds).len() <= surfaced(c, msgs.take(q), creds).len(),
    decreases q - p,
{
    if p < q {
        lemma_surfaced_grows(c, msgs, creds, p, q - 1);
        assert(msgs.take(q).drop_last() =~= msgs.take(q - 1));
    }
}

/// Whether a step surfaces a message at an index.
pub open spec fn surfaces(cycles: Seq<PastCycle>, c: int, k: int, j: int) -> bool {
    &&& 0 <= c < cycles.len()
    &&& 0 <= k < cycles[c].steps()
    &&& 0 <= j < surfaced_at(cycles, c, k).len()
}

/// Whether one place in a run of cycles comes before another.
spec fn comes_before(c: int, k: int, j: int, c2: int, k2: int, j2: int) -> bool {
    c < c2 || (c == c2 && (k < k2 || (k == k2 && j < j2)))
}

proof fn lemma_not_surfaced_again(
    cycles: Seq<PastCycle>,
    key: Seq<char>,
    c: int,
    k: int,
    j: int,
    c2: int,
    k2: int,
    j2: int,
)
    requires
        few_at_once(fetched_for(cycles, key, cycles.len() as int)),
        surfaces(cycles, c, k, j),
        surfaces(cycles, c2, k2, j2),
        cycles[c].key_at(k) == key,
        cycles[c2].key_at(k2) == key,
        comes_before(c, k, j, c2, k2, j2),
    ensures
        !same_message(surfaced_at(cycles, c, k)[j], surfaced_at(cycles, c2, k2)[j2]),
{
    let creds = cycles[c].creds;
    let creds2 = cycles[c2].creds;
    let page = cycles[c].page_at(k);
    let page2 = cycles[c2].page_at(k2);
    let before = fetched_before(cycles, key, c, k);
    let before2 = fetched_before(cycles, key, c2, k2);
    let state = read(unseen(), before);
    let state2 = read(unseen(), before2);
    lemma_state_is_history(cycles, key, c, k);
    lemma_state_is_history(cycles, key, c2, k2);
    assert(surfaced_at(cycles, c, k) == surfaced(state, page, creds)) by {
        assert(surfaced(state, Seq::empty(), creds) =~= Seq::empty());
    }
    assert(surfaced_at(cycles, c2, k2) == surfaced(state2, page2, creds2)) by {
        assert(surfaced(state2, Seq::empty(), creds2) =~= Seq::empty());
    }
    let p = lemma_surfaced_place(state, page, creds, j);
    let p2 = lemma_surfaced_place(state2, page2, creds2, j2);
    // All that had been read when the later one had its turn.
    let read_by_then = before2 + page2.take(p2);
    let at = before.len() + p;
    lemma_read_appended(unseen(), before2, page2.take(p2));
    assert(fetched_before(cycles, key, c, k + 1) =~= before + page);
    assert(fetched_before(cycles, key, c2, k2 + 1) =~= before2 + page2);
    // The earlier one was among it.
    if c == c2 && k == k2 {
        if p >= p2 {
            lemma_surfaced_grows(state, page, creds, p2, p);
        }
        assert(read_by_then[at] == page[p]);
    } else {
        lemma_history_grows(cycles, key, c, k + 1, c2, k2);
        assert((before + page)[at] == page[p]);
        assert(before2[at] == page[p]);
        assert(read_by_then[at] == page[p]);
    }
    // Few of it share a time.
    let all = fetched_for(cycles, key, cycles.len() as int);
    lemma_history_grows(cycles, key, c2, k2 + 1, cycles.len() as int, 0);
    assert(fetched_before(cycles, key, cycles.len() as int, 0) =~= all);
    assert forall|i: int| 0 <= i < read_by_then.len() implies all.contains(
        #[trigger] read_by_then[i],
    ) by {
        assert((before2 + page2)[i] == read_by_then[i]);
        assert(all[i] == read_by_then[i]);
    }
    lemma_few_in_part(all, read_by_then);
    law_read_once_from_nothing_seen(read_by_then, at as int);
}

/// Nothing is surfaced twice: over any number of cycles, each run on the state
/// that the one before it saved, and starting from the empty state, no two
/// messages that surface from one channel are the same, in one cycle or in
/// different ones, while at most as many different messages of that channel
/// share a time as ids are kept.
pub proof fn law_nothing_surfaces_twice(
    cycles: Seq<PastCycle>,
    key: Seq<char>,
    c: int,
    k: int,
    j: int,
    c2: int,
    k2: int,
    j2: int,
)
    requires
        few_at_once(fetched_for(cycles, key, cycles.len() as int)),
        surfaces(cycles, c, k, j),
        surfaces(cycles, c2, k2, j2),
        cycles[c].key_at(k) == key,
        cycles[c2].key_at(k2) == key,
        (c, k, j) != (c2, k2, j2),
    ensures
        !same_message(surfaced_at(cycles, c, k)[j], surfaced_at(cycles, c2, k2)[j2]),
{
    if comes_before(c, k, j, c2, k2, j2) {
        lemma_not_surfaced_again(cycles, key, c, k, j, c2, k2, j2);
    } else {
        lemma_not_surfaced_again(cycles, key, c2, k2, j2, c, k, j);
    }
}

/// After a cycle, and after every later one, no message that the cycle fetched
/// is new to its channel, whoever sent it and whether or not it surfaced, while
/// at most as many different messages of that channel share a time as ids are
/// kept.
pub proof fn law_fetched_message_is_not_new(
    cycles: Seq<PastCycle>,
    c: int,
    k: int,
    page: Vec<GraphChatMessage>,
    i: int,
    later: int,
)
    requires
        0 <= c < later <= cycles.len(),
        0 <= k < cycles[c].steps(),
        cycles[c].fetched[k] == Some(page),
        0 <= i < page@.len(),
        few_at_once(fetched_for(cycles, cycles[c].key_at(k), later)),
    ensures
        !new_to(held(states_after(cycles, later), cycles[c].key_at(k)), page@[i]),
{
    let key = cycles[c].key_at(k);
    let sorted = chronological(page@);
    let all = fetched_for(cycles, key, later);
    law_chronological(page@);
    assert(sorted.contains(page@[i])) by {
        broadcast use vstd::seq_lib::group_to_multiset_ensures;

        assert(page@.contains(page@[i]));
        assert(page@.to_multiset().count(page@[i]) > 0);
        assert(sorted.to_multiset().count(page@[i]) > 0);
    }
    let p = choose|p: int| 0 <= p < sorted.len() && sorted[p] == page@[i];
    let before = fetched_before(cycles, key, c, k);
    assert(fetched_before(cycles, key, c, k + 1) =~= before + sorted);
    lemma_history_grows(cycles, key, c, k + 1, later, 0);
    assert(fetched_before(cycles, key, later, 0) =~= all);
    assert((before + sorted)[before.len() + p] == page@[i]);
    assert(all[before.len() + p] == page@[i]);
    law_read_once_from_nothing_seen(all, before.len() + p);
    lemma_state_is_history(cycles, key, later, 0);
}

} // verus!
