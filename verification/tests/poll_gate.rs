use teams_channel::credentials::{Credentials, TeamChannelConfig};
use teams_channel::graph::{
    split_recipient, GraphBody, GraphChatMessage, GraphFrom, GraphIdentity,
};
use teams_channel::poll_gate::{
    begin_cycle, channel_at, deliver, key_of, next_poll_time, poll, read_channel, rotate_index,
    run_poll_cycle, should_poll, to_inbound_message, PollGate, PollStep, GRAPH_POLL_INTERVAL_MS,
};
use teams_channel::protocol::InboundMessage;
use teams_channel::state::{is_new, ChannelState, State};

fn team(team_id: &str, channel_id: &str, alias: Option<&str>) -> TeamChannelConfig {
    TeamChannelConfig {
        team_id: team_id.to_string(),
        channel_id: channel_id.to_string(),
        alias: alias.map(|a| a.to_string()),
    }
}

fn creds(teams: Vec<TeamChannelConfig>) -> Credentials {
    Credentials {
        tenant_id: "t".to_string(),
        client_id: "c".to_string(),
        client_secret: "s".to_string(),
        bot_app_id: "bot".to_string(),
        bot_display_name: "Claw".to_string(),
        teams,
    }
}

fn message(time: &str, id: &str, user: &str, content: &str) -> GraphChatMessage {
    GraphChatMessage {
        id: id.to_string(),
        created_date_time: time.to_string(),
        from: GraphFrom {
            user: Some(GraphIdentity { id: user.to_string(), display_name: None }),
            application: None,
        },
        body: GraphBody { content_type: None, content: content.to_string() },
        mentions: vec![],
        reply_to_id: None,
    }
}

fn inbound(id: &str) -> InboundMessage {
    to_inbound_message(
        &message("1970-01-01T00:00:01Z", id, "u", "hi"),
        &team("t", "c", None),
    )
}

fn ids(messages: &[InboundMessage]) -> Vec<&str> {
    messages.iter().map(|m| m.id.as_str()).collect()
}

#[test]
fn gate_closed_before_interval_elapses() {
    assert!(!should_poll(5_000, 4_999));
}

#[test]
fn gate_open_once_interval_elapses() {
    assert!(should_poll(5_000, 5_000));
    assert!(should_poll(5_000, 5_001));
}

#[test]
fn next_poll_time_advances_by_interval() {
    assert_eq!(next_poll_time(1_000, 5_000), 6_000);
}

#[test]
fn next_poll_time_saturates() {
    assert_eq!(next_poll_time(u64::MAX - 1, 5_000), u64::MAX);
}

#[test]
fn rotate_index_wraps_around() {
    assert_eq!(rotate_index(0, 3), 1);
    assert_eq!(rotate_index(2, 3), 0);
}

#[test]
fn rotate_index_with_zero_channels_stays_zero() {
    assert_eq!(rotate_index(0, 0), 0);
    assert_eq!(rotate_index(usize::MAX, 0), 0);
    assert_eq!(rotate_index(7, 3), 2);
}

#[test]
fn a_cycle_closes_the_gate_for_one_interval() {
    let mut gate = PollGate::new();
    assert!(matches!(poll(&mut gate, 100), PollStep::RunCycle));
    assert_eq!(gate.next_allowed_poll_ms, 100 + GRAPH_POLL_INTERVAL_MS);
    assert!(matches!(poll(&mut gate, 101), PollStep::Wait));
    assert!(matches!(poll(&mut gate, 5_099), PollStep::Wait));
    assert!(matches!(poll(&mut gate, 5_100), PollStep::RunCycle));
}

#[test]
fn buffered_messages_are_handed_out_one_by_one() {
    let mut gate = PollGate::new();
    let first = deliver(&mut gate, vec![inbound("a"), inbound("b"), inbound("c")]);
    assert_eq!(first.unwrap().id, "a");
    for id in ["b", "c"] {
        match poll(&mut gate, 0) {
            PollStep::Deliver(msg) => assert_eq!(msg.id, id),
            _ => panic!("a message is buffered"),
        }
    }
    assert!(matches!(poll(&mut gate, 0), PollStep::RunCycle));
    assert!(deliver(&mut gate, vec![]).is_none());
}

#[test]
fn nothing_is_handed_out_after_an_empty_cycle() {
    let mut gate = PollGate::new();
    let _ = deliver(&mut gate, vec![inbound("a"), inbound("b")]);
    assert!(deliver(&mut gate, vec![]).is_none());
    assert_eq!(gate.buffer.len(), 1);
    // What was buffered before comes first.
    let next = deliver(&mut gate, vec![inbound("c")]);
    assert_eq!(next.unwrap().id, "b");
}

#[test]
fn cycles_start_with_each_channel_in_turn() {
    let mut gate = PollGate::new();
    let starts: Vec<usize> = (0..5).map(|_| begin_cycle(&mut gate, 3)).collect();
    assert_eq!(starts, vec![0, 1, 2, 0, 1]);
    // After the number of channels has changed.
    assert_eq!(begin_cycle(&mut gate, 2), 0);
    gate.round_robin_index = usize::MAX;
    assert_eq!(begin_cycle(&mut gate, 4), 3);
    assert_eq!(gate.round_robin_index, 0);
}

#[test]
fn a_cycle_goes_round_once() {
    let visited: Vec<usize> = (0..4).map(|k| channel_at(2, k, 4)).collect();
    assert_eq!(visited, vec![2, 3, 0, 1]);
    assert_eq!(channel_at(usize::MAX - 1, usize::MAX - 1, usize::MAX), usize::MAX - 2);
}

#[test]
fn a_message_for_the_agent_holds_all_it_needs() {
    let mut msg = message("2024-01-01T00:00:00.250Z", "m1", "user-1", "<p>hi &amp; bye</p>");
    let cfg = team("t1", "19:c1", Some("engineering"));
    let got = to_inbound_message(&msg, &cfg);
    assert_eq!(got.id, "m1");
    assert_eq!(got.sender, "user-1");
    assert_eq!(got.reply_target, "t1/19:c1");
    assert_eq!(got.content, "hi & bye");
    assert_eq!(got.channel, "microsoft-teams");
    assert_eq!(got.channel_alias.as_deref(), Some("engineering"));
    assert_eq!(got.timestamp, 1_704_067_200_250);
    assert_eq!(got.thread_ts.as_deref(), Some("m1"));
    assert_eq!(got.interruption_scope_id, None);
    assert!(got.attachments.is_empty());
    assert_eq!(got.subject, None);

    msg.reply_to_id = Some("root".to_string());
    msg.from = GraphFrom::default();
    msg.created_date_time = "yesterday".to_string();
    let got = to_inbound_message(&msg, &team("t1", "c1", None));
    assert_eq!(got.sender, "");
    assert_eq!(got.channel_alias, None);
    assert_eq!(got.timestamp, 0);
    assert_eq!(got.thread_ts.as_deref(), Some("root"));
    assert_eq!(got.interruption_scope_id.as_deref(), Some("root"));
}

#[test]
fn a_reply_goes_back_to_its_channel() {
    let cfg = team("t1", "19:c/1", None);
    let got = to_inbound_message(&message("x", "m1", "u", "hi"), &cfg);
    assert_eq!(key_of(&cfg), got.reply_target);
    assert_eq!(split_recipient(&got.reply_target), Ok(("t1", "19:c/1")));
}

#[test]
fn a_page_is_read_oldest_first() {
    let creds = creds(vec![team("t", "c", None)]);
    let mut state = ChannelState::default();
    let mut out: Vec<InboundMessage> = Vec::new();
    let page = vec![
        message("2024-01-01T00:00:03Z", "m3", "u", "@claw three"),
        message("2024-01-01T00:00:02Z", "m2", "u", "nobody asked"),
        message("2024-01-01T00:00:02Z", "m2b", "bot", "@claw me"),
        message("2024-01-01T00:00:01Z", "m1", "u", "claw, one"),
    ];
    read_channel(&mut state, page.clone(), &creds, &creds.teams[0], &mut out);
    assert_eq!(ids(&out), vec!["m1", "m3"]);
    assert_eq!(state.last_seen.as_deref(), Some("2024-01-01T00:00:03Z"));
    assert_eq!(state.seen_ids.len(), 1);
    // The same page again brings nothing.
    read_channel(&mut state, page, &creds, &creds.teams[0], &mut out);
    assert_eq!(out.len(), 2);
    // A late message at the watermark's time is new, an earlier one is lost.
    let late = vec![
        message("2024-01-01T00:00:03Z", "m3b", "u", "@claw tie"),
        message("2024-01-01T00:00:02Z", "m2c", "u", "@claw late"),
    ];
    read_channel(&mut state, late, &creds, &creds.teams[0], &mut out);
    assert_eq!(ids(&out), vec!["m1", "m3", "m3b"]);
    assert_eq!(state.seen_ids.len(), 2);
}

#[test]
fn a_bad_timestamp_costs_no_message() {
    let creds = creds(vec![team("t", "c", None)]);
    let mut state = ChannelState::default();
    let mut out: Vec<InboundMessage> = Vec::new();
    let broken = "9223372036854775807-01-01T00:00:00Z";
    let page = vec![
        message(broken, "m2", "u", "@claw"),
        message("2024-01-01T00:00:01.\u{e9}\u{e9}Z", "m1", "u", "@claw"),
        message("2024-01-01T00:00:00Z", "m0", "u", "@claw"),
    ];
    read_channel(&mut state, page, &creds, &creds.teams[0], &mut out);
    assert_eq!(ids(&out), vec!["m0", "m1", "m2"]);
    assert_eq!(out[0].timestamp, 1_704_067_200_000);
    assert_eq!(out[1].timestamp, 0);
    assert_eq!(out[2].timestamp, 0);
    assert_eq!(state.last_seen.as_deref(), Some(broken));
}

#[test]
fn a_cycle_reads_all_channels() {
    let creds = creds(vec![
        team("t", "a", None),
        team("t", "b", Some("bee")),
        team("t", "c", None),
    ]);
    let mut state = State::new();
    let page = |id: &str| {
        Some(vec![message("2024-01-01T00:00:01Z", id, "u", "@claw hello")])
    };
    // Starting with the second channel; the third could not be fetched.
    let fetched = vec![page("b1"), None, page("a1")];
    let out = run_poll_cycle(&mut state, &creds, 1, fetched);
    assert_eq!(ids(&out), vec!["b1", "a1"]);
    assert_eq!(out[0].reply_target, "t/b");
    assert_eq!(out[0].channel_alias.as_deref(), Some("bee"));
    assert_eq!(out[1].reply_target, "t/a");
    assert_eq!(state.channels.len(), 3);
    assert_eq!(state.channel("t/c").unwrap().last_seen, None);
    assert_eq!(
        state.channel("t/a").unwrap().last_seen.as_deref(),
        Some("2024-01-01T00:00:01Z")
    );
    // The next cycle brings what was missed, once.
    let fetched = vec![page("c1"), page("a1"), page("b1")];
    let out = run_poll_cycle(&mut state, &creds, 2, fetched);
    assert_eq!(ids(&out), vec!["c1"]);
}

#[test]
fn a_cycle_keeps_channels_that_are_not_configured() {
    let creds = creds(vec![team("t", "a", None)]);
    let mut state = State::new();
    let mut old = ChannelState::default();
    old.last_seen = Some("2023-01-01T00:00:00Z".to_string());
    state.put_channel("t/old".to_string(), old);
    let out = run_poll_cycle(&mut state, &creds, 0, vec![None]);
    assert!(out.is_empty());
    assert_eq!(
        state.channel("t/old").unwrap().last_seen.as_deref(),
        Some("2023-01-01T00:00:00Z")
    );
    assert!(state.channel("t/a").is_some());
}

#[test]
fn nothing_surfaces_twice_over_many_cycles() {
    let creds = creds(vec![team("t", "a", None), team("t", "b", None)]);
    let mut state = State::new();
    let mut seen: Vec<(String, String)> = Vec::new();
    // Every cycle fetches the last five messages of each channel; two share
    // each time.
    for cycle in 0..20usize {
        let newest = 3 * cycle + 5;
        let page: Vec<GraphChatMessage> = (newest - 5..newest)
            .rev()
            .map(|i| {
                message(
                    &format!("2024-01-01T00:{:02}:00Z", i / 2),
                    &format!("m{i}"),
                    "u",
                    "@claw",
                )
            })
            .collect();
        let fetched = vec![Some(page.clone()), Some(page.clone())];
        for msg in run_poll_cycle(&mut state, &creds, cycle % 2, fetched) {
            let delivery = (msg.reply_target, msg.id);
            assert!(!seen.contains(&delivery));
            seen.push(delivery);
        }
        for key in ["t/a", "t/b"] {
            for m in &page {
                assert!(!is_new(state.channel(key).unwrap(), &m.created_date_time, &m.id));
            }
        }
    }
    assert_eq!(seen.len(), 2 * 62);
}

#[test]
fn a_channel_that_is_configured_twice_is_read_twice() {
    let creds = creds(vec![team("t", "a", Some("one")), team("t", "a", Some("two"))]);
    let mut state = State::new();
    let page = || Some(vec![message("2024-01-01T00:00:01Z", "m", "u", "@claw hello")]);
    let out = run_poll_cycle(&mut state, &creds, 0, vec![page(), page()]);
    assert_eq!(ids(&out), vec!["m"]);
    assert_eq!(out[0].channel_alias.as_deref(), Some("one"));
    assert_eq!(state.channels.len(), 1);
}
