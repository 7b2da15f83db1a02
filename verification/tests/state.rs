use std::collections::VecDeque;

use teams_channel::state::{is_new, record_seen, ChannelState, State, SEEN_IDS_RING_SIZE};

#[test]
fn first_message_ever_is_new() {
    let state = ChannelState::default();
    assert!(is_new(&state, "2024-01-01T00:00:00Z", "m1"));
}

#[test]
fn message_strictly_newer_than_watermark_is_new() {
    let state = ChannelState {
        last_seen: Some("2024-01-01T00:00:00Z".to_string()),
        ..Default::default()
    };
    assert!(is_new(&state, "2024-01-01T00:00:01Z", "m2"));
}

#[test]
fn message_older_than_watermark_is_not_new() {
    let state = ChannelState {
        last_seen: Some("2024-01-01T00:00:01Z".to_string()),
        ..Default::default()
    };
    assert!(!is_new(&state, "2024-01-01T00:00:00Z", "m1"));
}

#[test]
fn tie_at_watermark_dedups_by_seen_ids() {
    let mut seen_ids = VecDeque::new();
    seen_ids.push_back("m1".to_string());
    let state = ChannelState {
        last_seen: Some("2024-01-01T00:00:00Z".to_string()),
        seen_ids,
        delta_link: None,
    };
    assert!(!is_new(&state, "2024-01-01T00:00:00Z", "m1"));
    assert!(is_new(&state, "2024-01-01T00:00:00Z", "m2"));
}

#[test]
fn record_seen_advances_watermark_and_resets_ring() {
    let mut state = ChannelState {
        last_seen: Some("2024-01-01T00:00:00Z".to_string()),
        seen_ids: VecDeque::from(vec!["m1".to_string()]),
        delta_link: None,
    };
    record_seen(&mut state, "2024-01-01T00:00:05Z", "m2");
    assert_eq!(state.last_seen.as_deref(), Some("2024-01-01T00:00:05Z"));
    assert_eq!(state.seen_ids.len(), 1);
    assert_eq!(state.seen_ids[0], "m2");
}

#[test]
fn record_seen_at_same_timestamp_appends_to_ring() {
    let mut state = ChannelState {
        last_seen: Some("2024-01-01T00:00:00Z".to_string()),
        seen_ids: VecDeque::from(vec!["m1".to_string()]),
        delta_link: None,
    };
    record_seen(&mut state, "2024-01-01T00:00:00Z", "m2");
    assert_eq!(state.seen_ids.len(), 2);
}

#[test]
fn record_seen_bounds_ring_size() {
    let mut state = ChannelState::default();
    for i in 0..(SEEN_IDS_RING_SIZE + 10) {
        record_seen(&mut state, "2024-01-01T00:00:00Z", &format!("m{i}"));
    }
    assert_eq!(state.seen_ids.len(), SEEN_IDS_RING_SIZE);
}

#[test]
fn the_oldest_ids_are_pushed_out_first() {
    let mut state = ChannelState::default();
    for i in 0..(SEEN_IDS_RING_SIZE + 10) {
        record_seen(&mut state, "2024-01-01T00:00:00Z", &format!("m{i}"));
    }
    assert_eq!(state.seen_ids[0], "m10");
    assert_eq!(state.seen_ids[SEEN_IDS_RING_SIZE - 1], "m209");
    assert!(is_new(&state, "2024-01-01T00:00:00Z", "m9"));
    assert!(!is_new(&state, "2024-01-01T00:00:00Z", "m10"));
}

#[test]
fn an_older_message_leaves_the_watermark() {
    let mut state = ChannelState {
        last_seen: Some("2024-01-01T00:00:05Z".to_string()),
        seen_ids: VecDeque::from(vec!["m1".to_string()]),
        delta_link: Some("link".to_string()),
    };
    record_seen(&mut state, "2024-01-01T00:00:00Z", "m0");
    assert_eq!(state.last_seen.as_deref(), Some("2024-01-01T00:00:05Z"));
    assert_eq!(state.seen_ids, VecDeque::from(vec!["m1".to_string(), "m0".to_string()]));
    assert_eq!(state.delta_link.as_deref(), Some("link"));
}

#[test]
fn a_recorded_message_is_not_new_any_more() {
    let mut state = ChannelState::default();
    for (time, id) in [
        ("2024-01-01T00:00:00Z", "a"),
        ("2024-01-01T00:00:00Z", "b"),
        ("2024-01-01T00:00:01Z", "a"),
        ("2024-01-01T00:00:02Z", "c"),
    ] {
        assert!(is_new(&state, time, id));
        record_seen(&mut state, time, id);
        assert!(!is_new(&state, time, id));
    }
    assert!(!is_new(&state, "2024-01-01T00:00:00Z", "z"));
}

#[test]
fn states_are_held_by_channel() {
    let mut state = State::new();
    assert!(state.channel("t/c").is_none());
    let mut cs = state.take_channel("t/c");
    assert_eq!(cs.last_seen, None);
    record_seen(&mut cs, "2024-01-01T00:00:00Z", "m1");
    state.put_channel("t/c".to_string(), cs);
    state.put_channel("t/d".to_string(), ChannelState::default());
    assert_eq!(state.channels.len(), 2);
    assert_eq!(
        state.channel("t/c").unwrap().last_seen.as_deref(),
        Some("2024-01-01T00:00:00Z")
    );
    assert_eq!(state.channel("t/d").unwrap().last_seen, None);
    let taken = state.take_channel("t/c");
    assert_eq!(taken.seen_ids.len(), 1);
    assert!(state.channel("t/c").is_none());
    assert!(State::default().channels.is_empty());
}
