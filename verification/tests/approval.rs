use teams_channel::approval::{
    approval_at, approval_prompt, approval_question, choice_at, choice_prompt, choice_question,
    encode_token, generate_token, look_for_choice, look_for_reply, parse_token_choice,
    parse_token_reply, request_approval, request_choice, token_at, Awaited, ReplyWait,
    POLL_INTERVAL_MS, TOKEN_LEN,
};
use teams_channel::graph::{
    split_recipient, GraphBody, GraphChatMessage, GraphFrom, GraphIdentity,
};
use teams_channel::protocol::{ApprovalRequest, ApprovalResponse};

fn message(time: &str, user: &str, content: &str) -> GraphChatMessage {
    GraphChatMessage {
        id: format!("{time}-{user}"),
        created_date_time: time.to_string(),
        from: GraphFrom {
            user: Some(GraphIdentity { id: user.to_string(), display_name: None }),
            application: None,
        },
        body: GraphBody { content_type: None, content: content.to_string() },
        mentions: vec![],
        reply_to_id: None,
    }
}

fn wait(since: &str) -> ReplyWait {
    ReplyWait::for_approval("ABC123".to_string(), since.to_string(), 1_000)
}

fn yes_no() -> Vec<String> {
    vec!["Yes".to_string(), "No".to_string()]
}

#[test]
fn split_recipient_parses_team_and_channel() {
    let (team, channel) = split_recipient("team-1/channel-1").unwrap();
    assert_eq!(team, "team-1");
    assert_eq!(channel, "channel-1");
}

#[test]
fn split_recipient_rejects_missing_separator() {
    assert!(split_recipient("just-a-team").is_err());
}

#[test]
fn parse_token_reply_matches_case_insensitively() {
    assert!(matches!(
        parse_token_reply("abc123 Approve", "ABC123"),
        Some(ApprovalResponse::Approve)
    ));
    assert!(matches!(
        parse_token_reply("ABC123 deny", "abc123"),
        Some(ApprovalResponse::Deny)
    ));
    assert!(matches!(
        parse_token_reply("abc123 ALWAYS", "abc123"),
        Some(ApprovalResponse::AlwaysApprove)
    ));
}

#[test]
fn parse_token_reply_rejects_wrong_token() {
    assert!(parse_token_reply("xyz999 approve", "abc123").is_none());
}

#[test]
fn parse_token_reply_rejects_unknown_verb() {
    assert!(parse_token_reply("abc123 maybe", "abc123").is_none());
}

#[test]
fn parse_token_reply_strips_html() {
    assert!(matches!(
        parse_token_reply("<p>abc123 approve</p>", "abc123"),
        Some(ApprovalResponse::Approve)
    ));
}

#[test]
fn parse_token_choice_matches_by_index() {
    let choices = vec!["Yes".to_string(), "No".to_string()];
    assert_eq!(
        parse_token_choice("abc123 2", "abc123", &choices),
        Some("No".to_string())
    );
}

#[test]
fn parse_token_choice_matches_by_text_case_insensitively() {
    let choices = vec!["Yes".to_string(), "No".to_string()];
    assert_eq!(
        parse_token_choice("abc123 yes", "abc123", &choices),
        Some("Yes".to_string())
    );
}

#[test]
fn parse_token_choice_rejects_out_of_range_index() {
    let choices = vec!["Yes".to_string(), "No".to_string()];
    assert_eq!(parse_token_choice("abc123 5", "abc123", &choices), None);
}

#[test]
fn generated_tokens_have_expected_length_and_alphabet() {
    let mut counter: u64 = 0;
    let token = generate_token(&mut counter);
    assert_eq!(token.len(), TOKEN_LEN);
    assert!(token.chars().all(|c| c.is_ascii_alphanumeric()));
}

#[test]
fn consecutive_tokens_differ() {
    let mut counter: u64 = 0;
    let a = generate_token(&mut counter);
    let b = generate_token(&mut counter);
    assert_ne!(a, b);
    assert_eq!(counter, 2);
}

#[test]
fn tokens_for_known_seeds() {
    assert_eq!(encode_token(0), "AB89AF");
    assert_eq!(encode_token(25), "ZOHIRW");
    assert_eq!(encode_token(26), "0LIJWL");
    assert_eq!(encode_token(35), "92ZC52");
    assert_eq!(encode_token(u64::MAX), "PUN85Q");
}

#[test]
fn token_counter_wraps() {
    let mut counter: u64 = u64::MAX;
    let a = token_at(&mut counter, 0);
    assert_eq!(counter, 0);
    assert_eq!(a, encode_token(0));
    let b = token_at(&mut counter, 0);
    assert_eq!(b, encode_token(1));
    let c = token_at(&mut counter, 1);
    assert_eq!(c, encode_token(2_654_435_763));
}

#[test]
fn reply_reads_the_first_two_words_only() {
    assert_eq!(
        parse_token_reply("\u{a0}abc123\n\tdeny, please", "ABC123"),
        None
    );
    assert_eq!(
        parse_token_reply("  abc123\u{2003}deny please", "ABC123"),
        Some(ApprovalResponse::Deny)
    );
    assert_eq!(
        parse_token_reply("abc123&nbsp;always", "ABC123"),
        Some(ApprovalResponse::AlwaysApprove)
    );
    assert_eq!(parse_token_reply("abc123", "ABC123"), None);
    assert_eq!(parse_token_reply("", "ABC123"), None);
    assert_eq!(parse_token_reply("please abc123 approve", "ABC123"), None);
    assert_eq!(parse_token_reply("abc123approve", "ABC123"), None);
}

#[test]
fn choice_text_may_have_several_words() {
    let choices = vec![
        "Ship it".to_string(),
        "Hold  off".to_string(),
        "ship IT".to_string(),
        "2".to_string(),
        "9".to_string(),
    ];
    // The first of several that are alike.
    assert_eq!(
        parse_token_choice("ABC123   SHIP    it ", "ABC123", &choices),
        Some("Ship it".to_string())
    );
    // Words are joined by single spaces, so a double space is never matched.
    assert_eq!(parse_token_choice("ABC123 Hold  off", "ABC123", &choices), None);
    // A number in range is an index, whatever the texts are.
    assert_eq!(
        parse_token_choice("ABC123 2", "ABC123", &choices),
        Some("Hold  off".to_string())
    );
    // A number out of range can still be a text.
    assert_eq!(
        parse_token_choice("ABC123 9", "ABC123", &choices),
        Some("9".to_string())
    );
    assert_eq!(
        parse_token_choice("ABC123 +1", "ABC123", &choices),
        Some("Ship it".to_string())
    );
    assert_eq!(parse_token_choice("ABC123 0", "ABC123", &choices), None);
    assert_eq!(parse_token_choice("XYZ123 1", "ABC123", &choices), None);
    assert_eq!(parse_token_choice("", "ABC123", &choices), None);
    assert_eq!(
        parse_token_choice("ABC123", "ABC123", &["".to_string()]),
        Some("".to_string())
    );
}

#[test]
fn words_after_a_choice_do_not_matter() {
    let pick = |body: &str| parse_token_choice(body, "abc123", &yes_no());
    assert_eq!(pick("abc123 yes please"), Some("Yes".to_string()));
    assert_eq!(pick("abc123 2 , thanks"), Some("No".to_string()));
    assert_eq!(pick("abc123 yes no"), Some("Yes".to_string()));
    assert_eq!(pick("abc123 well yes"), None);
    assert_eq!(pick("abc123 5 yes"), None);
    assert_eq!(pick("abc123"), None);
    // All words together come first.
    let choices = vec!["Yes".to_string(), "Yes please".to_string()];
    assert_eq!(
        parse_token_choice("abc123 YES  please", "abc123", &choices),
        Some("Yes please".to_string())
    );
    assert_eq!(
        parse_token_choice("abc123 yes please now", "abc123", &choices),
        Some("Yes".to_string())
    );
}

#[test]
fn prompts_say_how_to_answer() {
    let request = ApprovalRequest {
        tool_name: "shell".to_string(),
        arguments_summary: "ls -l".to_string(),
    };
    assert_eq!(
        approval_prompt("ABC123", &request),
        "APPROVAL REQUIRED [ABC123]\nTool: shell\nArgs: ls -l\n\nReply `ABC123 approve`, `ABC123 deny`, or `ABC123 always`."
    );
    assert_eq!(
        choice_prompt("ABC123", "Ready?", &yes_no()),
        "QUESTION [ABC123]\nReady?\n1. Yes\n2. No\n\nReply `ABC123 <number or choice text>`."
    );
    assert_eq!(
        choice_prompt("ABC123", "Ready?", &[]),
        "QUESTION [ABC123]\nReady?\n\n\nReply `ABC123 <number or choice text>`."
    );
}

#[test]
fn every_listed_choice_can_be_picked_by_its_number() {
    let choices: Vec<String> = (1..=12).map(|i| format!("choice {i}")).collect();
    let prompt = choice_prompt("ABC123", "Which?", &choices);
    for (i, choice) in choices.iter().enumerate() {
        assert!(prompt.contains(&format!("\n{}. {choice}\n", i + 1)));
        let answer = format!("abc123 {}", i + 1);
        assert_eq!(parse_token_choice(&answer, "ABC123", &choices), Some(choice.clone()));
    }
}

#[test]
fn questions_go_to_the_recipient() {
    let request = ApprovalRequest {
        tool_name: "shell".to_string(),
        arguments_summary: "ls".to_string(),
    };
    let asked = approval_question("team-1/chan/1", &request, "ABC123".to_string()).unwrap();
    assert_eq!(asked.team_id, "team-1");
    assert_eq!(asked.channel_id, "chan/1");
    assert_eq!(asked.token, "ABC123");
    assert_eq!(asked.prompt, approval_prompt("ABC123", &request));

    let asked = choice_question("t/c", "Ready?", &yes_no(), "ABC123".to_string()).unwrap();
    assert_eq!(asked.team_id, "t");
    assert_eq!(asked.channel_id, "c");
    assert_eq!(asked.prompt, choice_prompt("ABC123", "Ready?", &yes_no()));

    let error = "invalid recipient (expected \"team_id/channel_id\"): nowhere";
    assert_eq!(
        approval_question("nowhere", &request, "ABC123".to_string()).unwrap_err(),
        error
    );
    assert_eq!(
        choice_question("nowhere", "Ready?", &yes_no(), "ABC123".to_string()).unwrap_err(),
        error
    );
}

#[test]
fn requests_make_tokens_of_their_own() {
    let request = ApprovalRequest {
        tool_name: "shell".to_string(),
        arguments_summary: "ls".to_string(),
    };
    let mut counter: u64 = 7;
    let asked = request_approval("t/c", &request, &mut counter).unwrap();
    assert_eq!(counter, 8);
    assert_eq!(asked.token.len(), TOKEN_LEN);
    assert_eq!(asked.prompt, approval_prompt(&asked.token, &request));
    let again = request_choice("t/c", "Ready?", &yes_no(), &mut counter).unwrap();
    assert_eq!(counter, 9);
    assert_ne!(asked.token, again.token);
    assert_eq!(again.prompt, choice_prompt(&again.token, "Ready?", &yes_no()));
    // A recipient that names no channel uses up no token.
    assert!(request_approval("nowhere", &request, &mut counter).is_err());
    assert!(request_choice("nowhere", "Ready?", &yes_no(), &mut counter).is_err());
    assert_eq!(counter, 9);
}

#[test]
fn approvals_are_denied_at_the_deadline() {
    let wait = wait("2024-01-01T00:00:00Z");
    assert_eq!(wait.deadline_ms, 301_000);
    assert!(matches!(approval_at(&wait, 300_999), Awaited::Pending));
    assert!(matches!(
        approval_at(&wait, 301_000),
        Awaited::Settled(Some(ApprovalResponse::Deny))
    ));
}

#[test]
fn choices_are_given_up_at_the_deadline() {
    let make = |timeout: u64| {
        ReplyWait::for_choice("ABC123".to_string(), String::new(), 1_000, timeout)
    };
    assert_eq!(make(10).deadline_ms, 11_000);
    assert_eq!(make(1).deadline_ms, 2_000);
    assert_eq!(make(0).deadline_ms, 2_000);
    assert!(matches!(choice_at(&make(10), 10_999), Awaited::Pending));
    assert!(matches!(choice_at(&make(10), 11_000), Awaited::Settled(None)));
    assert_eq!(POLL_INTERVAL_MS, 1_500);
}

#[test]
fn the_earliest_answer_counts() {
    let mut w = wait("2024-01-01T00:00:00Z");
    let page = vec![
        message("2024-01-01T00:00:09Z", "u2", "abc123 always"),
        message("2024-01-01T00:00:05Z", "u1", "abc123 deny"),
        message("2024-01-01T00:00:03Z", "u1", "hm"),
    ];
    assert!(matches!(
        look_for_reply(&mut w, page, "bot"),
        Awaited::Settled(Some(ApprovalResponse::Deny))
    ));
    assert_eq!(w.since, "2024-01-01T00:00:00Z");
}

#[test]
fn old_messages_and_the_bots_own_do_not_answer() {
    let mut w = wait("2024-01-01T00:00:05Z");
    let page = vec![
        message("2024-01-01T00:00:05Z", "u1", "abc123 approve"),
        message("2024-01-01T00:00:04Z", "u1", "abc123 approve"),
        message("2024-01-01T00:00:06Z", "bot", "abc123 approve"),
    ];
    assert!(matches!(look_for_reply(&mut w, page, "bot"), Awaited::Pending));
    // The next look starts after the newest message.
    assert_eq!(w.since, "2024-01-01T00:00:06Z");
    assert!(matches!(look_for_reply(&mut w, vec![], "bot"), Awaited::Pending));
    assert_eq!(w.since, "2024-01-01T00:00:06Z");
    let page = vec![message("2024-01-01T00:00:07Z", "u1", "<div>ABC123 always</div>")];
    assert!(matches!(
        look_for_reply(&mut w, page, "bot"),
        Awaited::Settled(Some(ApprovalResponse::AlwaysApprove))
    ));
}

#[test]
fn a_page_of_old_messages_sets_the_look_back() {
    let mut w = wait("2024-01-01T00:00:05Z");
    let page = vec![message("2024-01-01T00:00:02Z", "u1", "abc123 approve")];
    assert!(matches!(look_for_reply(&mut w, page, "bot"), Awaited::Pending));
    assert_eq!(w.since, "2024-01-01T00:00:02Z");
}

#[test]
fn a_choice_is_looked_for_in_the_same_way() {
    let mut w = wait("2024-01-01T00:00:00Z");
    let page = vec![
        message("2024-01-01T00:00:03Z", "u1", "abc123 perhaps"),
        message("2024-01-01T00:00:02Z", "bot", "abc123 1"),
    ];
    assert!(matches!(
        look_for_choice(&mut w, page, "bot", &yes_no()),
        Awaited::Pending
    ));
    assert_eq!(w.since, "2024-01-01T00:00:03Z");
    let page = vec![
        message("2024-01-01T00:00:08Z", "u1", "abc123 no"),
        message("2024-01-01T00:00:07Z", "u2", "abc123 1"),
        message("2024-01-01T00:00:03Z", "u2", "abc123 2"),
    ];
    match look_for_choice(&mut w, page, "bot", &yes_no()) {
        Awaited::Settled(Some(picked)) => assert_eq!(picked, "Yes"),
        _ => panic!("a choice was made"),
    }
    assert_eq!(w.token, "ABC123");
    assert_eq!(w.deadline_ms, 301_000);
}
