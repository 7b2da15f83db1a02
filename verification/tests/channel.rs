use teams_channel::channel::TeamsChannel;
use teams_channel::credentials::{Credentials, TeamChannelConfig};
use teams_channel::graph::Method;
use teams_channel::protocol::{ChannelCapability, InboundMessage, SendMessage};

fn creds(bot_app_id: &str, teams: Vec<TeamChannelConfig>) -> Credentials {
    Credentials {
        tenant_id: "t".to_string(),
        client_id: "c".to_string(),
        client_secret: "s".to_string(),
        bot_app_id: bot_app_id.to_string(),
        bot_display_name: "Claw".to_string(),
        teams,
    }
}

fn from(sender: &str) -> InboundMessage {
    InboundMessage {
        id: "m".to_string(),
        sender: sender.to_string(),
        reply_target: "t/c".to_string(),
        content: "hi".to_string(),
        channel: "microsoft-teams".to_string(),
        channel_alias: None,
        timestamp: 0,
        thread_ts: None,
        interruption_scope_id: None,
        attachments: vec![],
        subject: None,
    }
}

#[test]
fn the_channel_says_what_it_is() {
    assert_eq!(TeamsChannel::plugin_info(), ("microsoft-teams-channel", "0.1.0"));
    assert_eq!(TeamsChannel::name(), "microsoft-teams");
    assert_eq!(
        TeamsChannel::get_channel_capabilities(),
        vec![
            ChannelCapability::HealthCheck,
            ChannelCapability::SelfHandle,
            ChannelCapability::SelfAddressedMention,
            ChannelCapability::DropSelfMessage,
            ChannelCapability::RequestApproval,
            ChannelCapability::RequestChoice,
        ]
    );
}

#[test]
fn without_credentials_the_bot_has_no_handle() {
    assert_eq!(TeamsChannel::self_handle(None), None);
    assert_eq!(TeamsChannel::self_addressed_mention(None), None);
    assert!(!TeamsChannel::drop_self_message(None, &from("bot")));
}

#[test]
fn with_credentials_the_bot_knows_itself() {
    let c = creds("Bot-1", vec![]);
    assert_eq!(TeamsChannel::self_handle(Some(&c)).as_deref(), Some("Bot-1"));
    assert_eq!(TeamsChannel::self_addressed_mention(Some(&c)).as_deref(), Some("@Claw"));
}

#[test]
fn own_messages_are_dropped() {
    let c = creds("@Bot-1", vec![]);
    assert!(TeamsChannel::drop_self_message(Some(&c), &from("bot-1")));
    assert!(TeamsChannel::drop_self_message(Some(&c), &from("@@BOT-1")));
    assert!(!TeamsChannel::drop_self_message(Some(&c), &from("bot-2")));
    assert!(!TeamsChannel::drop_self_message(Some(&c), &from("")));
    // Without a handle nothing is the bot's own.
    let nameless = creds("@", vec![]);
    assert!(!TeamsChannel::drop_self_message(Some(&nameless), &from("")));
    assert!(!TeamsChannel::drop_self_message(Some(&nameless), &from("@")));
}

#[test]
fn messages_are_sent_to_their_recipient() {
    let mut message = SendMessage {
        recipient: "t1/c1".to_string(),
        content: "hello".to_string(),
        thread_ts: None,
    };
    let request = TeamsChannel::send(&message).unwrap().request("tok");
    assert_eq!(request.method, Method::Post);
    assert_eq!(
        request.url,
        "https://graph.microsoft.com/v1.0/teams/t1/channels/c1/messages"
    );
    assert_eq!(request.authorization, "Bearer tok");
    assert_eq!(request.content.as_deref(), Some("hello"));

    message.thread_ts = Some("root".to_string());
    let request = TeamsChannel::send(&message).unwrap().request("tok");
    assert_eq!(
        request.url,
        "https://graph.microsoft.com/v1.0/teams/t1/channels/c1/messages/root/replies"
    );

    message.recipient = "nowhere".to_string();
    assert_eq!(
        TeamsChannel::send(&message).unwrap_err(),
        "invalid recipient (expected \"team_id/channel_id\"): nowhere"
    );
}

#[test]
fn questions_go_to_the_first_channel() {
    let team = |t: &str, c: &str| TeamChannelConfig {
        team_id: t.to_string(),
        channel_id: c.to_string(),
        alias: None,
    };
    let c = creds("bot", vec![team("t1", "c1"), team("t2", "c2")]);
    assert_eq!(TeamsChannel::choice_recipient(&c), Ok("t1/c1".to_string()));
    assert_eq!(
        TeamsChannel::choice_recipient(&creds("bot", vec![])),
        Err("no teams configured in credentials.toml".to_string())
    );
}
