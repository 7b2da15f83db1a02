use serde_json::Value;
use teams_channel::credentials::Credentials;
use teams_channel::graph::{
    fetch_token, get_token, granted_token, graph_error, keep_token, list_channel_messages,
    list_replies, now_ms, refused, send_message, send_reply, sort_by_created, split_recipient,
    time_of_reading, token_error, token_needs_refresh, CachedToken, GraphBody, GraphChatMessage,
    GraphFrom, GraphIdentity, GraphMention, GraphMentionedIdentitySet, Method,
    TOKEN_REFRESH_MARGIN_MS,
};

fn text(v: &Value) -> Option<String> {
    v.as_str().map(|s| s.to_string())
}

fn identity(v: &Value) -> Option<GraphIdentity> {
    text(&v["id"]).map(|id| GraphIdentity { id, display_name: text(&v["displayName"]) })
}

/// The message that Graph's JSON describes.
fn message_of(raw: &str) -> GraphChatMessage {
    let v: Value = serde_json::from_str(raw).expect("must parse");
    let mut mentions = Vec::new();
    if let Some(list) = v["mentions"].as_array() {
        for m in list {
            mentions.push(GraphMention {
                mention_text: text(&m["mentionText"]),
                mentioned: GraphMentionedIdentitySet {
                    user: identity(&m["mentioned"]["user"]),
                    application: identity(&m["mentioned"]["application"]),
                },
            });
        }
    }
    GraphChatMessage {
        id: text(&v["id"]).unwrap(),
        created_date_time: text(&v["createdDateTime"]).unwrap(),
        from: GraphFrom {
            user: identity(&v["from"]["user"]),
            application: identity(&v["from"]["application"]),
        },
        body: GraphBody {
            content_type: text(&v["body"]["contentType"]),
            content: text(&v["body"]["content"]).unwrap(),
        },
        mentions,
        reply_to_id: text(&v["replyToId"]),
    }
}

fn at(time: &str, id: &str) -> GraphChatMessage {
    GraphChatMessage {
        id: id.to_string(),
        created_date_time: time.to_string(),
        from: GraphFrom::default(),
        body: GraphBody { content_type: None, content: String::new() },
        mentions: vec![],
        reply_to_id: None,
    }
}

fn pair(a: &str, b: &str) -> (String, String) {
    (a.to_string(), b.to_string())
}

#[test]
fn fresh_token_does_not_need_refresh() {
    let tok = CachedToken {
        access_token: "abc".to_string(),
        expires_at_unix_ms: 1_000_000,
    };
    assert!(!token_needs_refresh(&tok, 0, TOKEN_REFRESH_MARGIN_MS));
}

#[test]
fn token_within_margin_of_expiry_needs_refresh() {
    let tok = CachedToken {
        access_token: "abc".to_string(),
        expires_at_unix_ms: 100_000,
    };
    // now + margin >= expiry
    assert!(token_needs_refresh(&tok, 100_000 - 60_000 + 1, 60_000));
}

#[test]
fn already_expired_token_needs_refresh() {
    let tok = CachedToken {
        access_token: "abc".to_string(),
        expires_at_unix_ms: 100,
    };
    assert!(token_needs_refresh(&tok, 200, 0));
}

#[test]
fn chat_message_deserializes_with_application_mention() {
    let raw = r#"{
        "id": "163...",
        "createdDateTime": "2024-01-01T00:00:00Z",
        "from": {
            "user": { "id": "user-1", "displayName": "Alice" }
        },
        "body": { "contentType": "html", "content": "<at id=\"0\">ZeroClaw</at> hello" },
        "mentions": [
            {
                "mentionText": "ZeroClaw",
                "mentioned": {
                    "application": { "id": "bot-app-id", "displayName": "ZeroClaw" }
                }
            }
        ],
        "replyToId": null
    }"#;
    let msg: GraphChatMessage = message_of(raw);
    assert_eq!(msg.sender_id(), Some("user-1"));
    assert_eq!(msg.mentions.len(), 1);
    assert_eq!(
        msg.mentions[0].mentioned.application.as_ref().unwrap().id,
        "bot-app-id"
    );
}

#[test]
fn chat_message_sender_id_prefers_application_over_user() {
    let raw = r#"{
        "id": "1",
        "createdDateTime": "2024-01-01T00:00:00Z",
        "from": {
            "user": { "id": "user-1" },
            "application": { "id": "bot-app-id" }
        },
        "body": { "content": "hi" }
    }"#;
    let msg: GraphChatMessage = message_of(raw);
    assert_eq!(msg.sender_id(), Some("bot-app-id"));
}

#[test]
fn a_message_may_have_no_sender() {
    assert_eq!(at("2024-01-01T00:00:00Z", "m").sender_id(), None);
}

#[test]
fn recipients_split_at_the_first_slash() {
    assert_eq!(split_recipient("a/b/c"), Ok(("a", "b/c")));
    assert_eq!(split_recipient("/"), Ok(("", "")));
    assert_eq!(split_recipient("tëam/19:x@thread"), Ok(("tëam", "19:x@thread")));
    assert_eq!(
        split_recipient("just-a-team"),
        Err("invalid recipient (expected \"team_id/channel_id\"): just-a-team".to_string())
    );
    assert_eq!(
        split_recipient(""),
        Err("invalid recipient (expected \"team_id/channel_id\"): ".to_string())
    );
}

#[test]
fn a_token_serves_until_the_margin_before_it_expires() {
    let mut cache: Option<CachedToken> = None;
    assert_eq!(get_token(&cache, 0), None);
    let fresh = granted_token("abc".to_string(), 3_600, 1_000);
    assert_eq!(fresh.expires_at_unix_ms, 3_601_000);
    assert_eq!(keep_token(&mut cache, fresh), "abc");
    assert_eq!(get_token(&cache, 1_000), Some("abc".to_string()));
    assert_eq!(get_token(&cache, 3_540_999), Some("abc".to_string()));
    assert_eq!(get_token(&cache, 3_541_000), None);
    assert_eq!(get_token(&cache, 9_000_000), None);
    let newer = granted_token("def".to_string(), 3_600, 3_541_000);
    assert_eq!(keep_token(&mut cache, newer), "def");
    assert_eq!(get_token(&cache, 3_541_000), Some("def".to_string()));
}

#[test]
fn a_very_long_life_saturates() {
    let fresh = granted_token("abc".to_string(), u64::MAX, 0);
    assert_eq!(fresh.expires_at_unix_ms, u64::MAX);
    assert_eq!(fresh.access_token, "abc");
}

#[test]
fn a_token_is_requested_with_client_credentials() {
    let creds = Credentials {
        tenant_id: "tenant".to_string(),
        client_id: "client".to_string(),
        client_secret: "s3cret".to_string(),
        bot_app_id: "bot".to_string(),
        bot_display_name: "Bot".to_string(),
        teams: vec![],
    };
    let request = fetch_token(&creds);
    assert_eq!(request.url, "https://login.microsoftonline.com/tenant/oauth2/v2.0/token");
    assert_eq!(
        request.form,
        vec![
            pair("client_id", "client"),
            pair("client_secret", "s3cret"),
            pair("scope", "https://graph.microsoft.com/.default"),
            pair("grant_type", "client_credentials"),
        ]
    );
}

#[test]
fn messages_are_listed_fifty_at_a_time() {
    let r = list_channel_messages("tok", "t1", "c1");
    assert_eq!(r.method, Method::Get);
    assert_eq!(r.url, "https://graph.microsoft.com/v1.0/teams/t1/channels/c1/messages");
    assert_eq!(r.authorization, "Bearer tok");
    assert_eq!(r.query, vec![pair("$top", "50")]);
    assert_eq!(r.content, None);
}

#[test]
fn replies_are_listed_under_their_message() {
    let r = list_replies("tok", "t1", "c1", "m1");
    assert_eq!(r.method, Method::Get);
    assert_eq!(
        r.url,
        "https://graph.microsoft.com/v1.0/teams/t1/channels/c1/messages/m1/replies"
    );
    assert_eq!(r.authorization, "Bearer tok");
    assert!(r.query.is_empty());
    assert_eq!(r.content, None);
}

#[test]
fn messages_and_replies_are_posted() {
    let r = send_message("tok", "t1", "c1", "hello");
    assert_eq!(r.method, Method::Post);
    assert_eq!(r.url, "https://graph.microsoft.com/v1.0/teams/t1/channels/c1/messages");
    assert_eq!(r.authorization, "Bearer tok");
    assert!(r.query.is_empty());
    assert_eq!(r.content, Some("hello".to_string()));

    let r = send_reply("tok", "t1", "c1", "m1", "hello");
    assert_eq!(r.method, Method::Post);
    assert_eq!(
        r.url,
        "https://graph.microsoft.com/v1.0/teams/t1/channels/c1/messages/m1/replies"
    );
    assert_eq!(r.authorization, "Bearer tok");
    assert!(r.query.is_empty());
    assert_eq!(r.content, Some("hello".to_string()));
}

#[test]
fn refusals_are_told() {
    assert!(!refused(399));
    assert!(refused(400));
    assert_eq!(token_error(200, "x"), None);
    assert_eq!(
        token_error(401, "bad secret"),
        Some("token request returned 401: bad secret".to_string())
    );
    assert_eq!(graph_error(399, "x", None), None);
    assert_eq!(
        graph_error(403, "{}", Some("Forbidden")),
        Some("graph api returned 403: Forbidden".to_string())
    );
    assert_eq!(
        graph_error(500, "oops", None),
        Some("graph api returned 500: oops".to_string())
    );
}

#[test]
fn messages_are_put_in_chronological_order() {
    let sorted = sort_by_created(vec![
        at("2024-01-01T00:00:03Z", "d"),
        at("2024-01-01T00:00:01Z", "a"),
        at("2024-01-01T00:00:02Z", "b"),
        at("2024-01-01T00:00:01Z", "a2"),
        at("2024-01-01T00:00:02Z", "b2"),
        at("", "first"),
    ]);
    let ids: Vec<&str> = sorted.iter().map(|m| m.id.as_str()).collect();
    assert_eq!(ids, vec!["first", "a", "a2", "b", "b2", "d"]);
}

#[test]
fn the_clock_is_read_in_milliseconds() {
    let now = now_ms();
    assert!(now > 1_700_000_000_000);
    assert!(now < 10_000_000_000_000);
    assert_eq!(time_of_reading(None), 0);
    assert_eq!(time_of_reading(Some(5)), 5);
    assert_eq!(time_of_reading(Some(u64::MAX as u128)), u64::MAX);
    assert_eq!(time_of_reading(Some(u64::MAX as u128 + 7)), 6);
}
