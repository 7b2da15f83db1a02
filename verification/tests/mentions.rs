use teams_channel::credentials::Credentials;
use teams_channel::graph::{
    GraphBody, GraphChatMessage, GraphFrom, GraphIdentity, GraphMention, GraphMentionedIdentitySet,
};
use teams_channel::mentions::{
    chip_match, has_whole_word, message_mentions_bot, plain_text, text_fallback_match,
};

fn creds_with(bot_app_id: &str, bot_display_name: &str) -> Credentials {
    Credentials {
        tenant_id: "t".to_string(),
        client_id: "c".to_string(),
        client_secret: "s".to_string(),
        bot_app_id: bot_app_id.to_string(),
        bot_display_name: bot_display_name.to_string(),
        teams: vec![],
    }
}

fn message_with(content: &str, mentions: Vec<GraphMention>) -> GraphChatMessage {
    GraphChatMessage {
        id: "1".to_string(),
        created_date_time: "2024-01-01T00:00:00Z".to_string(),
        from: GraphFrom::default(),
        body: GraphBody {
            content_type: Some("html".to_string()),
            content: content.to_string(),
        },
        mentions,
        reply_to_id: None,
    }
}

fn chip(app_id: &str) -> GraphMention {
    GraphMention {
        mention_text: None,
        mentioned: GraphMentionedIdentitySet {
            user: None,
            application: Some(GraphIdentity { id: app_id.to_string(), display_name: None }),
        },
    }
}

#[test]
fn chip_match_takes_priority() {
    let creds = creds_with("bot-app-id", "ZeroClaw");
    let mentions = vec![GraphMention {
        mention_text: Some("ZeroClaw".to_string()),
        mentioned: GraphMentionedIdentitySet {
            user: None,
            application: Some(GraphIdentity {
                id: "bot-app-id".to_string(),
                display_name: Some("ZeroClaw".to_string()),
            }),
        },
    }];
    let msg = message_with("hi <at id=\"0\">ZeroClaw</at>", mentions);
    assert!(message_mentions_bot(&msg, &creds));
}

#[test]
fn chip_for_different_app_does_not_match() {
    let creds = creds_with("bot-app-id", "ZeroClaw");
    let mentions = vec![GraphMention {
        mention_text: Some("OtherBot".to_string()),
        mentioned: GraphMentionedIdentitySet {
            user: None,
            application: Some(GraphIdentity {
                id: "other-app-id".to_string(),
                display_name: Some("OtherBot".to_string()),
            }),
        },
    }];
    let msg = message_with("hi <at id=\"0\">OtherBot</at>, no actual mention", mentions);
    assert!(!message_mentions_bot(&msg, &creds));
}

#[test]
fn text_fallback_matches_at_prefixed_name_case_insensitively() {
    let creds = creds_with("bot-app-id", "ZeroClaw");
    let msg = message_with("hey @zeroclaw can you help", vec![]);
    assert!(message_mentions_bot(&msg, &creds));
}

#[test]
fn text_fallback_matches_bare_whole_word_name() {
    let creds = creds_with("bot-app-id", "ZeroClaw");
    let msg = message_with("ZeroClaw please summarize this thread", vec![]);
    assert!(message_mentions_bot(&msg, &creds));
}

#[test]
fn text_fallback_does_not_match_substring_of_a_longer_word() {
    let creds = creds_with("bot-app-id", "Claw");
    let msg = message_with("ZeroClawBot please help", vec![]);
    assert!(!message_mentions_bot(&msg, &creds));
}

#[test]
fn no_match_drops_message() {
    let creds = creds_with("bot-app-id", "ZeroClaw");
    let msg = message_with("just chatting, no bot involved", vec![]);
    assert!(!message_mentions_bot(&msg, &creds));
}

#[test]
fn html_tags_are_stripped_before_matching() {
    assert_eq!(plain_text("<p>hello <b>world</b></p>"), "hello world");
}

#[test]
fn html_entities_are_decoded() {
    assert_eq!(plain_text("a&amp;b&nbsp;c"), "a&b c");
}

#[test]
fn entities_are_decoded_one_after_the_other() {
    assert_eq!(plain_text("&lt;b&gt; &quot;x&quot;"), "<b> \"x\"");
    // An ampersand that comes out of decoding takes part in what follows.
    assert_eq!(plain_text("&amp;lt;"), "<");
    assert_eq!(plain_text("&amp;nbsp;"), "&nbsp;");
    assert_eq!(plain_text("&amp;amp;"), "&amp;");
    assert_eq!(plain_text("&apos; & &;"), "&apos; & &;");
}

#[test]
fn only_complete_tags_are_stripped() {
    assert_eq!(plain_text("1 < 2"), "1 < 2");
    assert_eq!(plain_text("1 > 0"), "1 > 0");
    assert_eq!(plain_text("2 > 1 < 3"), "2 > 1 < 3");
    assert_eq!(plain_text("a<b"), "a<b");
    assert_eq!(plain_text("<"), "<");
    assert_eq!(plain_text(">"), ">");
    assert_eq!(plain_text("<>"), "");
    // A tag ends at the next closing bracket, whatever stands in it.
    assert_eq!(plain_text("a<b<c>d>e"), "ad>e");
    assert_eq!(plain_text("<<p>x"), "x");
    assert_eq!(plain_text("<b>1 < 2"), "1 < 2");
    assert_eq!(plain_text("<b>1</b> <"), "1 <");
    assert_eq!(plain_text("<<<<"), "<<<<");
    // White space after it makes a bracket no tag.
    assert_eq!(plain_text("1 < 2 and 3 > 2"), "1 < 2 and 3 > 2");
    assert_eq!(plain_text("a <\u{a0}b> c"), "a <\u{a0}b> c");
    assert_eq!(plain_text("< <b>x</b>>"), "< x>");
    assert_eq!(plain_text("1 <\n2 <b>bold</b>"), "1 <\n2 bold");
}

#[test]
fn text_without_markup_passes_unchanged() {
    for s in ["", "caf\u{e9} \u{1f600}", "R&D & more;", "x <- y", "a >= b", "&apos;", "&nbsp"] {
        assert_eq!(plain_text(s), s);
    }
    // Entities are looked for once the tags are gone.
    assert_eq!(plain_text("&l<i>t</i>;"), "<");
}

#[test]
fn chip_ids_match_in_any_ascii_case() {
    let msg = message_with("hello", vec![chip("someone"), chip("BOT-App-ID")]);
    assert!(chip_match(&msg, "bot-app-id"));
    assert!(!chip_match(&msg, "bot-app-id2"));
    assert!(!chip_match(&message_with("hello", vec![]), "bot-app-id"));
    let user_only = GraphMention {
        mention_text: None,
        mentioned: GraphMentionedIdentitySet {
            user: Some(GraphIdentity { id: "bot-app-id".to_string(), display_name: None }),
            application: None,
        },
    };
    assert!(!chip_match(&message_with("hello", vec![user_only]), "bot-app-id"));
}

#[test]
fn a_bot_without_a_name_is_never_named() {
    assert!(!text_fallback_match("anything @ all", ""));
    assert!(!text_fallback_match("", ""));
}

#[test]
fn an_at_name_counts_inside_longer_text() {
    assert!(text_fallback_match("mail@ClawBot.example", "claw"));
    assert!(!text_fallback_match("mail @ claw-less clawed", "clawe"));
}

#[test]
fn words_end_at_what_is_no_letter_or_number() {
    assert!(text_fallback_match("(claw)", "Claw"));
    assert!(text_fallback_match("x-claw_y", "Claw"));
    assert!(!text_fallback_match("claw2", "Claw"));
    assert!(text_fallback_match("claw2", "Claw2"));
    // Letters of any script belong to a word.
    assert!(!text_fallback_match("claw\u{e9}", "Claw"));
    assert!(!text_fallback_match("\u{4e2d}claw", "Claw"));
    assert!(text_fallback_match("caf\u{e9}", "CAF\u{e9}"));
    // A name of two words is never one word.
    assert!(!text_fallback_match("zero claw", "Zero Claw"));
    assert!(text_fallback_match("@zero claw", "Zero Claw"));
    // The tag around a chip leaves the name.
    assert!(text_fallback_match("<at id=\"0\">Claw</at> hi", "claw"));
}

#[test]
fn whole_words_by_given_word_characters() {
    let yes = true;
    let no = false;
    assert!(has_whole_word("ab-ab", &vec![yes, yes, no, yes, yes], "ab"));
    assert!(!has_whole_word("abab", &vec![yes, yes, yes, yes], "ab"));
    // Whatever is said to be a word character is one.
    assert!(has_whole_word("ab-ab", &vec![yes, yes, yes, yes, yes], "ab-ab"));
    assert!(!has_whole_word("ab", &vec![no, yes], "ab"));
    assert!(has_whole_word("xab", &vec![no, yes, yes], "ab"));
}
