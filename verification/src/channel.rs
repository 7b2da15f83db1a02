//! The channel as the plugin host sees it.
use vstd::prelude::*;

use crate::credentials::Credentials;
use crate::graph::{
    bad_recipient, bearer, messages_url, replies_url, send_message, send_reply, split_recipient,
    GraphRequest, GraphRequestView, Method,
};
use crate::poll_gate::{channel_key, key_of};
use crate::protocol::{ChannelCapability, InboundMessage, SendMessage};
use crate::scan::{cut, trim_start_char, without_leading};
use crate::state::text_of;
use crate::text::{lower_char, lowered, str_eq, to_ascii_lowercase};
use crate::wording::law_leading_characters;

verus! {

/// The Microsoft Teams channel.
pub struct TeamsChannel;

/// A message on its way out: the channel, the message that it replies to, if
/// any, and its content.
#[derive(Debug, Clone)]
pub struct Outgoing {
    pub team_id: String,
    pub channel_id: String,
    pub root_message_id: Option<String>,
    pub content: String,
}

/// The request that posts a message: as a reply where it replies to a message,
/// otherwise as a new message of the channel.
pub open spec fn posting(outgoing: Outgoing, token: Seq<char>) -> GraphRequestView {
    GraphRequestView {
        method: Method::Post,
        url: match outgoing.root_message_id {
            Some(root) => replies_url(outgoing.team_id@, outgoing.channel_id@, root@),
            None => messages_url(outgoing.team_id@, outgoing.channel_id@),
        },
        authorization: bearer(token),
        query: Seq::empty(),
        content: Some(outgoing.content@),
    }
}

impl Outgoing {
    /// The request that posts this message.
    pub fn request(&self, token: &str) -> (r: GraphRequest)
        ensures
            r@ == posting(*self, token@),
    {
        match &self.root_message_id {
            Some(root) => send_reply(
                token,
                self.team_id.as_str(),
                self.channel_id.as_str(),
                root.as_str(),
                self.content.as_str(),
            ),
            None => send_message(
                token,
                self.team_id.as_str(),
                self.channel_id.as_str(),
                self.content.as_str(),
            ),
        }
    }
}

/// A handle without its leading `@`s, in ASCII lower case.
pub open spec fn bare_handle(handle: Seq<char>) -> Seq<char> {
    lowered(without_leading(handle, '@'))
}

impl TeamsChannel {
    /// The plugin's name and version.
    pub fn plugin_info() -> (r: (&'static str, &'static str))
        ensures
            r.0@ == "microsoft-teams-channel"@,
            r.1@ == "0.1.0"@,
    {
        ("microsoft-teams-channel", "0.1.0")
    }

    /// The channel's name.
    pub fn name() -> (r: String)
        ensures
            r@ == "microsoft-teams"@,
    {
        "microsoft-teams".to_owned()
    }

    /// What the channel can do.
    pub fn get_channel_capabilities() -> (r: Vec<ChannelCapability>)
        ensures
            r@ == seq![
                ChannelCapability::HealthCheck,
                ChannelCapability::SelfHandle,
                ChannelCapability::SelfAddressedMention,
                ChannelCapability::DropSelfMessage,
                ChannelCapability::RequestApproval,
                ChannelCapability::RequestChoice,
            ],
    {
        let r = vec![
            ChannelCapability::HealthCheck,
            ChannelCapability::SelfHandle,
            ChannelCapability::SelfAddressedMention,
            ChannelCapability::DropSelfMessage,
            ChannelCapability::RequestApproval,
            ChannelCapability::RequestChoice,
        ];
        r
    }

    /// Makes a message ready to be posted, or says that its recipient names no
    /// channel.
    pub fn send(message: &SendMessage) -> (r: Result<Outgoing, String>)
        ensures
            match r {
                Ok(outgoing) => {
                    &&& cut(message.recipient@, '/') == Some(
                        (outgoing.team_id@, outgoing.channel_id@),
                    )
                    &&& text_of(outgoing.root_message_id) == text_of(message.thread_ts)
                    &&& outgoing.content@ == message.content@
                },
                Err(e) => {
                    &&& cut(message.recipient@, '/') is None
                    &&& e@ == bad_recipient(message.recipient@)
                },
            },
    {
        match split_recipient(message.recipient.as_str()) {
            Ok((team_id, channel_id)) => {
                let root_message_id = match &message.thread_ts {
                    Some(root) => Some(root.clone()),
                    None => None,
                };
                Ok(
                    Outgoing {
                        team_id: team_id.to_owned(),
                        channel_id: channel_id.to_owned(),
                        root_message_id,
                        content: message.content.clone(),
                    },
                )
            },
            Err(e) => Err(e),
        }
    }

    /// The bot's own handle, where the credentials are at hand.
    pub fn self_handle(creds: Option<&Credentials>) -> (r: Option<String>)
        ensures
            text_of(r) == (match creds {
                Some(c) => Some(c.bot_app_id@),
                None => None,
            }),
    {
        match creds {
            Some(c) => Some(c.bot_app_id.clone()),
            None => None,
        }
    }

    /// How the bot is addressed, where the credentials are at hand.
    pub fn self_addressed_mention(creds: Option<&Credentials>) -> (r: Option<String>)
        ensures
            text_of(r) == (match creds {
                Some(c) => Some("@"@ + c.bot_display_name@),
                None => None,
            }),
    {
        match creds {
            Some(c) => {
                let mut mention = "@".to_owned();
                mention.append(c.bot_display_name.as_str());
                Some(mention)
            },
            None => None,
        }
    }

    /// Whether a message is the bot's own: its sender is the bot's handle,
    /// ASCII case and leading `@`s aside. Without credentials, or without a
    /// handle, no message is.
    pub fn drop_self_message(creds: Option<&Credentials>, msg: &InboundMessage) -> (r: bool)
        ensures
            r == (match creds {
                Some(c) => {
                    &&& bare_handle(c.bot_app_id@).len() > 0
                    &&& bare_handle(c.bot_app_id@) == bare_handle(msg.sender@)
                },
                None => false,
            }),
    {
        match Self::self_handle(creds) {
            Some(handle) => {
                let handle_norm = to_ascii_lowercase(trim_start_char(handle.as_str(), '@'));
                let sender_norm = to_ascii_lowercase(trim_start_char(msg.sender.as_str(), '@'));
                !handle_norm.as_str().is_empty() && str_eq(handle_norm.as_str(), sender_norm.as_str())
            },
            None => false,
        }
    }

    /// Where a question goes: to the first configured channel, since the host
    /// names none. An operator with several channels has to know this.
    pub fn choice_recipient(creds: &Credentials) -> (r: Result<String, String>)
        ensures
            match r {
                Ok(recipient) => {
                    &&& creds.teams@.len() > 0
                    &&& recipient@ == channel_key(creds.teams@[0])
                },
                Err(e) => {
                    &&& creds.teams@.len() == 0
                    &&& e@ == "no teams configured in credentials.toml"@
                },
            },
    {
        if creds.teams.len() == 0 {
            return Err("no teams configured in credentials.toml".to_owned());
        }
        Ok(key_of(&creds.teams[0]))
    }
}

/// Leading `@`s and ASCII case do not matter in a handle.
pub proof fn law_handle_ignores_at_and_case(handle: Seq<char>, typed: Seq<char>)
    requires
        lowered(typed) == lowered(handle),
    ensures
        bare_handle(seq!['@'] + handle) == bare_handle(handle),
        bare_handle(typed) == bare_handle(handle),
    decreases handle.len(),
{
    assert((seq!['@'] + handle).skip(1) =~= handle);
    assert(typed.len() == lowered(typed).len());
    assert(handle.len() == lowered(handle).len());
    if handle.len() > 0 {
        assert(lowered(typed)[0] == lowered(handle)[0]);
        assert(lowered(typed)[0] == lower_char(typed[0]));
        assert(lowered(handle)[0] == lower_char(handle[0]));
        assert(typed[0] == '@' <==> handle[0] == '@');
        assert(lowered(typed.skip(1)) =~= lowered(typed).skip(1));
        assert(lowered(handle.skip(1)) =~= lowered(handle).skip(1));
        law_handle_ignores_at_and_case(handle.skip(1), typed.skip(1));
    } else {
        assert(typed =~= handle);
    }
}

/// Leading `@`s, however many, are not part of a handle, and the rest of it is,
/// all of it, in ASCII lower case.
pub proof fn law_bare_handle(n: nat, name: Seq<char>)
    requires
        name.len() > 0 ==> name[0] != '@',
    ensures
        bare_handle(Seq::new(n, |i: int| '@') + name) == lowered(name),
        bare_handle(name) == lowered(name),
{
    law_leading_characters('@', n, name);
    law_leading_characters('@', 0, name);
    assert(Seq::new(0, |i: int| '@') + name =~= name);
}

} // verus!
