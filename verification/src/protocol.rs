//! The values that the plugin host and a channel exchange.
use vstd::prelude::*;

use crate::state::text_of;

verus! {

/// A message that a channel hands to the agent.
#[derive(Debug, Clone)]
pub struct InboundMessage {
    pub id: String,
    pub sender: String,
    /// Where a reply goes: `team_id/channel_id`.
    pub reply_target: String,
    pub content: String,
    pub channel: String,
    pub channel_alias: Option<String>,
    /// Unix milliseconds.
    pub timestamp: u64,
    /// The root message of the thread that a reply belongs to.
    pub thread_ts: Option<String>,
    pub interruption_scope_id: Option<String>,
    /// The names of attached files.
    pub attachments: Vec<String>,
    pub subject: Option<String>,
}

/// What a message to the agent holds.
#[verifier::ext_equal]
pub struct InboundView {
    pub id: Seq<char>,
    pub sender: Seq<char>,
    pub reply_target: Seq<char>,
    pub content: Seq<char>,
    pub channel: Seq<char>,
    pub channel_alias: Option<Seq<char>>,
    pub timestamp: u64,
    pub thread_ts: Option<Seq<char>>,
    pub interruption_scope_id: Option<Seq<char>>,
    pub attachments: Seq<String>,
    pub subject: Option<Seq<char>>,
}

impl View for InboundMessage {
    type V = InboundView;

    open spec fn view(&self) -> InboundView {
        InboundView {
            id: self.id@,
            sender: self.sender@,
            reply_target: self.reply_target@,
            content: self.content@,
            channel: self.channel@,
            channel_alias: text_of(self.channel_alias),
            timestamp: self.timestamp,
            thread_ts: text_of(self.thread_ts),
            interruption_scope_id: text_of(self.interruption_scope_id),
            attachments: self.attachments@,
            subject: text_of(self.subject),
        }
    }
}

/// A message that the agent sends.
#[derive(Debug, Clone)]
pub struct SendMessage {
    /// `team_id/channel_id`.
    pub recipient: String,
    pub content: String,
    /// The root message to reply to, if any.
    pub thread_ts: Option<String>,
}

/// A tool call that an operator is asked to approve.
#[derive(Debug, Clone)]
pub struct ApprovalRequest {
    pub tool_name: String,
    pub arguments_summary: String,
}

/// What an operator answers.
#[derive(Debug, Clone, Copy, PartialEq, Eq, Structural)]
pub enum ApprovalResponse {
    Approve,
    Deny,
    AlwaysApprove,
}

/// What a channel can do beyond sending and receiving.
#[derive(Debug, Clone, Copy, PartialEq, Eq, Structural)]
pub enum ChannelCapability {
    HealthCheck,
    SelfHandle,
    SelfAddressedMention,
    DropSelfMessage,
    RequestApproval,
    RequestChoice,
}

} // verus!
