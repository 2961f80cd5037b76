//! What the host of the channel is told, and what it is asked to send.

use vstd::prelude::*;

use crate::text;

verus! {

/// The kind of channel.
#[derive(Debug, Clone, Copy, PartialEq, Eq, Structural)]
pub enum ChannelType {
    Slack,
}

impl ChannelType {
    /// The name under which the channel is known.
    pub open spec fn name_view(self) -> Seq<char> {
        "slack"@
    }

    /// The name under which the channel is known.
    pub fn name(&self) -> (r: &'static str)
        ensures
            r@ == self.name_view(),
    {
        "slack"
    }
}

/// The kind of content that a message carries.
#[derive(Debug, Clone, Copy, PartialEq, Eq, Structural)]
pub enum ChannelMessageKind {
    Text,
}

/// Where an answer goes.
#[derive(Debug, Clone)]
pub struct ChannelReplyTarget {
    pub channel_type: ChannelType,
    pub account_id: String,
    pub chat_id: String,
    pub message_id: Option<String>,
}

/// What a [`ChannelReplyTarget`] says.
pub struct TargetModel {
    pub channel_type: ChannelType,
    pub account_id: Seq<char>,
    pub chat_id: Seq<char>,
    pub message_id: Option<Seq<char>>,
}

impl View for ChannelReplyTarget {
    type V = TargetModel;

    open spec fn view(&self) -> TargetModel {
        TargetModel {
            channel_type: self.channel_type,
            account_id: self.account_id@,
            chat_id: self.chat_id@,
            message_id: text::opt_view(self.message_id),
        }
    }
}

/// What goes along with a message to the chat.
#[derive(Debug, Clone)]
pub struct ChannelMessageMeta {
    pub channel_type: ChannelType,
    pub sender_name: Option<String>,
    pub username: Option<String>,
    pub message_kind: Option<ChannelMessageKind>,
    pub model: Option<String>,
}

/// What a [`ChannelMessageMeta`] says.
pub struct MetaModel {
    pub channel_type: ChannelType,
    pub sender_name: Option<Seq<char>>,
    pub username: Option<Seq<char>>,
    pub message_kind: Option<ChannelMessageKind>,
    pub model: Option<Seq<char>>,
}

impl View for ChannelMessageMeta {
    type V = MetaModel;

    open spec fn view(&self) -> MetaModel {
        MetaModel {
            channel_type: self.channel_type,
            sender_name: text::opt_view(self.sender_name),
            username: text::opt_view(self.username),
            message_kind: self.message_kind,
            model: text::opt_view(self.model),
        }
    }
}

/// A message as it is logged.
#[derive(Debug, Clone)]
pub struct MessageLogEntry {
    pub id: i64,
    pub account_id: String,
    pub channel_type: String,
    pub peer_id: String,
    pub username: Option<String>,
    pub sender_name: Option<String>,
    pub chat_id: String,
    pub chat_type: String,
    pub body: String,
    pub access_granted: bool,
    /// Seconds since 1970.
    pub created_at: i64,
}

/// What a [`MessageLogEntry`] says.
pub struct LogModel {
    pub id: i64,
    pub account_id: Seq<char>,
    pub channel_type: Seq<char>,
    pub peer_id: Seq<char>,
    pub username: Option<Seq<char>>,
    pub sender_name: Option<Seq<char>>,
    pub chat_id: Seq<char>,
    pub chat_type: Seq<char>,
    pub body: Seq<char>,
    pub access_granted: bool,
    pub created_at: i64,
}

impl View for MessageLogEntry {
    type V = LogModel;

    open spec fn view(&self) -> LogModel {
        LogModel {
            id: self.id,
            account_id: self.account_id@,
            channel_type: self.channel_type@,
            peer_id: self.peer_id@,
            username: text::opt_view(self.username),
            sender_name: text::opt_view(self.sender_name),
            chat_id: self.chat_id@,
            chat_type: self.chat_type@,
            body: self.body@,
            access_granted: self.access_granted,
            created_at: self.created_at,
        }
    }
}

/// Something that happened in a channel.
#[derive(Debug, Clone)]
pub enum ChannelEvent {
    /// A message came in.
    InboundMessage {
        channel_type: ChannelType,
        account_id: String,
        peer_id: String,
        username: Option<String>,
        sender_name: Option<String>,
        message_count: Option<i64>,
        access_granted: bool,
    },
    /// A sender was asked for a code.
    OtpChallenge {
        channel_type: ChannelType,
        account_id: String,
        peer_id: String,
        username: Option<String>,
        sender_name: Option<String>,
        code: String,
        expires_at: i64,
    },
    /// A sender's challenge came to an end.
    OtpResolved {
        channel_type: ChannelType,
        account_id: String,
        peer_id: String,
        username: Option<String>,
        resolution: String,
    },
}

/// What a [`ChannelEvent`] says.
pub enum EventModel {
    InboundMessage {
        channel_type: ChannelType,
        account_id: Seq<char>,
        peer_id: Seq<char>,
        username: Option<Seq<char>>,
        sender_name: Option<Seq<char>>,
        message_count: Option<i64>,
        access_granted: bool,
    },
    OtpChallenge {
        channel_type: ChannelType,
        account_id: Seq<char>,
        peer_id: Seq<char>,
        username: Option<Seq<char>>,
        sender_name: Option<Seq<char>>,
        code: Seq<char>,
        expires_at: i64,
    },
    OtpResolved {
        channel_type: ChannelType,
        account_id: Seq<char>,
        peer_id: Seq<char>,
        username: Option<Seq<char>>,
        resolution: Seq<char>,
    },
}

impl View for ChannelEvent {
    type V = EventModel;

    open spec fn view(&self) -> EventModel {
        match self {
            ChannelEvent::InboundMessage {
                channel_type,
                account_id,
                peer_id,
                username,
                sender_name,
                message_count,
                access_granted,
            } => EventModel::InboundMessage {
                channel_type: *channel_type,
                account_id: account_id@,
                peer_id: peer_id@,
                username: text::opt_view(*username),
                sender_name: text::opt_view(*sender_name),
                message_count: *message_count,
                access_granted: *access_granted,
            },
            ChannelEvent::OtpChallenge {
                channel_type,
                account_id,
                peer_id,
                username,
                sender_name,
                code,
                expires_at,
            } => EventModel::OtpChallenge {
                channel_type: *channel_type,
                account_id: account_id@,
                peer_id: peer_id@,
                username: text::opt_view(*username),
                sender_name: text::opt_view(*sender_name),
                code: code@,
                expires_at: *expires_at,
            },
            ChannelEvent::OtpResolved {
                channel_type,
                account_id,
                peer_id,
                username,
                resolution,
            } => EventModel::OtpResolved {
                channel_type: *channel_type,
                account_id: account_id@,
                peer_id: peer_id@,
                username: text::opt_view(*username),
                resolution: resolution@,
            },
        }
    }
}

/// A text to send to a chat, in a thread or not.
#[derive(Debug, Clone)]
pub struct OutboundText {
    pub chat_id: String,
    pub text: String,
    pub thread_ts: Option<String>,
}

/// What an [`OutboundText`] says.
pub struct OutboundModel {
    pub chat_id: Seq<char>,
    pub text: Seq<char>,
    pub thread_ts: Option<Seq<char>>,
}

impl View for OutboundText {
    type V = OutboundModel;

    open spec fn view(&self) -> OutboundModel {
        OutboundModel {
            chat_id: self.chat_id@,
            text: self.text@,
            thread_ts: text::opt_view(self.thread_ts),
        }
    }
}

/// Whether an account works.
#[derive(Debug, Clone)]
pub struct ChannelHealthSnapshot {
    pub connected: bool,
    pub account_id: String,
    pub details: Option<String>,
}

/// What a [`ChannelHealthSnapshot`] says.
pub struct HealthModel {
    pub connected: bool,
    pub account_id: Seq<char>,
    pub details: Option<Seq<char>>,
}

impl View for ChannelHealthSnapshot {
    type V = HealthModel;

    open spec fn view(&self) -> HealthModel {
        HealthModel {
            connected: self.connected,
            account_id: self.account_id@,
            details: text::opt_view(self.details),
        }
    }
}

impl ChannelHealthSnapshot {
    /// A copy of the snapshot.
    pub fn copy(&self) -> (r: ChannelHealthSnapshot)
        ensures
            r@ == self@,
    {
        ChannelHealthSnapshot {
            connected: self.connected,
            account_id: self.account_id.clone(),
            details: text::opt_clone(&self.details),
        }
    }
}

/// An answer with a text and, at times, a file.
#[derive(Debug, Clone)]
pub struct ReplyPayload {
    pub text: String,
    pub media: Option<MediaAttachment>,
}

/// A file that an answer carries.
#[derive(Debug, Clone)]
pub struct MediaAttachment {
    pub url: String,
}

} // verus!
