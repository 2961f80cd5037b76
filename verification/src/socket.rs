//! Slack's socket mode: the loop that keeps a connection open, and the frames
//! that come in on it.

use vstd::prelude::*;

use crate::error;
use crate::error::{ApiCall, SlackError};
use crate::handlers::{MessageModel, SlackInboundMessage};
use crate::json;
use crate::outbound;
use crate::state::AccountStateMap;
use crate::text;

verus! {

/// How many seconds pass before a new connection is tried.
pub const RECONNECT_DELAY_SECS: u64 = 3;

// ---------------------------------------------------------------------------
// Opening a connection
// ---------------------------------------------------------------------------

/// Slack's answer to the request for a connection.
#[derive(Debug)]
pub struct ConnectionsOpenResponse {
    pub ok: bool,
    pub error: Option<String>,
    pub url: Option<String>,
}

/// The address to connect to.
pub fn connection_url(response: ConnectionsOpenResponse) -> (r: Result<String, SlackError>)
    ensures
        match r {
            Ok(url) => response.ok && response.url == Some(url),
            Err(e) => {
                ||| !response.ok && outbound::is_api_error(
                    e,
                    ApiCall::OpenConnection,
                    response.error,
                )
                ||| response.ok && response.url is None && e is MissingUrl
            },
        },
{
    match error::check_response(ApiCall::OpenConnection, response.ok, response.error) {
        Ok(_) => match response.url {
            Some(url) => Ok(url),
            None => Err(SlackError::MissingUrl),
        },
        Err(e) => Err(e),
    }
}

// ---------------------------------------------------------------------------
// The loop
// ---------------------------------------------------------------------------

/// What has happened in the loop of an account.
pub enum SocketEvent {
    /// A round begins. The account was stopped, or not.
    Round { cancelled: bool },
    /// Slack gave an address to connect to, or it did not.
    Opened { url: Option<String>, bot_user_id: Option<String> },
    /// The connection came to an end, in order or not. The account was stopped,
    /// or not.
    Closed { in_order: bool, cancelled: bool },
    /// The pause is over.
    Waited,
}

/// What the loop does next.
pub enum SocketAction {
    /// End.
    Stop,
    /// End with an error.
    Fail(SlackError),
    /// Ask Slack for an address to connect to.
    Open { app_token: String, bot_user_id: Option<String> },
    /// Connect, and read frames.
    Run { url: String, bot_user_id: Option<String> },
    /// Pause for so many seconds.
    Pause { secs: u64 },
    /// Begin a new round.
    NewRound,
}

/// What the loop of an account does once something has happened.
pub fn socket_step<L, S, C>(
    accounts: &AccountStateMap<L, S, C>,
    account_id: &str,
    event: SocketEvent,
) -> (r: SocketAction)
    ensures
        match event {
            SocketEvent::Round { cancelled } => if cancelled {
                r is Stop
            } else if accounts@.contains_key(account_id@) {
                let state = accounts@[account_id@];
                &&& r matches SocketAction::Open { app_token, bot_user_id }
                &&& app_token@ == state.config.app_token@
                &&& text::opt_view(bot_user_id) == text::opt_view(state.bot_user_id)
            } else {
                &&& r matches SocketAction::Fail(SlackError::AccountStateMissing(id))
                &&& id@ == account_id@
            },
            SocketEvent::Opened { url, bot_user_id } => match url {
                Some(u) => r == (SocketAction::Run { url: u, bot_user_id }),
                None => r == (SocketAction::Pause { secs: RECONNECT_DELAY_SECS }),
            },
            SocketEvent::Closed { in_order, cancelled } => if in_order && cancelled {
                r is Stop
            } else {
                r == (SocketAction::Pause { secs: RECONNECT_DELAY_SECS })
            },
            SocketEvent::Waited => r is NewRound,
        },
{
    match event {
        SocketEvent::Round { cancelled } => {
            if cancelled {
                return SocketAction::Stop;
            }
            match accounts.get(account_id) {
                Some(state) => SocketAction::Open {
                    app_token: state.config.app_token.expose().to_owned(),
                    bot_user_id: text::opt_clone(&state.bot_user_id),
                },
                None => SocketAction::Fail(
                    SlackError::AccountStateMissing(account_id.to_owned()),
                ),
            }
        },
        SocketEvent::Opened { url, bot_user_id } => match url {
            Some(url) => SocketAction::Run { url, bot_user_id },
            None => SocketAction::Pause { secs: RECONNECT_DELAY_SECS },
        },
        SocketEvent::Closed { in_order, cancelled } => {
            if in_order && cancelled {
                SocketAction::Stop
            } else {
                SocketAction::Pause { secs: RECONNECT_DELAY_SECS }
            }
        },
        SocketEvent::Waited => SocketAction::NewRound,
    }
}

// ---------------------------------------------------------------------------
// Frames
// ---------------------------------------------------------------------------

/// What a frame holds.
#[derive(Debug)]
pub struct SocketEnvelope {
    pub envelope_id: Option<String>,
    pub payload: Option<EnvelopePayload>,
}

/// What an envelope carries.
#[derive(Debug)]
pub struct EnvelopePayload {
    pub event: Option<SlackEvent>,
}

/// An event as Slack sends it.
#[derive(Debug)]
pub struct SlackEvent {
    pub event_type: String,
    pub user: Option<String>,
    pub channel: Option<String>,
    pub text: Option<String>,
    pub ts: Option<String>,
    pub thread_ts: Option<String>,
    pub channel_type: Option<String>,
    pub subtype: Option<String>,
}

/// The text that tells Slack that an envelope has arrived.
pub open spec fn ack_text(envelope_id: Seq<char>) -> Seq<char> {
    json::object_text(seq![("envelope_id"@, envelope_id)], Seq::empty())
}

/// The text that tells Slack that an envelope has arrived.
pub fn acknowledgement(envelope_id: &str) -> (r: String)
    ensures
        r@ == ack_text(envelope_id@),
{
    let mut texts: Vec<(String, String)> = Vec::new();
    texts.push(("envelope_id".to_owned(), envelope_id.to_owned()));
    let flags: Vec<(String, bool)> = Vec::new();
    proof {
        assert(texts.deep_view() =~= seq![("envelope_id"@, envelope_id@)]);
        assert(flags.deep_view() =~= Seq::empty());
    }
    json::object_to_string(texts, flags)
}

/// A text that is empty where it is missing.
pub open spec fn or_empty(s: Option<String>) -> Seq<char> {
    match s {
        Some(t) => t@,
        None => Seq::empty(),
    }
}

/// How a mention of a user is written.
pub open spec fn mention_of(user_id: Seq<char>) -> Seq<char> {
    "<@"@ + user_id + ">"@
}

/// Whether an event mentions the bot: it says so itself, or its text does.
pub open spec fn mentions_bot(event: SlackEvent, bot_user_id: Option<Seq<char>>) -> bool {
    ||| event.event_type@ == "app_mention"@
    ||| match bot_user_id {
        Some(id) => text::contains_text(or_empty(event.text), mention_of(id)),
        None => false,
    }
}

/// Whether an event is a message from a user: of a type that carries one,
/// without a subtype, and with a sender, a channel and a timestamp.
pub open spec fn is_user_message(event: SlackEvent) -> bool {
    &&& event.event_type@ == "message"@ || event.event_type@ == "app_mention"@
    &&& event.subtype is None
    &&& or_empty(event.user).len() > 0
    &&& or_empty(event.channel).len() > 0
    &&& or_empty(event.ts).len() > 0
}

/// The message that an event is, if it is one.
pub open spec fn message_in(event: SlackEvent, bot_user_id: Option<Seq<char>>) -> Option<
    MessageModel,
> {
    if is_user_message(event) {
        Some(
            MessageModel {
                user_id: or_empty(event.user),
                username: None,
                sender_name: None,
                channel_id: or_empty(event.channel),
                channel_type: match event.channel_type {
                    Some(t) => t@,
                    None => "channel"@,
                },
                ts: or_empty(event.ts),
                thread_ts: text::opt_view(event.thread_ts),
                text: or_empty(event.text),
                bot_mentioned: mentions_bot(event, bot_user_id),
            },
        )
    } else {
        None
    }
}

/// The event that an envelope carries, if it carries one.
pub open spec fn event_in(envelope: SocketEnvelope) -> Option<SlackEvent> {
    match envelope.payload {
        Some(p) => p.event,
        None => None,
    }
}

/// A message that may be missing.
pub open spec fn message_view(msg: Option<SlackInboundMessage>) -> Option<MessageModel> {
    match msg {
        Some(m) => Some(m@),
        None => None,
    }
}

fn unwrap_or_empty(s: Option<String>) -> (r: String)
    ensures
        r@ == or_empty(s),
{
    match s {
        Some(t) => t,
        None => String::new(),
    }
}

/// The message that an event is, if it is one.
pub fn message_from(event: SlackEvent, bot_user_id: Option<&str>) -> (r: Option<
    SlackInboundMessage,
>)
    ensures
        message_view(r) == message_in(event, outbound::opt_str(bot_user_id)),
{
    let app_mention = text::same_text(event.event_type.as_str(), "app_mention");
    if !app_mention && !text::same_text(event.event_type.as_str(), "message") {
        return None;
    }
    // Ignore bot/system generated messages.
    if event.subtype.is_some() {
        return None;
    }
    let user_id = unwrap_or_empty(event.user);
    let channel_id = unwrap_or_empty(event.channel);
    let body = unwrap_or_empty(event.text);
    let ts = unwrap_or_empty(event.ts);
    if user_id.as_str().is_empty() || channel_id.as_str().is_empty() || ts.as_str().is_empty() {
        return None;
    }
    let in_text = match bot_user_id {
        Some(id) => {
            let head = text::joined("<@", id);
            let mention = text::joined(head.as_str(), ">");
            text::has_text(body.as_str(), mention.as_str())
        },
        None => false,
    };
    let channel_type = match event.channel_type {
        Some(t) => t,
        None => "channel".to_owned(),
    };
    Some(
        SlackInboundMessage {
            user_id,
            username: None,
            sender_name: None,
            channel_id,
            channel_type,
            ts,
            thread_ts: event.thread_ts,
            text: body,
            bot_mentioned: in_text || app_mention,
        },
    )
}

/// What is done with an envelope, in this order: it is acknowledged, and the
/// message that it carries is handled.
#[derive(Debug)]
pub struct Delivery {
    pub ack: Option<String>,
    pub message: Option<SlackInboundMessage>,
}

/// What is done with an envelope.
pub fn open_envelope(envelope: SocketEnvelope, bot_user_id: Option<&str>) -> (r: Delivery)
    ensures
        text::opt_view(r.ack) == match envelope.envelope_id {
            Some(id) => Some(ack_text(id@)),
            None => None,
        },
        message_view(r.message) == match event_in(envelope) {
            Some(event) => message_in(event, outbound::opt_str(bot_user_id)),
            None => None,
        },
{
    let ack = match envelope.envelope_id {
        Some(id) => Some(acknowledgement(id.as_str())),
        None => None,
    };
    let event = match envelope.payload {
        Some(p) => p.event,
        None => None,
    };
    let message = match event {
        Some(event) => message_from(event, bot_user_id),
        None => None,
    };
    Delivery { ack, message }
}

/// What comes in on a connection.
pub enum Frame {
    /// The connection has ended.
    End,
    /// The connection could not be read.
    Failed(String),
    /// A text, and the envelope that it is, if it is one.
    Text(Option<SocketEnvelope>),
    /// Something else.
    Other,
}

/// What is done with a frame.
pub enum SessionAction {
    /// End the session.
    End,
    /// End the session with an error.
    Fail(SlackError),
    /// Read on.
    Skip,
    /// Deal with an envelope, then read on.
    Deliver(Delivery),
}

/// What is done with a frame. `cancelled` is whether the account was stopped.
pub fn session_step(frame: Frame, cancelled: bool, bot_user_id: Option<&str>) -> (r: SessionAction)
    ensures
        match frame {
            Frame::End => r is End,
            _ => if cancelled {
                r is End
            } else {
                match frame {
                    Frame::Failed(e) => r == SessionAction::Fail(SlackError::SocketRead(e)),
                    Frame::Text(Some(envelope)) => {
                        &&& r matches SessionAction::Deliver(d)
                        &&& text::opt_view(d.ack) == match envelope.envelope_id {
                            Some(id) => Some(ack_text(id@)),
                            None => None,
                        }
                        &&& message_view(d.message) == match event_in(envelope) {
                            Some(event) => message_in(event, outbound::opt_str(bot_user_id)),
                            None => None,
                        }
                    },
                    _ => r is Skip,
                }
            },
        },
{
    if let Frame::End = frame {
        return SessionAction::End;
    }
    if cancelled {
        return SessionAction::End;
    }
    match frame {
        Frame::End => SessionAction::End,
        Frame::Failed(e) => SessionAction::Fail(SlackError::SocketRead(e)),
        Frame::Text(Some(envelope)) => SessionAction::Deliver(
            open_envelope(envelope, bot_user_id),
        ),
        Frame::Text(None) => SessionAction::Skip,
        Frame::Other => SessionAction::Skip,
    }
}

// ---------------------------------------------------------------------------
// Laws
// ---------------------------------------------------------------------------

/// What a bot or Slack itself wrote is never handled.
pub proof fn law_system_messages_are_dropped(event: SlackEvent, bot_user_id: Option<Seq<char>>)
    requires
        event.subtype is Some,
    ensures
        message_in(event, bot_user_id) is None,
{
}

/// A message that is handled says who sent it, where and when.
pub proof fn law_messages_are_attributed(event: SlackEvent, bot_user_id: Option<Seq<char>>)
    ensures
        message_in(event, bot_user_id) matches Some(m) ==> m.user_id.len() > 0
            && m.channel_id.len() > 0 && m.ts.len() > 0,
{
}

/// An `app_mention` counts as a mention of the bot whatever its text.
pub proof fn law_app_mention_mentions(event: SlackEvent, bot_user_id: Option<Seq<char>>)
    requires
        event.event_type@ == "app_mention"@,
    ensures
        message_in(event, bot_user_id) matches Some(m) ==> m.bot_mentioned,
{
}

/// An event is a message exactly where it is a message or a mention, was written
/// by no bot and not by Slack, and says who wrote it, where and when.
pub proof fn law_which_events_are_messages(event: SlackEvent, bot_user_id: Option<Seq<char>>)
    ensures
        message_in(event, bot_user_id) is Some <==> {
            &&& event.event_type@ == "message"@ || event.event_type@ == "app_mention"@
            &&& event.subtype is None
            &&& event.user is Some && event.user->0@.len() > 0
            &&& event.channel is Some && event.channel->0@.len() > 0
            &&& event.ts is Some && event.ts->0@.len() > 0
        },
{
}

/// Whether `s` is `part` with something before and after it.
pub open spec fn stands_in(s: Seq<char>, part: Seq<char>) -> bool {
    exists|before: Seq<char>, after: Seq<char>| s == #[trigger] (before + part + after)
}

/// A message is what its event says: the same sender, channel, time, thread and
/// text, of the channel type that it names, or `channel` where it names none.
/// It mentions the bot exactly where the event is a mention or the bot's mention
/// stands somewhere in the text.
pub proof fn law_messages_are_their_events(
    event: SlackEvent,
    bot_user_id: Option<Seq<char>>,
    msg: SlackInboundMessage,
)
    requires
        message_in(event, bot_user_id) == Some(msg@),
    ensures
        msg.user_id@ == event.user->0@,
        msg.username is None,
        msg.sender_name is None,
        msg.channel_id@ == event.channel->0@,
        msg.channel_type@ == if event.channel_type is Some {
            event.channel_type->0@
        } else {
            "channel"@
        },
        msg.ts@ == event.ts->0@,
        msg.thread_ts is Some <==> event.thread_ts is Some,
        event.thread_ts is Some ==> msg.thread_ts->0@ == event.thread_ts->0@,
        msg.text@ == if event.text is Some {
            event.text->0@
        } else {
            Seq::<char>::empty()
        },
        msg.bot_mentioned <==> event.event_type@ == "app_mention"@ || (bot_user_id matches Some(id)
            && stands_in(msg.text@, seq!['<', '@'] + id + seq!['>'])),
{
    reveal_strlit("<@");
    reveal_strlit(">");
    if let Some(id) = bot_user_id {
        assert("<@"@ =~= seq!['<', '@']);
        assert(">"@ =~= seq!['>']);
        text::law_contains(msg.text@, mention_of(id));
    }
    assert(text::opt_view(msg.username) is None);
    assert(text::opt_view(msg.sender_name) is None);
    assert(text::opt_view(msg.thread_ts) == text::opt_view(event.thread_ts));
}

/// An envelope is acknowledged by its id and nothing else.
pub proof fn law_acknowledgement(envelope_id: Seq<char>)
    ensures
        ack_text(envelope_id) == json::object_text(
            seq![("envelope_id"@, envelope_id)],
            Seq::empty(),
        ),
{
}

/// An envelope carries the event of its payload.
pub proof fn law_envelope_carries(envelope: SocketEnvelope)
    ensures
        event_in(envelope) is Some <==> envelope.payload is Some && envelope.payload->0.event is Some,
        event_in(envelope) is Some ==> event_in(envelope) == envelope.payload->0.event,
{
}

} // verus!
