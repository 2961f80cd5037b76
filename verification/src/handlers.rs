//! What is done with a message that comes in.

use vstd::prelude::*;

use crate::access;
use crate::access::{AccessDenied, ChatType};
use crate::channel::{
    ChannelEvent, ChannelMessageKind, ChannelMessageMeta, ChannelReplyTarget, ChannelType,
    EventModel, LogModel, MessageLogEntry, MetaModel, OutboundModel, OutboundText, TargetModel,
};
use crate::clock;
use crate::config::SlackAccountConfig;
use crate::decimal;
use crate::error::SlackError;
use crate::otp;
use crate::otp::{InitModel, OtpChallengeInfo, OtpInitResult, OtpModel, OtpVerifyResult};
use crate::state::{AccountState, AccountStateMap};
use crate::text;

verus! {

/// What a sender who is asked for a code is told.
pub const OTP_CHALLENGE_MSG: &'static str = "To use this bot, enter the verification code. Ask the bot owner for the code from Channels -> Senders. The code expires in 5 minutes.";

/// What the command `help` answers.
pub const HELP_MSG: &'static str = "Available commands:\n/new\n/sessions\n/model\n/sandbox\n/clear\n/compact\n/context\n/help";

/// A message from Slack.
#[derive(Debug, Clone)]
pub struct SlackInboundMessage {
    pub user_id: String,
    pub username: Option<String>,
    pub sender_name: Option<String>,
    pub channel_id: String,
    pub channel_type: String,
    pub ts: String,
    pub thread_ts: Option<String>,
    pub text: String,
    pub bot_mentioned: bool,
}

/// What a [`SlackInboundMessage`] says.
pub struct MessageModel {
    pub user_id: Seq<char>,
    pub username: Option<Seq<char>>,
    pub sender_name: Option<Seq<char>>,
    pub channel_id: Seq<char>,
    pub channel_type: Seq<char>,
    pub ts: Seq<char>,
    pub thread_ts: Option<Seq<char>>,
    pub text: Seq<char>,
    pub bot_mentioned: bool,
}

impl View for SlackInboundMessage {
    type V = MessageModel;

    open spec fn view(&self) -> MessageModel {
        MessageModel {
            user_id: self.user_id@,
            username: text::opt_view(self.username),
            sender_name: text::opt_view(self.sender_name),
            channel_id: self.channel_id@,
            channel_type: self.channel_type@,
            ts: self.ts@,
            thread_ts: text::opt_view(self.thread_ts),
            text: self.text@,
            bot_mentioned: self.bot_mentioned,
        }
    }
}

impl MessageModel {
    /// A message in Slack's channel type `im` is a direct message.
    pub open spec fn chat_type(self) -> ChatType {
        if self.channel_type == "im"@ {
            ChatType::Dm
        } else {
            ChatType::Channel
        }
    }

    /// Who or what has to be on the allowlist: the sender of a direct message,
    /// the channel of any other.
    pub open spec fn gate_id(self) -> Seq<char> {
        match self.chat_type() {
            ChatType::Dm => self.user_id,
            ChatType::Channel => self.channel_id,
        }
    }

    /// Whether the message is let through.
    pub open spec fn access(self, config: SlackAccountConfig) -> Result<(), AccessDenied> {
        access::access(config, self.chat_type(), self.gate_id(), self.bot_mentioned)
    }

    /// Where the answer goes: the channel, in the message's thread or in one
    /// below it.
    pub open spec fn target(self, account_id: Seq<char>) -> TargetModel {
        TargetModel {
            channel_type: ChannelType::Slack,
            account_id,
            chat_id: self.channel_id,
            message_id: Some(
                match self.thread_ts {
                    Some(ts) => ts,
                    None => self.ts,
                },
            ),
        }
    }

    /// A text for the message's channel, in its thread if it has one.
    pub open spec fn reply(self, text: Seq<char>) -> OutboundModel {
        OutboundModel { chat_id: self.channel_id, text, thread_ts: self.thread_ts }
    }
}

// ---------------------------------------------------------------------------
// Commands
// ---------------------------------------------------------------------------

/// `s` without the slashes that it begins with.
pub open spec fn without_slashes(s: Seq<char>) -> Seq<char>
    decreases s.len(),
{
    if s.len() > 0 && s[0] == '/' {
        without_slashes(s.skip(1))
    } else {
        s
    }
}

/// What stands in `s` before its first white space.
pub open spec fn leading_word(s: Seq<char>) -> Seq<char>
    decreases s.len(),
{
    if s.len() == 0 || text::is_space(s[0]) {
        Seq::empty()
    } else {
        seq![s[0]] + leading_word(s.skip(1))
    }
}

/// The first word of `s`; empty if there is none.
pub open spec fn first_word(s: Seq<char>) -> Seq<char> {
    leading_word(text::trim_start(s))
}

/// Whether `word` is a command.
pub open spec fn is_command(word: Seq<char>) -> bool {
    ||| word == "new"@
    ||| word == "clear"@
    ||| word == "compact"@
    ||| word == "context"@
    ||| word == "model"@
    ||| word == "sandbox"@
    ||| word == "sessions"@
    ||| word == "help"@
}

/// The command that a text is: what follows its slashes, where the first word
/// of that is a command.
pub open spec fn command_in(body: Seq<char>) -> Option<Seq<char>> {
    let command = without_slashes(body);
    if body.len() > 0 && body[0] == '/' && is_command(first_word(command)) {
        Some(command)
    } else {
        None
    }
}

fn known_command(word: &str) -> (r: bool)
    ensures
        r == is_command(word@),
{
    text::same_text(word, "new") || text::same_text(word, "clear") || text::same_text(
        word,
        "compact",
    ) || text::same_text(word, "context") || text::same_text(word, "model") || text::same_text(
        word,
        "sandbox",
    ) || text::same_text(word, "sessions") || text::same_text(word, "help")
}

/// The first word of a text; empty if there is none.
fn word_of(s: &str) -> (r: String)
    ensures
        r@ == first_word(s@),
{
    let v = text::chars_of(s);
    let n: usize = v.len();
    let from = text::trimmed_start(&v, 0, n);
    let mut i: usize = from;
    proof {
        assert(v@.subrange(0, n as int) == s@);
        assert(v@.skip(from as int) == v@.subrange(from as int, n as int));
        assert(v@.subrange(from as int, from as int) == Seq::<char>::empty());
        assert(leading_word(v@.skip(from as int)) =~= Seq::<char>::empty() + leading_word(
            v@.skip(from as int),
        ));
    }
    while i < n && !text::is_white_space(v[i])
        invariant
            n == v@.len(),
            from <= i <= n,
            leading_word(v@.skip(from as int)) == v@.subrange(from as int, i as int)
                + leading_word(v@.skip(i as int)),
        decreases n - i,
    {
        proof {
            assert(v@.skip(i as int).skip(1) == v@.skip(i + 1));
            assert(v@.subrange(from as int, i + 1) =~= v@.subrange(from as int, i as int)
                + seq![v@[i as int]]);
            assert(leading_word(v@.skip(from as int)) =~= v@.subrange(from as int, i + 1)
                + leading_word(v@.skip(i + 1)));
        }
        i = i + 1;
    }
    proof {
        assert(leading_word(v@.skip(i as int)) == Seq::<char>::empty());
        assert(leading_word(v@.skip(from as int)) =~= v@.subrange(from as int, i as int));
    }
    text::string_of(&v, from, i)
}

/// The command that a trimmed text is.
fn find_command(body: &str) -> (r: Option<String>)
    ensures
        text::opt_view(r) == command_in(body@),
{
    let v = text::chars_of(body);
    let n: usize = v.len();
    let mut i: usize = 0;
    proof {
        assert(v@.skip(0) == v@);
    }
    while i < n && v[i] == '/'
        invariant
            n == v@.len(),
            i <= n,
            i > 0 ==> v@[0] == '/',
            without_slashes(v@) == without_slashes(v@.skip(i as int)),
        decreases n - i,
    {
        proof {
            assert(v@.skip(i as int).skip(1) == v@.skip(i + 1));
        }
        i = i + 1;
    }
    if i == 0 {
        return None;
    }
    proof {
        assert(v@.skip(i as int) == v@.subrange(i as int, n as int));
    }
    let command = text::string_of(&v, i, n);
    if known_command(word_of(command.as_str()).as_str()) {
        Some(command)
    } else {
        None
    }
}

// ---------------------------------------------------------------------------
// The plan for a message
// ---------------------------------------------------------------------------

/// What is done once a message is logged and announced.
#[derive(Debug, Clone)]
pub enum InboundAction {
    /// Nothing.
    Ignore,
    /// Let the sender approve themselves with a code.
    VerifySender,
    /// Send a text to the target.
    Answer { text: String, target: ChannelReplyTarget },
    /// Run a command and send what comes of it to the target.
    RunCommand { command: String, target: ChannelReplyTarget },
    /// Hand the text to the chat.
    Dispatch { text: String, target: ChannelReplyTarget, meta: ChannelMessageMeta },
}

/// What an [`InboundAction`] says.
pub enum ActionModel {
    Ignore,
    VerifySender,
    Answer { text: Seq<char>, target: TargetModel },
    RunCommand { command: Seq<char>, target: TargetModel },
    Dispatch { text: Seq<char>, target: TargetModel, meta: MetaModel },
}

impl View for InboundAction {
    type V = ActionModel;

    open spec fn view(&self) -> ActionModel {
        match self {
            InboundAction::Ignore => ActionModel::Ignore,
            InboundAction::VerifySender => ActionModel::VerifySender,
            InboundAction::Answer { text, target } => ActionModel::Answer {
                text: text@,
                target: target@,
            },
            InboundAction::RunCommand { command, target } => ActionModel::RunCommand {
                command: command@,
                target: target@,
            },
            InboundAction::Dispatch { text, target, meta } => ActionModel::Dispatch {
                text: text@,
                target: target@,
                meta: meta@,
            },
        }
    }
}

/// An announcement that may be missing.
pub open spec fn event_view(event: Option<ChannelEvent>) -> Option<EventModel> {
    match event {
        Some(e) => Some(e@),
        None => None,
    }
}

/// What is done with a message, in this order.
#[derive(Debug, Clone)]
pub struct InboundPlan {
    pub log_entry: Option<MessageLogEntry>,
    pub event: Option<ChannelEvent>,
    pub action: InboundAction,
}

/// What an [`InboundPlan`] says.
pub struct PlanModel {
    pub log_entry: Option<LogModel>,
    pub event: Option<EventModel>,
    pub action: ActionModel,
}

impl View for InboundPlan {
    type V = PlanModel;

    open spec fn view(&self) -> PlanModel {
        PlanModel {
            log_entry: match self.log_entry {
                Some(e) => Some(e@),
                None => None,
            },
            event: event_view(self.event),
            action: self.action@,
        }
    }
}

/// The log entry for a message.
pub open spec fn log_view(
    account_id: Seq<char>,
    msg: MessageModel,
    access_granted: bool,
    created_at: i64,
) -> LogModel {
    LogModel {
        id: 0,
        account_id,
        channel_type: ChannelType::Slack.name_view(),
        peer_id: msg.user_id,
        username: msg.username,
        sender_name: msg.sender_name,
        chat_id: msg.channel_id,
        chat_type: match msg.chat_type() {
            ChatType::Dm => "dm"@,
            ChatType::Channel => "channel"@,
        },
        body: msg.text,
        access_granted,
        created_at,
    }
}

/// The announcement of a message.
pub open spec fn inbound_event(
    account_id: Seq<char>,
    msg: MessageModel,
    access_granted: bool,
) -> EventModel {
    EventModel::InboundMessage {
        channel_type: ChannelType::Slack,
        account_id,
        peer_id: msg.user_id,
        username: msg.username,
        sender_name: msg.sender_name,
        message_count: None,
        access_granted,
    }
}

/// What is done with a message that is let through, where somebody listens.
pub open spec fn granted_action(
    config: SlackAccountConfig,
    account_id: Seq<char>,
    msg: MessageModel,
) -> ActionModel {
    let body = text::trim(msg.text);
    match command_in(body) {
        Some(command) => if first_word(command) == "help"@ {
            ActionModel::Answer { text: HELP_MSG@, target: msg.target(account_id) }
        } else {
            ActionModel::RunCommand { command, target: msg.target(account_id) }
        },
        None => ActionModel::Dispatch {
            text: body,
            target: msg.target(account_id),
            meta: MetaModel {
                channel_type: ChannelType::Slack,
                sender_name: msg.sender_name,
                username: msg.username,
                message_kind: Some(ChannelMessageKind::Text),
                model: text::opt_view(config.model),
            },
        },
    }
}

/// What is done with a message.
pub open spec fn inbound_action(
    config: SlackAccountConfig,
    has_sink: bool,
    account_id: Seq<char>,
    msg: MessageModel,
) -> ActionModel {
    match msg.access(config) {
        Err(reason) => if reason == AccessDenied::DmNotAllowed && config.otp_self_approval {
            ActionModel::VerifySender
        } else {
            ActionModel::Ignore
        },
        Ok(_) => if has_sink {
            granted_action(config, account_id, msg)
        } else {
            ActionModel::Ignore
        },
    }
}

/// The plan for a message that comes in at the second `created_at`.
pub open spec fn inbound_plan<L, S, C>(
    state: AccountState<L, S, C>,
    account_id: Seq<char>,
    msg: MessageModel,
    created_at: i64,
) -> PlanModel {
    let access_granted = msg.access(state.config) is Ok;
    PlanModel {
        log_entry: if state.message_log is Some {
            Some(log_view(account_id, msg, access_granted, created_at))
        } else {
            None
        },
        event: if state.event_sink is Some {
            Some(inbound_event(account_id, msg, access_granted))
        } else {
            None
        },
        action: inbound_action(state.config, state.event_sink is Some, account_id, msg),
    }
}

fn make_target(account_id: &str, msg: &SlackInboundMessage) -> (r: ChannelReplyTarget)
    ensures
        r@ == msg@.target(account_id@),
{
    let ts = match &msg.thread_ts {
        Some(ts) => ts.clone(),
        None => msg.ts.clone(),
    };
    ChannelReplyTarget {
        channel_type: ChannelType::Slack,
        account_id: account_id.to_owned(),
        chat_id: msg.channel_id.clone(),
        message_id: Some(ts),
    }
}

fn chat_type_of(msg: &SlackInboundMessage) -> (r: ChatType)
    ensures
        r == msg@.chat_type(),
{
    if text::same_text(msg.channel_type.as_str(), "im") {
        ChatType::Dm
    } else {
        ChatType::Channel
    }
}

fn make_log_entry(
    account_id: &str,
    msg: &SlackInboundMessage,
    access_granted: bool,
    created_at: i64,
) -> (r: MessageLogEntry)
    ensures
        r@ == log_view(account_id@, msg@, access_granted, created_at),
{
    let chat_type = match chat_type_of(msg) {
        ChatType::Dm => "dm",
        ChatType::Channel => "channel",
    };
    MessageLogEntry {
        id: 0,
        account_id: account_id.to_owned(),
        channel_type: ChannelType::Slack.name().to_owned(),
        peer_id: msg.user_id.clone(),
        username: text::opt_clone(&msg.username),
        sender_name: text::opt_clone(&msg.sender_name),
        chat_id: msg.channel_id.clone(),
        chat_type: chat_type.to_owned(),
        body: msg.text.clone(),
        access_granted,
        created_at,
    }
}

fn make_event(account_id: &str, msg: &SlackInboundMessage, access_granted: bool) -> (r:
    ChannelEvent)
    ensures
        r@ == inbound_event(account_id@, msg@, access_granted),
{
    ChannelEvent::InboundMessage {
        channel_type: ChannelType::Slack,
        account_id: account_id.to_owned(),
        peer_id: msg.user_id.clone(),
        username: text::opt_clone(&msg.username),
        sender_name: text::opt_clone(&msg.sender_name),
        message_count: None,
        access_granted,
    }
}

fn decide_granted(config: &SlackAccountConfig, account_id: &str, msg: &SlackInboundMessage) -> (r:
    InboundAction)
    ensures
        r@ == granted_action(*config, account_id@, msg@),
{
    let body = text::trimmed(msg.text.as_str());
    let target = make_target(account_id, msg);
    match find_command(body.as_str()) {
        Some(command) => {
            let word = word_of(command.as_str());
            if text::same_text(word.as_str(), "help") {
                InboundAction::Answer { text: HELP_MSG.to_owned(), target }
            } else {
                InboundAction::RunCommand { command, target }
            }
        },
        None => InboundAction::Dispatch {
            text: body,
            target,
            meta: ChannelMessageMeta {
                channel_type: ChannelType::Slack,
                sender_name: text::opt_clone(&msg.sender_name),
                username: text::opt_clone(&msg.username),
                message_kind: Some(ChannelMessageKind::Text),
                model: text::opt_clone(&config.model),
            },
        },
    }
}

/// The plan for a message of an account that comes in at the second
/// `created_at`.
pub fn plan_inbound<L, S, C>(
    state: &AccountState<L, S, C>,
    account_id: &str,
    msg: &SlackInboundMessage,
    created_at: i64,
) -> (r: InboundPlan)
    ensures
        r@ == inbound_plan(*state, account_id@, msg@, created_at),
{
    let chat_type = chat_type_of(msg);
    let gate_id = match chat_type {
        ChatType::Dm => msg.user_id.as_str(),
        ChatType::Channel => msg.channel_id.as_str(),
    };
    let access_result = access::check_access(
        &state.config,
        chat_type,
        gate_id,
        msg.bot_mentioned,
    );
    let access_granted = access_result.is_ok();
    let log_entry = if state.message_log.is_some() {
        Some(make_log_entry(account_id, msg, access_granted, created_at))
    } else {
        None
    };
    let event = if state.event_sink.is_some() {
        Some(make_event(account_id, msg, access_granted))
    } else {
        None
    };
    let action = match access_result {
        Err(reason) => {
            if reason == AccessDenied::DmNotAllowed && state.config.otp_self_approval {
                InboundAction::VerifySender
            } else {
                InboundAction::Ignore
            }
        },
        Ok(_) => {
            if state.event_sink.is_some() {
                decide_granted(&state.config, account_id, msg)
            } else {
                InboundAction::Ignore
            }
        },
    };
    InboundPlan { log_entry, event, action }
}

/// The plan for a message that comes in now.
pub fn handle_inbound_message<L, S, C>(
    accounts: &AccountStateMap<L, S, C>,
    account_id: &str,
    msg: &SlackInboundMessage,
) -> (r: Result<InboundPlan, SlackError>)
    ensures
        match r {
            Ok(plan) => accounts@.contains_key(account_id@) && exists|created_at: i64|
                plan@ == #[trigger] inbound_plan(
                    accounts@[account_id@],
                    account_id@,
                    msg@,
                    created_at,
                ),
            Err(e) => {
                &&& !accounts@.contains_key(account_id@)
                &&& e matches SlackError::AccountNotFound(id)
                &&& id@ == account_id@
            },
        },
{
    match accounts.get(account_id) {
        Some(state) => {
            let created_at = clock::seconds_since_epoch(clock::wall_clock());
            Ok(plan_inbound(state, account_id, msg, created_at))
        },
        None => Err(SlackError::AccountNotFound(account_id.to_owned())),
    }
}

/// What is sent for a command that was run.
pub open spec fn command_answer(result: Result<String, String>) -> Seq<char> {
    match result {
        Ok(v) => v@,
        Err(e) => "Error: "@ + e@,
    }
}

/// What is sent for a command that was run.
pub fn command_response(result: Result<String, String>) -> (r: String)
    ensures
        r@ == command_answer(result),
{
    match result {
        Ok(v) => v,
        Err(e) => text::joined("Error: ", e.as_str()),
    }
}

// ---------------------------------------------------------------------------
// Self-approval
// ---------------------------------------------------------------------------

/// An approval to ask for, and its announcement.
#[derive(Debug, Clone)]
pub struct SenderApproval {
    pub channel_type: String,
    pub account_id: String,
    pub peer_id: String,
    pub event: ChannelEvent,
}

/// What a [`SenderApproval`] says.
pub struct ApprovalModel {
    pub channel_type: Seq<char>,
    pub account_id: Seq<char>,
    pub peer_id: Seq<char>,
    pub event: EventModel,
}

impl View for SenderApproval {
    type V = ApprovalModel;

    open spec fn view(&self) -> ApprovalModel {
        ApprovalModel {
            channel_type: self.channel_type@,
            account_id: self.account_id@,
            peer_id: self.peer_id@,
            event: self.event@,
        }
    }
}

/// What is done for a sender who is not on the allowlist.
#[derive(Debug, Clone)]
pub enum OtpStep {
    /// Nothing.
    Ignore,
    /// Send a text.
    Reply(OutboundText),
    /// Ask for the approval, where somebody listens, then send a text.
    Approve { approval: Option<SenderApproval>, reply: OutboundText },
    /// Send a text, then announce the challenge.
    Challenge(OutboundText),
}

/// What an [`OtpStep`] says.
pub enum StepModel {
    Ignore,
    Reply(OutboundModel),
    Approve { approval: Option<ApprovalModel>, reply: OutboundModel },
    Challenge(OutboundModel),
}

impl View for OtpStep {
    type V = StepModel;

    open spec fn view(&self) -> StepModel {
        match self {
            OtpStep::Ignore => StepModel::Ignore,
            OtpStep::Reply(t) => StepModel::Reply(t@),
            OtpStep::Approve { approval, reply } => StepModel::Approve {
                approval: match *approval {
                    Some(a) => Some(a@),
                    None => None,
                },
                reply: reply@,
            },
            OtpStep::Challenge(t) => StepModel::Challenge(t@),
        }
    }
}

/// Whether a text looks like a code: six bytes, all of them digits.
pub open spec fn is_code(s: Seq<char>) -> bool {
    text::byte_len(s) == 6 && forall|i: int| 0 <= i < s.len() ==> decimal::is_digit(#[trigger] s[i])
}

/// What is done once a code was verified.
pub open spec fn verified_step(
    result: OtpVerifyResult,
    account_id: Seq<char>,
    msg: MessageModel,
    has_sink: bool,
) -> StepModel {
    match result {
        OtpVerifyResult::Approved => StepModel::Approve {
            approval: if has_sink {
                Some(
                    ApprovalModel {
                        channel_type: ChannelType::Slack.name_view(),
                        account_id,
                        peer_id: msg.user_id,
                        event: EventModel::OtpResolved {
                            channel_type: ChannelType::Slack,
                            account_id,
                            peer_id: msg.user_id,
                            username: msg.username,
                            resolution: "approved"@,
                        },
                    },
                )
            } else {
                None
            },
            reply: msg.reply("Verified! You now have access."@),
        },
        OtpVerifyResult::WrongCode { attempts_left } => StepModel::Reply(
            msg.reply(
                "Incorrect code. "@ + decimal::decimal(attempts_left as nat)
                    + " attempts remaining."@,
            ),
        ),
        OtpVerifyResult::LockedOut => StepModel::Reply(
            msg.reply("Too many failed attempts. Try again later."@),
        ),
        OtpVerifyResult::Expired => StepModel::Reply(
            msg.reply("Code expired. Send a message to receive a new one."@),
        ),
        OtpVerifyResult::NoPending => StepModel::Ignore,
    }
}

/// What is done once a challenge was asked for.
pub open spec fn initiated_step(result: InitModel, msg: MessageModel) -> StepModel {
    match result {
        InitModel::Created(_) | InitModel::AlreadyPending => StepModel::Challenge(
            msg.reply(OTP_CHALLENGE_MSG@),
        ),
        InitModel::LockedOut => StepModel::Reply(
            msg.reply("Too many failed attempts. Try again later."@),
        ),
    }
}

/// What is done for a sender who is not on the allowlist, and what becomes of
/// the codes. `pending` is whether the sender has a challenge; `now` is the
/// moment and `code` the code that a new challenge gets.
pub open spec fn otp_flow(
    otp: OtpModel,
    account_id: Seq<char>,
    msg: MessageModel,
    has_sink: bool,
    pending: bool,
    now: nat,
    code: Seq<char>,
) -> (OtpModel, StepModel) {
    let body = text::trim(msg.text);
    if pending && !is_code(body) {
        (otp, StepModel::Ignore)
    } else if pending {
        let (after, result) = otp.verify(msg.user_id, body, now);
        (after, verified_step(result, account_id, msg, has_sink))
    } else {
        let (after, result) = otp.initiate(
            msg.user_id,
            msg.username,
            msg.sender_name,
            now,
            code,
        );
        (after, initiated_step(result, msg))
    }
}

/// The announcement of the challenge of a sender, if the sender has one.
pub open spec fn challenge_event_view(
    otp: OtpModel,
    account_id: Seq<char>,
    peer_id: Seq<char>,
    now: nat,
    wall: int,
) -> Option<EventModel> {
    if otp.pending(peer_id, now) {
        let info = otp.info(peer_id, now, wall);
        Some(
            EventModel::OtpChallenge {
                channel_type: ChannelType::Slack,
                account_id,
                peer_id: info.peer_id,
                username: info.username,
                sender_name: info.sender_name,
                code: info.code,
                expires_at: info.expires_at,
            },
        )
    } else {
        None
    }
}

/// Whether a text looks like a code.
pub fn looks_like_code(body: &str) -> (r: bool)
    ensures
        r == is_code(body@),
{
    let v = text::chars_of(body);
    let n: usize = v.len();
    let mut i: usize = 0;
    while i < n
        invariant
            n == v@.len(),
            v@ == body@,
            i <= n,
            forall|j: int| 0 <= j < i ==> decimal::is_digit(#[trigger] v@[j]),
        decreases n - i,
    {
        if !('0' <= v[i] && v[i] <= '9') {
            proof {
                assert(!decimal::is_digit(v@[i as int]));
            }
            return false;
        }
        i = i + 1;
    }
    proof {
        assert(vstd::utf8::is_ascii_chars(body@)) by {
            assert forall|j: int| 0 <= j < body@.len() implies '\0' <= #[trigger] body@[j]
                <= '\u{7f}' by {
                assert(decimal::is_digit(v@[j]));
            }
        }
        vstd::utf8::is_ascii_chars_encode_utf8(body@);
    }
    n == 6
}

fn make_reply(msg: &SlackInboundMessage, body: String) -> (r: OutboundText)
    ensures
        r@ == msg@.reply(body@),
{
    OutboundText {
        chat_id: msg.channel_id.clone(),
        text: body,
        thread_ts: text::opt_clone(&msg.thread_ts),
    }
}

/// What is done once a code was verified.
pub fn after_verify(
    result: OtpVerifyResult,
    account_id: &str,
    msg: &SlackInboundMessage,
    has_sink: bool,
) -> (r: OtpStep)
    ensures
        r@ == verified_step(result, account_id@, msg@, has_sink),
{
    match result {
        OtpVerifyResult::Approved => {
            let approval = if has_sink {
                Some(
                    SenderApproval {
                        channel_type: ChannelType::Slack.name().to_owned(),
                        account_id: account_id.to_owned(),
                        peer_id: msg.user_id.clone(),
                        event: ChannelEvent::OtpResolved {
                            channel_type: ChannelType::Slack,
                            account_id: account_id.to_owned(),
                            peer_id: msg.user_id.clone(),
                            username: text::opt_clone(&msg.username),
                            resolution: "approved".to_owned(),
                        },
                    },
                )
            } else {
                None
            };
            let reply = make_reply(msg, "Verified! You now have access.".to_owned());
            OtpStep::Approve { approval, reply }
        },
        OtpVerifyResult::WrongCode { attempts_left } => {
            let count = decimal::decimal_text(attempts_left);
            let head = text::joined("Incorrect code. ", count.as_str());
            let body = text::joined(head.as_str(), " attempts remaining.");
            OtpStep::Reply(make_reply(msg, body))
        },
        OtpVerifyResult::LockedOut => {
            let body = "Too many failed attempts. Try again later.".to_owned();
            OtpStep::Reply(make_reply(msg, body))
        },
        OtpVerifyResult::Expired => {
            let body = "Code expired. Send a message to receive a new one.".to_owned();
            OtpStep::Reply(make_reply(msg, body))
        },
        OtpVerifyResult::NoPending => OtpStep::Ignore,
    }
}

/// What is done once a challenge was asked for.
pub fn after_initiate(result: &OtpInitResult, msg: &SlackInboundMessage) -> (r: OtpStep)
    ensures
        r@ == initiated_step(result@, msg@),
{
    match result {
        OtpInitResult::Created(_) => {
            OtpStep::Challenge(make_reply(msg, OTP_CHALLENGE_MSG.to_owned()))
        },
        OtpInitResult::AlreadyPending => {
            OtpStep::Challenge(make_reply(msg, OTP_CHALLENGE_MSG.to_owned()))
        },
        OtpInitResult::LockedOut => {
            let body = "Too many failed attempts. Try again later.".to_owned();
            OtpStep::Reply(make_reply(msg, body))
        },
    }
}

/// Goes on with the self-approval of a sender: verifies a code where a
/// challenge is pending at the moment `asked`, and asks for a challenge where
/// none is. The code is verified, or the challenge asked for, at the moment
/// `now`; `code` is the code that a new challenge gets.
pub fn advance_otp_at(
    otp: &mut otp::OtpState,
    account_id: &str,
    msg: &SlackInboundMessage,
    has_sink: bool,
    asked: u128,
    now: u128,
    code: String,
) -> (r: OtpStep)
    requires
        now <= clock::LAST_TICK,
    ensures
        (final(otp)@, r@) == otp_flow(
            old(otp)@,
            account_id@,
            msg@,
            has_sink,
            old(otp)@.pending(msg@.user_id, asked as nat),
            now as nat,
            code@,
        ),
        final(otp).clock() == old(otp).clock(),
        old(otp)@.wf() && final(otp)@.wf(),
{
    let peer = msg.user_id.as_str();
    if otp.has_pending_at(peer, asked) {
        let body = text::trimmed(msg.text.as_str());
        if !looks_like_code(body.as_str()) {
            return OtpStep::Ignore;
        }
        let result = otp.verify_at(peer, body.as_str(), now);
        return after_verify(result, account_id, msg, has_sink);
    }
    let result = otp.initiate_at(
        peer,
        text::opt_clone(&msg.username),
        text::opt_clone(&msg.sender_name),
        now,
        code,
    );
    after_initiate(&result, msg)
}

/// What becomes of the accounts, and what is done, once the self-approval of a
/// sender goes on. Of the account only its codes change, and of them not the
/// clock; where the account is not there, nothing is done.
pub open spec fn flows<L, S, C>(
    before: Map<Seq<char>, AccountState<L, S, C>>,
    after: Map<Seq<char>, AccountState<L, S, C>>,
    step: StepModel,
    account_id: Seq<char>,
    msg: MessageModel,
    has_sink: bool,
    asked: nat,
    now: nat,
    code: Seq<char>,
) -> bool {
    if before.contains_key(account_id) {
        let was = before[account_id];
        let is = after[account_id];
        &&& after == before.insert(account_id, AccountState { otp: is.otp, ..was })
        &&& is.otp.clock() == was.otp.clock()
        &&& was.otp@.wf() && is.otp@.wf()
        &&& (is.otp@, step) == otp_flow(
            was.otp@,
            account_id,
            msg,
            has_sink,
            was.otp@.pending(msg.user_id, asked),
            now,
            code,
        )
    } else {
        step is Ignore && after == before
    }
}

/// Goes on with the self-approval of a sender at the moments `asked` and `now`
/// of the account's clock; `code` is the code that a new challenge gets.
pub fn handle_otp_flow_at<L, S, C>(
    accounts: &mut AccountStateMap<L, S, C>,
    account_id: &str,
    msg: &SlackInboundMessage,
    has_sink: bool,
    asked: u128,
    now: u128,
    code: String,
) -> (r: OtpStep)
    requires
        now <= clock::LAST_TICK,
    ensures
        flows(
            old(accounts)@,
            final(accounts)@,
            r@,
            account_id@,
            msg@,
            has_sink,
            asked as nat,
            now as nat,
            code@,
        ),
{
    let ghost was = accounts@;
    match accounts.remove(account_id) {
        Some(mut state) => {
            let step = advance_otp_at(
                &mut state.otp,
                account_id,
                msg,
                has_sink,
                asked,
                now,
                code,
            );
            accounts.insert(account_id, state);
            proof {
                assert(accounts@ =~= was.insert(
                    account_id@,
                    AccountState { otp: accounts@[account_id@].otp, ..was[account_id@] },
                ));
            }
            step
        },
        None => {
            proof {
                assert(accounts@ =~= was);
            }
            OtpStep::Ignore
        },
    }
}

/// Goes on with the self-approval of a sender. Whether a challenge is pending
/// is asked no later than its code is verified.
pub fn handle_otp_flow<L, S, C>(
    accounts: &mut AccountStateMap<L, S, C>,
    account_id: &str,
    msg: &SlackInboundMessage,
    has_sink: bool,
) -> (r: OtpStep)
    ensures
        exists|asked: nat, now: nat, code: Seq<char>|
            asked <= now <= clock::LAST_TICK && otp::is_otp_code(code) && #[trigger] flows(
                old(accounts)@,
                final(accounts)@,
                r@,
                account_id@,
                msg@,
                has_sink,
                asked,
                now,
                code,
            ),
{
    let (asked, now) = match accounts.get(account_id) {
        Some(state) => {
            let asked = state.otp.now();
            (asked, state.otp.now_after(asked))
        },
        None => (0, 0),
    };
    let code = otp::generate_otp_code();
    let ghost given = code@;
    let step = handle_otp_flow_at(accounts, account_id, msg, has_sink, asked, now, code);
    proof {
        assert(flows(
            old(accounts)@,
            accounts@,
            step@,
            account_id@,
            msg@,
            has_sink,
            asked as nat,
            now as nat,
            given,
        ));
    }
    step
}

/// The announcement of a sender's challenge, taken from the list of pending
/// ones.
pub fn event_for(infos: &Vec<OtpChallengeInfo>, account_id: &str, peer_id: &str) -> (r: Option<
    ChannelEvent,
>)
    ensures
        match r {
            Some(e) => exists|i: int|
                0 <= i < infos@.len() && (#[trigger] infos@[i])@.peer_id == peer_id@ && (forall|
                    j: int,
                |
                    0 <= j < i ==> (#[trigger] infos@[j])@.peer_id != peer_id@) && e@
                    == (EventModel::OtpChallenge {
                    channel_type: ChannelType::Slack,
                    account_id: account_id@,
                    peer_id: infos@[i]@.peer_id,
                    username: infos@[i]@.username,
                    sender_name: infos@[i]@.sender_name,
                    code: infos@[i]@.code,
                    expires_at: infos@[i]@.expires_at,
                }),
            None => forall|i: int| 0 <= i < infos@.len() ==> (#[trigger] infos@[i])@.peer_id
                != peer_id@,
        },
{
    let n: usize = infos.len();
    let mut i: usize = 0;
    while i < n
        invariant
            n == infos@.len(),
            i <= n,
            forall|j: int| 0 <= j < i ==> (#[trigger] infos@[j])@.peer_id != peer_id@,
        decreases n - i,
    {
        let c = &infos[i];
        if text::same_text(c.peer_id.as_str(), peer_id) {
            let event = ChannelEvent::OtpChallenge {
                channel_type: ChannelType::Slack,
                account_id: account_id.to_owned(),
                peer_id: c.peer_id.clone(),
                username: text::opt_clone(&c.username),
                sender_name: text::opt_clone(&c.sender_name),
                code: c.code.clone(),
                expires_at: c.expires_at,
            };
            assert(infos@[i as int]@.peer_id == peer_id@);
            return Some(event);
        }
        i = i + 1;
    }
    None
}

/// The announcement of the challenge of a message's sender, if the account is
/// there and the sender has a challenge that has not expired at the moment
/// `now`, which is `wall` on the wall clock.
pub fn challenge_event_at<L, S, C>(
    accounts: &AccountStateMap<L, S, C>,
    account_id: &str,
    msg: &SlackInboundMessage,
    now: u128,
    wall: i128,
) -> (r: Option<ChannelEvent>)
    requires
        now <= clock::LAST_TICK,
        -clock::LAST_TICK <= wall <= clock::LAST_TICK,
    ensures
        !accounts@.contains_key(account_id@) ==> r is None,
        accounts@.contains_key(account_id@) ==> event_view(r) == challenge_event_view(
            accounts@[account_id@].otp@,
            account_id@,
            msg@.user_id,
            now as nat,
            wall as int,
        ),
{
    match accounts.get(account_id) {
        Some(state) => {
            let infos = state.otp.list_pending_at(now, wall);
            let ghost otp = state.otp@;
            let ghost views = otp::info_views(infos@);
            let r = event_for(&infos, account_id, msg.user_id.as_str());
            proof {
                let peer = msg@.user_id;
                assert forall|i: int| 0 <= i < infos@.len() implies views[i] == (
                #[trigger] infos@[i])@ by {}
                match event_view(r) {
                    Some(e) => {
                        let i = choose|i: int|
                            0 <= i < infos@.len() && (#[trigger] infos@[i])@.peer_id == peer && (
                            forall|j: int| 0 <= j < i ==> (#[trigger] infos@[j])@.peer_id != peer)
                                && e == (EventModel::OtpChallenge {
                                channel_type: ChannelType::Slack,
                                account_id: account_id@,
                                peer_id: infos@[i]@.peer_id,
                                username: infos@[i]@.username,
                                sender_name: infos@[i]@.sender_name,
                                code: infos@[i]@.code,
                                expires_at: infos@[i]@.expires_at,
                            });
                        assert(views[i] == infos@[i]@);
                        assert(otp.pending(peer, now as nat));
                    },
                    None => {
                        if otp.pending(peer, now as nat) {
                            let i = choose|i: int|
                                0 <= i < views.len() && (#[trigger] views[i]).peer_id == peer;
                            assert(infos@[i]@.peer_id == peer);
                        }
                    },
                }
            }
            r
        },
        None => None,
    }
}

/// The announcement of the challenge of a message's sender, if the account is
/// there and the sender has a challenge that has not expired.
pub fn challenge_event<L, S, C>(
    accounts: &AccountStateMap<L, S, C>,
    account_id: &str,
    msg: &SlackInboundMessage,
) -> (r: Option<ChannelEvent>)
    ensures
        !accounts@.contains_key(account_id@) ==> r is None,
        accounts@.contains_key(account_id@) ==> exists|now: nat, wall: int|
            now <= clock::LAST_TICK && -clock::LAST_TICK <= wall <= clock::LAST_TICK
                && event_view(r) == #[trigger] challenge_event_view(
                accounts@[account_id@].otp@,
                account_id@,
                msg@.user_id,
                now,
                wall,
            ),
{
    match accounts.get(account_id) {
        Some(state) => {
            let now = state.otp.now();
            let wall = clock::wall_clock();
            let r = challenge_event_at(accounts, account_id, msg, now, wall);
            proof {
                assert(event_view(r) == challenge_event_view(
                    state.otp@,
                    account_id@,
                    msg@.user_id,
                    now as nat,
                    wall as int,
                ));
            }
            r
        },
        None => None,
    }
}

// ---------------------------------------------------------------------------
// Laws
// ---------------------------------------------------------------------------

/// A message that is not let through never reaches the chat, and runs no
/// command.
pub proof fn law_denied_is_not_dispatched(
    config: SlackAccountConfig,
    has_sink: bool,
    account_id: Seq<char>,
    msg: MessageModel,
)
    ensures
        msg.access(config) is Err ==> {
            let action = inbound_action(config, has_sink, account_id, msg);
            action is Ignore || action is VerifySender
        },
{
}

/// A message that is let through is answered, run as a command or dispatched
/// where somebody listens, and what is dispatched is its text without white
/// space at the ends.
pub proof fn law_granted_is_handled(
    config: SlackAccountConfig,
    account_id: Seq<char>,
    msg: MessageModel,
)
    requires
        msg.access(config) is Ok,
    ensures
        ({
            let action = inbound_action(config, true, account_id, msg);
            &&& action is Answer || action is RunCommand || action is Dispatch
            &&& action is Dispatch <==> command_in(text::trim(msg.text)) is None
            &&& action is Dispatch ==> action->Dispatch_text == text::trim(msg.text)
        }),
{
}

/// Self-approval is offered to direct messages from senders off the allowlist
/// alone, and only where the settings allow it.
pub proof fn law_self_approval_is_for_unlisted_dms(
    config: SlackAccountConfig,
    has_sink: bool,
    account_id: Seq<char>,
    msg: MessageModel,
)
    ensures
        inbound_action(config, has_sink, account_id, msg) is VerifySender <==> {
            &&& config.otp_self_approval
            &&& msg.chat_type() == ChatType::Dm
            &&& config.dm_policy == crate::gating::DmPolicy::Allowlist
            &&& msg.access(config) is Err
        },
{
}

/// A sender is approved only for answering the code of the sender's own
/// pending challenge, and is then told so.
pub proof fn law_approval_needs_the_code(
    otp: OtpModel,
    account_id: Seq<char>,
    msg: MessageModel,
    has_sink: bool,
    asked: nat,
    now: nat,
    code: Seq<char>,
)
    ensures
        otp_flow(
            otp,
            account_id,
            msg,
            has_sink,
            otp.pending(msg.user_id, asked),
            now,
            code,
        ).1 is Approve ==> {
            &&& otp.challenges.contains_key(msg.user_id)
            &&& otp.challenges[msg.user_id].code == text::trim(msg.text)
            &&& now < otp.challenges[msg.user_id].expires_at
        },
{
}

/// While a challenge is pending, a text that does not look like a code gets no
/// answer and changes nothing: no attempt is used up.
pub proof fn law_chat_is_passed_over(
    otp: OtpModel,
    account_id: Seq<char>,
    msg: MessageModel,
    has_sink: bool,
    asked: nat,
    now: nat,
    code: Seq<char>,
)
    requires
        otp.pending(msg.user_id, asked),
        !is_code(text::trim(msg.text)),
    ensures
        otp_flow(
            otp,
            account_id,
            msg,
            has_sink,
            otp.pending(msg.user_id, asked),
            now,
            code,
        ) == (otp, StepModel::Ignore),
{
}

/// A sender who has neither a challenge nor a lockout gets a new challenge,
/// whatever the text. The sender is told to enter the code, in the thread of
/// the message, and the announcement of the challenge, made before the code
/// expires, carries the code and the sender.
pub proof fn law_new_sender_is_challenged(
    otp: OtpModel,
    account_id: Seq<char>,
    msg: MessageModel,
    has_sink: bool,
    asked: nat,
    now: nat,
    code: Seq<char>,
    later: nat,
    wall: int,
)
    requires
        asked <= now,
        !otp.pending(msg.user_id, asked),
        !otp.locked(msg.user_id, now),
        later < now + otp::OTP_TTL,
    ensures
        ({
            let (after, step) = otp_flow(
                otp,
                account_id,
                msg,
                has_sink,
                otp.pending(msg.user_id, asked),
                now,
                code,
            );
            &&& step == StepModel::Challenge(
                OutboundModel {
                    chat_id: msg.channel_id,
                    text: OTP_CHALLENGE_MSG@,
                    thread_ts: msg.thread_ts,
                },
            )
            &&& after.pending(msg.user_id, later)
            &&& challenge_event_view(after, account_id, msg.user_id, later, wall) == Some(
                EventModel::OtpChallenge {
                    channel_type: ChannelType::Slack,
                    account_id,
                    peer_id: msg.user_id,
                    username: msg.username,
                    sender_name: msg.sender_name,
                    code,
                    expires_at: clock::epoch_deadline(wall, now + otp::OTP_TTL - later),
                },
            )
        }),
{
}

/// A sender with a pending challenge is approved exactly for answering its
/// code, white space around it aside: where somebody listens, they are asked to
/// approve this sender of this account, and the sender is told. A wrong answer
/// that looks like a code gets one reply: how many attempts are left, or that
/// there were too many.
pub proof fn law_pending_sender_is_approved_for_the_code_alone(
    otp: OtpModel,
    account_id: Seq<char>,
    msg: MessageModel,
    has_sink: bool,
    asked: nat,
    now: nat,
    spare: Seq<char>,
)
    requires
        otp.wf(),
        otp.pending(msg.user_id, asked),
        otp.pending(msg.user_id, now),
        otp::is_otp_code(otp.challenges[msg.user_id].code),
    ensures
        ({
            let challenge = otp.challenges[msg.user_id];
            let answer = text::trim(msg.text);
            let pending = otp.pending(msg.user_id, asked);
            let step = otp_flow(otp, account_id, msg, has_sink, pending, now, spare).1;
            &&& step is Approve <==> answer == challenge.code
            &&& step is Approve ==> {
                &&& step->approval is Some <==> has_sink
                &&& step->approval matches Some(a) ==> a == (ApprovalModel {
                    channel_type: "slack"@,
                    account_id,
                    peer_id: msg.user_id,
                    event: EventModel::OtpResolved {
                        channel_type: ChannelType::Slack,
                        account_id,
                        peer_id: msg.user_id,
                        username: msg.username,
                        resolution: "approved"@,
                    },
                })
                &&& step->reply == (OutboundModel {
                    chat_id: msg.channel_id,
                    text: "Verified! You now have access."@,
                    thread_ts: msg.thread_ts,
                })
            }
            &&& is_code(answer) && answer != challenge.code ==> step == StepModel::Reply(
                OutboundModel {
                    chat_id: msg.channel_id,
                    text: if challenge.attempts >= 2 {
                        "Too many failed attempts. Try again later."@
                    } else {
                        "Incorrect code. "@ + decimal::decimal((2 - challenge.attempts) as nat)
                            + " attempts remaining."@
                    },
                    thread_ts: msg.thread_ts,
                },
            )
        }),
{
    let code = otp.challenges[msg.user_id].code;
    assert(is_code(code)) by {
        otp::law_codes_have_six_digits(code);
        assert forall|j: int| 0 <= j < code.len() implies '\0' <= #[trigger] code[j]
            <= '\u{7f}' by {
            assert(decimal::is_digit(code[j]));
        }
        vstd::utf8::is_ascii_chars_encode_utf8(code);
    }
}

/// A sender who is locked out is told so, and nothing changes: neither with a
/// text nor with a code.
pub proof fn law_locked_out_sender_is_told(
    otp: OtpModel,
    account_id: Seq<char>,
    msg: MessageModel,
    has_sink: bool,
    asked: nat,
    now: nat,
    code: Seq<char>,
)
    requires
        otp.wf(),
        otp.locked(msg.user_id, now),
    ensures
        otp_flow(
            otp,
            account_id,
            msg,
            has_sink,
            otp.pending(msg.user_id, asked),
            now,
            code,
        ) == (
            otp,
            StepModel::Reply(
                OutboundModel {
                    chat_id: msg.channel_id,
                    text: "Too many failed attempts. Try again later."@,
                    thread_ts: msg.thread_ts,
                },
            ),
        ),
{
}

/// A code that comes too late, though its challenge was pending when that was
/// asked, ends the challenge, and the sender is told.
pub proof fn law_late_code_is_told(
    otp: OtpModel,
    account_id: Seq<char>,
    msg: MessageModel,
    has_sink: bool,
    asked: nat,
    now: nat,
    code: Seq<char>,
)
    requires
        otp.wf(),
        otp.pending(msg.user_id, asked),
        !otp.pending(msg.user_id, now),
        is_code(text::trim(msg.text)),
    ensures
        ({
            let pending = otp.pending(msg.user_id, asked);
            let (after, step) = otp_flow(otp, account_id, msg, has_sink, pending, now, code);
            &&& after.challenges == otp.challenges.remove(msg.user_id)
            &&& step == StepModel::Reply(
                OutboundModel {
                    chat_id: msg.channel_id,
                    text: "Code expired. Send a message to receive a new one."@,
                    thread_ts: msg.thread_ts,
                },
            )
        }),
{
}

/// A text looks like a code exactly where it is six of the digits `0` to `9`.
pub proof fn law_code_shape(s: Seq<char>)
    ensures
        is_code(s) <==> s.len() == 6 && forall|i: int| 0 <= i < 6 ==> '0' <= #[trigger] s[i] <= '9',
{
    if forall|i: int| 0 <= i < s.len() ==> decimal::is_digit(#[trigger] s[i]) {
        assert forall|j: int| 0 <= j < s.len() implies '\0' <= #[trigger] s[j] <= '\u{7f}' by {
            assert(decimal::is_digit(s[j]));
        }
        vstd::utf8::is_ascii_chars_encode_utf8(s);
    }
}

/// A message in a channel of type `im` is a direct message and is judged by its
/// sender; any other is judged by its channel.
pub proof fn law_what_a_message_is_judged_by(config: SlackAccountConfig, msg: SlackInboundMessage)
    ensures
        msg@.access(config) == if msg.channel_type@ == "im"@ {
            access::access(config, ChatType::Dm, msg.user_id@, msg.bot_mentioned)
        } else {
            access::access(config, ChatType::Channel, msg.channel_id@, msg.bot_mentioned)
        },
{
}

/// The answer to a message that is let through goes where the message came from,
/// for direct messages and channels alike: to its channel, in its thread, or in
/// one below it where it is in none. What goes along to the chat says who sent
/// it and which model the account asks for.
pub proof fn law_answer_goes_back(
    config: SlackAccountConfig,
    has_sink: bool,
    account_id: Seq<char>,
    msg: SlackInboundMessage,
    action: InboundAction,
)
    requires
        action@ == inbound_action(config, has_sink, account_id, msg@),
    ensures
        ({
            let target = match action {
                InboundAction::Answer { target, .. } => Some(target),
                InboundAction::RunCommand { target, .. } => Some(target),
                InboundAction::Dispatch { target, .. } => Some(target),
                _ => None,
            };
            target matches Some(t) ==> {
                &&& has_sink
                &&& t.channel_type == ChannelType::Slack
                &&& t.account_id@ == account_id
                &&& t.chat_id@ == msg.channel_id@
                &&& t.message_id is Some
                &&& t.message_id->0@ == if msg.thread_ts is Some {
                    msg.thread_ts->0@
                } else {
                    msg.ts@
                }
            }
        }),
        action matches InboundAction::Dispatch { text, meta, .. } ==> {
            &&& text@ == text::trim(msg.text@)
            &&& meta.channel_type == ChannelType::Slack
            &&& meta.message_kind == Some(ChannelMessageKind::Text)
            &&& text::opt_view(meta.username) == text::opt_view(msg.username)
            &&& text::opt_view(meta.sender_name) == text::opt_view(msg.sender_name)
            &&& text::opt_view(meta.model) == text::opt_view(config.model)
        },
{
}

/// A text that may be missing is there exactly where its characters are.
pub proof fn law_missing_texts(s: Option<String>)
    ensures
        text::opt_view(s) is Some <==> s is Some,
        s is Some ==> text::opt_view(s)->0 == s->0@,
{
}

/// A message is logged where there is a log, and announced where somebody
/// listens, whether it is let through or not: as what it is, from whom and
/// where, and whether it was let through.
pub proof fn law_what_is_recorded<L, S, C>(
    state: AccountState<L, S, C>,
    account_id: Seq<char>,
    msg: SlackInboundMessage,
    created_at: i64,
    plan: InboundPlan,
)
    requires
        plan@ == inbound_plan(state, account_id, msg@, created_at),
    ensures
        plan.log_entry is Some <==> state.message_log is Some,
        plan.log_entry matches Some(e) ==> {
            &&& e.id == 0
            &&& e.account_id@ == account_id
            &&& e.channel_type@ == "slack"@
            &&& e.peer_id@ == msg.user_id@
            &&& text::opt_view(e.username) == text::opt_view(msg.username)
            &&& text::opt_view(e.sender_name) == text::opt_view(msg.sender_name)
            &&& e.chat_id@ == msg.channel_id@
            &&& e.chat_type@ == if msg.channel_type@ == "im"@ {
                "dm"@
            } else {
                "channel"@
            }
            &&& e.body@ == msg.text@
            &&& e.access_granted == (msg@.access(state.config) is Ok)
            &&& e.created_at == created_at
        },
        plan.event is Some <==> state.event_sink is Some,
        plan.event matches Some(e) ==> {
            &&& e matches ChannelEvent::InboundMessage {
                channel_type,
                account_id: account,
                peer_id,
                username,
                sender_name,
                message_count,
                access_granted,
            }
            &&& channel_type == ChannelType::Slack
            &&& account@ == account_id
            &&& peer_id@ == msg.user_id@
            &&& text::opt_view(username) == text::opt_view(msg.username)
            &&& text::opt_view(sender_name) == text::opt_view(msg.sender_name)
            &&& message_count is None
            &&& access_granted == (msg@.access(state.config) is Ok)
        },
        plan.action@ == inbound_action(state.config, state.event_sink is Some, account_id, msg@),
{
}

/// What a step says is what it does: the texts are sent where it says, and the
/// approval is asked for whom it says.
pub proof fn law_steps_say_what_they_do(step: OtpStep)
    ensures
        step is Ignore <==> step@ is Ignore,
        step matches OtpStep::Reply(t) ==> step@ is Reply && says(t, step@->Reply_0),
        step matches OtpStep::Challenge(t) ==> step@ is Challenge && says(t, step@->Challenge_0),
        step matches OtpStep::Approve { approval, reply } ==> {
            &&& step@ is Approve
            &&& says(reply, step@->reply)
            &&& approval is Some <==> step@->approval is Some
            &&& approval matches Some(a) ==> {
                let m = step@->approval->0;
                &&& a.channel_type@ == m.channel_type
                &&& a.account_id@ == m.account_id
                &&& a.peer_id@ == m.peer_id
                &&& a.event@ == m.event
            }
        },
{
}

/// Whether a text to send is this one, to this chat and thread.
pub open spec fn says(t: OutboundText, m: OutboundModel) -> bool {
    &&& t.chat_id@ == m.chat_id
    &&& t.text@ == m.text
    &&& t.thread_ts is Some <==> m.thread_ts is Some
    &&& t.thread_ts is Some ==> t.thread_ts->0@ == m.thread_ts->0
}

/// The announcement of a challenge, and of its end, hold what they say.
pub proof fn law_events_say_what_they_hold(e: ChannelEvent)
    ensures
        e matches ChannelEvent::OtpChallenge {
            channel_type,
            account_id,
            peer_id,
            username,
            sender_name,
            code,
            expires_at,
        } ==> e@ == (EventModel::OtpChallenge {
            channel_type,
            account_id: account_id@,
            peer_id: peer_id@,
            username: text::opt_view(username),
            sender_name: text::opt_view(sender_name),
            code: code@,
            expires_at,
        }),
        e matches ChannelEvent::OtpResolved {
            channel_type,
            account_id,
            peer_id,
            username,
            resolution,
        } ==> e@ == (EventModel::OtpResolved {
            channel_type,
            account_id: account_id@,
            peer_id: peer_id@,
            username: text::opt_view(username),
            resolution: resolution@,
        }),
{
}

/// A message holds what it says.
pub proof fn law_messages_say_what_they_hold(msg: SlackInboundMessage)
    ensures
        msg@.user_id == msg.user_id@,
        msg@.username == text::opt_view(msg.username),
        msg@.sender_name == text::opt_view(msg.sender_name),
        msg@.channel_id == msg.channel_id@,
        msg@.channel_type == msg.channel_type@,
        msg@.ts == msg.ts@,
        msg@.thread_ts == text::opt_view(msg.thread_ts),
        msg@.text == msg.text@,
        msg@.bot_mentioned == msg.bot_mentioned,
{
}

/// What a command answers is sent as it is; a failure is sent as an error.
pub proof fn law_command_answers(answer: String, failure: String)
    ensures
        command_answer(Ok::<String, String>(answer)) == answer@,
        command_answer(Err::<String, String>(failure)) == "Error: "@ + failure@,
{
}

/// Self-approval touches nothing but the codes of the account it is about; where
/// the account is not there, it touches nothing and does nothing.
pub proof fn law_self_approval_touches_codes_alone<L, S, C>(
    before: Map<Seq<char>, AccountState<L, S, C>>,
    after: Map<Seq<char>, AccountState<L, S, C>>,
    step: StepModel,
    account_id: Seq<char>,
    msg: MessageModel,
    has_sink: bool,
    asked: nat,
    now: nat,
    code: Seq<char>,
)
    requires
        flows(before, after, step, account_id, msg, has_sink, asked, now, code),
    ensures
        after.dom() == before.dom(),
        forall|id: Seq<char>|
            id != account_id && before.contains_key(id) ==> #[trigger] after[id] == before[id],
        !before.contains_key(account_id) ==> step is Ignore,
        before.contains_key(account_id) ==> {
            let was = before[account_id];
            let is = after[account_id];
            &&& is.account_id == was.account_id
            &&& is.config == was.config
            &&& is.bot_user_id == was.bot_user_id
            &&& is.cancel == was.cancel
            &&& is.message_log == was.message_log
            &&& is.event_sink == was.event_sink
            &&& is.otp.clock() == was.otp.clock()
            &&& (is.otp@, step) == otp_flow(
                was.otp@,
                account_id,
                msg,
                has_sink,
                was.otp@.pending(msg.user_id, asked),
                now,
                code,
            )
        },
{
    assert(after.dom() =~= before.dom());
}

// ---------------------------------------------------------------------------
// Laws on commands
// ---------------------------------------------------------------------------

/// Whether `word` is one of the commands, by name.
pub open spec fn is_named_command(word: Seq<char>) -> bool {
    ||| word == "new"@ || word == "clear"@ || word == "compact"@ || word == "context"@
    ||| word == "model"@ || word == "sandbox"@ || word == "sessions"@ || word == "help"@
}

/// Whether `word` is a word that begins with no slash.
pub open spec fn is_word(word: Seq<char>) -> bool {
    &&& word.len() > 0
    &&& word[0] != '/'
    &&& forall|i: int| 0 <= i < word.len() ==> !text::is_space(#[trigger] word[i])
}

/// Whether `args` is empty or stands apart from what is before it.
pub open spec fn stands_apart(args: Seq<char>) -> bool {
    args.len() > 0 ==> text::is_space(args[0])
}

/// Whether `gap` is white space.
pub open spec fn is_blank(gap: Seq<char>) -> bool {
    forall|i: int| 0 <= i < gap.len() ==> text::is_space(#[trigger] gap[i])
}

proof fn lemma_leading_word(word: Seq<char>, args: Seq<char>)
    requires
        forall|i: int| 0 <= i < word.len() ==> !text::is_space(#[trigger] word[i]),
        stands_apart(args),
    ensures
        leading_word(word + args) == word,
    decreases word.len(),
{
    let all = word + args;
    if word.len() > 0 {
        let less = word.skip(1);
        assert(all.skip(1) =~= less + args);
        assert forall|i: int| 0 <= i < less.len() implies !text::is_space(#[trigger] less[i]) by {
            assert(less[i] == word[i + 1]);
        }
        lemma_leading_word(less, args);
        assert(!text::is_space(word[0]));
        assert(seq![all[0]] + less =~= word);
    } else {
        assert(all =~= args);
    }
}

proof fn lemma_first_word(gap: Seq<char>, word: Seq<char>, args: Seq<char>)
    requires
        is_blank(gap),
        is_word(word),
        stands_apart(args),
    ensures
        first_word(gap + word + args) == word,
    decreases gap.len(),
{
    let all = gap + word + args;
    if gap.len() == 0 {
        assert(all =~= word + args);
        assert(!text::is_space(word[0]));
        lemma_leading_word(word, args);
    } else {
        let less = gap.skip(1);
        assert(text::is_space(gap[0]));
        assert(all.drop_first() =~= less + word + args);
        assert forall|i: int| 0 <= i < less.len() implies text::is_space(#[trigger] less[i]) by {
            assert(less[i] == gap[i + 1]);
        }
        lemma_first_word(less, word, args);
    }
}

proof fn lemma_slashes(slashes: Seq<char>, rest: Seq<char>)
    requires
        forall|i: int| 0 <= i < slashes.len() ==> slashes[i] == '/',
        rest.len() > 0 ==> rest[0] != '/',
    ensures
        without_slashes(slashes + rest) == rest,
    decreases slashes.len(),
{
    let all = slashes + rest;
    if slashes.len() == 0 {
        assert(all =~= rest);
    } else {
        assert(all.skip(1) =~= slashes.skip(1) + rest);
        lemma_slashes(slashes.skip(1), rest);
    }
}

/// A text of slashes and a word, with whatever stands apart behind it, is a
/// command exactly where the word is the name of one. A command other than
/// `help` is run with all that follows the slashes; `help` is answered with the
/// list of commands; a text that is no command reaches the chat.
pub proof fn law_commands(
    config: SlackAccountConfig,
    account_id: Seq<char>,
    msg: MessageModel,
    slashes: Seq<char>,
    gap: Seq<char>,
    word: Seq<char>,
    args: Seq<char>,
)
    requires
        msg.access(config) is Ok,
        slashes.len() > 0,
        forall|i: int| 0 <= i < slashes.len() ==> slashes[i] == '/',
        is_blank(gap),
        is_word(word),
        stands_apart(args),
        text::trim(msg.text) == slashes + (gap + word + args),
    ensures
        ({
            let action = inbound_action(config, true, account_id, msg);
            &&& action is RunCommand <==> is_named_command(word) && word != "help"@
            &&& action is RunCommand ==> action->command == gap + word + args
            &&& action is Answer <==> word == "help"@
            &&& action is Answer ==> action->Answer_text
                == "Available commands:\n/new\n/sessions\n/model\n/sandbox\n/clear\n/compact\n/context\n/help"@
            &&& action is Dispatch <==> !is_named_command(word)
            &&& action is Dispatch ==> action->Dispatch_text == text::trim(msg.text)
        }),
{
    let rest = gap + word + args;
    let body = slashes + rest;
    if gap.len() > 0 {
        assert(text::is_space(gap[0]));
        assert(rest[0] == gap[0]);
    } else {
        assert(rest[0] == word[0]);
    }
    lemma_slashes(slashes, rest);
    lemma_first_word(gap, word, args);
    assert(body[0] == '/');
}

/// A text that does not begin with a slash, white space aside, is no command:
/// it reaches the chat.
pub proof fn law_chat_is_no_command(
    config: SlackAccountConfig,
    account_id: Seq<char>,
    msg: MessageModel,
)
    requires
        msg.access(config) is Ok,
        text::trim(msg.text).len() > 0 ==> text::trim(msg.text)[0] != '/',
    ensures
        ({
            let action = inbound_action(config, true, account_id, msg);
            action is Dispatch && action->Dispatch_text == text::trim(msg.text)
        }),
{
}

proof fn lemma_commands_are_words()
    ensures
        !is_command(first_word(Seq::<char>::empty())),
{
    reveal_strlit("new");
    reveal_strlit("clear");
    reveal_strlit("compact");
    reveal_strlit("context");
    reveal_strlit("model");
    reveal_strlit("sandbox");
    reveal_strlit("sessions");
    reveal_strlit("help");
}

/// A text of nothing but slashes is no command: it reaches the chat.
pub proof fn law_slashes_are_no_command(
    config: SlackAccountConfig,
    account_id: Seq<char>,
    msg: MessageModel,
)
    requires
        msg.access(config) is Ok,
        forall|i: int| 0 <= i < text::trim(msg.text).len() ==> text::trim(msg.text)[i] == '/',
    ensures
        ({
            let action = inbound_action(config, true, account_id, msg);
            action is Dispatch && action->Dispatch_text == text::trim(msg.text)
        }),
{
    let body = text::trim(msg.text);
    let nothing = Seq::<char>::empty();
    assert(body + nothing =~= body);
    lemma_slashes(body, nothing);
    lemma_commands_are_words();
}

// ---------------------------------------------------------------------------
// Laws on self-approval
// ---------------------------------------------------------------------------

/// What an answer that looks like a code does to a pending challenge: the right
/// one ends it, a wrong one counts, and the third wrong one ends it and locks the
/// sender out for the cooldown.
pub proof fn law_answers_count(
    otp: OtpModel,
    account_id: Seq<char>,
    msg: MessageModel,
    has_sink: bool,
    asked: nat,
    now: nat,
    spare: Seq<char>,
)
    requires
        otp.wf(),
        otp.pending(msg.user_id, asked),
        otp.pending(msg.user_id, now),
        is_code(text::trim(msg.text)),
    ensures
        ({
            let peer = msg.user_id;
            let c = otp.challenges[peer];
            let right = text::trim(msg.text) == c.code;
            let pending = otp.pending(peer, asked);
            let after = otp_flow(otp, account_id, msg, has_sink, pending, now, spare).0;
            &&& right ==> after.challenges == otp.challenges.remove(peer)
            &&& !right && c.attempts < 2 ==> after.challenges == otp.challenges.insert(
                peer,
                otp::ChallengeModel { attempts: c.attempts + 1, ..c },
            )
            &&& !right && c.attempts >= 2 ==> {
                &&& after.challenges == otp.challenges.remove(peer)
                &&& after.lockouts == otp.lockouts.insert(peer, now + otp.cooldown)
            }
            &&& right || c.attempts < 2 ==> !after.locked(peer, now)
        }),
{
    otp::law_answers(otp, msg.user_id, text::trim(msg.text), now);
}

/// Self-approval of one sender leaves the challenges and lockouts of the others
/// alone.
pub proof fn law_senders_are_apart(
    otp: OtpModel,
    account_id: Seq<char>,
    msg: MessageModel,
    has_sink: bool,
    pending: bool,
    now: nat,
    code: Seq<char>,
    other: Seq<char>,
)
    requires
        other != msg.user_id,
    ensures
        ({
            let after = otp_flow(otp, account_id, msg, has_sink, pending, now, code).0;
            &&& after.challenges.contains_key(other) == otp.challenges.contains_key(other)
            &&& after.challenges[other] == otp.challenges[other]
            &&& after.lockouts.contains_key(other) == otp.lockouts.contains_key(other)
            &&& after.lockouts[other] == otp.lockouts[other]
            &&& after.cooldown == otp.cooldown
        }),
{
}

/// A challenge is announced exactly while it is pending, with its code, its
/// sender and its end.
pub proof fn law_announcements(
    otp: OtpModel,
    account_id: Seq<char>,
    peer: Seq<char>,
    now: nat,
    wall: int,
)
    requires
        otp.wf(),
    ensures
        ({
            let c = otp.challenges[peer];
            challenge_event_view(otp, account_id, peer, now, wall) == if otp.challenges.contains_key(
                peer,
            ) && now < c.expires_at {
                Some(
                    EventModel::OtpChallenge {
                        channel_type: ChannelType::Slack,
                        account_id,
                        peer_id: peer,
                        username: c.username,
                        sender_name: c.sender_name,
                        code: c.code,
                        expires_at: clock::epoch_deadline(wall, c.expires_at - now),
                    },
                )
            } else {
                None
            }
        }),
{
}

/// What a sender is told goes to the channel of the message and to its thread,
/// and is the same whatever the sender wrote: of a new or a pending challenge, of
/// a lockout, of a code that is late. An answer that finds no challenge is not
/// answered.
pub proof fn law_what_a_sender_is_told(
    account_id: Seq<char>,
    msg: MessageModel,
    has_sink: bool,
    code: Seq<char>,
)
    ensures
        ({
            let told = |text: Seq<char>|
                OutboundModel { chat_id: msg.channel_id, text, thread_ts: msg.thread_ts };
            let enter = StepModel::Challenge(
                told(
                    "To use this bot, enter the verification code. Ask the bot owner for the code from Channels -> Senders. The code expires in 5 minutes."@,
                ),
            );
            let too_many = StepModel::Reply(told("Too many failed attempts. Try again later."@));
            let late = StepModel::Reply(
                told("Code expired. Send a message to receive a new one."@),
            );
            let verified = |r: OtpVerifyResult| verified_step(r, account_id, msg, has_sink);
            &&& initiated_step(InitModel::Created(code), msg) == enter
            &&& initiated_step(InitModel::AlreadyPending, msg) == enter
            &&& initiated_step(InitModel::LockedOut, msg) == too_many
            &&& verified(OtpVerifyResult::LockedOut) == too_many
            &&& verified(OtpVerifyResult::Expired) == late
            &&& verified(OtpVerifyResult::NoPending) == StepModel::Ignore
        }),
{
}

} // verus!
