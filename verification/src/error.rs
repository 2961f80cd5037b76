//! What can go wrong.

use vstd::prelude::*;

use crate::text;

verus! {

/// The calls to Slack's web API.
#[derive(Debug, Clone, Copy, PartialEq, Eq, Structural)]
pub enum ApiCall {
    PostMessage,
    UpdateMessage,
    OpenConnection,
    AuthTest,
}

impl ApiCall {
    /// The address of the call.
    pub open spec fn url_view(self) -> Seq<char> {
        match self {
            ApiCall::PostMessage => "https://slack.com/api/chat.postMessage"@,
            ApiCall::UpdateMessage => "https://slack.com/api/chat.update"@,
            ApiCall::OpenConnection => "https://slack.com/api/apps.connections.open"@,
            ApiCall::AuthTest => "https://slack.com/api/auth.test"@,
        }
    }

    /// The address of the call.
    pub fn url(&self) -> (r: &'static str)
        ensures
            r@ == self.url_view(),
    {
        match self {
            ApiCall::PostMessage => "https://slack.com/api/chat.postMessage",
            ApiCall::UpdateMessage => "https://slack.com/api/chat.update",
            ApiCall::OpenConnection => "https://slack.com/api/apps.connections.open",
            ApiCall::AuthTest => "https://slack.com/api/auth.test",
        }
    }

    /// How the news that the call was refused begins.
    pub open spec fn failure_view(self) -> Seq<char> {
        match self {
            ApiCall::PostMessage => "slack chat.postMessage failed: "@,
            ApiCall::UpdateMessage => "slack chat.update failed: "@,
            ApiCall::OpenConnection => "apps.connections.open failed: "@,
            ApiCall::AuthTest => "slack auth.test failed: "@,
        }
    }

    fn failure(&self) -> (r: &'static str)
        ensures
            r@ == self.failure_view(),
    {
        match self {
            ApiCall::PostMessage => "slack chat.postMessage failed: ",
            ApiCall::UpdateMessage => "slack chat.update failed: ",
            ApiCall::OpenConnection => "apps.connections.open failed: ",
            ApiCall::AuthTest => "slack auth.test failed: ",
        }
    }
}

/// What can go wrong.
#[derive(Debug, Clone, PartialEq, Eq)]
pub enum SlackError {
    /// A message was to be sent from an account that is not there.
    UnknownAccount(String),
    /// A message came in for, or settings were given to, an account that is not
    /// there.
    AccountNotFound(String),
    /// The socket loop runs for an account that is not there.
    AccountStateMissing(String),
    /// Slack refused a call, for this reason.
    Api { call: ApiCall, reason: String },
    /// Slack did not say which message it posted.
    MissingTs,
    /// Slack did not say where to connect.
    MissingUrl,
    /// An account has no app token.
    AppTokenRequired,
    /// An account has no bot token.
    BotTokenRequired,
    /// The socket could not be read.
    SocketRead(String),
    /// A text has no character boundary where a chunk has to end.
    CutInsideCharacter,
}

impl SlackError {
    /// The error in words.
    pub open spec fn message_view(self) -> Seq<char> {
        match self {
            SlackError::UnknownAccount(id) => "unknown account: "@ + id@,
            SlackError::AccountNotFound(id) => "account not found: "@ + id@,
            SlackError::AccountStateMissing(id) => "account state missing: "@ + id@,
            SlackError::Api { call, reason } => call.failure_view() + reason@,
            SlackError::MissingTs => "missing ts from slack postMessage response"@,
            SlackError::MissingUrl => "apps.connections.open response missing url"@,
            SlackError::AppTokenRequired => "slack app_token is required"@,
            SlackError::BotTokenRequired => "slack bot_token is required"@,
            SlackError::SocketRead(e) => "websocket read error: "@ + e@,
            SlackError::CutInsideCharacter => "a chunk would end inside a character"@,
        }
    }

    /// The error in words.
    pub fn message(&self) -> (r: String)
        ensures
            r@ == self.message_view(),
    {
        match self {
            SlackError::UnknownAccount(id) => text::joined("unknown account: ", id.as_str()),
            SlackError::AccountNotFound(id) => text::joined("account not found: ", id.as_str()),
            SlackError::AccountStateMissing(id) => {
                text::joined("account state missing: ", id.as_str())
            },
            SlackError::Api { call, reason } => text::joined(call.failure(), reason.as_str()),
            SlackError::MissingTs => "missing ts from slack postMessage response".to_owned(),
            SlackError::MissingUrl => "apps.connections.open response missing url".to_owned(),
            SlackError::AppTokenRequired => "slack app_token is required".to_owned(),
            SlackError::BotTokenRequired => "slack bot_token is required".to_owned(),
            SlackError::SocketRead(e) => text::joined("websocket read error: ", e.as_str()),
            SlackError::CutInsideCharacter => "a chunk would end inside a character".to_owned(),
        }
    }
}

/// The reason that Slack gives for a refusal, or a stand-in for it.
pub open spec fn reason_view(error: Option<String>) -> Seq<char> {
    match error {
        Some(e) => e@,
        None => "unknown error"@,
    }
}

/// What Slack's answer to a call, `ok` and `error`, comes to.
pub fn check_response(call: ApiCall, ok: bool, error: Option<String>) -> (r: Result<
    (),
    SlackError,
>)
    ensures
        r is Ok <==> ok,
        r matches Err(e) ==> {
            &&& e matches SlackError::Api { call: c, reason }
            &&& c == call
            &&& reason@ == reason_view(error)
        },
{
    if ok {
        return Ok(());
    }
    let reason = match error {
        Some(e) => e,
        None => "unknown error".to_owned(),
    };
    Err(SlackError::Api { call, reason })
}

// ---------------------------------------------------------------------------
// Laws
// ---------------------------------------------------------------------------

/// Each error says what went wrong, and of what.
pub proof fn law_errors_in_words(s: String)
    ensures
        SlackError::UnknownAccount(s).message_view() == "unknown account: "@ + s@,
        SlackError::AccountNotFound(s).message_view() == "account not found: "@ + s@,
        SlackError::AccountStateMissing(s).message_view() == "account state missing: "@ + s@,
        SlackError::SocketRead(s).message_view() == "websocket read error: "@ + s@,
        SlackError::MissingTs.message_view() == "missing ts from slack postMessage response"@,
        SlackError::MissingUrl.message_view() == "apps.connections.open response missing url"@,
        SlackError::AppTokenRequired.message_view() == "slack app_token is required"@,
        SlackError::BotTokenRequired.message_view() == "slack bot_token is required"@,
{
}

/// A refused call is told with its name and Slack's reason, or that the reason
/// is unknown.
pub proof fn law_refusals_in_words(error: Option<String>, reason: String)
    requires
        reason@ == reason_view(error),
    ensures
        reason@ == match error {
            Some(e) => e@,
            None => "unknown error"@,
        },
        (SlackError::Api { call: ApiCall::PostMessage, reason }).message_view()
            == "slack chat.postMessage failed: "@ + reason@,
        (SlackError::Api { call: ApiCall::UpdateMessage, reason }).message_view()
            == "slack chat.update failed: "@ + reason@,
        (SlackError::Api { call: ApiCall::OpenConnection, reason }).message_view()
            == "apps.connections.open failed: "@ + reason@,
        (SlackError::Api { call: ApiCall::AuthTest, reason }).message_view()
            == "slack auth.test failed: "@ + reason@,
{
}

/// Each call has its own address.
pub proof fn law_addresses()
    ensures
        ApiCall::PostMessage.url_view() == "https://slack.com/api/chat.postMessage"@,
        ApiCall::UpdateMessage.url_view() == "https://slack.com/api/chat.update"@,
        ApiCall::OpenConnection.url_view() == "https://slack.com/api/apps.connections.open"@,
        ApiCall::AuthTest.url_view() == "https://slack.com/api/auth.test"@,
{
}

} // verus!
