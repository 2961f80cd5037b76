//! The settings of a Slack account.

use vstd::prelude::*;

use crate::gating::{DmPolicy, GroupPolicy, MentionMode};
use crate::text;

verus! {

/// How a streamed answer is shown.
#[derive(Debug, Clone, Copy, PartialEq, Eq, Structural)]
pub enum StreamMode {
    /// One message that is edited as text arrives.
    EditInPlace,
    /// One message at the end.
    Off,
}

impl Default for StreamMode {
    fn default() -> (r: Self)
        ensures
            r == StreamMode::EditInPlace,
    {
        StreamMode::EditInPlace
    }
}

/// A credential. It has no `Debug`, so it cannot be printed by accident.
#[derive(Clone)]
pub struct Token {
    text: String,
}

impl View for Token {
    type V = Seq<char>;

    closed spec fn view(&self) -> Seq<char> {
        self.text@
    }
}

impl Token {
    /// A credential that holds `text`.
    pub fn new(text: String) -> (r: Token)
        ensures
            r@ == text@,
    {
        Token { text }
    }

    /// The text of the credential.
    pub fn expose(&self) -> (r: &str)
        ensures
            r@ == self@,
    {
        self.text.as_str()
    }
}

/// The settings of a Slack account.
#[derive(Clone)]
pub struct SlackAccountConfig {
    pub app_token: Token,
    pub bot_token: Token,
    pub dm_policy: DmPolicy,
    pub channel_policy: GroupPolicy,
    pub mention_mode: MentionMode,
    pub allowlist: Vec<String>,
    pub channel_allowlist: Vec<String>,
    pub stream_mode: StreamMode,
    pub edit_throttle_ms: u64,
    pub model: Option<String>,
    pub model_provider: Option<String>,
    pub otp_self_approval: bool,
    pub otp_cooldown_secs: u64,
    pub chunk_size: usize,
}

impl Default for SlackAccountConfig {
    fn default() -> (r: Self)
        ensures
            r.app_token@ == Seq::<char>::empty(),
            r.bot_token@ == Seq::<char>::empty(),
            r.dm_policy == DmPolicy::Open,
            r.channel_policy == GroupPolicy::Open,
            r.mention_mode == MentionMode::Mention,
            r.allowlist@ == Seq::<String>::empty(),
            r.channel_allowlist@ == Seq::<String>::empty(),
            r.stream_mode == StreamMode::EditInPlace,
            r.edit_throttle_ms == 1000,
            r.model is None,
            r.model_provider is None,
            r.otp_self_approval,
            r.otp_cooldown_secs == 300,
            r.chunk_size == 4000,
    {
        SlackAccountConfig {
            app_token: Token::new(String::new()),
            bot_token: Token::new(String::new()),
            dm_policy: DmPolicy::Open,
            channel_policy: GroupPolicy::Open,
            mention_mode: MentionMode::Mention,
            allowlist: Vec::new(),
            channel_allowlist: Vec::new(),
            stream_mode: StreamMode::EditInPlace,
            edit_throttle_ms: 1000,
            model: None,
            model_provider: None,
            otp_self_approval: true,
            otp_cooldown_secs: 300,
            chunk_size: 4000,
        }
    }
}

/// How a policy is shown.
pub open spec fn dm_policy_name(p: DmPolicy) -> Seq<char> {
    match p {
        DmPolicy::Disabled => "Disabled"@,
        DmPolicy::Open => "Open"@,
        DmPolicy::Allowlist => "Allowlist"@,
    }
}

/// How a policy is shown.
pub open spec fn group_policy_name(p: GroupPolicy) -> Seq<char> {
    match p {
        GroupPolicy::Disabled => "Disabled"@,
        GroupPolicy::Open => "Open"@,
        GroupPolicy::Allowlist => "Allowlist"@,
    }
}

/// How a mode is shown.
pub open spec fn mention_mode_name(m: MentionMode) -> Seq<char> {
    match m {
        MentionMode::Always => "Always"@,
        MentionMode::Never => "None"@,
        MentionMode::Mention => "Mention"@,
    }
}

impl SlackAccountConfig {
    /// How the settings are shown to developers: the policies, and no token.
    pub open spec fn debug_view(self) -> Seq<char> {
        "SlackAccountConfig { app_token: \"[REDACTED]\", bot_token: \"[REDACTED]\", dm_policy: "@
            + dm_policy_name(self.dm_policy) + ", channel_policy: "@ + group_policy_name(
            self.channel_policy,
        ) + ", mention_mode: "@ + mention_mode_name(self.mention_mode) + ", .. }"@
    }

    /// How the settings are shown to developers: the policies, and no token.
    pub fn debug_text(&self) -> (r: String)
        ensures
            r@ == self.debug_view(),
    {
        let mut out: Vec<char> = Vec::new();
        text::push_text(
            &mut out,
            "SlackAccountConfig { app_token: \"[REDACTED]\", bot_token: \"[REDACTED]\", dm_policy: ",
        );
        text::push_text(
            &mut out,
            match self.dm_policy {
                DmPolicy::Disabled => "Disabled",
                DmPolicy::Open => "Open",
                DmPolicy::Allowlist => "Allowlist",
            },
        );
        text::push_text(&mut out, ", channel_policy: ");
        text::push_text(
            &mut out,
            match self.channel_policy {
                GroupPolicy::Disabled => "Disabled",
                GroupPolicy::Open => "Open",
                GroupPolicy::Allowlist => "Allowlist",
            },
        );
        text::push_text(&mut out, ", mention_mode: ");
        text::push_text(
            &mut out,
            match self.mention_mode {
                MentionMode::Always => "Always",
                MentionMode::Never => "None",
                MentionMode::Mention => "Mention",
            },
        );
        text::push_text(&mut out, ", .. }");
        text::whole_string(&out)
    }
}

/// The shown settings do not depend on the tokens.
pub proof fn law_debug_text_hides_tokens(a: SlackAccountConfig, b: SlackAccountConfig)
    requires
        a.dm_policy == b.dm_policy,
        a.channel_policy == b.channel_policy,
        a.mention_mode == b.mention_mode,
    ensures
        a.debug_view() == b.debug_view(),
{
}

/// The shown settings name the policies and the mention mode of the account,
/// each behind its own field.
pub proof fn law_debug_text_shows_policies(c: SlackAccountConfig)
    ensures
        c.debug_view()
            == "SlackAccountConfig { app_token: \"[REDACTED]\", bot_token: \"[REDACTED]\", dm_policy: "@
            + (match c.dm_policy {
            DmPolicy::Disabled => "Disabled"@,
            DmPolicy::Open => "Open"@,
            DmPolicy::Allowlist => "Allowlist"@,
        }) + ", channel_policy: "@ + (match c.channel_policy {
            GroupPolicy::Disabled => "Disabled"@,
            GroupPolicy::Open => "Open"@,
            GroupPolicy::Allowlist => "Allowlist"@,
        }) + ", mention_mode: "@ + (match c.mention_mode {
            MentionMode::Always => "Always"@,
            MentionMode::Never => "None"@,
            MentionMode::Mention => "Mention"@,
        }) + ", .. }"@,
{
}

} // verus!
