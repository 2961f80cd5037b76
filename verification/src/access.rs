//! Whether a message is let through.

use vstd::prelude::*;

use crate::config::SlackAccountConfig;
use crate::gating;
use crate::gating::{DmPolicy, GroupPolicy, MentionMode};

verus! {

/// Where a message comes from.
#[derive(Debug, Clone, Copy, PartialEq, Eq, Structural)]
pub enum ChatType {
    Dm,
    Channel,
}

/// Why a message is not let through.
#[derive(Debug, Clone, Copy, PartialEq, Eq, Structural)]
pub enum AccessDenied {
    DmDisabled,
    DmNotAllowed,
    ChannelDisabled,
    ChannelNotAllowed,
    MentionRequired,
    MentionModeNone,
}

/// The decision on a direct message. `on_list` is whether the sender is on the
/// allowlist.
pub open spec fn dm_access(config: SlackAccountConfig, on_list: bool) -> Result<(), AccessDenied> {
    match config.dm_policy {
        DmPolicy::Disabled => Err(AccessDenied::DmDisabled),
        DmPolicy::Open => Ok(()),
        DmPolicy::Allowlist => if config.allowlist@.len() > 0 && on_list {
            Ok(())
        } else {
            Err(AccessDenied::DmNotAllowed)
        },
    }
}

/// The decision on a message in a channel. `on_list` is whether the channel is
/// on the allowlist.
pub open spec fn channel_access(
    config: SlackAccountConfig,
    on_list: bool,
    bot_mentioned: bool,
) -> Result<(), AccessDenied> {
    if config.channel_policy == GroupPolicy::Disabled {
        Err(AccessDenied::ChannelDisabled)
    } else if config.channel_policy == GroupPolicy::Allowlist && !(
    config.channel_allowlist@.len() > 0 && on_list) {
        Err(AccessDenied::ChannelNotAllowed)
    } else {
        match config.mention_mode {
            MentionMode::Always => Ok(()),
            MentionMode::Never => Err(AccessDenied::MentionModeNone),
            MentionMode::Mention => if bot_mentioned {
                Ok(())
            } else {
                Err(AccessDenied::MentionRequired)
            },
        }
    }
}

/// The decision on a message, given whether its sender or channel is on the
/// allowlist that counts.
pub open spec fn access_given(
    config: SlackAccountConfig,
    chat_type: ChatType,
    on_list: bool,
    bot_mentioned: bool,
) -> Result<(), AccessDenied> {
    match chat_type {
        ChatType::Dm => dm_access(config, on_list),
        ChatType::Channel => channel_access(config, on_list, bot_mentioned),
    }
}

/// The allowlist that counts.
pub open spec fn allowlist_for(config: SlackAccountConfig, chat_type: ChatType) -> Seq<String> {
    match chat_type {
        ChatType::Dm => config.allowlist@,
        ChatType::Channel => config.channel_allowlist@,
    }
}

/// The decision on a message.
pub open spec fn access(
    config: SlackAccountConfig,
    chat_type: ChatType,
    id: Seq<char>,
    bot_mentioned: bool,
) -> Result<(), AccessDenied> {
    access_given(
        config,
        chat_type,
        gating::listed(id, allowlist_for(config, chat_type)),
        bot_mentioned,
    )
}

/// Decides on a message, given whether its sender or channel is on the
/// allowlist that counts.
pub fn decide_access(
    config: &SlackAccountConfig,
    chat_type: ChatType,
    on_list: bool,
    bot_mentioned: bool,
) -> (r: Result<(), AccessDenied>)
    ensures
        r == access_given(*config, chat_type, on_list, bot_mentioned),
{
    match chat_type {
        ChatType::Dm => match config.dm_policy {
            DmPolicy::Disabled => Err(AccessDenied::DmDisabled),
            DmPolicy::Open => Ok(()),
            DmPolicy::Allowlist => {
                if config.allowlist.len() > 0 && on_list {
                    Ok(())
                } else {
                    Err(AccessDenied::DmNotAllowed)
                }
            },
        },
        ChatType::Channel => {
            match config.channel_policy {
                GroupPolicy::Disabled => {
                    return Err(AccessDenied::ChannelDisabled);
                },
                GroupPolicy::Open => {},
                GroupPolicy::Allowlist => {
                    if config.channel_allowlist.len() == 0 || !on_list {
                        return Err(AccessDenied::ChannelNotAllowed);
                    }
                },
            }
            match config.mention_mode {
                MentionMode::Always => Ok(()),
                MentionMode::Never => Err(AccessDenied::MentionModeNone),
                MentionMode::Mention => {
                    if bot_mentioned {
                        Ok(())
                    } else {
                        Err(AccessDenied::MentionRequired)
                    }
                },
            }
        },
    }
}

/// Decides on a message. `peer_or_channel_id` is the sender of a direct
/// message, and the channel of any other.
pub fn check_access(
    config: &SlackAccountConfig,
    chat_type: ChatType,
    peer_or_channel_id: &str,
    bot_mentioned: bool,
) -> (r: Result<(), AccessDenied>)
    ensures
        r == access(*config, chat_type, peer_or_channel_id@, bot_mentioned),
{
    let on_list = match chat_type {
        ChatType::Dm => gating::is_allowed(peer_or_channel_id, &config.allowlist),
        ChatType::Channel => gating::is_allowed(peer_or_channel_id, &config.channel_allowlist),
    };
    decide_access(config, chat_type, on_list, bot_mentioned)
}

impl AccessDenied {
    /// The reason in words.
    pub open spec fn message_view(self) -> Seq<char> {
        match self {
            AccessDenied::DmDisabled => "DMs are disabled"@,
            AccessDenied::DmNotAllowed => "user not on allowlist"@,
            AccessDenied::ChannelDisabled => "channels are disabled"@,
            AccessDenied::ChannelNotAllowed => "channel not on allowlist"@,
            AccessDenied::MentionRequired => "bot mention is required"@,
            AccessDenied::MentionModeNone => "bot does not respond in channels"@,
        }
    }

    /// The reason in words.
    pub fn message(&self) -> (r: String)
        ensures
            r@ == self.message_view(),
    {
        let s = match self {
            AccessDenied::DmDisabled => "DMs are disabled",
            AccessDenied::DmNotAllowed => "user not on allowlist",
            AccessDenied::ChannelDisabled => "channels are disabled",
            AccessDenied::ChannelNotAllowed => "channel not on allowlist",
            AccessDenied::MentionRequired => "bot mention is required",
            AccessDenied::MentionModeNone => "bot does not respond in channels",
        };
        s.to_owned()
    }
}

// ---------------------------------------------------------------------------
// Laws
// ---------------------------------------------------------------------------

/// An empty allowlist lets nobody through, whatever the list is said to hold.
pub proof fn law_empty_allowlist_denies(
    config: SlackAccountConfig,
    on_list: bool,
    bot_mentioned: bool,
)
    ensures
        config.dm_policy == DmPolicy::Allowlist && config.allowlist@.len() == 0 ==> access_given(
            config,
            ChatType::Dm,
            on_list,
            bot_mentioned,
        ) == Err::<(), AccessDenied>(AccessDenied::DmNotAllowed),
        config.channel_policy == GroupPolicy::Allowlist && config.channel_allowlist@.len() == 0
            ==> access_given(config, ChatType::Channel, on_list, bot_mentioned)
            == Err::<(), AccessDenied>(AccessDenied::ChannelNotAllowed),
{
}

/// A mention never closes a door: what is let through unmentioned is let
/// through mentioned.
pub proof fn law_mention_only_opens(
    config: SlackAccountConfig,
    chat_type: ChatType,
    id: Seq<char>,
)
    ensures
        access(config, chat_type, id, false) is Ok ==> access(config, chat_type, id, true) is Ok,
{
}

/// Whether a direct message is let through does not depend on a mention, and
/// the settings for channels have no part in it: the policy for direct messages
/// and the texts of the allowlist decide.
pub proof fn law_dm_ignores_channel_settings(
    a: SlackAccountConfig,
    b: SlackAccountConfig,
    id: Seq<char>,
    mentioned: bool,
    mentioned_too: bool,
)
    requires
        a.dm_policy == b.dm_policy,
        a.allowlist@.map_values(|t: String| t@) == b.allowlist@.map_values(|t: String| t@),
    ensures
        access(a, ChatType::Dm, id, mentioned) == access(b, ChatType::Dm, id, mentioned_too),
{
    let xs = a.allowlist@.map_values(|t: String| t@);
    let ys = b.allowlist@.map_values(|t: String| t@);
    assert(xs.len() == ys.len());
    assert forall|i: int| 0 <= i < xs.len() implies (#[trigger] a.allowlist@[i])@
        == b.allowlist@[i]@ by {
        assert(xs[i] == ys[i]);
    }
    if gating::listed(id, a.allowlist@) {
        let i = choose|i: int| 0 <= i < a.allowlist@.len() && (#[trigger] a.allowlist@[i])@ == id;
        assert(b.allowlist@[i]@ == id);
    }
    if gating::listed(id, b.allowlist@) {
        let i = choose|i: int| 0 <= i < b.allowlist@.len() && (#[trigger] b.allowlist@[i])@ == id;
        assert(a.allowlist@[i]@ == id);
    }
}

/// A direct message is let through exactly where everybody may write, or those on
/// the allowlist may and the sender is one of them. Otherwise the reason says
/// which of the two it is for want of.
pub proof fn law_direct_messages(config: SlackAccountConfig, id: Seq<char>, mentioned: bool)
    ensures
        ({
            let r = access(config, ChatType::Dm, id, mentioned);
            let on_list = exists|i: int|
                0 <= i < config.allowlist@.len() && (#[trigger] config.allowlist@[i])@ == id;
            &&& r is Ok <==> config.dm_policy == DmPolicy::Open || (config.dm_policy
                == DmPolicy::Allowlist && on_list)
            &&& r == Err::<(), AccessDenied>(AccessDenied::DmDisabled) <==> config.dm_policy
                == DmPolicy::Disabled
            &&& r == Err::<(), AccessDenied>(AccessDenied::DmNotAllowed) <==> config.dm_policy
                == DmPolicy::Allowlist && !on_list
        }),
{
}

/// A message in a channel is let through exactly where the bot answers in all
/// channels, or in those on the allowlist and the channel is one of them, and
/// where it answers all messages, or those that mention it and this one does.
/// Otherwise the reason is the first of these that is missing.
pub proof fn law_channel_messages(config: SlackAccountConfig, id: Seq<char>, mentioned: bool)
    ensures
        ({
            let r = access(config, ChatType::Channel, id, mentioned);
            let on_list = exists|i: int|
                0 <= i < config.channel_allowlist@.len() && (
                #[trigger] config.channel_allowlist@[i])@ == id;
            let here = config.channel_policy == GroupPolicy::Open || (config.channel_policy
                == GroupPolicy::Allowlist && on_list);
            &&& r is Ok <==> here && (config.mention_mode == MentionMode::Always || (
            config.mention_mode == MentionMode::Mention && mentioned))
            &&& r == Err::<(), AccessDenied>(AccessDenied::ChannelDisabled)
                <==> config.channel_policy == GroupPolicy::Disabled
            &&& r == Err::<(), AccessDenied>(AccessDenied::ChannelNotAllowed)
                <==> config.channel_policy == GroupPolicy::Allowlist && !on_list
            &&& r == Err::<(), AccessDenied>(AccessDenied::MentionModeNone) <==> here
                && config.mention_mode == MentionMode::Never
            &&& r == Err::<(), AccessDenied>(AccessDenied::MentionRequired) <==> here
                && config.mention_mode == MentionMode::Mention && !mentioned
        }),
{
}

/// The reasons in words.
pub proof fn law_reasons_in_words()
    ensures
        AccessDenied::DmDisabled.message_view() == "DMs are disabled"@,
        AccessDenied::DmNotAllowed.message_view() == "user not on allowlist"@,
        AccessDenied::ChannelDisabled.message_view() == "channels are disabled"@,
        AccessDenied::ChannelNotAllowed.message_view() == "channel not on allowlist"@,
        AccessDenied::MentionRequired.message_view() == "bot mention is required"@,
        AccessDenied::MentionModeNone.message_view() == "bot does not respond in channels"@,
{
}

} // verus!
