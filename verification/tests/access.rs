use moltis_slack::access::{check_access, decide_access, AccessDenied, ChatType};
use moltis_slack::config::SlackAccountConfig;
use moltis_slack::gating::{is_allowed, DmPolicy, GroupPolicy, MentionMode};

#[test]
fn dm_open_allows_all() {
    let cfg = SlackAccountConfig {
        dm_policy: DmPolicy::Open,
        ..Default::default()
    };
    assert!(check_access(&cfg, ChatType::Dm, "U123", false).is_ok());
}

#[test]
fn dm_disabled_denies() {
    let cfg = SlackAccountConfig {
        dm_policy: DmPolicy::Disabled,
        ..Default::default()
    };
    assert!(check_access(&cfg, ChatType::Dm, "U123", false).is_err());
}

#[test]
fn dm_allowlist_allows_listed() {
    let cfg = SlackAccountConfig {
        dm_policy: DmPolicy::Allowlist,
        allowlist: vec!["U123".into()],
        ..Default::default()
    };
    assert!(check_access(&cfg, ChatType::Dm, "U123", false).is_ok());
    assert!(check_access(&cfg, ChatType::Dm, "U999", false).is_err());
}

#[test]
fn dm_empty_allowlist_denies_all() {
    let cfg = SlackAccountConfig {
        dm_policy: DmPolicy::Allowlist,
        allowlist: vec![],
        ..Default::default()
    };
    assert!(check_access(&cfg, ChatType::Dm, "U123", false).is_err());
}

#[test]
fn channel_mention_mode() {
    let cfg = SlackAccountConfig {
        channel_policy: GroupPolicy::Open,
        mention_mode: MentionMode::Mention,
        ..Default::default()
    };
    assert!(check_access(&cfg, ChatType::Channel, "C123", true).is_ok());
    assert!(check_access(&cfg, ChatType::Channel, "C123", false).is_err());
}

#[test]
fn each_reason_for_denial() {
    let dm = |dm_policy: DmPolicy| SlackAccountConfig {
        dm_policy,
        ..Default::default()
    };
    let channel = |channel_policy: GroupPolicy, mention_mode: MentionMode| SlackAccountConfig {
        channel_policy,
        mention_mode,
        channel_allowlist: vec!["C1".into()],
        ..Default::default()
    };
    assert_eq!(
        check_access(&dm(DmPolicy::Disabled), ChatType::Dm, "U1", true),
        Err(AccessDenied::DmDisabled)
    );
    assert_eq!(
        check_access(&dm(DmPolicy::Allowlist), ChatType::Dm, "U1", true),
        Err(AccessDenied::DmNotAllowed)
    );
    assert_eq!(
        check_access(
            &channel(GroupPolicy::Disabled, MentionMode::Always),
            ChatType::Channel,
            "C1",
            true
        ),
        Err(AccessDenied::ChannelDisabled)
    );
    let listed = channel(GroupPolicy::Allowlist, MentionMode::Always);
    assert_eq!(
        check_access(&listed, ChatType::Channel, "C2", true),
        Err(AccessDenied::ChannelNotAllowed)
    );
    assert_eq!(check_access(&listed, ChatType::Channel, "C1", false), Ok(()));
    assert_eq!(
        check_access(
            &channel(GroupPolicy::Open, MentionMode::Never),
            ChatType::Channel,
            "C1",
            true
        ),
        Err(AccessDenied::MentionModeNone)
    );
    assert_eq!(
        check_access(
            &channel(GroupPolicy::Open, MentionMode::Mention),
            ChatType::Channel,
            "C1",
            false
        ),
        Err(AccessDenied::MentionRequired)
    );
}

#[test]
fn empty_list_denies_whatever_it_is_said_to_hold() {
    let cfg = SlackAccountConfig {
        dm_policy: DmPolicy::Allowlist,
        channel_policy: GroupPolicy::Allowlist,
        ..Default::default()
    };
    assert_eq!(
        decide_access(&cfg, ChatType::Dm, true, true),
        Err(AccessDenied::DmNotAllowed)
    );
    assert_eq!(
        decide_access(&cfg, ChatType::Channel, true, true),
        Err(AccessDenied::ChannelNotAllowed)
    );
}

#[test]
fn direct_messages_ignore_channel_settings() {
    let cfg = SlackAccountConfig {
        channel_policy: GroupPolicy::Disabled,
        mention_mode: MentionMode::Never,
        ..Default::default()
    };
    assert_eq!(check_access(&cfg, ChatType::Dm, "U1", false), Ok(()));
    assert_eq!(check_access(&cfg, ChatType::Dm, "U1", true), Ok(()));
}

#[test]
fn reasons_in_words() {
    assert_eq!(AccessDenied::DmDisabled.message(), "DMs are disabled");
    assert_eq!(AccessDenied::DmNotAllowed.message(), "user not on allowlist");
    assert_eq!(AccessDenied::ChannelDisabled.message(), "channels are disabled");
    assert_eq!(
        AccessDenied::ChannelNotAllowed.message(),
        "channel not on allowlist"
    );
    assert_eq!(
        AccessDenied::MentionRequired.message(),
        "bot mention is required"
    );
    assert_eq!(
        AccessDenied::MentionModeNone.message(),
        "bot does not respond in channels"
    );
}

#[test]
fn lists_hold_whole_names() {
    let list = vec!["U1".to_string(), "U2".to_string()];
    assert!(is_allowed("U2", &list));
    assert!(!is_allowed("U", &list));
    assert!(!is_allowed("u1", &list));
    assert!(!is_allowed("U1", &Vec::new()));
}
