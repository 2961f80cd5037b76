use moltis_slack::config::{StreamMode, Token};
use moltis_slack::gating::{DmPolicy, GroupPolicy, MentionMode};
use moltis_slack::SlackAccountConfig;

#[test]
fn default_config_has_sensible_values() {
    let cfg = SlackAccountConfig::default();
    assert_eq!(cfg.dm_policy, DmPolicy::Open);
    assert_eq!(cfg.channel_policy, GroupPolicy::Open);
    assert_eq!(cfg.mention_mode, MentionMode::Mention);
    assert_eq!(cfg.edit_throttle_ms, 1000);
    assert_eq!(cfg.chunk_size, 4000);
    assert!(cfg.otp_self_approval);
}

#[test]
fn debug_redacts_tokens() {
    let cfg = SlackAccountConfig::default();
    let debug = cfg.debug_text();
    assert!(debug.contains("[REDACTED]"));
    assert!(!debug.contains("xapp-"));
    assert!(!debug.contains("xoxb-"));
}

#[test]
fn debug_shows_policies_and_hides_tokens() {
    let cfg = SlackAccountConfig {
        app_token: Token::new("xapp-1".to_string()),
        bot_token: Token::new("xoxb-1".to_string()),
        dm_policy: DmPolicy::Allowlist,
        channel_policy: GroupPolicy::Disabled,
        mention_mode: MentionMode::Never,
        ..Default::default()
    };
    assert_eq!(
        cfg.debug_text(),
        "SlackAccountConfig { app_token: \"[REDACTED]\", bot_token: \"[REDACTED]\", \
         dm_policy: Allowlist, channel_policy: Disabled, mention_mode: None, .. }"
    );
}

#[test]
fn defaults_of_the_rest() {
    let cfg = SlackAccountConfig::default();
    assert_eq!(cfg.app_token.expose(), "");
    assert_eq!(cfg.bot_token.expose(), "");
    assert!(cfg.allowlist.is_empty());
    assert!(cfg.channel_allowlist.is_empty());
    assert_eq!(cfg.stream_mode, StreamMode::EditInPlace);
    assert_eq!(StreamMode::default(), StreamMode::EditInPlace);
    assert_eq!(cfg.model, None);
    assert_eq!(cfg.model_provider, None);
    assert_eq!(cfg.otp_cooldown_secs, 300);
    assert_eq!(DmPolicy::default(), DmPolicy::Open);
    assert_eq!(GroupPolicy::default(), GroupPolicy::Open);
    assert_eq!(MentionMode::default(), MentionMode::Mention);
    assert_eq!(Token::new("t".to_string()).expose(), "t");
}
