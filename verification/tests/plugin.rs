use moltis_slack::config::Token;
use moltis_slack::error::SlackError;
use moltis_slack::otp::OtpState;
use moltis_slack::plugin::{
    auth_result, health_snapshot, AuthTestResponse, ProbeCache, ProbeOutcome, ProbeStep,
    PROBE_CACHE_TTL,
};
use moltis_slack::state::AccountState;
use moltis_slack::{SlackAccountConfig, SlackPlugin};

type Plugin = SlackPlugin<u8, u16, u32>;

fn config(app_token: &str, bot_token: &str) -> SlackAccountConfig {
    SlackAccountConfig {
        app_token: Token::new(app_token.to_string()),
        bot_token: Token::new(bot_token.to_string()),
        ..Default::default()
    }
}

fn auth(ok: bool) -> AuthTestResponse {
    AuthTestResponse {
        ok,
        error: if ok { None } else { Some("invalid_auth".to_string()) },
        user_id: Some("UBOT".to_string()),
        user: Some("bot".to_string()),
        team: Some("team".to_string()),
    }
}

#[test]
fn plugin_id_and_name() {
    let p = Plugin::new();
    assert_eq!(p.id(), "slack");
    assert_eq!(p.name(), "Slack");
}

#[test]
fn config_update_preserves_otp_state() {
    let mut p = Plugin::new();
    let cfg = config("xapp", "xoxb");
    let state = AccountState {
        account_id: "ws1".into(),
        config: cfg.clone(),
        bot_user_id: Some("U1".into()),
        cancel: 0,
        message_log: None,
        event_sink: None,
        otp: OtpState::new(300),
    };
    p.accounts.insert("ws1", state);
    let update = SlackAccountConfig {
        edit_throttle_ms: 1000,
        otp_self_approval: true,
        otp_cooldown_secs: 300,
        chunk_size: 4000,
        ..config("xapp2", "xoxb2")
    };
    let res = p.update_account_config("ws1", update);
    assert!(res.is_ok());
    let pending = p.pending_otp_challenges("ws1");
    assert!(pending.is_empty());
}

#[test]
fn config_update_keeps_pending_challenges() {
    let mut p = Plugin::default();
    assert_eq!(p.finish_start("ws1", config("a", "b"), auth(true), 1), Ok(()));
    let mut state = p.accounts.remove("ws1").unwrap();
    state.otp.initiate("U9", None, None);
    p.accounts.insert("ws1", state);
    assert_eq!(p.update_account_config("ws1", config("c", "d")), Ok(()));
    assert_eq!(p.account_config("ws1").unwrap().bot_token.expose(), "d");
    let pending = p.pending_otp_challenges("ws1");
    assert_eq!(pending.len(), 1);
    assert_eq!(pending[0].peer_id, "U9");
    assert_eq!(
        p.update_account_config("ws2", config("c", "d")),
        Err(SlackError::AccountNotFound("ws2".to_string()))
    );
    assert!(p.pending_otp_challenges("ws2").is_empty());
    assert!(p.account_config("ws2").is_none());
}

#[test]
fn accounts_start_and_stop() {
    let mut p = Plugin::new().with_message_log(7).with_event_sink(8);
    assert!(matches!(p.begin_start("ws1", &config("a", "b")), Ok(None)));
    assert_eq!(p.finish_start("ws1", config("a", "b"), auth(true), 1), Ok(()));
    assert_eq!(p.finish_start("ws2", config("a", "b"), auth(true), 2), Ok(()));
    let mut ids = p.account_ids();
    ids.sort();
    assert_eq!(ids, vec!["ws1".to_string(), "ws2".to_string()]);
    let state = p.accounts.get("ws1").unwrap();
    assert_eq!(state.account_id, "ws1");
    assert_eq!(state.bot_user_id.as_deref(), Some("UBOT"));
    assert_eq!(state.cancel, 1);
    assert_eq!(state.message_log, Some(7));
    assert_eq!(state.event_sink, Some(8));
    assert_eq!(state.config.app_token.expose(), "a");

    // A running account of the same name is handed back to be stopped.
    let running = p.begin_start("ws1", &config("a", "b")).unwrap().unwrap();
    assert_eq!(running.cancel, 1);
    assert_eq!(p.account_ids(), vec!["ws2".to_string()]);
    assert_eq!(p.stop_account("ws2").unwrap().cancel, 2);
    assert!(p.stop_account("ws2").is_none());
    assert!(p.account_ids().is_empty());
}

#[test]
fn starting_takes_tokens_and_an_answer() {
    let mut p = Plugin::new();
    assert_eq!(
        p.begin_start("ws1", &config("", "")).err(),
        Some(SlackError::AppTokenRequired)
    );
    assert_eq!(
        p.begin_start("ws1", &config("a", "")).err(),
        Some(SlackError::BotTokenRequired)
    );
    assert_eq!(SlackError::AppTokenRequired.message(), "slack app_token is required");
    assert_eq!(SlackError::BotTokenRequired.message(), "slack bot_token is required");
    let err = p.finish_start("ws1", config("a", "b"), auth(false), 1).unwrap_err();
    assert_eq!(err.message(), "slack auth.test failed: invalid_auth");
    assert!(p.account_ids().is_empty());
    assert_eq!(auth_result(auth(true)).unwrap().team.as_deref(), Some("team"));
}

#[test]
fn health_in_words() {
    let known = ProbeOutcome::Authorized {
        user: Some("bot".to_string()),
        team: Some("team".to_string()),
    };
    let snap = health_snapshot("ws1", known);
    assert!(snap.connected);
    assert_eq!(snap.account_id, "ws1");
    assert_eq!(snap.details.as_deref(), Some("Bot: bot (team)"));
    let bare = ProbeOutcome::Authorized { user: None, team: None };
    assert_eq!(
        health_snapshot("ws1", bare).details.as_deref(),
        Some("Bot: unknown (unknown team)")
    );
    let failed = health_snapshot("ws1", ProbeOutcome::Failed("oops".to_string()));
    assert!(!failed.connected);
    assert_eq!(failed.details.as_deref(), Some("API error: oops"));
    let none = health_snapshot("ws1", ProbeOutcome::NotStarted);
    assert!(!none.connected);
    assert_eq!(none.details.as_deref(), Some("account not started"));
}

#[test]
fn probes_are_remembered_for_half_a_minute() {
    let mut p = Plugin::new();
    assert!(matches!(p.probe_at("ws1", 0), ProbeStep::NotStarted));
    p.finish_start("ws1", config("a", "b"), auth(true), 1).unwrap();
    match p.probe_at("ws1", 5) {
        ProbeStep::AskSlack { token } => assert_eq!(token, "b"),
        _ => panic!("did not ask"),
    }
    p.probe_done_at("ws1", ProbeOutcome::Failed("x".to_string()), 5);
    match p.probe_at("ws1", 5 + PROBE_CACHE_TTL - 1) {
        ProbeStep::Cached(snap) => assert_eq!(snap.details.as_deref(), Some("API error: x")),
        _ => panic!("not remembered"),
    }
    assert!(matches!(
        p.probe_at("ws1", 5 + PROBE_CACHE_TTL),
        ProbeStep::AskSlack { .. }
    ));
    assert!(matches!(p.probe_at("ws2", 5), ProbeStep::NotStarted));
}

#[test]
fn probes_on_the_real_clock() {
    let mut p = Plugin::new();
    assert!(matches!(p.probe("ws1"), ProbeStep::NotStarted));
    let snap = p.probe_done("ws1", ProbeOutcome::NotStarted);
    assert_eq!(snap.details.as_deref(), Some("account not started"));
    assert!(matches!(p.probe("ws1"), ProbeStep::Cached(_)));
}

#[test]
fn cache_keeps_accounts_apart() {
    let mut cache = ProbeCache::new();
    assert!(cache.fresh_at("a", 0).is_none());
    cache.keep_at("a", health_snapshot("a", ProbeOutcome::NotStarted), u128::MAX);
    assert!(cache.fresh_at("a", u128::MAX).is_some());
    assert!(cache.fresh_at("b", 0).is_none());
}

#[test]
fn outbound_is_that_of_the_running_accounts() {
    let mut p = Plugin::new();
    p.finish_start("ws1", config("a", "b"), auth(true), 1).unwrap();
    let out = p.shared_outbound();
    assert_eq!(out.account_snapshot("ws1").unwrap().0, "b");
    assert!(out.account_snapshot("ws2").is_err());
}
