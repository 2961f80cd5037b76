use moltis_slack::channel::{ChannelEvent, ChannelMessageKind, ChannelType};
use moltis_slack::config::{SlackAccountConfig, Token};
use moltis_slack::error::SlackError;
use moltis_slack::gating::{DmPolicy, MentionMode};
use moltis_slack::handlers::{
    advance_otp_at, after_initiate, after_verify, challenge_event, challenge_event_at,
    command_response, handle_inbound_message, handle_otp_flow, handle_otp_flow_at,
    looks_like_code, plan_inbound, InboundAction, OtpStep, SlackInboundMessage, HELP_MSG,
    OTP_CHALLENGE_MSG,
};
use moltis_slack::otp::{OtpInitResult, OtpState, OtpVerifyResult, OTP_TTL};
use moltis_slack::state::{AccountState, AccountStateMap};
use moltis_slack::table::Table;

type Accounts = AccountStateMap<(), (), ()>;

fn account(id: &str, config: SlackAccountConfig, sink: bool) -> AccountState<(), (), ()> {
    AccountState {
        account_id: id.into(),
        config,
        bot_user_id: Some("U_BOT".into()),
        cancel: (),
        message_log: None,
        event_sink: if sink { Some(()) } else { None },
        otp: OtpState::new(300),
    }
}

fn build_state(dm_policy: DmPolicy, otp_self_approval: bool) -> Accounts {
    let mut map: Accounts = Table::new();
    let config = SlackAccountConfig {
        app_token: Token::new("xapp".into()),
        bot_token: Token::new("xoxb".into()),
        dm_policy,
        otp_self_approval,
        ..Default::default()
    };
    map.insert("a1", account("a1", config, true));
    map
}

fn message(text: &str) -> SlackInboundMessage {
    SlackInboundMessage {
        user_id: "U1".into(),
        username: Some("alice".into()),
        sender_name: Some("Alice".into()),
        channel_id: "D1".into(),
        channel_type: "im".into(),
        ts: "123.1".into(),
        thread_ts: None,
        text: text.into(),
        bot_mentioned: false,
    }
}

fn action(text: &str) -> InboundAction {
    let accounts = build_state(DmPolicy::Open, false);
    handle_inbound_message(&accounts, "a1", &message(text)).unwrap().action
}

#[test]
fn dm_open_dispatches_message() {
    let accounts = build_state(DmPolicy::Open, false);
    let msg = SlackInboundMessage {
        user_id: "U1".into(),
        username: Some("alice".into()),
        sender_name: Some("Alice".into()),
        channel_id: "D1".into(),
        channel_type: "im".into(),
        ts: "123.1".into(),
        thread_ts: None,
        text: "hello".into(),
        bot_mentioned: false,
    };
    let res = handle_inbound_message(&accounts, "a1", &msg);
    assert!(res.is_ok());
    let mut dispatched = Vec::new();
    if let InboundAction::Dispatch { text, .. } = res.unwrap().action {
        dispatched.push(text);
    }
    assert_eq!(dispatched.len(), 1);
    assert_eq!(dispatched[0], "hello");
}

#[test]
fn dm_allowlist_denied_without_otp_does_not_dispatch() {
    let accounts = build_state(DmPolicy::Allowlist, false);
    let msg = SlackInboundMessage {
        user_id: "U1".into(),
        username: None,
        sender_name: None,
        channel_id: "D1".into(),
        channel_type: "im".into(),
        ts: "123.1".into(),
        thread_ts: None,
        text: "hello".into(),
        bot_mentioned: false,
    };
    let res = handle_inbound_message(&accounts, "a1", &msg);
    assert!(res.is_ok());
    assert!(matches!(res.unwrap().action, InboundAction::Ignore));
}

#[test]
fn inbound_message_dispatches_to_chat() {
    let mut accounts: Accounts = Table::new();
    let config = SlackAccountConfig {
        app_token: Token::new("xapp-test".to_string()),
        bot_token: Token::new("xoxb-test".to_string()),
        ..Default::default()
    };
    accounts.insert("acct", account("acct", config, true));
    let msg = SlackInboundMessage {
        user_id: "U1".to_string(),
        username: Some("alice".to_string()),
        sender_name: Some("Alice".to_string()),
        channel_id: "D1".to_string(),
        channel_type: "im".to_string(),
        ts: "123.1".to_string(),
        thread_ts: None,
        text: "hello from slack".to_string(),
        bot_mentioned: false,
    };
    let res = handle_inbound_message(&accounts, "acct", &msg);
    assert!(res.is_ok());
    let mut msgs = Vec::new();
    if let InboundAction::Dispatch { text, .. } = res.unwrap().action {
        msgs.push(text);
    }
    assert_eq!(msgs, vec!["hello from slack".to_string()]);
}

#[test]
fn unknown_account_is_an_error() {
    let accounts: Accounts = Table::new();
    let err = handle_inbound_message(&accounts, "nope", &message("x")).unwrap_err();
    assert_eq!(err, SlackError::AccountNotFound("nope".to_string()));
    assert_eq!(err.message(), "account not found: nope");
}

#[test]
fn plan_logs_announces_and_dispatches() {
    let config = SlackAccountConfig {
        model: Some("m1".into()),
        ..Default::default()
    };
    let mut state = account("a1", config, true);
    state.message_log = Some(());
    let plan = plan_inbound(&state, "a1", &message("  hi there \n"), 77);
    let entry = plan.log_entry.unwrap();
    assert_eq!(entry.id, 0);
    assert_eq!(entry.account_id, "a1");
    assert_eq!(entry.channel_type, "slack");
    assert_eq!(entry.peer_id, "U1");
    assert_eq!(entry.username.as_deref(), Some("alice"));
    assert_eq!(entry.sender_name.as_deref(), Some("Alice"));
    assert_eq!(entry.chat_id, "D1");
    assert_eq!(entry.chat_type, "dm");
    assert_eq!(entry.body, "  hi there \n");
    assert!(entry.access_granted);
    assert_eq!(entry.created_at, 77);
    match plan.event.unwrap() {
        ChannelEvent::InboundMessage {
            channel_type,
            account_id,
            peer_id,
            username,
            sender_name,
            message_count,
            access_granted,
        } => {
            assert_eq!(channel_type, ChannelType::Slack);
            assert_eq!(account_id, "a1");
            assert_eq!(peer_id, "U1");
            assert_eq!(username.as_deref(), Some("alice"));
            assert_eq!(sender_name.as_deref(), Some("Alice"));
            assert_eq!(message_count, None);
            assert!(access_granted);
        }
        other => panic!("unexpected {other:?}"),
    }
    match plan.action {
        InboundAction::Dispatch { text, target, meta } => {
            assert_eq!(text, "hi there");
            assert_eq!(target.account_id, "a1");
            assert_eq!(target.chat_id, "D1");
            assert_eq!(target.message_id.as_deref(), Some("123.1"));
            assert_eq!(meta.channel_type, ChannelType::Slack);
            assert_eq!(meta.message_kind, Some(ChannelMessageKind::Text));
            assert_eq!(meta.model.as_deref(), Some("m1"));
            assert_eq!(meta.username.as_deref(), Some("alice"));
        }
        other => panic!("unexpected {other:?}"),
    }
}

#[test]
fn time_of_the_log_entry_is_now() {
    let mut accounts: Accounts = Table::new();
    let mut state = account("a1", SlackAccountConfig::default(), false);
    state.message_log = Some(());
    accounts.insert("a1", state);
    let now = std::time::SystemTime::now()
        .duration_since(std::time::SystemTime::UNIX_EPOCH)
        .unwrap()
        .as_secs() as i64;
    let plan = handle_inbound_message(&accounts, "a1", &message("x")).unwrap();
    let at = plan.log_entry.unwrap().created_at;
    assert!(at >= now && at <= now + 60);
}

#[test]
fn nobody_listening_means_nothing_done() {
    let state = account("a1", SlackAccountConfig::default(), false);
    let plan = plan_inbound(&state, "a1", &message("/help"), 0);
    assert!(plan.log_entry.is_none());
    assert!(plan.event.is_none());
    assert!(matches!(plan.action, InboundAction::Ignore));
}

#[test]
fn channel_messages_are_gated_by_their_channel() {
    let config = SlackAccountConfig {
        mention_mode: MentionMode::Mention,
        ..Default::default()
    };
    let state = account("a1", config, true);
    let mut msg = message("hey");
    msg.channel_type = "channel".into();
    msg.thread_ts = Some("99.9".into());
    assert!(matches!(
        plan_inbound(&state, "a1", &msg, 0).action,
        InboundAction::Ignore
    ));
    msg.bot_mentioned = true;
    match plan_inbound(&state, "a1", &msg, 0).action {
        InboundAction::Dispatch { target, .. } => {
            assert_eq!(target.message_id.as_deref(), Some("99.9"));
        }
        other => panic!("unexpected {other:?}"),
    }
}

#[test]
fn commands_are_recognized() {
    for (text, want) in [
        ("/new", "new"),
        (" /model gpt ", "model gpt"),
        ("//clear", "clear"),
        ("/ sessions all", " sessions all"),
        ("/compact\tnow", "compact\tnow"),
        ("/context", "context"),
        ("/sandbox", "sandbox"),
    ] {
        match action(text) {
            InboundAction::RunCommand { command, target } => {
                assert_eq!(command, want);
                assert_eq!(target.chat_id, "D1");
            }
            other => panic!("unexpected {other:?} for {text}"),
        }
    }
    match action("/help me") {
        InboundAction::Answer { text, target } => {
            assert_eq!(text, HELP_MSG);
            assert_eq!(
                text,
                "Available commands:\n/new\n/sessions\n/model\n/sandbox\n/clear\n/compact\n/context\n/help"
            );
            assert_eq!(target.message_id.as_deref(), Some("123.1"));
        }
        other => panic!("unexpected {other:?}"),
    }
    for text in ["/unknown", "/newer", "/", "new", "/New", "x /new"] {
        match action(text) {
            InboundAction::Dispatch { text: sent, .. } => assert_eq!(sent, text),
            other => panic!("unexpected {other:?} for {text}"),
        }
    }
}

#[test]
fn command_results_are_sent() {
    assert_eq!(command_response(Ok("done".to_string())), "done");
    assert_eq!(command_response(Err("bad".to_string())), "Error: bad");
}

#[test]
fn codes_are_six_ascii_digits() {
    assert!(looks_like_code("012345"));
    assert!(!looks_like_code("01234"));
    assert!(!looks_like_code("0123456"));
    assert!(!looks_like_code("01234a"));
    assert!(!looks_like_code(""));
    assert!(!looks_like_code("\u{661}\u{662}\u{663}"));
    assert!(!looks_like_code("1234 5"));
}

#[test]
fn self_approval_from_challenge_to_approval() {
    let mut accounts = build_state(DmPolicy::Allowlist, true);
    let mut msg = message("hello");
    msg.thread_ts = Some("5.5".into());
    let plan = handle_inbound_message(&accounts, "a1", &msg).unwrap();
    assert!(matches!(plan.action, InboundAction::VerifySender));
    assert!(challenge_event(&accounts, "a1", &msg).is_none());
    match handle_otp_flow(&mut accounts, "a1", &msg, true) {
        OtpStep::Challenge(reply) => {
            assert_eq!(reply.text, OTP_CHALLENGE_MSG);
            assert_eq!(reply.chat_id, "D1");
            assert_eq!(reply.thread_ts.as_deref(), Some("5.5"));
        }
        other => panic!("unexpected {other:?}"),
    }
    let code = match challenge_event(&accounts, "a1", &msg) {
        Some(ChannelEvent::OtpChallenge {
            code,
            peer_id,
            account_id,
            username,
            sender_name,
            expires_at,
            ..
        }) => {
            assert_eq!(peer_id, "U1");
            assert_eq!(account_id, "a1");
            assert_eq!(username.as_deref(), Some("alice"));
            assert_eq!(sender_name.as_deref(), Some("Alice"));
            assert!(expires_at > 0);
            code
        }
        other => panic!("unexpected {other:?}"),
    };
    // A text that is no code is passed over while a challenge is pending.
    assert!(matches!(
        handle_otp_flow(&mut accounts, "a1", &message("what code?"), true),
        OtpStep::Ignore
    ));
    match handle_otp_flow(&mut accounts, "a1", &message("000000"), true) {
        OtpStep::Reply(reply) => {
            assert_eq!(reply.text, "Incorrect code. 2 attempts remaining.");
        }
        other => panic!("unexpected {other:?}"),
    }
    match handle_otp_flow(&mut accounts, "a1", &message(&format!(" {code}\n")), true) {
        OtpStep::Approve { approval, reply } => {
            let approval = approval.unwrap();
            assert_eq!(approval.channel_type, "slack");
            assert_eq!(approval.account_id, "a1");
            assert_eq!(approval.peer_id, "U1");
            match approval.event {
                ChannelEvent::OtpResolved {
                    resolution, peer_id, ..
                } => {
                    assert_eq!(resolution, "approved");
                    assert_eq!(peer_id, "U1");
                }
                other => panic!("unexpected {other:?}"),
            }
            assert_eq!(reply.text, "Verified! You now have access.");
            assert_eq!(reply.thread_ts, None);
        }
        other => panic!("unexpected {other:?}"),
    }
    assert!(challenge_event(&accounts, "a1", &msg).is_none());
    assert_eq!(accounts.get("a1").unwrap().config.bot_token.expose(), "xoxb");
}

#[test]
fn self_approval_locks_out() {
    let mut accounts = build_state(DmPolicy::Allowlist, true);
    handle_otp_flow(&mut accounts, "a1", &message("hi"), false);
    handle_otp_flow(&mut accounts, "a1", &message("000000"), false);
    handle_otp_flow(&mut accounts, "a1", &message("000000"), false);
    for text in ["000000", "hi again"] {
        match handle_otp_flow(&mut accounts, "a1", &message(text), false) {
            OtpStep::Reply(reply) => {
                assert_eq!(reply.text, "Too many failed attempts. Try again later.");
            }
            other => panic!("unexpected {other:?}"),
        }
    }
}

#[test]
fn self_approval_without_account() {
    let mut accounts: Accounts = Table::new();
    assert!(matches!(
        handle_otp_flow(&mut accounts, "a1", &message("hi"), true),
        OtpStep::Ignore
    ));
    assert!(challenge_event(&accounts, "a1", &message("hi")).is_none());
}

#[test]
fn steps_after_each_result() {
    let msg = message("x");
    match after_verify(OtpVerifyResult::Expired, "a1", &msg, true) {
        OtpStep::Reply(reply) => {
            assert_eq!(reply.text, "Code expired. Send a message to receive a new one.");
        }
        other => panic!("unexpected {other:?}"),
    }
    assert!(matches!(
        after_verify(OtpVerifyResult::NoPending, "a1", &msg, true),
        OtpStep::Ignore
    ));
    assert!(matches!(
        after_verify(OtpVerifyResult::Approved, "a1", &msg, false),
        OtpStep::Approve { approval: None, .. }
    ));
    match after_verify(OtpVerifyResult::WrongCode { attempts_left: 4294967295 }, "a1", &msg, true) {
        OtpStep::Reply(reply) => {
            assert_eq!(reply.text, "Incorrect code. 4294967295 attempts remaining.");
        }
        other => panic!("unexpected {other:?}"),
    }
    assert!(matches!(
        after_initiate(&OtpInitResult::AlreadyPending, &msg),
        OtpStep::Challenge(_)
    ));
    assert!(matches!(
        after_initiate(&OtpInitResult::LockedOut, &msg),
        OtpStep::Reply(_)
    ));
}

#[test]
fn chat_is_passed_over_while_a_challenge_is_pending() {
    let mut accounts: Accounts = Table::new();
    let mut state = account("a1", SlackAccountConfig::default(), false);
    assert!(matches!(state.otp.initiate("U1", None, None), OtpInitResult::Created(_)));
    accounts.insert("a1", state);
    let msg = SlackInboundMessage {
        user_id: "U1".into(),
        username: None,
        sender_name: None,
        channel_id: "D1".into(),
        channel_type: "im".into(),
        ts: "1.0".into(),
        thread_ts: None,
        text: "hello".into(),
        bot_mentioned: false,
    };
    assert!(matches!(
        handle_otp_flow(&mut accounts, "a1", &msg, false),
        OtpStep::Ignore
    ));
    let mut state = accounts.remove("a1").unwrap();
    assert!(state.otp.has_pending("U1"));
    assert_eq!(
        state.otp.verify("U1", "000000"),
        OtpVerifyResult::WrongCode { attempts_left: 2 }
    );
}

#[test]
fn self_approval_at_given_moments() {
    let mut accounts = build_state(DmPolicy::Allowlist, true);
    let code = || "123456".to_string();
    // Whatever the text, a sender without a challenge gets one.
    match handle_otp_flow_at(&mut accounts, "a1", &message("999999"), true, 4, 5, code()) {
        OtpStep::Challenge(reply) => {
            assert_eq!(reply.text, OTP_CHALLENGE_MSG);
            assert!(!reply.text.contains("123456"));
            assert_eq!(reply.thread_ts, None);
        }
        other => panic!("unexpected {other:?}"),
    }
    let wall: i128 = 1_700_000_000_000_000_000;
    match challenge_event_at(&accounts, "a1", &message(""), 5, wall) {
        Some(ChannelEvent::OtpChallenge { code, expires_at, peer_id, .. }) => {
            assert_eq!(code, "123456");
            assert_eq!(expires_at, 1_700_000_300);
            assert_eq!(peer_id, "U1");
        }
        other => panic!("unexpected {other:?}"),
    }
    let end = 5 + OTP_TTL;
    assert!(challenge_event_at(&accounts, "a1", &message(""), end - 1, wall).is_some());
    assert!(challenge_event_at(&accounts, "a1", &message(""), end, wall).is_none());
    assert!(challenge_event_at(&accounts, "a2", &message(""), 5, wall).is_none());
    // Pending when asked, expired when verified.
    match handle_otp_flow_at(&mut accounts, "a1", &message("123456"), true, end - 1, end, code()) {
        OtpStep::Reply(reply) => {
            assert_eq!(reply.text, "Code expired. Send a message to receive a new one.");
        }
        other => panic!("unexpected {other:?}"),
    }
    // An expired challenge that is still there does not keep a new one away.
    let mut otp = OtpState::new(300);
    advance_otp_at(&mut otp, "a1", &message("hi"), true, 0, 0, "111111".to_string());
    assert!(matches!(
        advance_otp_at(&mut otp, "a1", &message("hi"), true, OTP_TTL, OTP_TTL, code()),
        OtpStep::Challenge(_)
    ));
    match advance_otp_at(&mut otp, "a1", &message("111111"), true, OTP_TTL, OTP_TTL, code()) {
        OtpStep::Reply(reply) => {
            assert_eq!(reply.text, "Incorrect code. 2 attempts remaining.");
        }
        other => panic!("unexpected {other:?}"),
    }
    assert!(matches!(
        advance_otp_at(&mut otp, "a1", &message("123456"), true, OTP_TTL, OTP_TTL, code()),
        OtpStep::Approve { approval: Some(_), .. }
    ));
    assert!(matches!(
        handle_otp_flow_at(&mut accounts, "a2", &message("hi"), true, 0, 0, code()),
        OtpStep::Ignore
    ));
}
