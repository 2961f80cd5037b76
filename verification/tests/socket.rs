use moltis_slack::config::{SlackAccountConfig, Token};
use moltis_slack::error::SlackError;
use moltis_slack::otp::OtpState;
use moltis_slack::socket::{
    acknowledgement, connection_url, message_from, open_envelope, session_step, socket_step,
    ConnectionsOpenResponse, EnvelopePayload, Frame, SessionAction, SlackEvent, SocketAction,
    SocketEnvelope, SocketEvent,
};
use moltis_slack::state::{AccountState, AccountStateMap};
use moltis_slack::table::Table;

fn accounts() -> AccountStateMap<(), (), ()> {
    let mut map = Table::new();
    let state = AccountState {
        account_id: "a1".into(),
        config: SlackAccountConfig {
            app_token: Token::new("xapp".into()),
            bot_token: Token::new("xoxb".into()),
            ..Default::default()
        },
        bot_user_id: Some("UBOT".into()),
        cancel: (),
        message_log: None,
        event_sink: None,
        otp: OtpState::new(300),
    };
    map.insert("a1", state);
    map
}

fn event(event_type: &str, text: &str) -> SlackEvent {
    SlackEvent {
        event_type: event_type.into(),
        user: Some("U1".into()),
        channel: Some("C1".into()),
        text: Some(text.into()),
        ts: Some("123.45".into()),
        thread_ts: None,
        channel_type: Some("im".into()),
        subtype: None,
    }
}

fn envelope(id: Option<&str>, event: Option<SlackEvent>) -> SocketEnvelope {
    SocketEnvelope {
        envelope_id: id.map(|s| s.to_string()),
        payload: Some(EnvelopePayload { event }),
    }
}

#[test]
fn connection_address() {
    let open = |ok: bool, error: Option<&str>, url: Option<&str>| {
        connection_url(ConnectionsOpenResponse {
            ok,
            error: error.map(|s| s.to_string()),
            url: url.map(|s| s.to_string()),
        })
    };
    assert_eq!(open(true, None, Some("wss://x")), Ok("wss://x".to_string()));
    assert_eq!(
        open(true, None, None).unwrap_err().message(),
        "apps.connections.open response missing url"
    );
    assert_eq!(
        open(false, Some("invalid_auth"), Some("wss://x")).unwrap_err().message(),
        "apps.connections.open failed: invalid_auth"
    );
    assert_eq!(
        open(false, None, None).unwrap_err().message(),
        "apps.connections.open failed: unknown error"
    );
}

#[test]
fn loop_opens_runs_pauses_and_stops() {
    let map = accounts();
    match socket_step(&map, "a1", SocketEvent::Round { cancelled: false }) {
        SocketAction::Open { app_token, bot_user_id } => {
            assert_eq!(app_token, "xapp");
            assert_eq!(bot_user_id.as_deref(), Some("UBOT"));
        }
        _ => panic!("not opened"),
    }
    assert!(matches!(
        socket_step(&map, "a1", SocketEvent::Round { cancelled: true }),
        SocketAction::Stop
    ));
    match socket_step(&map, "a2", SocketEvent::Round { cancelled: false }) {
        SocketAction::Fail(e) => {
            assert_eq!(e, SlackError::AccountStateMissing("a2".to_string()));
            assert_eq!(e.message(), "account state missing: a2");
        }
        _ => panic!("did not fail"),
    }
    let opened = SocketEvent::Opened {
        url: Some("wss://x".to_string()),
        bot_user_id: Some("UBOT".to_string()),
    };
    match socket_step(&map, "a1", opened) {
        SocketAction::Run { url, bot_user_id } => {
            assert_eq!(url, "wss://x");
            assert_eq!(bot_user_id.as_deref(), Some("UBOT"));
        }
        _ => panic!("did not run"),
    }
    assert!(matches!(
        socket_step(&map, "a1", SocketEvent::Opened { url: None, bot_user_id: None }),
        SocketAction::Pause { secs: 3 }
    ));
    for (in_order, cancelled) in [(true, false), (false, true), (false, false)] {
        assert!(matches!(
            socket_step(&map, "a1", SocketEvent::Closed { in_order, cancelled }),
            SocketAction::Pause { secs: 3 }
        ));
    }
    assert!(matches!(
        socket_step(&map, "a1", SocketEvent::Closed { in_order: true, cancelled: true }),
        SocketAction::Stop
    ));
    assert!(matches!(
        socket_step(&map, "a1", SocketEvent::Waited),
        SocketAction::NewRound
    ));
}

#[test]
fn acknowledgement_is_json() {
    assert_eq!(acknowledgement("e-1"), "{\"envelope_id\":\"e-1\"}");
    let parsed: serde_json::Value = serde_json::from_str(&acknowledgement("a\"b")).unwrap();
    assert_eq!(parsed["envelope_id"], "a\"b");
}

#[test]
fn events_become_messages() {
    let msg = message_from(event("message", "hello"), Some("UBOT")).unwrap();
    assert_eq!(msg.user_id, "U1");
    assert_eq!(msg.username, None);
    assert_eq!(msg.sender_name, None);
    assert_eq!(msg.channel_id, "C1");
    assert_eq!(msg.channel_type, "im");
    assert_eq!(msg.ts, "123.45");
    assert_eq!(msg.thread_ts, None);
    assert_eq!(msg.text, "hello");
    assert!(!msg.bot_mentioned);

    let bare = SlackEvent {
        text: None,
        channel_type: None,
        thread_ts: Some("1.1".into()),
        ..event("message", "")
    };
    let msg = message_from(bare, None).unwrap();
    assert_eq!(msg.text, "");
    assert_eq!(msg.channel_type, "channel");
    assert_eq!(msg.thread_ts.as_deref(), Some("1.1"));
}

#[test]
fn mentions_are_seen() {
    let mentioned = |e: SlackEvent, bot: Option<&str>| message_from(e, bot).unwrap().bot_mentioned;
    assert!(mentioned(event("message", "hi <@UBOT>!"), Some("UBOT")));
    assert!(!mentioned(event("message", "hi <@UBOT>!"), None));
    assert!(!mentioned(event("message", "hi <@UBOT2>"), Some("UBOT")));
    assert!(!mentioned(event("message", "hi @UBOT"), Some("UBOT")));
    assert!(mentioned(event("app_mention", "hi"), None));
}

#[test]
fn events_that_are_no_messages() {
    assert!(message_from(event("reaction_added", "x"), None).is_none());
    assert!(message_from(event("", "x"), None).is_none());
    let bot = SlackEvent { subtype: Some("bot_message".into()), ..event("message", "x") };
    assert!(message_from(bot, None).is_none());
    let nobody = SlackEvent { user: None, ..event("message", "x") };
    assert!(message_from(nobody, None).is_none());
    let nowhere = SlackEvent { channel: Some(String::new()), ..event("message", "x") };
    assert!(message_from(nowhere, None).is_none());
    let never = SlackEvent { ts: None, ..event("message", "x") };
    assert!(message_from(never, None).is_none());
}

#[test]
fn envelopes_are_acknowledged_and_opened() {
    let d = open_envelope(envelope(Some("1"), Some(event("message", "hello"))), None);
    assert_eq!(d.ack.as_deref(), Some("{\"envelope_id\":\"1\"}"));
    assert_eq!(d.message.unwrap().text, "hello");
    let d = open_envelope(envelope(Some("1"), Some(event("team_join", ""))), None);
    assert!(d.ack.is_some());
    assert!(d.message.is_none());
    let d = open_envelope(envelope(None, None), None);
    assert!(d.ack.is_none());
    assert!(d.message.is_none());
    let empty = SocketEnvelope { envelope_id: None, payload: None };
    assert!(open_envelope(empty, None).message.is_none());
}

#[test]
fn frames_of_a_session() {
    let text = || Frame::Text(Some(envelope(Some("1"), Some(event("message", "hello")))));
    match session_step(text(), false, None) {
        SessionAction::Deliver(d) => assert_eq!(d.message.unwrap().text, "hello"),
        _ => panic!("not delivered"),
    }
    assert!(matches!(session_step(text(), true, None), SessionAction::End));
    assert!(matches!(session_step(Frame::End, false, None), SessionAction::End));
    assert!(matches!(session_step(Frame::Other, false, None), SessionAction::Skip));
    assert!(matches!(session_step(Frame::Text(None), false, None), SessionAction::Skip));
    assert!(matches!(
        session_step(Frame::Failed("gone".to_string()), true, None),
        SessionAction::End
    ));
    match session_step(Frame::Failed("gone".to_string()), false, None) {
        SessionAction::Fail(e) => assert_eq!(e.message(), "websocket read error: gone"),
        _ => panic!("did not fail"),
    }
}
