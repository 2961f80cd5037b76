use moltis_slack::channel::{MediaAttachment, ReplyPayload};
use moltis_slack::config::{SlackAccountConfig, Token};
use moltis_slack::error::{ApiCall, SlackError};
use moltis_slack::otp::OtpState;
use moltis_slack::outbound::{
    posted, render, updated, PostMessage, SlackBasicResponse, SlackOutbound,
    SlackPostMessageResponse, SlackStream, StreamEvent, StreamStep, UpdateMessage,
};
use moltis_slack::state::{AccountState, AccountStateMap};
use moltis_slack::table::Table;

type Accounts = AccountStateMap<(), (), ()>;

fn build_state_map() -> Accounts {
    with_chunk_size(4000)
}

fn with_chunk_size(chunk_size: usize) -> Accounts {
    let mut map: Accounts = Table::new();
    let state = AccountState {
        account_id: "test".into(),
        config: SlackAccountConfig {
            app_token: Token::new("xapp-test".into()),
            bot_token: Token::new("xoxb-test".into()),
            chunk_size,
            ..Default::default()
        },
        bot_user_id: Some("U1".into()),
        cancel: (),
        message_log: None,
        event_sink: None,
        otp: OtpState::new(300),
    };
    map.insert("test", state);
    map
}

#[test]
fn unknown_account_returns_error() {
    let accounts: Accounts = Table::new();
    let outbound = SlackOutbound::new(&accounts);
    let err = outbound.account_snapshot("missing").err();
    assert!(err.is_some());
}

#[test]
fn known_account_returns_snapshot() {
    let map = build_state_map();
    let outbound = SlackOutbound::new(&map);
    let snapshot = outbound.account_snapshot("test");
    assert!(snapshot.is_ok());
}

#[test]
fn snapshot_holds_the_settings() {
    let map = with_chunk_size(9);
    let outbound = SlackOutbound::new(&map);
    assert_eq!(
        outbound.account_snapshot("test"),
        Ok(("xoxb-test".to_string(), 9, 1000))
    );
    assert_eq!(
        outbound.account_snapshot("missing").unwrap_err().message(),
        "unknown account: missing"
    );
}

#[test]
fn bodies_are_json() {
    let post = PostMessage {
        channel: "C1".to_string(),
        text: "a \"b\"\n\u{e9}".to_string(),
        thread_ts: Some("1.2".to_string()),
    };
    let parsed: serde_json::Value = serde_json::from_str(&post.body()).unwrap();
    assert_eq!(parsed["channel"], "C1");
    assert_eq!(parsed["text"], "a \"b\"\n\u{e9}");
    assert_eq!(parsed["thread_ts"], "1.2");
    assert_eq!(parsed["mrkdwn"], true);
    assert_eq!(parsed["unfurl_links"], false);
    assert_eq!(parsed["unfurl_media"], false);
    assert_eq!(parsed.as_object().unwrap().len(), 6);

    let bare = PostMessage {
        channel: "C1".to_string(),
        text: String::new(),
        thread_ts: None,
    };
    let parsed: serde_json::Value = serde_json::from_str(&bare.body()).unwrap();
    assert_eq!(parsed.as_object().unwrap().len(), 5);
    assert!(parsed.get("thread_ts").is_none());

    let update = UpdateMessage {
        channel: "C1".to_string(),
        ts: "3.4".to_string(),
        text: "t".to_string(),
    };
    let parsed: serde_json::Value = serde_json::from_str(&update.body()).unwrap();
    assert_eq!(parsed["channel"], "C1");
    assert_eq!(parsed["ts"], "3.4");
    assert_eq!(parsed["text"], "t");
    assert_eq!(parsed["mrkdwn"], true);
    assert_eq!(parsed.as_object().unwrap().len(), 4);
}

#[test]
fn answers_to_posts_and_updates() {
    let ok = SlackPostMessageResponse {
        ok: true,
        error: None,
        ts: Some("1.1".to_string()),
    };
    assert_eq!(posted(ok), Ok(Some("1.1".to_string())));
    let refused = SlackPostMessageResponse {
        ok: false,
        error: Some("channel_not_found".to_string()),
        ts: None,
    };
    assert_eq!(
        posted(refused).unwrap_err().message(),
        "slack chat.postMessage failed: channel_not_found"
    );
    assert_eq!(updated(SlackBasicResponse { ok: true, error: None }), Ok(()));
    assert_eq!(
        updated(SlackBasicResponse { ok: false, error: None })
            .unwrap_err()
            .message(),
        "slack chat.update failed: unknown error"
    );
    assert_eq!(
        SlackError::MissingTs.message(),
        "missing ts from slack postMessage response"
    );
}

#[test]
fn addresses_of_calls() {
    assert_eq!(
        ApiCall::PostMessage.url(),
        "https://slack.com/api/chat.postMessage"
    );
    assert_eq!(ApiCall::UpdateMessage.url(), "https://slack.com/api/chat.update");
    assert_eq!(
        ApiCall::OpenConnection.url(),
        "https://slack.com/api/apps.connections.open"
    );
    assert_eq!(ApiCall::AuthTest.url(), "https://slack.com/api/auth.test");
}

#[test]
fn text_is_converted_and_cut() {
    let map = with_chunk_size(10);
    let outbound = SlackOutbound::new(&map);
    let plan = outbound.send_text("test", "C1", "**hi** <x>", Some("7.7")).unwrap();
    assert_eq!(plan.token, "xoxb-test");
    assert_eq!(plan.posts.len(), 1);
    assert_eq!(plan.posts[0].channel, "C1");
    assert_eq!(plan.posts[0].text, "*hi* &lt;x&gt;");
    assert_eq!(plan.posts[0].thread_ts.as_deref(), Some("7.7"));

    // The chunk size never goes below the default.
    let long = "x".repeat(4001);
    let plan = outbound.send_text("test", "C1", &long, None).unwrap();
    assert_eq!(plan.posts.len(), 2);
    assert_eq!(plan.posts[0].text.len(), 4000);
    assert_eq!(plan.posts[1].text, "x");
    assert_eq!(plan.posts[1].thread_ts, None);

    let map = with_chunk_size(5000);
    let plan = SlackOutbound::new(&map).send_text("test", "C1", &long, None).unwrap();
    assert_eq!(plan.posts.len(), 1);

    assert_eq!(
        outbound.send_text("none", "C1", "x", None).err(),
        Some(SlackError::UnknownAccount("none".to_string()))
    );
}

#[test]
fn text_that_cannot_be_cut_is_an_error() {
    let map = build_state_map();
    let outbound = SlackOutbound::new(&map);
    // Outside spans, a character comes out as its bytes, two bytes each.
    let odd = format!("x{}", "\u{e9}".repeat(3000));
    assert_eq!(
        outbound.send_text("test", "C1", &odd, None).err(),
        Some(SlackError::CutInsideCharacter)
    );
    assert_eq!(render("\u{e9}", 3).err(), Some(SlackError::CutInsideCharacter));
    assert_eq!(render("**a b**", 3).unwrap(), vec!["*a".to_string(), "b*".to_string()]);
}

#[test]
fn media_and_locations_are_texts() {
    let map = build_state_map();
    let outbound = SlackOutbound::new(&map);
    let payload = |text: &str, url: Option<&str>| ReplyPayload {
        text: text.to_string(),
        media: url.map(|u| MediaAttachment { url: u.to_string() }),
    };
    let text = |p: &ReplyPayload| {
        outbound.send_media("test", "C1", p, None).unwrap().posts[0].text.clone()
    };
    assert_eq!(text(&payload("see", Some("https://x/y"))), "see\nhttps://x/y");
    assert_eq!(text(&payload("", Some("https://x/y"))), "https://x/y");
    assert_eq!(text(&payload("see", None)), "see");

    let plan = outbound
        .send_location("test", "C1", "1.5", "-2.25", Some("Home"), Some("9.9"))
        .unwrap();
    assert_eq!(
        plan.posts[0].text,
        "Home\nhttps://maps.google.com/?q=1.5,-2.25"
    );
    assert_eq!(plan.posts[0].thread_ts.as_deref(), Some("9.9"));
    let plan = outbound.send_location("test", "C1", "1", "2", None, None).unwrap();
    assert_eq!(plan.posts[0].text, "https://maps.google.com/?q=1,2");
    assert_eq!(outbound.send_typing("test", "C1"), Ok(()));
    assert_eq!(
        outbound.send_typing("none", "C1"),
        Err(SlackError::UnknownAccount("none".to_string()))
    );
}

#[test]
fn streams_are_shown_as_they_arrive() {
    let map = build_state_map();
    let outbound = SlackOutbound::new(&map);
    let start = outbound.send_stream("test", "C1").unwrap();
    assert_eq!(start.token, "xoxb-test");
    assert_eq!(start.placeholder.channel, "C1");
    assert_eq!(start.placeholder.text, "\u{2026}");
    assert_eq!(start.placeholder.thread_ts, None);
    assert_eq!(start.throttle_ms, 1000);
    assert_eq!(start.placed(None).err(), Some(SlackError::MissingTs));
    let mut stream = start.placed(Some("P.1".to_string())).unwrap();
    let delta = |s: &str| StreamEvent::Delta(s.to_string());
    assert!(matches!(stream.on_event(delta("**he"), 999), Ok(StreamStep::Wait)));
    match stream.on_event(delta("llo**"), 1000) {
        Ok(StreamStep::Update(update)) => {
            assert_eq!(update.channel, "C1");
            assert_eq!(update.ts, "P.1");
            assert_eq!(update.text, "*hello*");
        }
        other => panic!("unexpected {other:?}"),
    }
    assert!(matches!(stream.on_event(delta(" there"), 0), Ok(StreamStep::Wait)));
    assert!(matches!(stream.on_event(StreamEvent::Done, 0), Ok(StreamStep::Finish)));
    // What arrives after the end does not count.
    assert!(matches!(stream.on_event(delta(" late"), 9999), Ok(StreamStep::Finish)));
    assert_eq!(stream.full, "**hello** there");
    let end = stream.finish().unwrap();
    assert_eq!(end.update.channel, "C1");
    assert_eq!(end.update.ts, "P.1");
    assert_eq!(end.update.text, "*hello* there");
    assert!(end.extras.is_empty());
    assert!(outbound.send_stream("none", "C1").is_err());
}

fn stream(full: &str, throttle_ms: u64) -> SlackStream {
    SlackStream {
        channel: "C7".to_string(),
        ts: "P.7".to_string(),
        full: full.to_string(),
        throttle_ms,
        ended: false,
    }
}

#[test]
fn streams_that_fail() {
    let mut empty = stream("", 5);
    assert!(matches!(
        empty.on_event(StreamEvent::Error("boom".to_string()), 0),
        Ok(StreamStep::Finish)
    ));
    assert_eq!(empty.full, "boom");
    assert!(matches!(
        empty.on_event(StreamEvent::Error("again".to_string()), 0),
        Ok(StreamStep::Finish)
    ));
    assert_eq!(empty.finish().unwrap().update.text, "boom");
    let mut begun = stream("kept", 5);
    assert!(matches!(
        begun.on_event(StreamEvent::Error("boom".to_string()), 0),
        Ok(StreamStep::Finish)
    ));
    assert_eq!(begun.full, "kept");
    // A stream that is cut off without an end shows what has arrived.
    assert_eq!(stream("cut", 5).finish().unwrap().update.text, "cut");
}

#[test]
fn streams_that_run_long() {
    let mut long = stream("", 0);
    match long.on_event(StreamEvent::Delta("y".repeat(80_001)), 0) {
        Ok(StreamStep::Update(update)) => {
            assert_eq!(update.text.len(), 40_000);
            assert_eq!(update.ts, "P.7");
        }
        other => panic!("unexpected {other:?}"),
    }
    let end = long.finish().unwrap();
    assert_eq!(end.update.channel, "C7");
    assert_eq!(end.update.ts, "P.7");
    assert_eq!(end.update.text.len(), 40_000);
    assert_eq!(end.extras.len(), 2);
    for post in &end.extras {
        assert_eq!(post.channel, "C7");
        assert_eq!(post.thread_ts.as_deref(), Some("P.7"));
    }
    assert_eq!(end.extras[0].text.len(), 40_000);
    assert_eq!(end.extras[1].text, "y");

    let mut odd = stream("x", 0);
    assert_eq!(
        odd.on_event(StreamEvent::Delta("\u{e9}".repeat(20_001)), 0).err(),
        Some(SlackError::CutInsideCharacter)
    );
    assert_eq!(odd.finish().err(), Some(SlackError::CutInsideCharacter));
}
