use moltis_slack::clock::{LAST_TICK, NANOS_PER_SEC};
use moltis_slack::otp::{
    OtpInitResult, OtpState, OtpVerifyResult, CODE_END, CODE_MIN, MAX_ATTEMPTS, OTP_TTL,
};

fn created(state: &mut OtpState, peer: &str, now: u128, code: &str) {
    assert_eq!(
        state.initiate_at(peer, None, None, now, code.to_string()),
        OtpInitResult::Created(code.to_string())
    );
}

#[test]
fn verify_correct_code() {
    let mut state = OtpState::new(300);
    let code = match state.initiate("user1", None, None) {
        OtpInitResult::Created(c) => c,
        _ => String::new(),
    };
    assert_eq!(state.verify("user1", &code), OtpVerifyResult::Approved);
    assert!(!state.has_pending("user1"));
}

#[test]
fn code_is_six_digits_in_range() {
    for i in 0..200 {
        let mut state = OtpState::new(1);
        let peer = format!("p{i}");
        match state.initiate(&peer, None, None) {
            OtpInitResult::Created(c) => {
                assert_eq!(c.len(), 6);
                let n: u32 = c.parse().unwrap();
                assert!(n >= CODE_MIN && n < CODE_END);
            }
            other => panic!("unexpected {other:?}"),
        }
    }
}

#[test]
fn codes_differ() {
    let mut seen: Vec<String> = Vec::new();
    for _ in 0..20 {
        let mut state = OtpState::new(1);
        if let OtpInitResult::Created(c) = state.initiate("p", None, None) {
            if !seen.contains(&c) {
                seen.push(c);
            }
        }
    }
    assert!(seen.len() > 1);
}

#[test]
fn second_request_is_already_pending() {
    let mut state = OtpState::new(300);
    assert!(matches!(state.initiate("p", None, None), OtpInitResult::Created(_)));
    assert_eq!(state.initiate("p", None, None), OtpInitResult::AlreadyPending);
    assert!(state.has_pending("p"));
    assert!(!state.has_pending("q"));
}

#[test]
fn three_wrong_codes_lock_out() {
    let mut state = OtpState::new(300);
    created(&mut state, "p", 0, "123456");
    assert_eq!(
        state.verify_at("p", "000000", 1),
        OtpVerifyResult::WrongCode { attempts_left: 2 }
    );
    assert_eq!(
        state.verify_at("p", "", 2),
        OtpVerifyResult::WrongCode { attempts_left: MAX_ATTEMPTS - 2 }
    );
    assert_eq!(state.verify_at("p", "1234567", 3), OtpVerifyResult::LockedOut);
    let until = 3 + 300 * NANOS_PER_SEC;
    assert!(state.is_locked_out_at("p", until - 1));
    assert!(!state.is_locked_out_at("p", until));
    assert_eq!(state.verify_at("p", "123456", until - 1), OtpVerifyResult::LockedOut);
    assert_eq!(
        state.initiate_at("p", None, None, until - 1, "111111".to_string()),
        OtpInitResult::LockedOut
    );
    assert_eq!(state.verify_at("p", "123456", until), OtpVerifyResult::NoPending);
    created(&mut state, "p", until, "222222");
}

#[test]
fn lockout_on_the_real_clock() {
    let mut state = OtpState::new(300);
    assert!(matches!(state.initiate("p", None, None), OtpInitResult::Created(_)));
    for _ in 0..3 {
        state.verify("p", "wrong");
    }
    assert!(state.is_locked_out("p"));
    assert!(!state.is_locked_out("q"));
    assert_eq!(state.initiate("p", None, None), OtpInitResult::LockedOut);
    assert_eq!(state.verify("p", "wrong"), OtpVerifyResult::LockedOut);
}

#[test]
fn no_cooldown_is_no_lockout() {
    let mut state = OtpState::new(0);
    created(&mut state, "p", 0, "123456");
    for _ in 0..3 {
        state.verify_at("p", "x", 5);
    }
    assert!(!state.is_locked_out_at("p", 5));
    created(&mut state, "p", 5, "654321");
}

#[test]
fn code_expires() {
    let mut state = OtpState::new(300);
    created(&mut state, "p", 10, "123456");
    assert!(state.has_pending_at("p", 10 + OTP_TTL - 1));
    assert!(!state.has_pending_at("p", 10 + OTP_TTL));
    assert_eq!(state.verify_at("p", "123456", 10 + OTP_TTL), OtpVerifyResult::Expired);
    assert_eq!(state.verify_at("p", "123456", 10 + OTP_TTL), OtpVerifyResult::NoPending);
    created(&mut state, "p", 10, "123456");
    assert_eq!(
        state.initiate_at("p", None, None, 10 + OTP_TTL, "999999".to_string()),
        OtpInitResult::Created("999999".to_string())
    );
    assert_eq!(
        state.verify_at("p", "999999", 10 + 2 * OTP_TTL - 1),
        OtpVerifyResult::Approved
    );
}

#[test]
fn no_challenge_is_no_pending() {
    let mut state = OtpState::new(300);
    assert_eq!(state.verify("nobody", "123456"), OtpVerifyResult::NoPending);
}

#[test]
fn peers_are_apart() {
    let mut state = OtpState::new(300);
    created(&mut state, "p", 0, "123456");
    created(&mut state, "q", 0, "654321");
    assert_eq!(
        state.verify_at("p", "654321", 1),
        OtpVerifyResult::WrongCode { attempts_left: 2 }
    );
    assert_eq!(state.verify_at("q", "654321", 1), OtpVerifyResult::Approved);
    assert!(state.has_pending_at("p", 1));
}

#[test]
fn listing_shows_pending_challenges() {
    let mut state = OtpState::new(300);
    state.initiate_at(
        "p",
        Some("alice".to_string()),
        Some("Alice".to_string()),
        0,
        "123456".to_string(),
    );
    created(&mut state, "old", 0, "111111");
    created(&mut state, "q", 100 * NANOS_PER_SEC, "654321");
    let wall: i128 = 1_700_000_000_500_000_000;
    let mut all = state.list_pending_at(0, wall);
    all.sort_by(|a, b| a.peer_id.cmp(&b.peer_id));
    assert_eq!(all.len(), 3);
    assert_eq!(all[1].peer_id, "p");
    assert_eq!(all[1].username.as_deref(), Some("alice"));
    assert_eq!(all[1].sender_name.as_deref(), Some("Alice"));
    assert_eq!(all[1].code, "123456");
    assert_eq!(all[1].expires_at, 1_700_000_300);
    assert_eq!(all[2].expires_at, 1_700_000_400);
    let late = state.list_pending_at(OTP_TTL, wall);
    assert_eq!(late.len(), 1);
    assert_eq!(late[0].peer_id, "q");
    assert_eq!(late[0].expires_at, 1_700_000_100);
}

#[test]
fn listing_on_clocks_at_their_ends() {
    let mut state = OtpState::new(300);
    created(&mut state, "p", 0, "123456");
    let before_epoch = state.list_pending_at(0, -400 * 1_000_000_000);
    assert_eq!(before_epoch[0].expires_at, 0);
    let across = state.list_pending_at(0, -100 * 1_000_000_000);
    assert_eq!(across[0].expires_at, 200);
    let beyond = state.list_pending_at(0, LAST_TICK as i128);
    assert_eq!(beyond[0].expires_at, 0);
}

#[test]
fn listing_on_the_real_clock() {
    let mut state = OtpState::new(300);
    state.initiate("p", None, None);
    let now = std::time::SystemTime::now()
        .duration_since(std::time::SystemTime::UNIX_EPOCH)
        .unwrap()
        .as_secs() as i64;
    let infos = state.list_pending();
    assert_eq!(infos.len(), 1);
    assert!(infos[0].expires_at >= now + 290 && infos[0].expires_at <= now + 310);
}

#[test]
fn eviction_removes_what_is_over() {
    let mut state = OtpState::new(300);
    created(&mut state, "old", 0, "111111");
    created(&mut state, "new", OTP_TTL - 1, "222222");
    created(&mut state, "bad", 0, "333333");
    for _ in 0..3 {
        state.verify_at("bad", "x", 0);
    }
    state.evict_expired_at(OTP_TTL);
    assert_eq!(state.verify_at("old", "111111", 0), OtpVerifyResult::NoPending);
    assert!(state.has_pending_at("new", OTP_TTL));
    assert!(!state.is_locked_out_at("bad", 0));
}

#[test]
fn eviction_on_the_real_clock_keeps_what_counts() {
    let mut state = OtpState::new(300);
    state.initiate("p", None, None);
    state.evict_expired();
    assert!(state.has_pending("p"));
}

#[test]
fn moments_of_a_state_do_not_go_back() {
    let state = OtpState::new(300);
    let first = state.now();
    let second = state.now_after(first);
    assert!(first <= second && second < 60 * NANOS_PER_SEC);
    assert_eq!(state.now_after(LAST_TICK), LAST_TICK);
}

#[test]
fn clock_runs_on_through_calls() {
    let mut state = OtpState::new(300);
    let mut last = state.now();
    for i in 0..50 {
        state.initiate(&format!("p{i}"), None, None);
        state.verify("p0", "x");
        state.evict_expired();
        let now = state.now();
        assert!(last <= now);
        last = now;
    }
}

#[test]
fn pending_follows_the_history_of_calls() {
    let mut state = OtpState::new(10);
    created(&mut state, "p", 100, "123456");
    created(&mut state, "q", 200, "654321");
    state.verify_at("q", "654321", 300);
    state.evict_expired_at(300);
    assert!(state.has_pending_at("p", 100 + OTP_TTL - 1));
    assert!(!state.has_pending_at("p", 100 + OTP_TTL));
    assert!(!state.has_pending_at("q", 300));
    for t in 0..3 {
        state.verify_at("p", "x", 400 + t);
    }
    assert!(!state.has_pending_at("p", 403));
    assert!(state.is_locked_out_at("p", 403));
    let after = 402 + 10 * NANOS_PER_SEC;
    created(&mut state, "p", after, "222222");
    assert!(state.has_pending_at("p", after + OTP_TTL - 1));
    assert!(!state.is_locked_out_at("p", after));
}

#[test]
fn listed_as_created() {
    let mut state = OtpState::new(0);
    created(&mut state, "p", 0, "111111");
    state.initiate_at(
        "p",
        Some("late".to_string()),
        None,
        OTP_TTL,
        "222222".to_string(),
    );
    // A request while a challenge is pending changes nothing of it.
    state.initiate_at("p", None, Some("Later".to_string()), OTP_TTL, "333333".to_string());
    state.verify_at("p", "x", OTP_TTL);
    let infos = state.list_pending_at(OTP_TTL, 0);
    assert_eq!(infos.len(), 1);
    assert_eq!(infos[0].code, "222222");
    assert_eq!(infos[0].username.as_deref(), Some("late"));
    assert_eq!(infos[0].sender_name, None);
    assert_eq!(infos[0].expires_at, 300);
}
