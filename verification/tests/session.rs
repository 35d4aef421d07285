//! The session state machine: token lifecycle, rate budget, header parsing.

use japari_librarian::session::{LoginResponse, RedditError, Session};
use japari_librarian::text::parse_u64;

fn fresh() -> Session {
    Session::new(
        String::from("id"),
        String::from("secret"),
        String::from("user"),
        String::from("pass"),
    )
}

#[test]
fn new_session_has_no_token() {
    let s = fresh();
    assert!(s.token_expired(0));
    assert!(s.cached_bearer(0).is_none());
}

#[test]
fn user_agent_is_user_and_version() {
    let s = fresh();
    assert_eq!(s.user_agent(), "user/1.0");
}

#[test]
fn login_success_stores_the_token() {
    let mut s = fresh();
    let body = LoginResponse { access_token: String::from("tok"), expires_in: 3600 };
    let r = s.absorb_login(200, Some(body), 1000);
    assert_eq!(r.unwrap(), "tok");
    assert_eq!(s.cached_bearer(1000).unwrap(), "tok");
}

#[test]
fn token_expires_ninety_seconds_early() {
    let mut s = fresh();
    let body = LoginResponse { access_token: String::from("tok"), expires_in: 3600 };
    s.absorb_login(200, Some(body), 1000).unwrap();
    // expiry is at 4600; the token is refreshed once less than 90 s remain
    assert!(!s.token_expired(4510));
    assert!(s.token_expired(4511));
    assert!(s.token_expired(5000));
}

#[test]
fn login_unparsable_body_is_bad_credentials() {
    let mut s = fresh();
    let r = s.absorb_login(200, None, 0);
    assert!(matches!(r, Err(RedditError::BadCredentials)));
    assert!(s.cached_bearer(0).is_none());
}

#[test]
fn login_unauthorized_status() {
    let mut s = fresh();
    let r = s.absorb_login(401, None, 0);
    assert!(matches!(r, Err(RedditError::Unauthorized)));
}

#[test]
fn login_other_status_keeps_the_code() {
    let mut s = fresh();
    let r = s.absorb_login(503, None, 0);
    assert!(matches!(r, Err(RedditError::OtherStatus(503))));
}

#[test]
fn update_sets_budget_and_reset() {
    let mut s = fresh();
    assert!(s.update(Some(5), Some("240"), 1000));
    // five calls remain: no wait is owed
    assert_eq!(s.prepare(1000), None);
}

#[test]
fn prepare_blocks_until_reset_when_budget_low() {
    let mut s = fresh();
    // one call remaining, reset 240 s from now: the next prepare waits
    assert!(s.update(Some(1), Some("240"), 1000));
    assert_eq!(s.prepare(1000), Some(240));
    assert_eq!(s.prepare(1100), Some(140));
    // at the reset the wait is over
    assert_eq!(s.prepare(1240), None);
}

#[test]
fn prepare_reserves_a_slot_for_reauthorization() {
    let mut s = fresh();
    // two calls remaining cover the request and one re-authorization
    assert!(s.update(Some(2), Some("240"), 1000));
    assert_eq!(s.prepare(1000), None);
}

#[test]
fn update_without_headers_changes_nothing() {
    let mut s = fresh();
    assert!(s.update(Some(1), Some("240"), 1000));
    assert!(!s.update(None, Some("10"), 2000));
    assert!(!s.update(Some(9), None, 2000));
    assert!(!s.update(Some(9), Some("not a number"), 2000));
    // the old budget still governs
    assert_eq!(s.prepare(1000), Some(240));
}

#[test]
fn parse_u64_accepts_plain_decimals() {
    assert_eq!(parse_u64("0"), Some(0));
    assert_eq!(parse_u64("123"), Some(123));
    assert_eq!(parse_u64("+7"), Some(7));
    assert_eq!(parse_u64("18446744073709551615"), Some(u64::MAX));
}

#[test]
fn parse_u64_rejects_everything_else() {
    assert_eq!(parse_u64(""), None);
    assert_eq!(parse_u64("+"), None);
    assert_eq!(parse_u64("-1"), None);
    assert_eq!(parse_u64("12.5"), None);
    assert_eq!(parse_u64(" 12"), None);
    assert_eq!(parse_u64("18446744073709551616"), None);
    assert_eq!(parse_u64("99999999999999999999"), None);
}
