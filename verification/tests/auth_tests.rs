use byr_pet::bupt::{
    classify_probe, extract_cookie, extract_error_reason, login, login_body, AuthError,
    AuthOutcome, BuptAccount, HttpCall, HttpReply, LoginPhase, ProbeStep,
};

const CHECK_URL: &str = "http://connect.rom.miui.com/generate_204?cmd=redirect&arubalp=12345";

fn acct(u: &str, p: &str) -> BuptAccount {
    BuptAccount { username: u.to_string(), password: p.to_string() }
}

fn reply(status: u16, location: Option<&str>, set_cookie: Option<&str>, body: &[u8]) -> HttpReply {
    HttpReply {
        status,
        location: location.map(|s| s.to_string()),
        set_cookie: set_cookie.map(|s| s.to_string()),
        body: body.to_vec(),
    }
}

#[test]
fn probe_204_is_authenticated() {
    assert!(matches!(
        classify_probe(204, None, None),
        ProbeStep::Done(AuthOutcome::Authenticated)
    ));
}

#[test]
fn probe_302_with_location_follows() {
    match classify_probe(302, Some("http://x/login".to_string()), None) {
        ProbeStep::Follow(u) => assert_eq!(u, "http://x/login"),
        _ => panic!("expected a follow"),
    }
}

#[test]
fn probe_302_without_location_is_fatal() {
    assert!(matches!(
        classify_probe(302, None, None),
        ProbeStep::Fail(AuthError::MissingLocation)
    ));
}

#[test]
fn probe_200_extracts_cookie_up_to_semicolon() {
    match classify_probe(200, None, Some("SESSION=abc123; Path=/".to_string())) {
        ProbeStep::Done(AuthOutcome::NotAuthenticated(Some(c))) => assert_eq!(c, "SESSION=abc123"),
        _ => panic!("expected a cookie"),
    }
}

#[test]
fn probe_200_without_cookie() {
    assert!(matches!(
        classify_probe(200, None, None),
        ProbeStep::Done(AuthOutcome::NotAuthenticated(None))
    ));
}

#[test]
fn probe_other_status_is_fatal() {
    match classify_probe(500, None, None) {
        ProbeStep::Fail(AuthError::UnexpectedStatus(s)) => assert_eq!(s, 500),
        _ => panic!("expected an unexpected-status failure"),
    }
}

#[test]
fn cookie_without_semicolon_is_whole_value() {
    assert_eq!(extract_cookie("SESSION=zz"), "SESSION=zz");
    assert_eq!(extract_cookie(""), "");
    assert_eq!(extract_cookie(";tail"), "");
}

#[test]
fn login_body_url_encodes_credentials() {
    let body = login_body(&acct("alice", "p@ss word"));
    assert_eq!(body, b"user=alice&pass=p%40ss%20word".to_vec());
}

#[test]
fn login_body_matches_urlencoding_crate() {
    let body = login_body(&acct("alice", "p@ss word"));
    let expect = format!(
        "user={}&pass={}",
        urlencoding::encode("alice"),
        urlencoding::encode("p@ss word")
    );
    assert_eq!(String::from_utf8(body).unwrap(), expect);
}

#[test]
fn error_reason_is_trimmed_inner_text() {
    let body = b"<html><div class=\"ui error message\">  Wrong password \n</div></html>".to_vec();
    assert_eq!(extract_error_reason(&body), b"Wrong password".to_vec());
}

#[test]
fn error_reason_falls_back_without_marker() {
    assert_eq!(extract_error_reason(&b"nothing here".to_vec()), b"Unknown error".to_vec());
    let unclosed = b"<div class=\"ui error message\">oops".to_vec();
    assert_eq!(extract_error_reason(&unclosed), b"Unknown error".to_vec());
}

#[test]
fn login_when_already_authenticated_is_single_get() {
    let mut m = login(acct("alice", "pw"));
    match m.pending_call() {
        Some(HttpCall::Get(u)) => assert_eq!(u, CHECK_URL),
        _ => panic!("the opening call must be the probe GET"),
    }
    m.step(reply(204, None, None, b""));
    assert!(m.is_complete());
    assert!(m.succeeded());
    assert!(m.pending_call().is_none());
}

#[test]
fn full_login_success_path() {
    let mut m = login(acct("alice", "p@ss word"));
    m.step(reply(200, None, Some("SESSION=abc123; Path=/"), b"<html>login</html>"));
    match m.pending_call() {
        Some(HttpCall::Post { url, cookie, body }) => {
            assert_eq!(url, "http://10.3.8.216/login");
            assert_eq!(cookie, "SESSION=abc123");
            assert_eq!(body, b"user=alice&pass=p%40ss%20word".to_vec());
        }
        _ => panic!("expected the login POST"),
    }
    m.step(reply(200, None, None, b"<html>ok</html>"));
    match m.pending_call() {
        Some(HttpCall::Get(u)) => assert_eq!(u, CHECK_URL),
        _ => panic!("expected the verification probe"),
    }
    m.step(reply(204, None, None, b""));
    assert!(m.succeeded());
}

#[test]
fn probe_without_cookie_posts_empty_cookie() {
    let mut m = login(acct("a", "b"));
    m.step(reply(200, None, None, b""));
    match m.pending_call() {
        Some(HttpCall::Post { cookie, .. }) => assert_eq!(cookie, ""),
        _ => panic!("expected the login POST"),
    }
}

#[test]
fn rejected_login_reports_reason_from_post_body() {
    let mut m = login(acct("alice", "bad"));
    m.step(reply(200, None, Some("SESSION=s"), b""));
    let page = b"<div class=\"ui error message\"> Bad credentials </div>".to_vec();
    m.step(reply(200, None, None, &page));
    m.step(reply(200, None, Some("SESSION=t"), b"still a login page"));
    assert!(m.is_complete());
    assert!(!m.succeeded());
    match m.phase {
        LoginPhase::Complete { outcome: Err(AuthError::Rejected(reason)) } => {
            assert_eq!(reason, b"Bad credentials".to_vec());
        }
        _ => panic!("expected a rejected outcome"),
    }
}

#[test]
fn post_answered_with_redirect_is_fatal() {
    let mut m = login(acct("a", "b"));
    m.step(reply(200, None, None, b""));
    m.step(reply(302, Some("http://elsewhere/"), None, b""));
    match m.phase {
        LoginPhase::Complete { outcome: Err(AuthError::UnexpectedRedirect) } => {}
        _ => panic!("expected an unexpected-redirect failure"),
    }
    let mut m2 = login(acct("a", "b"));
    m2.step(reply(200, None, None, b""));
    m2.step(reply(302, None, None, b""));
    match m2.phase {
        LoginPhase::Complete { outcome: Err(AuthError::MissingLocation) } => {}
        _ => panic!("expected a missing-location failure"),
    }
}

#[test]
fn probe_follows_redirects_up_to_the_bound() {
    let mut m = login(acct("a", "b"));
    for _ in 0..10 {
        m.step(reply(302, Some("http://hop/"), None, b""));
        assert!(!m.is_complete());
    }
    m.step(reply(302, Some("http://hop/"), None, b""));
    match m.phase {
        LoginPhase::Complete { outcome: Err(AuthError::TooManyRedirects) } => {}
        _ => panic!("expected a too-many-redirects failure"),
    }
}

#[test]
fn unexpected_probe_status_ends_the_run() {
    let mut m = login(acct("a", "b"));
    m.step(reply(418, None, None, b""));
    match m.phase {
        LoginPhase::Complete { outcome: Err(AuthError::UnexpectedStatus(418)) } => {}
        _ => panic!("expected an unexpected-status failure"),
    }
}

#[test]
fn transport_failure_ends_the_run() {
    let mut m = login(acct("a", "b"));
    m.note_transport_failure();
    assert!(m.is_complete());
    assert!(!m.succeeded());
}

#[test]
fn masked_rendering_hides_the_password() {
    let a = acct("alice", "12345");
    let masked = a.masked();
    assert_eq!(masked, "BuptAccount { username: alice, password: ***** }");
    assert!(!masked.contains("12345"));
}
