use byr_pet::bupt::AuthError;
use byr_pet::http::{
    auth_error_message, handle_request, json_err_body, json_ok_body, login_outcome_effects, mime_for,
    parse_login_form, Asset, FormError, HttpMethod, HttpRequest, Rendezvous, ServerStep,
};
use byr_pet::net::NetConfig;

const CANONICAL: &[u8] = b"192.168.71.1";

fn req(method: HttpMethod, host: Option<&[u8]>, uri: &[u8], ct: Option<&[u8]>, body: &[u8]) -> HttpRequest {
    HttpRequest {
        method,
        host: host.map(|h| h.to_vec()),
        uri: uri.to_vec(),
        content_type: ct.map(|c| c.to_vec()),
        body: body.to_vec(),
    }
}

fn assets() -> Vec<Asset> {
    vec![
        Asset { path: b"index.html".to_vec(), content: b"<html>hi</html>".to_vec() },
        Asset { path: b"app.js".to_vec(), content: b"console.log(1)".to_vec() },
        Asset { path: b"style.css".to_vec(), content: b"body{}".to_vec() },
        Asset { path: b"logo.bin".to_vec(), content: vec![1, 2, 3] },
    ]
}

fn expect_response(step: ServerStep) -> byr_pet::http::HttpResponse {
    match step {
        ServerStep::Respond(r) => r,
        ServerStep::AttemptLogin(_) => panic!("expected an immediate response"),
    }
}

#[test]
fn foreign_host_redirects_on_every_route() {
    let canonical = CANONICAL.to_vec();
    let a = assets();
    let cases = vec![
        req(HttpMethod::Get, Some(b"captive.example.com"), b"/", None, b""),
        req(HttpMethod::Post, Some(b"captive.example.com"), b"/login", None, b""),
        req(HttpMethod::Get, None, b"/style.css", None, b""),
    ];
    for r in cases {
        let resp = expect_response(handle_request(&r, &canonical, &a));
        assert_eq!(resp.status, 302);
        assert_eq!(resp.location.unwrap(), b"http://192.168.71.1/".to_vec());
        assert!(resp.body.is_empty());
    }
}

#[test]
fn root_serves_index_as_html() {
    let resp = expect_response(handle_request(
        &req(HttpMethod::Get, Some(CANONICAL), b"/", None, b""),
        &CANONICAL.to_vec(),
        &assets(),
    ));
    assert_eq!(resp.status, 200);
    assert_eq!(resp.content_type.unwrap(), b"text/html".to_vec());
    assert_eq!(resp.body, b"<html>hi</html>".to_vec());
}

#[test]
fn root_without_index_is_404() {
    let resp = expect_response(handle_request(
        &req(HttpMethod::Get, Some(CANONICAL), b"/", None, b""),
        &CANONICAL.to_vec(),
        &vec![],
    ));
    assert_eq!(resp.status, 404);
}

#[test]
fn wildcard_serves_assets_with_inferred_mime() {
    let canonical = CANONICAL.to_vec();
    let a = assets();
    let js = expect_response(handle_request(
        &req(HttpMethod::Get, Some(CANONICAL), b"/app.js", None, b""),
        &canonical,
        &a,
    ));
    assert_eq!(js.status, 200);
    assert_eq!(js.content_type.unwrap(), b"application/javascript".to_vec());
    let css = expect_response(handle_request(
        &req(HttpMethod::Get, Some(CANONICAL), b"/style.css", None, b""),
        &canonical,
        &a,
    ));
    assert_eq!(css.content_type.unwrap(), b"text/css".to_vec());
    let bin = expect_response(handle_request(
        &req(HttpMethod::Get, Some(CANONICAL), b"/logo.bin", None, b""),
        &canonical,
        &a,
    ));
    assert_eq!(bin.content_type.unwrap(), b"application/octet-stream".to_vec());
    assert_eq!(bin.body, vec![1, 2, 3]);
}

#[test]
fn wildcard_missing_asset_is_404() {
    let resp = expect_response(handle_request(
        &req(HttpMethod::Get, Some(CANONICAL), b"/nope.html", None, b""),
        &CANONICAL.to_vec(),
        &assets(),
    ));
    assert_eq!(resp.status, 404);
}

#[test]
fn mime_resolution_uses_last_extension() {
    assert_eq!(mime_for(&b"/a.b.html".to_vec()), b"text/html".to_vec());
    assert_eq!(mime_for(&b"noext".to_vec()), b"application/octet-stream".to_vec());
    assert_eq!(mime_for(&b"".to_vec()), b"application/octet-stream".to_vec());
}

#[test]
fn login_without_form_content_type_is_400() {
    let resp = expect_response(handle_request(
        &req(HttpMethod::Post, Some(CANONICAL), b"/login", Some(b"text/plain"), b"username=a&password=b"),
        &CANONICAL.to_vec(),
        &assets(),
    ));
    assert_eq!(resp.status, 400);
}

#[test]
fn login_with_valid_form_attempts_login() {
    let step = handle_request(
        &req(
            HttpMethod::Post,
            Some(CANONICAL),
            b"/login",
            Some(b"application/x-www-form-urlencoded"),
            b"username=alice&password=p%40ss%20word",
        ),
        &CANONICAL.to_vec(),
        &assets(),
    );
    match step {
        ServerStep::AttemptLogin(acc) => {
            assert_eq!(acc.username, "alice");
            assert_eq!(acc.password, "p@ss word");
        }
        ServerStep::Respond(_) => panic!("expected a login attempt"),
    }
}

#[test]
fn post_elsewhere_is_404() {
    let resp = expect_response(handle_request(
        &req(HttpMethod::Post, Some(CANONICAL), b"/other", Some(b"application/x-www-form-urlencoded"), b""),
        &CANONICAL.to_vec(),
        &assets(),
    ));
    assert_eq!(resp.status, 404);
}

#[test]
fn form_parser_error_cases() {
    assert!(matches!(parse_login_form(&b"".to_vec()), Err(FormError::InvalidPair)));
    assert!(matches!(parse_login_form(&b"username=a&junk".to_vec()), Err(FormError::InvalidPair)));
    assert!(matches!(parse_login_form(&b"password=b".to_vec()), Err(FormError::MissingUsername)));
    assert!(matches!(parse_login_form(&b"username=a".to_vec()), Err(FormError::MissingPassword)));
    assert!(matches!(
        parse_login_form(&b"username=%ff&password=b".to_vec()),
        Err(FormError::BadEncoding)
    ));
}

#[test]
fn form_parser_takes_second_segment_and_last_duplicate() {
    let acc = parse_login_form(&b"username=x=y&password=p".to_vec()).unwrap();
    assert_eq!(acc.username, "x");
    let acc2 = parse_login_form(&b"username=a&username=b&password=p".to_vec()).unwrap();
    assert_eq!(acc2.username, "b");
    let acc3 = parse_login_form(&b"extra=1&username=a&password=p".to_vec()).unwrap();
    assert_eq!(acc3.username, "a");
    assert_eq!(acc3.password, "p");
}

#[test]
fn success_effects_persist_and_signal() {
    let acc = byr_pet::bupt::BuptAccount {
        username: "alice".to_string(),
        password: "pw".to_string(),
    };
    let eff = login_outcome_effects(&acc, &Ok(()));
    assert_eq!(eff.response.status, 200);
    assert_eq!(eff.response.body, b"{\"code\":0}".to_vec());
    assert!(eff.signal);
    match eff.persist {
        Some(NetConfig::BuptPortal(a)) => assert_eq!(a.username, "alice"),
        _ => panic!("expected the portal configuration to be persisted"),
    }
}

#[test]
fn failure_effects_report_and_do_not_persist() {
    let acc = byr_pet::bupt::BuptAccount {
        username: "alice".to_string(),
        password: "pw".to_string(),
    };
    let eff = login_outcome_effects(&acc, &Err(AuthError::Rejected(b"Bad \"creds\"".to_vec())));
    assert_eq!(eff.response.status, 200);
    assert!(eff.persist.is_none());
    assert!(!eff.signal);
    let got = String::from_utf8(eff.response.body).unwrap();
    let mut map = serde_json::Map::new();
    map.insert("code".to_string(), serde_json::Value::from(1));
    map.insert(
        "message".to_string(),
        serde_json::Value::from("BUPT-portal authentication failed: Bad \"creds\""),
    );
    let expect = serde_json::Value::Object(map).to_string();
    assert_eq!(got, expect);
}

#[test]
fn json_escaping_matches_serde_json() {
    let msg = b"a\"b\\c\nd\te\x01f".to_vec();
    let got = String::from_utf8(json_err_body(&msg)).unwrap();
    let mut map = serde_json::Map::new();
    map.insert("code".to_string(), serde_json::Value::from(1));
    map.insert(
        "message".to_string(),
        serde_json::Value::from("a\"b\\c\nd\te\x01f"),
    );
    let expect = serde_json::Value::Object(map).to_string();
    assert_eq!(got, expect);
    assert_eq!(json_ok_body(), b"{\"code\":0}".to_vec());
}

#[test]
fn rendezvous_signals_once() {
    let mut r = Rendezvous::new();
    assert!(!r.is_signaled());
    r.signal();
    assert!(r.is_signaled());
}

#[test]
fn percent_coding_roundtrips_through_the_crate() {
    let samples: Vec<&[u8]> = vec![b"p@ss word", b"plain", b"", b"a%b&c=d", b"\xff\x00~._-"];
    for s in samples {
        let encoded = urlencoding::encode_binary(s).into_owned();
        let decoded = urlencoding::decode_binary(encoded.as_bytes()).into_owned();
        assert_eq!(decoded, s.to_vec());
    }
}

#[test]
fn error_messages_render_exactly() {
    assert_eq!(
        auth_error_message(&AuthError::UnexpectedStatus(403)),
        b"unexpected status code: 403".to_vec()
    );
    assert_eq!(
        auth_error_message(&AuthError::MissingLocation),
        b"no Location header found in response".to_vec()
    );
    assert_eq!(
        auth_error_message(&AuthError::TooManyRedirects),
        b"too many redirects".to_vec()
    );
}
