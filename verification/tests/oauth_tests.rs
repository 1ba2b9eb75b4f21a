use base64::Engine;
use codex_runway::error::AppError;
use codex_runway::oauth::{
    auth_from_token_response, build_http_response, callback_url_from_request, check_pending, code_challenge,
    decode_plan_type, form_get, hex_digit, html_escape, parse_form_encoded, parse_request_target,
    random_base64url, serve_error_page, serve_success_page, split_path_query, token_reply, url_decode,
    url_encode, OAuthLogin, OAuthSessionInfo, TokenResponse, CLIENT_ID,
};
use sha2::{Digest, Sha256};

fn jwt_with(payload: &str) -> String {
    let p = base64::engine::general_purpose::URL_SAFE_NO_PAD.encode(payload.as_bytes());
    format!("eyJhbGciOiJub25lIn0.{p}.sig")
}

#[test]
fn pkce_challenge_matches_sha256() {
    let verifier = "test-verifier-value-1234567890";
    let challenge = code_challenge(verifier);
    let digest = Sha256::digest(verifier.as_bytes());
    let expected = base64::engine::general_purpose::URL_SAFE_NO_PAD.encode(digest);
    assert_eq!(challenge, expected);
    assert_ne!(challenge, verifier);
    assert!(!challenge.contains('='));
    assert!(!challenge.contains('+'));
}

#[test]
fn state_mismatch_rejected() {
    let url = "http://localhost:1455/auth/callback?code=abc&state=other";
    let err = OAuthLogin::authorization_code(url, "expected").unwrap_err();
    match err {
        AppError::Auth(msg) => assert!(msg.contains("state"), "{msg}"),
        _ => panic!("expected Auth error"),
    }
}

#[test]
fn code_extraction() {
    let url = "http://localhost:1455/auth/callback?code=the-code&state=s";
    let code = OAuthLogin::authorization_code(url, "s").unwrap();
    assert_eq!(code, "the-code");
}

#[test]
fn oauth_error_surfaces() {
    let url = "http://localhost:1455/auth/callback?error=access_denied&state=s";
    let err = OAuthLogin::authorization_code(url, "s").unwrap_err();
    match err {
        AppError::Auth(msg) => assert!(msg.contains("access_denied"), "{msg}"),
        _ => panic!("expected Auth error"),
    }
}

#[test]
fn url_form_round_trip() {
    let encoded = url_encode("hello world/a+b=c");
    let decoded = url_decode(&encoded);
    assert_eq!(decoded, "hello world/a+b=c");
}

#[test]
fn url_encode_escapes_reserved_bytes_upper_hex() {
    assert_eq!(url_encode("a b/c~d_e.f-g"), "a%20b%2Fc~d_e.f-g");
    assert_eq!(url_encode("é"), "%C3%A9");
    assert_eq!(url_decode("%c3%A9+x"), "é x");
    assert_eq!(url_decode("%zz%4"), "%zz%4");
    assert_eq!(url_decode("a%41"), "aA");
}

#[test]
fn hex_digit_reads_both_cases() {
    assert_eq!(hex_digit(b'0'), Some(0));
    assert_eq!(hex_digit(b'f'), Some(15));
    assert_eq!(hex_digit(b'C'), Some(12));
    assert_eq!(hex_digit(b'g'), None);
}

#[test]
fn callback_errors_name_their_cause() {
    let cases = [
        ("no-scheme/auth/callback?code=a&state=s", "malformed callback URL"),
        ("http://localhost:1455/other?code=a&state=s", "unexpected callback path: /other"),
        ("http://localhost:1455/auth/callback?code=a", "missing state"),
        ("http://localhost:1455/auth/callback?state=s", "missing code"),
        ("http://localhost:1455/auth/callback?code=&state=s", "missing code"),
        ("http://localhost:1455/auth/callback?error=x%20y&state=s", "OAuth error: x y"),
        ("http://localhost:1455/auth/callback?code=a&state=t", "OAuth state mismatch"),
    ];
    for (url, msg) in cases {
        match OAuthLogin::authorization_code(url, "s") {
            Err(AppError::Auth(m)) => assert_eq!(m, msg, "{url}"),
            other => panic!("{url}: {other:?}"),
        }
    }
}

#[test]
fn later_form_values_win() {
    let pairs = parse_form_encoded("a=1&&b&a=2&c=x%3Dy");
    assert_eq!(form_get(&pairs, "a").as_deref(), Some("2"));
    assert_eq!(form_get(&pairs, "b").as_deref(), Some(""));
    assert_eq!(form_get(&pairs, "c").as_deref(), Some("x=y"));
    assert_eq!(form_get(&pairs, "d"), None);
}

#[test]
fn split_path_query_needs_scheme_path_and_query() {
    assert_eq!(
        split_path_query("http://h:1/p/q?x=1&y"),
        Some(("/p/q".to_string(), "x=1&y".to_string()))
    );
    assert_eq!(split_path_query("http://h:1/p/q"), None);
    assert_eq!(split_path_query("h/p?x"), None);
}

#[test]
fn request_target_only_for_get() {
    assert_eq!(parse_request_target("GET /a?b HTTP/1.1").as_deref(), Some("/a?b"));
    assert_eq!(parse_request_target("GET /only").as_deref(), Some("/only"));
    assert_eq!(parse_request_target("POST /a HTTP/1.1"), None);
    assert_eq!(parse_request_target("GET"), None);
}

#[test]
fn callback_server_handles_request() {
    let req = b"GET /auth/callback?code=abc&state=ok HTTP/1.1\r\nHost: localhost\r\n\r\n";
    let url = callback_url_from_request(req, 1024).unwrap();
    assert!(url.contains("/auth/callback"));
    assert!(url.contains("code=abc"));
    assert_eq!(url, "http://localhost:1024/auth/callback?code=abc&state=ok");
    assert_eq!(callback_url_from_request(b"PUT / HTTP/1.1\r\n", 1024), None);
}

#[test]
fn http_responses_are_framed() {
    let r = build_http_response(200, "OK", "text/plain", "héllo");
    assert_eq!(
        String::from_utf8(r).unwrap(),
        "HTTP/1.1 200 OK\r\nContent-Type: text/plain\r\nContent-Length: 6\r\nConnection: close\r\n\r\nhéllo"
    );
    let ok = String::from_utf8(serve_success_page()).unwrap();
    assert!(ok.starts_with("HTTP/1.1 200 OK\r\n"));
    assert!(ok.contains("Sign-in complete"));
    let bad = String::from_utf8(serve_error_page("<bad> & \"worse\"")).unwrap();
    assert!(bad.starts_with("HTTP/1.1 400 Bad Request\r\n"));
    assert!(bad.contains("<p>&lt;bad&gt; &amp; &quot;worse&quot;</p>"));
}

#[test]
fn html_escape_replaces_markup() {
    assert_eq!(html_escape("a<b>&\"c'"), "a&lt;b&gt;&amp;&quot;c'");
}

#[test]
fn session_urls_carry_pkce_and_state() {
    let s = OAuthLogin::start_session_with(1455, 600, 1_000, "verifier".to_string(), "st".to_string(), "id".to_string());
    assert_eq!(s.redirect_uri, "http://localhost:1455/auth/callback");
    assert_eq!(s.expires_at_unix, 1_600);
    let challenge = code_challenge("verifier");
    assert!(s.auth_url.starts_with("https://auth.openai.com/oauth/authorize?response_type=code&client_id="));
    assert!(s.auth_url.contains(&format!("client_id={CLIENT_ID}")));
    assert!(s.auth_url.contains("redirect_uri=http%3A%2F%2Flocalhost%3A1455%2Fauth%2Fcallback"));
    assert!(s.auth_url.contains(&format!("code_challenge={challenge}&code_challenge_method=S256&state=st")));
    assert!(s.auth_url.ends_with("originator=codex_cli_rs"));
    assert!(!s.auth_url.contains("verifier"));
    let body = OAuthLogin::token_request_body(&s, "c/d");
    assert_eq!(
        body,
        format!("grant_type=authorization_code&client_id={CLIENT_ID}&code=c%2Fd&redirect_uri=http%3A%2F%2Flocalhost%3A1455%2Fauth%2Fcallback&code_verifier=verifier")
    );
}

#[test]
fn random_sessions_differ_and_are_base64url() {
    let a = OAuthLogin::start_session(1455, 600).unwrap();
    let b = OAuthLogin::start_session(1455, 600).unwrap();
    assert_ne!(a.code_verifier, b.code_verifier);
    assert_eq!(a.code_verifier.len(), 43);
    assert_eq!(a.state.len(), 22);
    assert_eq!(a.login_id.len(), 11);
    let r = random_base64url(16);
    assert!(r.chars().all(|c| c.is_ascii_alphanumeric() || c == '-' || c == '_'));
}

#[test]
fn exchange_session_and_info() {
    let s = OAuthLogin::exchange_session("id".to_string(), 4242, "v".to_string(), "st".to_string(), 10);
    assert_eq!(s.redirect_uri, "http://localhost:4242/auth/callback");
    assert_eq!(s.auth_url, "");
    assert_eq!(s.expires_at_unix, 610);
    let info = OAuthSessionInfo::of_session(s, 4242);
    assert_eq!(info.port, 4242);
    assert_eq!(info.code_verifier, "v");
    assert_eq!(info.state, "st");
}

#[test]
fn pending_listener_must_match() {
    assert!(check_pending(Some(5), 5).is_ok());
    match check_pending(Some(6), 5) {
        Err(AppError::Auth(m)) => assert_eq!(m, "OAuth session was superseded; please retry"),
        other => panic!("{other:?}"),
    }
    match check_pending(None, 5) {
        Err(AppError::Auth(m)) => assert_eq!(m, "no pending OAuth session; please start again"),
        other => panic!("{other:?}"),
    }
}

#[test]
fn token_reply_reports_failures() {
    assert_eq!(token_reply(200, b"{}".to_vec()).unwrap(), b"{}".to_vec());
    match token_reply(401, vec![b'x'; 300]) {
        Err(AppError::Auth(m)) => assert_eq!(m, format!("token endpoint 401: {}", "x".repeat(200))),
        other => panic!("{other:?}"),
    }
}

#[test]
fn token_response_becomes_chatgpt_credential() {
    let id = jwt_with(r#"{"sub":"user-1","https://api.openai.com/auth":{"chatgpt_plan_type":"pro"}}"#);
    let resp = TokenResponse { id_token: Some(id.clone()), access_token: "a".repeat(50), refresh_token: None };
    let auth = auth_from_token_response(resp, "2026-01-01T00:00:00Z".to_string()).unwrap();
    assert_eq!(auth.auth_mode.as_deref(), Some("chatgpt"));
    assert_eq!(auth.plan_type.as_deref(), Some("pro"));
    assert_eq!(auth.account_id().as_deref(), Some("user-1"));
    let t = auth.tokens.as_ref().unwrap();
    assert_eq!(t.refresh_token, "");
    assert_eq!(t.id_token.as_deref(), Some(id.as_str()));
    let empty = TokenResponse { id_token: None, access_token: String::new(), refresh_token: Some(String::new()) };
    match auth_from_token_response(empty, String::new()) {
        Err(AppError::Auth(m)) => assert_eq!(m, "token endpoint returned no usable credentials"),
        other => panic!("{other:?}"),
    }
}

#[test]
fn plan_type_falls_back_to_top_level_claim() {
    assert_eq!(decode_plan_type(Some(&jwt_with(r#"{"chatgpt_plan_type":"plus"}"#))).as_deref(), Some("plus"));
    assert_eq!(decode_plan_type(Some("not-a-jwt")), None);
    assert_eq!(decode_plan_type(None), None);
}
