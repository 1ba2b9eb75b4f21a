use codex_runway::auth::{CodexAuth, Tokens};
use codex_runway::error::AppError;
use codex_runway::json::{Json, JsonNumber};
use codex_runway::quota::{
    flexible_date, flexible_i64, unix_instant, endpoint_url, quota_reply, quota_request, remaining_secs, ResetCreditRaw, ResetCreditsResponse,
    ResetCreditsSnapshot, DEFAULT_BASE, USAGE_PATH,
};
use codex_runway::time::Timestamp;

fn auth(access: &str, account: Option<&str>) -> CodexAuth {
    CodexAuth {
        auth_mode: Some("chatgpt".to_string()),
        tokens: Some(Tokens {
            access_token: access.to_string(),
            refresh_token: "r".repeat(40),
            account_id: account.map(String::from),
            id_token: None,
        }),
        ..Default::default()
    }
}

#[test]
fn urls_join_base_and_path_once() {
    assert_eq!(endpoint_url(DEFAULT_BASE, USAGE_PATH), "https://chatgpt.com/backend-api/wham/usage");
    assert_eq!(endpoint_url("http://x///", "p"), "http://x/p");
}

#[test]
fn requests_carry_bearer_and_account() {
    let q = quota_request("http://x/", "wham/usage", &auth("tok", Some("acc"))).unwrap();
    assert_eq!(q.url, "http://x/wham/usage");
    assert_eq!(q.authorization, "Bearer tok");
    assert_eq!(q.account_id.as_deref(), Some("acc"));
    let q = quota_request("http://x", "p", &auth("tok", Some(""))).unwrap();
    assert_eq!(q.account_id, None);
    let q = quota_request("http://x", "p", &auth("tok", Some("bad\u{7f}"))).unwrap();
    assert_eq!(q.account_id, None);
}

#[test]
fn requests_need_a_header_safe_token() {
    match quota_request("http://x", "p", &CodexAuth::default()) {
        Err(AppError::Auth(m)) => assert_eq!(m, "missing access_token; cannot call Codex API"),
        other => panic!("{other:?}"),
    }
    match quota_request("http://x", "p", &auth("bad\ntoken", None)) {
        Err(AppError::Auth(m)) => assert_eq!(m, "access_token contains non-ASCII characters"),
        other => panic!("{other:?}"),
    }
    assert!(quota_request("http://x", "p", &auth("tab\ttoken é", None)).is_ok());
}

#[test]
fn replies_are_checked() {
    assert_eq!(quota_reply(200, "OK", b"{}".to_vec()).unwrap(), b"{}".to_vec());
    assert!(quota_reply(204, "No Content", b"ignored".to_vec()).unwrap().is_empty());
    match quota_reply(429, "Too Many Requests", b"slow down".to_vec()) {
        Err(AppError::Quota(m)) => assert_eq!(m, "429 Too Many Requests: slow down"),
        other => panic!("{other:?}"),
    }
    match quota_reply(500, "", vec![b'y'; 250]) {
        Err(AppError::Quota(m)) => assert_eq!(m, format!("500 : {}", "y".repeat(200))),
        other => panic!("{other:?}"),
    }
    match quota_reply(302, "Found", vec![0xff]) {
        Err(AppError::Quota(m)) => assert_eq!(m, "302 Found: \u{fffd}"),
        other => panic!("{other:?}"),
    }
}

#[test]
fn remaining_seconds_never_negative() {
    let now = Timestamp { secs: 100, nanos: 500_000_000 };
    assert_eq!(remaining_secs(None, now), 0);
    assert_eq!(remaining_secs(Some(Timestamp { secs: 50, nanos: 0 }), now), 0);
    assert_eq!(remaining_secs(Some(Timestamp { secs: 161, nanos: 0 }), now), 60);
}

#[test]
fn reset_credits_snapshot_counts_available() {
    let now = Timestamp { secs: 1000, nanos: 0 };
    let raw = |status: Option<&str>, exp: Option<i64>| ResetCreditRaw {
        id: Some("c".to_string()),
        status: status.map(String::from),
        created_at: None,
        expires_at: exp.map(|s| Timestamp { secs: s, nanos: 0 }),
    };
    let r = ResetCreditsResponse {
        available_count: None,
        credits: vec![raw(Some("available"), Some(1600)), raw(None, None), raw(Some("available"), Some(10))],
    };
    let s = ResetCreditsSnapshot::from_response(r, now);
    assert_eq!(s.available_count, 2);
    assert_eq!(s.updated_at, now);
    assert_eq!(s.credits[0].remaining_seconds, 600);
    assert_eq!(s.credits[1].status, "unknown");
    assert_eq!(s.credits[1].remaining_seconds, 0);
    assert_eq!(s.credits[2].remaining_seconds, 0);
    let r = ResetCreditsResponse { available_count: Some(7), credits: vec![raw(Some("available"), None)] };
    assert_eq!(ResetCreditsSnapshot::from_response(r, now).available_count, 7);
}

fn num(int: Option<i64>, float_truncated: i64) -> Json {
    Json::Number(JsonNumber { int, float_truncated })
}

fn text(s: &str) -> Json {
    Json::Str(s.to_string())
}

#[test]
fn flexible_counts_come_as_numbers_or_texts() {
    assert_eq!(flexible_i64(&num(Some(5), 5)), Some(Some(5)));
    assert_eq!(flexible_i64(&num(None, 2)), Some(None));
    assert_eq!(flexible_i64(&text("42")), Some(Some(42)));
    assert_eq!(flexible_i64(&text("+7")), Some(Some(7)));
    assert_eq!(flexible_i64(&text("-3")), Some(Some(-3)));
    assert_eq!(flexible_i64(&text("-9223372036854775808")), Some(Some(i64::MIN)));
    assert_eq!(flexible_i64(&Json::Null), Some(None));
    assert_eq!(flexible_i64(&Json::Bool(true)), Some(None));
}

#[test]
fn flexible_counts_refuse_texts_that_are_not_integers() {
    assert_eq!(flexible_i64(&text("")), None);
    assert_eq!(flexible_i64(&text(" 4")), None);
    assert_eq!(flexible_i64(&text("4.5")), None);
    assert_eq!(flexible_i64(&text("-")), None);
    assert_eq!(flexible_i64(&text("1_000")), None);
    assert_eq!(flexible_i64(&text("9223372036854775808")), None);
}

#[test]
fn flexible_dates_read_seconds_or_rfc3339() {
    assert_eq!(flexible_date(&num(Some(0), 0)), Some(Timestamp { secs: 0, nanos: 0 }));
    assert_eq!(flexible_date(&num(None, 12)), Some(Timestamp { secs: 12, nanos: 0 }));
    assert_eq!(
        flexible_date(&text("2026-01-02T03:04:05Z")),
        Some(Timestamp { secs: 1767323045, nanos: 0 })
    );
    assert_eq!(
        flexible_date(&text("2026-01-02T04:04:05.5+01:00")),
        Some(Timestamp { secs: 1767323045, nanos: 500_000_000 })
    );
    assert_eq!(flexible_date(&text("1700000000")), Some(Timestamp { secs: 1700000000, nanos: 0 }));
    assert_eq!(flexible_date(&text("soon")), None);
    assert_eq!(flexible_date(&Json::Null), None);
    assert_eq!(flexible_date(&num(Some(i64::MAX), 0)), None);
}

#[test]
fn unix_instants_stay_within_the_calendar() {
    assert_eq!(unix_instant(86_400), Some(Timestamp { secs: 86_400, nanos: 0 }));
    assert_eq!(unix_instant(i64::MIN), None);
}
