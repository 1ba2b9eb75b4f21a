use base64::Engine;
use codex_runway::auth::{is_jwt_expired, is_jwt_expired_at, jwt_claims, CodexAuth, LoginUsability, Tokens};
use codex_runway::crashlog::{crash_log_name, crash_popup, crash_report, panic_location};
use codex_runway::error::{ApiError, AppError};
use codex_runway::json::Json;
use codex_runway::time::Timestamp;

fn jwt_with(payload: &str) -> String {
    let p = base64::engine::general_purpose::URL_SAFE_NO_PAD.encode(payload.as_bytes());
    format!("eyJhbGciOiJub25lIn0.{p}.sig")
}

#[test]
fn json_is_carried_over_node_for_node() {
    let jwt = jwt_with(r#"{"a":1,"b":"x","c":[true,null],"d":{"e":-2},"f":1.5}"#);
    let v = jwt_claims(&jwt).unwrap();
    assert_eq!(v.get("a").and_then(|x| x.as_i64()), Some(1));
    assert_eq!(v.get("b").and_then(|x| x.as_str()), Some("x"));
    assert_eq!(v.get("d").and_then(|d| d.get("e")).and_then(|x| x.as_i64()), Some(-2));
    assert_eq!(v.get("f").and_then(|x| x.as_i64()), None);
    assert!(matches!(v.get("c"), Some(Json::Array(items)) if items.len() == 2));
    assert!(v.get("zz").is_none());
    assert!(jwt_claims(&jwt_with("{not json")).is_none());
    assert!(jwt_claims("a.***.c").is_none());
    assert!(jwt_claims("nodots").is_none());
}

#[test]
fn instants_compare_and_count_seconds() {
    let a = Timestamp { secs: 5, nanos: 1 };
    let b = Timestamp { secs: 5, nanos: 2 };
    assert!(a.before(&b));
    assert!(!b.before(&a));
    assert_eq!(a.seconds_until(&Timestamp { secs: 7, nanos: 0 }), 1);
    assert_eq!(b.seconds_until(&a), 0);
}

#[test]
fn jwt_expiry_is_read_from_exp() {
    let jwt = jwt_with(r#"{"exp":100}"#);
    // Expired once `exp` is within 60 seconds of now.
    assert!(is_jwt_expired_at(&jwt, 40));
    assert!(!is_jwt_expired_at(&jwt, 39));
    assert!(is_jwt_expired(&jwt));
    assert!(is_jwt_expired_at("no-dots", 0));
    assert!(jwt_claims(&jwt).is_some());
    let no_exp = jwt_with(r#"{"sub":"x"}"#);
    assert!(!is_jwt_expired_at(&no_exp, i64::MAX));
}

#[test]
fn expired_access_without_refresh_is_reported() {
    let access = jwt_with(&format!(r#"{{"exp":100,"pad":"{}"}}"#, "p".repeat(40)));
    let a = CodexAuth {
        auth_mode: Some("chatgpt".to_string()),
        tokens: Some(Tokens { access_token: access, refresh_token: String::new(), account_id: None, id_token: None }),
        ..Default::default()
    };
    assert_eq!(a.login_usability_at(200), LoginUsability::ExpiredAccess);
    assert_eq!(a.login_usability_at(30), LoginUsability::Usable);
}

#[test]
fn errors_flatten_to_kind_and_message() {
    let e = ApiError::from_app_error(AppError::InvalidCredential("bad".to_string()));
    assert_eq!(e.kind, "invalid_credential");
    assert_eq!(e.message, "invalid credential: bad");
    let e = ApiError::from_app_error(AppError::NotImplemented("x".to_string()));
    assert_eq!(e.kind, "not_implemented");
    assert_eq!(e.message, "not implemented: x");
    assert_eq!(AppError::Auth("missing state".to_string()).message(), "auth: missing state");
    assert_eq!(AppError::Quota("q".to_string()).kind(), "quota");
}

#[test]
fn crash_texts() {
    assert_eq!(crash_log_name(1_700_000_000), "panic-1700000000.log");
    assert_eq!(crash_log_name(-5), "panic--5.log");
    assert_eq!(panic_location("src/lib.rs", 10, 4), "src/lib.rs:10:4");
    let body = crash_report("boom", "a.rs:1:2", 42, "bt");
    assert_eq!(
        body,
        "Codex Runway crashed.\n\nPanic message: boom\nAt: a.rs:1:2\nTime (UTC unix): 42\n\nBacktrace:\nbt\n"
    );
    let popup = crash_popup("C:\\Temp\\codex-runway-windows", &body);
    assert!(popup.ends_with("First line of the message:\nCodex Runway crashed.\n"));
    assert!(popup.contains("A crash log was written to:\nC:\\Temp\\codex-runway-windows\n"));
    assert!(crash_popup("d", "one\r\ntwo").ends_with("message:\none\n"));
    assert!(crash_popup("d", "").ends_with("message:\n\n"));
}
