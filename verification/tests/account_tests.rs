use base64::Engine;
use codex_runway::account::{
    backfill_row, check_activatable, check_storable, decode_jwt_email, decode_jwt_sub,
    decode_jwt_subscription_until, ensure_active, find_row, library_id_for, mark_activated, remove_account,
    row_for_credential, row_for_import, row_for_login, row_needs_backfill, set_active, subject_id_from_idtoken,
    upsert_row, AccountAuthMode, AccountIndex, AccountRow, AccountStore, RedactedAuth,
};
use codex_runway::auth::{CodexAuth, Tokens};
use codex_runway::error::AppError;
use codex_runway::paths::Paths;
use codex_runway::time::Timestamp;

const NOW: Timestamp = Timestamp { secs: 1_800_000_000, nanos: 0 };

fn jwt_with(payload: &str) -> String {
    let p = base64::engine::general_purpose::URL_SAFE_NO_PAD.encode(payload.as_bytes());
    format!("eyJhbGciOiJub25lIn0.{p}.sig")
}

fn make_auth() -> CodexAuth {
    CodexAuth {
        auth_mode: Some("chatgpt".to_string()),
        tokens: Some(Tokens {
            access_token: "a".repeat(50),
            refresh_token: "r".repeat(40),
            account_id: Some("acc-1".to_string()),
            id_token: None,
        }),
        plan_type: Some("pro".to_string()),
        ..Default::default()
    }
}

fn row(id: &str) -> AccountRow {
    row_for_credential(id, None, &make_auth(), NOW)
}

#[test]
fn jwt_claims_are_read() {
    let jwt = jwt_with(
        r#"{"sub":"u-1","email":"a@b.c","https://api.openai.com/auth":{"chatgpt_subscription_active_until":"2026-09-23T00:00:00Z"}}"#,
    );
    assert_eq!(decode_jwt_sub(&jwt).as_deref(), Some("u-1"));
    assert_eq!(decode_jwt_email(&jwt).as_deref(), Some("a@b.c"));
    assert_eq!(decode_jwt_subscription_until(&jwt).as_deref(), Some("2026-09-23T00:00:00Z"));
    let numeric = jwt_with(r#"{"https://api.openai.com/auth":{"chatgpt_subscription_active_until":0}}"#);
    assert_eq!(decode_jwt_subscription_until(&numeric).as_deref(), Some("1970-01-01T00:00:00+00:00"));
    assert_eq!(decode_jwt_sub("onlyone"), None);
    assert_eq!(subject_id_from_idtoken(None), None);
}

#[test]
fn library_ids_fall_back_to_subject_then_imported() {
    assert_eq!(library_id_for(&make_auth()), "acc-1");
    let mut a = make_auth();
    a.tokens.as_mut().unwrap().account_id = None;
    a.tokens.as_mut().unwrap().id_token = Some(jwt_with(r#"{"sub":"u-9"}"#));
    assert_eq!(library_id_for(&a), "u-9");
    a.tokens.as_mut().unwrap().id_token = None;
    assert_eq!(library_id_for(&a), "imported");
}

#[test]
fn rows_for_credentials_login_and_import() {
    let r = row_for_credential("x", Some("Label".to_string()), &make_auth(), NOW);
    assert_eq!(r.label, "Label");
    assert_eq!(r.auth_mode, AccountAuthMode::Oauth);
    assert_eq!(r.account_id.as_deref(), Some("acc-1"));
    assert_eq!(r.plan_type.as_deref(), Some("pro"));
    assert_eq!(r.last_used_at, Some(NOW));
    let r = row_for_credential("x", None, &make_auth(), NOW);
    assert_eq!(r.label, "x");
    let l = row_for_login(&make_auth(), NOW);
    assert_eq!(l.id, "acc-1");
    assert_eq!(l.auth_mode, AccountAuthMode::Oauth);
    let mut bad = make_auth();
    bad.tokens.as_mut().unwrap().access_token = "short".to_string();
    let i = row_for_import(&bad, NOW);
    assert!(i.requires_reauth);
    assert!(!row_for_import(&make_auth(), NOW).requires_reauth);
}

#[test]
fn upsert_replaces_by_id_and_activates_first() {
    let mut idx = AccountIndex::default();
    upsert_row(&mut idx, row("a"));
    assert_eq!(idx.active_id.as_deref(), Some("a"));
    upsert_row(&mut idx, row("b"));
    let mut again = row("a");
    again.label = "new".to_string();
    upsert_row(&mut idx, again);
    assert_eq!(idx.accounts.len(), 2);
    assert_eq!(find_row(&idx, "a"), Some(0));
    assert_eq!(idx.accounts[0].label, "new");
    assert_eq!(idx.active_id.as_deref(), Some("a"));
    assert_eq!(find_row(&idx, "zzz"), None);
}

#[test]
fn removing_the_active_account_moves_activity() {
    let mut idx = AccountIndex::default();
    upsert_row(&mut idx, row("a"));
    upsert_row(&mut idx, row("b"));
    remove_account(&mut idx, "a");
    assert_eq!(idx.accounts.len(), 1);
    assert_eq!(idx.active_id.as_deref(), Some("b"));
    remove_account(&mut idx, "b");
    assert!(idx.accounts.is_empty());
    assert_eq!(idx.active_id, None);
}

#[test]
fn removing_undoes_storing() {
    let mut idx = AccountIndex::default();
    upsert_row(&mut idx, row("a"));
    let before: Vec<String> = idx.accounts.iter().map(|r| r.id.clone()).collect();
    upsert_row(&mut idx, row("b"));
    remove_account(&mut idx, "b");
    let after: Vec<String> = idx.accounts.iter().map(|r| r.id.clone()).collect();
    assert_eq!(before, after);
}

#[test]
fn set_active_refuses_unknown_ids() {
    let mut idx = AccountIndex::default();
    upsert_row(&mut idx, row("a"));
    upsert_row(&mut idx, row("b"));
    assert!(set_active(&mut idx, "b").is_ok());
    assert_eq!(idx.active_id.as_deref(), Some("b"));
    match set_active(&mut idx, "nope") {
        Err(AppError::Account(m)) => assert_eq!(m, "unknown account id nope"),
        other => panic!("{other:?}"),
    }
    assert_eq!(idx.active_id.as_deref(), Some("b"));
}

#[test]
fn activation_stamps_and_activates() {
    let mut idx = AccountIndex::default();
    upsert_row(&mut idx, row("a"));
    upsert_row(&mut idx, row("b"));
    let later = Timestamp { secs: NOW.secs + 60, nanos: 0 };
    mark_activated(&mut idx, "b", later);
    assert_eq!(idx.accounts[1].last_used_at, Some(later));
    assert_eq!(idx.accounts[0].last_used_at, Some(NOW));
    assert_eq!(idx.active_id.as_deref(), Some("b"));
}

#[test]
fn first_account_becomes_active() {
    let mut idx = AccountIndex { active_id: None, accounts: vec![row("a"), row("b")] };
    assert!(ensure_active(&mut idx));
    assert_eq!(idx.active_id.as_deref(), Some("a"));
    assert!(!ensure_active(&mut idx));
    let mut empty = AccountIndex::default();
    assert!(!ensure_active(&mut empty));
}

#[test]
fn backfill_fills_missing_metadata() {
    let mut r = row("a");
    r.email = None;
    r.subject_id = None;
    assert!(row_needs_backfill(&r));
    let mut auth = make_auth();
    auth.tokens.as_mut().unwrap().id_token = Some(jwt_with(r#"{"sub":"u-1","email":"e@x"}"#));
    backfill_row(&mut r, Ok(auth)).unwrap();
    assert_eq!(r.email.as_deref(), Some("e@x"));
    assert_eq!(r.subject_id.as_deref(), Some("u-1"));

    let mut m = row("b");
    backfill_row(&mut m, Err(AppError::Account("credential_missing".to_string()))).unwrap();
    assert!(m.requires_reauth);
    assert_eq!(m.last_error.as_deref(), Some("credential_missing"));
    let mut i = row("c");
    backfill_row(&mut i, Err(AppError::InvalidCredential("cannot parse".to_string()))).unwrap();
    assert_eq!(i.last_error.as_deref(), Some("invalid_credential"));
    let mut o = row("d");
    match backfill_row(&mut o, Err(AppError::Io("disk".to_string()))) {
        Err(AppError::Io(m)) => assert_eq!(m, "disk"),
        other => panic!("{other:?}"),
    }
    assert!(!o.requires_reauth);
}

#[test]
fn unusable_credentials_are_refused() {
    let mut bad = make_auth();
    bad.tokens.as_mut().unwrap().refresh_token = "rt".to_string();
    match check_activatable("acc-1", &bad, NOW.secs) {
        Err(AppError::InvalidCredential(m)) => assert_eq!(m, "account acc-1 is not usable as a Codex login"),
        other => panic!("{other:?}"),
    }
    match check_storable(&bad, NOW.secs) {
        Err(AppError::InvalidCredential(m)) => assert_eq!(m, "refusing to store an unusable credential"),
        other => panic!("{other:?}"),
    }
    assert!(check_activatable("acc-1", &make_auth(), NOW.secs).is_ok());
    // An expired access token without a refresh token is kept but not switched to.
    let expired_access = format!(
        "eyJhbGciOiJub25lIn0.{}.sig",
        base64::engine::general_purpose::URL_SAFE_NO_PAD.encode(format!(r#"{{"exp":100,"pad":"{}"}}"#, "p".repeat(40)))
    );
    let mut expired = make_auth();
    expired.tokens.as_mut().unwrap().access_token = expired_access;
    expired.tokens.as_mut().unwrap().refresh_token = String::new();
    assert!(check_storable(&expired, NOW.secs).is_ok());
    assert!(matches!(check_activatable("acc-1", &expired, NOW.secs), Err(AppError::InvalidCredential(_))));
    assert!(check_storable(&make_auth(), NOW.secs).is_ok());
}

#[test]
fn redacted_auth_hides_secrets() {
    let r = RedactedAuth::of_auth_at(&make_auth(), NOW.secs);
    assert_eq!(r.account_id.as_deref(), Some("acc-1"));
    assert!(r.has_access_token);
    assert!(r.has_refresh_token);
    assert_eq!(r.usability, "Usable");
    assert_eq!(r.plan_type.as_deref(), Some("pro"));
}

#[test]
fn store_is_bound_to_its_layout() {
    let p = Paths { home: "/h".to_string(), codex_home: "/h/.codex".to_string(), app_home: "/h/.r".to_string() };
    let s = AccountStore::new(&p);
    assert_eq!(s.paths().home, "/h");
}
