use codex_runway::auth::{official_auth_object, CodexAuth, LoginUsability, Tokens};
use codex_runway::json::Json;

fn oauth_auth(access: &str, refresh: &str, account: Option<&str>) -> CodexAuth {
    CodexAuth {
        auth_mode: Some("chatgpt".to_string()),
        tokens: Some(Tokens {
            access_token: access.to_string(),
            refresh_token: refresh.to_string(),
            account_id: account.map(String::from),
            id_token: None,
        }),
        ..Default::default()
    }
}

#[test]
fn short_access_token_is_invalid() {
    let a = oauth_auth("short", "long_refresh_token_value", None);
    assert_eq!(a.login_usability(), LoginUsability::Invalid);
}

#[test]
fn long_access_with_refresh_is_usable() {
    let a = oauth_auth(&"a".repeat(50), &"r".repeat(40), Some("acc-1"));
    assert_eq!(a.login_usability(), LoginUsability::Usable);
}

#[test]
fn short_refresh_is_invalid() {
    let a = oauth_auth(&"a".repeat(50), "rt", Some("acc-1"));
    assert_eq!(a.login_usability(), LoginUsability::Invalid);
}

#[test]
fn api_key_auth_is_usable() {
    let a = CodexAuth {
        auth_mode: Some("apikey".to_string()),
        openai_api_key: Some("sk-12345678".to_string()),
        ..Default::default()
    };
    assert!(a.is_api_key());
    assert_eq!(a.login_usability(), LoginUsability::Usable);
}

#[test]
fn official_object_strips_plan_fields() {
    let mut a = oauth_auth(&"a".repeat(50), &"r".repeat(40), Some("acc-1"));
    a.plan_type = Some("pro".to_string());
    let v = official_auth_object(&a);
    assert!(v.get("plan_type").is_none());
    assert!(v.get("tokens").is_some());
}

#[test]
fn official_object_keeps_tokens_and_mode() {
    let mut a = oauth_auth(&"a".repeat(50), &"r".repeat(40), Some("acc-1"));
    a.auth_file_plan_type = Some("plus".to_string());
    a.last_refresh = Some("2026-01-01T00:00:00Z".to_string());
    let v = official_auth_object(&a);
    assert!(v.get("auth_file_plan_type").is_none());
    assert_eq!(v.get("auth_mode").and_then(|m| m.as_str()), Some("chatgpt"));
    assert_eq!(v.get("last_refresh").and_then(|m| m.as_str()), Some("2026-01-01T00:00:00Z"));
    let t = v.get("tokens").unwrap();
    assert_eq!(t.get("account_id").and_then(|m| m.as_str()), Some("acc-1"));
    assert_eq!(t.get("refresh_token").and_then(|m| m.as_str()).map(|s| s.len()), Some(40));
    assert!(t.get("id_token").is_none());
    match &v {
        Json::Object(fields) => {
            let keys: Vec<&str> = fields.iter().map(|(k, _)| k.as_str()).collect();
            assert_eq!(keys, vec!["auth_mode", "last_refresh", "tokens"]);
        }
        _ => panic!("expected an object"),
    }
}

#[test]
fn api_key_object_has_only_key_and_mode() {
    let a = CodexAuth {
        auth_mode: Some("apikey".to_string()),
        openai_api_key: Some("sk-12345678".to_string()),
        plan_type: Some("pro".to_string()),
        ..Default::default()
    };
    let v = official_auth_object(&a);
    assert_eq!(v.get("OPENAI_API_KEY").and_then(|m| m.as_str()), Some("sk-12345678"));
    assert_eq!(v.get("auth_mode").and_then(|m| m.as_str()), Some("apikey"));
    assert!(v.get("tokens").is_none());
    assert!(v.get("plan_type").is_none());
}

#[test]
fn missing_access_without_refresh_is_expired_access() {
    let a = oauth_auth("", "", None);
    assert_eq!(a.login_usability(), LoginUsability::ExpiredAccess);
    let none = CodexAuth { auth_mode: Some("chatgpt".to_string()), ..Default::default() };
    assert_eq!(none.login_usability(), LoginUsability::ExpiredAccess);
    // An empty access token with a refresh token is placeholder junk.
    assert_eq!(oauth_auth("", &"r".repeat(40), None).login_usability(), LoginUsability::Invalid);
}

#[test]
fn missing_tokens_is_not_oauth() {
    let a = CodexAuth { auth_mode: Some("chatgpt".to_string()), ..Default::default() };
    assert!(!a.is_oauth());
    assert!(!a.is_api_key());
    assert!(a.access_token().is_none());
    assert!(a.account_id().is_none());
    assert!(!a.can_refresh_oauth());
}

#[test]
fn oauth_accessors_read_tokens() {
    let a = oauth_auth(&"a".repeat(50), &"r".repeat(40), Some("acc-1"));
    assert!(a.is_oauth());
    assert!(!a.is_api_key());
    assert_eq!(a.account_id().as_deref(), Some("acc-1"));
    assert_eq!(a.access_token().map(|s| s.len()), Some(50));
    assert!(a.can_refresh_oauth());
    assert!(a.tokens.as_ref().unwrap().has_oauth_tokens());
}
