use std::path::Path;

use codex_runway::error::AppError;
use codex_runway::paths::{pick_home, sanitize, AppInfo, Paths};

fn sample() -> Paths {
    Paths {
        home: "/home/u".to_string(),
        codex_home: "/home/u/.codex".to_string(),
        app_home: "/home/u/.codex-runway".to_string(),
    }
}

#[test]
fn sanitize_keeps_safe_chars() {
    assert_eq!(sanitize("codex-acc_1.0"), "codex-acc_1.0");
    assert_eq!(sanitize("a/b\\c"), "a_b_c");
    assert_eq!(sanitize(""), "default");
    assert_eq!(sanitize("../etc/passwd"), ".._etc_passwd");
}

#[test]
fn sanitize_never_names_dot_entries() {
    assert_eq!(sanitize("."), "_");
    assert_eq!(sanitize(".."), "__");
    assert_eq!(sanitize("..."), "___");
    assert_eq!(sanitize("a.."), "a..");
    let sep = std::path::MAIN_SEPARATOR;
    let p = sample();
    assert_eq!(p.account_dir(".."), format!("/home/u/.codex-runway{sep}accounts{sep}__"));
}

#[test]
fn sanitize_replaces_non_ascii_and_colons() {
    assert_eq!(sanitize("C:é x"), "C___x");
}

#[test]
fn layout_under_codex_and_app_home() {
    let p = sample();
    let sep = std::path::MAIN_SEPARATOR;
    assert_eq!(p.official_auth(), format!("/home/u/.codex{sep}auth.json"));
    assert_eq!(p.sessions_dir(), format!("/home/u/.codex{sep}sessions"));
    assert_eq!(p.app_accounts(), format!("/home/u/.codex-runway{sep}accounts"));
    assert_eq!(p.account_index(), format!("/home/u/.codex-runway{sep}accounts{sep}index.json"));
    assert_eq!(p.account_dir("../x"), format!("/home/u/.codex-runway{sep}accounts{sep}.._x"));
    assert_eq!(p.account_auth("acc-1"), format!("/home/u/.codex-runway{sep}accounts{sep}acc-1{sep}auth.json"));
}

#[test]
fn home_prefers_userprofile() {
    assert_eq!(pick_home(Some("C:\\Users\\u".to_string()), Some("/h".to_string())).unwrap(), "C:\\Users\\u");
    assert_eq!(pick_home(None, Some("/h".to_string())).unwrap(), "/h");
    match pick_home(None, None) {
        Err(AppError::Config(m)) => assert_eq!(m, "USERPROFILE / HOME is not set"),
        other => panic!("{other:?}"),
    }
    let p = Paths::under_home("/h".to_string());
    let sep = std::path::MAIN_SEPARATOR;
    assert_eq!(p.codex_home, format!("/h{sep}.codex"));
    assert_eq!(p.app_home, format!("/h{sep}.codex-runway"));
}

#[test]
fn app_info_reports_the_layout() {
    let i = AppInfo::of_paths(&sample(), true);
    assert_eq!(i.home_dir, "/home/u");
    assert_eq!(i.codex_home, "/home/u/.codex");
    assert_eq!(i.app_home, "/home/u/.codex-runway");
    assert!(i.official_auth_exists);
}

#[test]
fn joins_follow_the_base_separator_rules() {
    let sep = std::path::MAIN_SEPARATOR;
    let bare = Paths::under_home(String::new());
    assert_eq!(bare.codex_home, ".codex");
    assert_eq!(bare.app_home, ".codex-runway");
    let trailing = Paths::under_home("/home/u/".to_string());
    assert_eq!(trailing.codex_home, "/home/u/.codex");
    let plain = Paths::under_home("/home/u".to_string());
    assert_eq!(plain.app_home, format!("/home/u{sep}.codex-runway"));
}

#[test]
fn account_files_sit_directly_inside_their_directories() {
    let p = sample();
    let accounts = p.app_accounts();
    let dir = p.account_dir("team/acc");
    let auth = p.account_auth("team/acc");
    assert_eq!(Path::new(&dir).parent(), Some(Path::new(&accounts)));
    assert_eq!(Path::new(&dir).file_name().and_then(|s| s.to_str()), Some("team_acc"));
    assert_eq!(Path::new(&auth).parent(), Some(Path::new(&dir)));
    assert_eq!(Path::new(&auth).file_name().and_then(|s| s.to_str()), Some("auth.json"));
    assert_eq!(Path::new(&p.account_index()).parent(), Some(Path::new(&accounts)));
}
