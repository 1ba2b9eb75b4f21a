use codex_runway::paths::Paths;
use codex_runway::session::{
    parse_session_text, push_recent, session_id_from_path, session_id_of_stem, SessionScanner, SessionTurn,
    TokenUsage,
};
use codex_runway::time::Timestamp;

const NOW: Timestamp = Timestamp { secs: 1_900_000_000, nanos: 0 };

fn paths() -> Paths {
    Paths { home: "/h".to_string(), codex_home: "/h/.codex".to_string(), app_home: "/h/.codex-runway".to_string() }
}

fn ts(s: &str) -> Timestamp {
    let d = chrono::DateTime::parse_from_rfc3339(s).unwrap();
    Timestamp { secs: d.timestamp(), nanos: d.timestamp_subsec_nanos() }
}

#[test]
fn scans_task_complete_tokens() {
    let line = r#"{"type":"turn_context","payload":{"model":"gpt-5","cwd":"C:\\work"}}
{"type":"task_complete","timestamp":"2026-05-15T10:00:00Z","payload":{"info":{"last_token_usage":{"total_token_usage":{"input_tokens":1200,"cached_input_tokens":300,"output_tokens":450}}}}}
{"type":"task_complete","timestamp":"2026-05-15T10:05:00Z","payload":{"info":{"last_token_usage":{"total_token_usage":{"input_tokens":800,"cached_input_tokens":0,"output_tokens":200}}}}}"#;
    let turns = parse_session_text(line, "abc", NOW, None);
    let p = paths();
    let scanner = SessionScanner::new(&p);
    let summary = scanner.summarize(vec![Some(turns)]);
    assert_eq!(summary.turns_scanned, 2);
    assert_eq!(summary.total_input_tokens, 2000);
    assert_eq!(summary.total_output_tokens, 650);
    assert_eq!(summary.per_model.len(), 1);
    assert_eq!(summary.per_model[0].model, "gpt-5");
}

#[test]
fn turns_take_context_and_fallbacks() {
    let raw = "\n  \nnot json\n{\"type\":\"turn_context\",\"payload\":{\"model\":\"o3\",\"cwd\":\"/w\"}}\r\n\
{\"type\":\"task_complete\",\"payload\":{\"model\":\"gpt-5\",\"info\":{\"last_token_usage\":{\"input_tokens\":5,\"output_tokens\":1}}}}\n\
{\"type\":\"task_complete\",\"timestamp\":\"garbage\"}\n\
{\"type\":\"turn_context\"}\n\
{\"type\":\"task_complete\",\"timestamp\":\"2026-01-01T00:00:00.5Z\",\"payload\":{\"cwd\":\"/x\"}}\n";
    let turns = parse_session_text(raw, "sid", NOW, None);
    assert_eq!(turns.len(), 3);
    assert_eq!(turns[0].model.as_deref(), Some("gpt-5"));
    assert_eq!(turns[0].cwd.as_deref(), Some("/w"));
    assert_eq!(turns[0].input_tokens, 5);
    assert_eq!(turns[0].cached_input_tokens, 0);
    assert_eq!(turns[0].total_tokens, 6);
    assert_eq!(turns[0].timestamp, NOW);
    assert_eq!(turns[1].model.as_deref(), Some("o3"));
    assert_eq!(turns[1].total_tokens, 0);
    assert_eq!(turns[2].cwd.as_deref(), Some("/x"));
    assert_eq!(turns[2].timestamp, Timestamp { secs: 1_767_225_600, nanos: 500_000_000 });
    assert!(turns.iter().all(|t| t.session_id == "sid"));
}

#[test]
fn turns_without_tokens_or_model_are_dropped_and_since_filters() {
    let raw = "{\"type\":\"task_complete\",\"timestamp\":\"2026-01-01T00:00:00Z\"}\n\
{\"type\":\"task_complete\",\"timestamp\":\"2026-01-01T00:00:00Z\",\"payload\":{\"model\":\"m\"}}\n\
{\"type\":\"task_complete\",\"timestamp\":\"2026-01-02T00:00:00Z\",\"payload\":{\"model\":\"m\"}}";
    assert_eq!(parse_session_text(raw, "s", NOW, None).len(), 2);
    let since = ts("2026-01-01T12:00:00Z");
    let kept = parse_session_text(raw, "s", NOW, Some(since));
    assert_eq!(kept.len(), 1);
    assert_eq!(kept[0].timestamp, ts("2026-01-02T00:00:00Z"));
}

#[test]
fn timestamps_are_read_with_their_offset() {
    let raw = "{\"type\":\"task_complete\",\"timestamp\":\"1970-01-01T01:00:00+01:00\",\"payload\":{\"model\":\"m\"}}\n\
{\"type\":\"task_complete\",\"timestamp\":\"2026-01-01\",\"payload\":{\"model\":\"m\"}}";
    let turns = parse_session_text(raw, "s", NOW, None);
    assert_eq!(turns[0].timestamp, Timestamp { secs: 0, nanos: 0 });
    assert_eq!(turns[1].timestamp, NOW);
}

#[test]
fn input_total_adds_cached_and_clamps() {
    assert_eq!(TokenUsage { input_tokens: 10, cached_input_tokens: 5, output_tokens: 100 }.input_total(), 15);
    assert_eq!(TokenUsage { input_tokens: i64::MAX, cached_input_tokens: 5, output_tokens: 0 }.input_total(), i64::MAX);
}

fn turn(model: Option<&str>, secs: i64, total: i64) -> SessionTurn {
    SessionTurn {
        session_id: "s".to_string(),
        timestamp: Timestamp { secs, nanos: 0 },
        model: model.map(String::from),
        input_tokens: total,
        cached_input_tokens: 0,
        output_tokens: 0,
        total_tokens: total,
        cwd: None,
    }
}

#[test]
fn summary_counts_files_and_orders_models() {
    let p = paths();
    let mut scanner = SessionScanner::new(&p);
    assert_eq!(scanner.recent_limit, 50);
    scanner.recent_limit = 2;
    let files = vec![
        Some(vec![turn(Some("a"), 1, 10), turn(Some("b"), 2, 30), turn(None, 3, 5)]),
        None,
        Some(vec![turn(Some("a"), 4, 25), turn(Some("c"), 0, 1)]),
    ];
    let s = scanner.summarize(files);
    assert_eq!(s.sessions_scanned, 3);
    assert_eq!(s.turns_scanned, 5);
    assert_eq!(s.total_tokens, 71);
    let models: Vec<(&str, i64)> = s.per_model.iter().map(|m| (m.model.as_str(), m.total_tokens)).collect();
    assert_eq!(models, vec![("a", 35), ("b", 30), ("c", 1)]);
    assert_eq!(s.recent.len(), 2);
    let secs: Vec<i64> = s.recent.iter().map(|t| t.timestamp.secs).collect();
    assert_eq!(secs, vec![4, 3]);
}

#[test]
fn recent_keeps_newest_when_over_limit() {
    let mut recent = Vec::new();
    push_recent(&mut recent, turn(None, 5, 1), 2);
    push_recent(&mut recent, turn(None, 1, 1), 2);
    assert_eq!(recent.iter().map(|t| t.timestamp.secs).collect::<Vec<_>>(), vec![5, 1]);
    push_recent(&mut recent, turn(None, 3, 1), 2);
    assert_eq!(recent.iter().map(|t| t.timestamp.secs).collect::<Vec<_>>(), vec![5, 3]);
    let mut none = Vec::new();
    push_recent(&mut none, turn(None, 1, 1), 0);
    assert!(none.is_empty());
}

#[test]
fn session_ids_come_from_file_stems() {
    assert_eq!(session_id_from_path("sessions/2026/05/15/abc-123.jsonl"), "abc-123");
    assert_eq!(session_id_of_stem(None), "unknown");
    assert_eq!(session_id_of_stem(Some("x".to_string())), "x");
}

#[test]
fn session_id_is_the_last_component_without_its_last_extension() {
    assert_eq!(session_id_from_path("x.tar.gz"), "x.tar");
    assert_eq!(session_id_from_path("a/b/.hidden"), ".hidden");
    assert_eq!(session_id_from_path("a/b/.hidden.jsonl"), ".hidden");
    assert_eq!(session_id_from_path("logs/dir/"), "dir");
    assert_eq!(session_id_from_path("logs//name.jsonl"), "name");
    assert_eq!(session_id_from_path("foo.txt/."), "foo");
    assert_eq!(session_id_from_path("a."), "a");
    assert_eq!(session_id_from_path("noext"), "noext");
}

#[test]
fn session_id_is_unknown_without_a_file_name() {
    assert_eq!(session_id_from_path(""), "unknown");
    assert_eq!(session_id_from_path(".."), "unknown");
    assert_eq!(session_id_from_path("a/.."), "unknown");
    assert_eq!(session_id_from_path("/"), "unknown");
    assert_eq!(session_id_from_path("."), "unknown");
}

#[test]
fn recent_holds_the_newest_turns_of_all_files() {
    let p = paths();
    let mut scanner = SessionScanner::new(&p);
    scanner.recent_limit = 3;
    let files = vec![
        Some(vec![turn(Some("a"), 50, 1), turn(Some("a"), 10, 1)]),
        Some(vec![turn(Some("b"), 70, 1), turn(None, 20, 1), turn(Some("c"), 60, 1)]),
        None,
        Some(vec![turn(Some("a"), 5, 1), turn(Some("d"), 65, 1)]),
    ];
    let s = scanner.summarize(files);
    let mut secs: Vec<i64> = s.recent.iter().map(|t| t.timestamp.secs).collect();
    secs.sort();
    assert_eq!(secs, vec![60, 65, 70]);
}
