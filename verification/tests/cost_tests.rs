use std::str::FromStr;

use codex_runway::cost::{cost_summary, priced_total, CostEngine, LC_THRESHOLD};
use codex_runway::paths::Paths;
use codex_runway::pricing::{price_for, Model, LONG_CONTEXT_THRESHOLD, PRICING_VERSION};
use codex_runway::session::{parse_session_text, SessionTurn, TokenUsage};
use codex_runway::time::Timestamp;
use rust_decimal::Decimal;

const NOW: Timestamp = Timestamp { secs: 1_900_000_000, nanos: 0 };

fn dec(s: &str) -> Decimal {
    Decimal::from_str(s).unwrap()
}

#[test]
fn long_context_threshold_picks_long_tier() {
    let p = price_for(Model::Gpt5).unwrap();
    let usage = TokenUsage { input_tokens: 250_000, cached_input_tokens: 0, output_tokens: 5_000 };
    let is_long = usage.input_total() >= LONG_CONTEXT_THRESHOLD;
    assert!(is_long);
    let (in_p, out_p) = if is_long {
        (p.long_context_input_per_million, p.long_context_output_per_million)
    } else {
        (p.input_per_million, p.output_per_million)
    };
    let thousand = Decimal::from(1000);
    let cost = Decimal::from(usage.input_tokens) / Decimal::from(1_000_000) * (Decimal::from(in_p) / thousand)
        + Decimal::from(usage.output_tokens) / Decimal::from(1_000_000) * (Decimal::from(out_p) / thousand);
    assert_eq!(cost, dec("0.700"));
    assert_eq!(LC_THRESHOLD, LONG_CONTEXT_THRESHOLD);
}

#[test]
fn engine_sums_per_model() {
    let body = r#"{"type":"turn_context","payload":{"model":"gpt-5"}}
{"type":"task_complete","timestamp":"2026-05-15T10:00:00Z","payload":{"info":{"last_token_usage":{"total_token_usage":{"input_tokens":1000,"cached_input_tokens":200,"output_tokens":300}}}}}
{"type":"task_complete","timestamp":"2026-05-15T10:01:00Z","payload":{"info":{"last_token_usage":{"total_token_usage":{"input_tokens":500,"cached_input_tokens":0,"output_tokens":100}}}}}
{"type":"turn_context","payload":{"model":"mystery-1"}}
{"type":"task_complete","timestamp":"2026-05-15T10:02:00Z","payload":{"info":{"last_token_usage":{"total_token_usage":{"input_tokens":100,"cached_input_tokens":0,"output_tokens":50}}}}}
"#;
    let turns = parse_session_text(body, "a", NOW, None);
    let summary = cost_summary(&turns, NOW);
    assert_eq!(summary.turns_priced, 2);
    assert_eq!(summary.turns_unknown, 1);
    assert_eq!(summary.per_model.len(), 2);
    let gpt5 = summary.per_model.iter().find(|m| m.raw_model == "gpt-5").unwrap();
    assert!(gpt5.priced);
    assert!(gpt5.estimated_usd > Decimal::ZERO);
    let unk = summary.per_model.iter().find(|m| m.raw_model == "mystery-1").unwrap();
    assert!(!unk.priced);
    assert_eq!(unk.estimated_usd, Decimal::ZERO);
    assert!(summary.unknown_models.contains(&"mystery-1".to_string()));
}

#[test]
fn summary_totals_windows_and_exact_amounts() {
    let body = r#"{"type":"turn_context","payload":{"model":"gpt-5"}}
{"type":"task_complete","timestamp":"2026-05-15T10:00:00Z","payload":{"info":{"last_token_usage":{"total_token_usage":{"input_tokens":1000,"cached_input_tokens":200,"output_tokens":300}}}}}
{"type":"task_complete","timestamp":"2026-05-15T09:00:00Z","payload":{"info":{"last_token_usage":{"total_token_usage":{"input_tokens":500,"cached_input_tokens":0,"output_tokens":100}}}}}
{"type":"turn_context","payload":{"model":"mystery-1"}}
{"type":"task_complete","timestamp":"2026-05-15T10:02:00Z","payload":{"info":{"last_token_usage":{"total_token_usage":{"input_tokens":100,"cached_input_tokens":0,"output_tokens":50}}}}}
"#;
    let turns = parse_session_text(body, "a", NOW, None);
    let s = cost_summary(&turns, NOW);
    assert_eq!(s.pricing_version, PRICING_VERSION);
    assert_eq!(s.window_start.secs, 1_778_835_600);
    assert_eq!(s.window_end.secs, 1_778_839_320);
    assert_eq!(s.total_uncached_input_tokens, 1600);
    assert_eq!(s.total_cached_input_tokens, 200);
    assert_eq!(s.total_output_tokens, 450);
    assert_eq!(s.total_tokens, 2250);
    // gpt-5: 1500 * 1.25/1M + 200 * 0.125/1M + 400 * 10/1M
    assert_eq!(s.estimated_usd, dec("0.0059"));
    assert_eq!(s.per_model[0].raw_model, "gpt-5");
    assert_eq!(s.per_model[0].classified, "Gpt5");
    assert_eq!(s.per_model[0].turns, 2);
    assert_eq!(s.per_model[0].total_tokens, 2100);
    assert_eq!(s.per_model[1].classified, "Unknown");
    assert_eq!(priced_total(&turns), Some(5_900_000));
}

#[test]
fn empty_window_is_now_and_ties_keep_reverse_id_order() {
    let s = cost_summary(&Vec::new(), NOW);
    assert_eq!(s.window_start, NOW);
    assert_eq!(s.window_end, NOW);
    assert_eq!(s.estimated_usd, Decimal::ZERO);
    assert!(s.per_model.is_empty());

    let t = |m: &str| SessionTurn {
        session_id: "s".to_string(),
        timestamp: NOW,
        model: Some(m.to_string()),
        input_tokens: 10,
        cached_input_tokens: 0,
        output_tokens: 0,
        total_tokens: 10,
        cwd: None,
    };
    let turns = vec![t("zeta"), t("alpha"), t("mid")];
    let s = cost_summary(&turns, NOW);
    let ids: Vec<&str> = s.per_model.iter().map(|m| m.raw_model.as_str()).collect();
    assert_eq!(ids, vec!["zeta", "mid", "alpha"]);
    assert_eq!(s.unknown_models, vec!["alpha".to_string(), "mid".to_string(), "zeta".to_string()]);
}

#[test]
fn turns_without_model_group_as_unknown() {
    let turns = vec![SessionTurn {
        session_id: "s".to_string(),
        timestamp: NOW,
        model: None,
        input_tokens: 1,
        cached_input_tokens: 2,
        output_tokens: 3,
        total_tokens: 6,
        cwd: None,
    }];
    let s = cost_summary(&turns, NOW);
    assert_eq!(s.per_model[0].raw_model, "<unknown>");
    assert_eq!(s.per_model[0].total_tokens, 6);
    assert_eq!(s.unknown_models, vec!["<unknown>".to_string()]);
}

#[test]
fn engine_window_defaults_to_all_time() {
    let p = Paths { home: "/h".to_string(), codex_home: "/h/.codex".to_string(), app_home: "/h/.r".to_string() };
    let e = CostEngine::new(&p);
    assert!(e.window_start.is_none());
    let e = e.since(NOW);
    assert_eq!(e.window_start, Some(NOW));
}

#[test]
fn report_rows_add_up_and_name_each_model_once() {
    let t = |m: &str, secs: i64, i: i64, c: i64, o: i64| SessionTurn {
        session_id: "s".to_string(),
        timestamp: Timestamp { secs, nanos: 0 },
        model: Some(m.to_string()),
        input_tokens: i,
        cached_input_tokens: c,
        output_tokens: o,
        total_tokens: i + c + o,
        cwd: None,
    };
    let turns = vec![
        t("zz-unknown", 300, 10, 1, 2),
        t("gpt-5", 100, 1000, 200, 300),
        t("aa-unknown", 500, 3, 0, 4),
        t("gpt-5", 200, 500, 0, 100),
        t("zz-unknown", 50, 7, 7, 7),
    ];
    let s = cost_summary(&turns, NOW);
    let mut ids: Vec<&str> = s.per_model.iter().map(|m| m.raw_model.as_str()).collect();
    ids.sort();
    ids.dedup();
    assert_eq!(ids.len(), s.per_model.len());
    assert_eq!(s.unknown_models, vec!["aa-unknown".to_string(), "zz-unknown".to_string()]);
    assert_eq!(s.per_model.iter().map(|m| m.input_tokens).sum::<i64>(), s.total_uncached_input_tokens);
    assert_eq!(s.per_model.iter().map(|m| m.cached_input_tokens).sum::<i64>(), s.total_cached_input_tokens);
    assert_eq!(s.per_model.iter().map(|m| m.output_tokens).sum::<i64>(), s.total_output_tokens);
    assert_eq!(s.per_model.iter().map(|m| m.total_tokens).sum::<i64>(), s.total_tokens);
    assert_eq!(s.total_tokens, 2141);
    assert_eq!(s.window_start, Timestamp { secs: 50, nanos: 0 });
    assert_eq!(s.window_end, Timestamp { secs: 500, nanos: 0 });
    assert!(turns.iter().all(|x| s.window_start.secs <= x.timestamp.secs && x.timestamp.secs <= s.window_end.secs));
}
