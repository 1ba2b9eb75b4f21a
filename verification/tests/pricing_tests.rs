use std::str::FromStr;

use codex_runway::pricing::{
    cost_for_turn, price_for, strip_date_suffix, usd_from_nanos, Model, LONG_CONTEXT_THRESHOLD, PRICING_VERSION,
};
use codex_runway::session::TokenUsage;
use rust_decimal::Decimal;

fn dec(s: &str) -> Decimal {
    Decimal::from_str(s).unwrap()
}

#[test]
fn classify_basic() {
    assert_eq!(Model::classify("gpt-5"), Model::Gpt5);
    assert_eq!(Model::classify("gpt-5-mini"), Model::Gpt5Mini);
    assert_eq!(Model::classify("o3-mini"), Model::O3Mini);
    assert_eq!(Model::classify("codex-mini-latest"), Model::CodexMiniLatest);
    assert_eq!(Model::classify("gpt-5-2025-08-07"), Model::Gpt5);
    assert_eq!(Model::classify("foo"), Model::Unknown);
}

#[test]
fn classify_normalises_case_dots_and_space() {
    assert_eq!(Model::classify("  GPT-4.1-Mini "), Model::Gpt41Mini);
    assert_eq!(Model::classify("gpt-4.1"), Model::Gpt41);
    assert_eq!(Model::classify("gpt-4-turbo-preview"), Model::Gpt4Turbo);
    assert_eq!(Model::classify("codex-something"), Model::CodexOther);
    assert_eq!(Model::classify(""), Model::Unknown);
    assert_eq!(Model::classify("   "), Model::Unknown);
    assert_eq!(Model::classify("o4-mini-2025-04-16"), Model::O4Mini);
}

#[test]
fn date_suffix_is_stripped_only_when_well_formed() {
    let s: Vec<char> = "gpt-5-2025-08-07".chars().collect();
    assert_eq!(strip_date_suffix(&s).into_iter().collect::<String>(), "gpt-5");
    let s: Vec<char> = "gpt-5-2025-08-0x".chars().collect();
    assert_eq!(strip_date_suffix(&s).into_iter().collect::<String>(), "gpt-5-2025-08-0x");
    let s: Vec<char> = "2025-08-07".chars().collect();
    assert_eq!(strip_date_suffix(&s).into_iter().collect::<String>(), "2025-08-07");
}

#[test]
fn model_names_are_variant_names() {
    assert_eq!(Model::Gpt5.name(), "Gpt5");
    assert_eq!(Model::CodexMiniLatest.name(), "CodexMiniLatest");
    assert_eq!(Model::Unknown.name(), format!("{:?}", Model::Unknown));
}

#[test]
fn known_models_have_prices() {
    for m in [Model::Gpt5, Model::Gpt5Mini, Model::Gpt4o, Model::O1, Model::O3Mini] {
        assert!(price_for(m).is_some(), "{m:?} missing price");
    }
    assert!(price_for(Model::Unknown).is_none());
}

#[test]
fn cost_handles_long_context() {
    let usage = TokenUsage { input_tokens: 250_000, cached_input_tokens: 0, output_tokens: 10_000 };
    let cost = cost_for_turn(Model::Gpt5, &usage).unwrap();
    assert_eq!(cost, dec("0.775"));
}

#[test]
fn cost_handles_cached_input() {
    let usage = TokenUsage { input_tokens: 100_000, cached_input_tokens: 80_000, output_tokens: 1_000 };
    let cost = cost_for_turn(Model::Gpt5, &usage).unwrap();
    assert_eq!(cost, dec("0.145"));
}

#[test]
fn unknown_model_returns_none() {
    let usage = TokenUsage { input_tokens: 100, cached_input_tokens: 0, output_tokens: 100 };
    assert!(cost_for_turn(Model::Unknown, &usage).is_none());
}

#[test]
fn codex_other_has_no_price() {
    let usage = TokenUsage { input_tokens: 100, cached_input_tokens: 0, output_tokens: 100 };
    assert!(price_for(Model::CodexOther).is_none());
    assert!(cost_for_turn(Model::CodexOther, &usage).is_none());
}

#[test]
fn long_context_counts_cached_tokens() {
    // 150K uncached + 60K cached reaches the 200K threshold.
    let usage = TokenUsage { input_tokens: 150_000, cached_input_tokens: 60_000, output_tokens: 0 };
    assert!(usage.input_total() >= LONG_CONTEXT_THRESHOLD);
    let p = price_for(Model::Gpt5).unwrap();
    let expected = Decimal::from(150_000 * p.long_context_input_per_million as i64 + 60_000 * p.long_context_cached_per_million as i64)
        / Decimal::from(1_000_000_000i64);
    assert_eq!(cost_for_turn(Model::Gpt5, &usage).unwrap(), expected);
}

#[test]
fn negative_counts_bill_as_zero() {
    let usage = TokenUsage { input_tokens: -5, cached_input_tokens: -1, output_tokens: 1_000_000 };
    assert_eq!(cost_for_turn(Model::Gpt5, &usage).unwrap(), dec("10"));
}

#[test]
fn usd_from_nanos_scales_by_nine_digits() {
    assert_eq!(usd_from_nanos(775_000_000), dec("0.775"));
    assert_eq!(usd_from_nanos(0), Decimal::ZERO);
    assert_eq!(usd_from_nanos(1), dec("0.000000001"));
}

#[test]
fn pricing_version_is_fixed() {
    assert_eq!(PRICING_VERSION, "oai-text-2026-08-15");
}
