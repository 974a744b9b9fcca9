use tool_executor::json::{JsonNumber, JsonValue};
use tool_executor::session::{SessionSummary, TokenUsageRecord};
use tool_executor::stats::{pricing_model_for, UsageTotals};
use tool_executor::usage::{add_checked, group_totals, model_key, token_counts, token_usage_events};

fn conv(v: serde_json::Value) -> JsonValue {
    match v {
        serde_json::Value::Null => JsonValue::Null,
        serde_json::Value::Bool(b) => JsonValue::Bool(b),
        serde_json::Value::Number(n) => {
            if let Some(u) = n.as_u64() {
                JsonValue::Number(JsonNumber::PosInt(u))
            } else if let Some(i) = n.as_i64() {
                JsonValue::Number(JsonNumber::NegInt(i))
            } else {
                JsonValue::Number(JsonNumber::Float(n.to_string()))
            }
        }
        serde_json::Value::String(s) => JsonValue::String(s),
        serde_json::Value::Array(a) => JsonValue::Array(a.into_iter().map(conv).collect()),
        serde_json::Value::Object(m) => JsonValue::Object(m.into_iter().map(|(k, v)| (k, conv(v))).collect()),
    }
}

fn records(text: &str) -> Vec<JsonValue> {
    text.lines()
        .filter(|line| !line.trim().is_empty())
        .map(|line| conv(serde_json::from_str::<serde_json::Value>(line).expect("valid JSON")))
        .collect()
}

fn session(model: Option<&str>, mtime: i64) -> SessionSummary {
    SessionSummary {
        id: "codex/demo".into(),
        provider: "codex".into(),
        wrapper: None,
        model: model.map(str::to_string),
        label: None,
        path: "demo.jsonl".into(),
        uuid: None,
        first_prompt: None,
        actionable: true,
        created_at: None,
        started_at: None,
        last_active: None,
        size: 1,
        mtime,
    }
}

fn usage(timestamp: i64, model: Option<&str>, total: i64) -> TokenUsageRecord {
    TokenUsageRecord {
        session_id: "sess".into(),
        timestamp,
        model: model.map(str::to_string),
        input_tokens: total,
        cached_input_tokens: 0,
        output_tokens: 0,
        reasoning_output_tokens: 0,
        total_tokens: total,
        rate_limits: None,
    }
}

#[test]
fn token_usage_events_reads_token_count_events() {
    let log = records(
        r#"
{"type":"session_meta","payload":{"id":"abc"}}
{"type":"turn_context","payload":{"model":"gpt-5-mini"}}
{"type":"event_msg","timestamp":"2024-01-01T00:00:00Z","payload":{"type":"token_count","info":{"last_token_usage":{"input_tokens":1000,"cached_input_tokens":100,"output_tokens":500,"reasoning_output_tokens":7,"total_tokens":1500}}}}
{"type":"event_msg","payload":{"type":"token_count","info":null}}
{"type":"event_msg","payload":{"type":"agent_message","info":{"last_token_usage":{"total_tokens":3}}}}
"#,
    );
    let events = token_usage_events(&session(Some("gpt-5.2"), 99), &log);
    assert_eq!(events.len(), 1);
    let (position, event) = &events[0];
    assert_eq!(*position, 2);
    assert_eq!(event.session_id, "codex/demo");
    assert_eq!(event.timestamp, 1_704_067_200);
    assert_eq!(event.model.as_deref(), Some("gpt-5-mini"));
    assert_eq!(event.input_tokens, 1000);
    assert_eq!(event.cached_input_tokens, 100);
    assert_eq!(event.output_tokens, 500);
    assert_eq!(event.reasoning_output_tokens, 7);
    assert_eq!(event.total_tokens, 1500);
    assert_eq!(event.rate_limits, None);
}

#[test]
fn token_usage_events_fall_back_to_session_model_and_mtime() {
    let log = records(
        r#"
{"type":"event_msg","payload":{"type":"token_count","info":{"last_token_usage":{"input_tokens":18446744073709551615,"output_tokens":-4,"total_tokens":"12"}}}}
"#,
    );
    let events = token_usage_events(&session(Some("gpt-5.2"), 99), &log);
    assert_eq!(events.len(), 1);
    let (position, event) = &events[0];
    assert_eq!(*position, 0);
    assert_eq!(event.timestamp, 99);
    assert_eq!(event.model.as_deref(), Some("gpt-5.2"));
    assert_eq!(event.input_tokens, i64::MAX);
    assert_eq!(event.output_tokens, -4);
    assert_eq!(event.cached_input_tokens, 0);
    assert_eq!(event.total_tokens, 0);
}

#[test]
fn collect_token_stats_tracks_windows_and_costs() {
    let now = 1_800_000_000_i64;
    let usage_priced = TokenUsageRecord {
        session_id: "sess".into(),
        timestamp: now - 10,
        input_tokens: 1000,
        cached_input_tokens: 100,
        output_tokens: 500,
        reasoning_output_tokens: 0,
        total_tokens: 1500,
        model: Some("gpt-5.2".into()),
        rate_limits: None,
    };
    let usage_unpriced = TokenUsageRecord {
        session_id: "sess".into(),
        timestamp: now - 40 * 24 * 60 * 60,
        input_tokens: 10,
        cached_input_tokens: 0,
        output_tokens: 5,
        reasoning_output_tokens: 0,
        total_tokens: 15,
        model: None,
        rate_limits: None,
    };
    let usages = vec![usage_priced, usage_unpriced];
    let stats = token_counts(&usages, now - 24 * 60 * 60, now - 7 * 24 * 60 * 60, now - 30 * 24 * 60 * 60);
    // The priced event is the one whose cost is estimated.
    assert!(pricing_model_for("gpt-5.2").is_some());
    assert!(stats.unpriced_tokens > 0);
    let days = vec!["2027-01-15".to_string(), "2026-12-06".to_string()];
    assert!(!group_totals(&usages, &days).is_empty());

    assert_eq!(stats.totals.all.total, 1515);
    assert_eq!(stats.totals.last_24h.total, 1500);
    assert_eq!(stats.totals.last_7d.total, 1500);
    assert_eq!(stats.totals.last_30d.total, 1500);
    assert_eq!(stats.unpriced_tokens, 15);
    assert_eq!(stats.unpriced_models, vec!["unknown".to_string()]);
    assert_eq!(stats.latest, Some(0));
}

#[test]
fn token_counts_latest_is_the_first_of_equal_times() {
    let usages = vec![usage(5, None, 1), usage(9, None, 1), usage(9, None, 1), usage(2, None, 1)];
    assert_eq!(token_counts(&usages, 0, 0, 0).latest, Some(1));
    assert_eq!(token_counts(&Vec::new(), 0, 0, 0).latest, None);
}

#[test]
fn token_counts_lists_each_unpriced_model_once() {
    let usages = vec![
        usage(1, Some("llama"), 3),
        usage(2, Some("gpt-5.1-codex"), 100),
        usage(3, None, 4),
        usage(4, Some("llama"), 5),
        usage(5, Some(""), 6),
    ];
    let stats = token_counts(&usages, 0, 0, 0);
    assert_eq!(stats.unpriced_models, vec!["llama".to_string(), "unknown".to_string(), String::new()]);
    assert_eq!(stats.unpriced_tokens, 18);
}

#[test]
fn token_counts_saturate_unpriced_tokens_and_skip_overflowing_events() {
    let usages = vec![usage(1, None, i64::MAX), usage(2, None, 10)];
    let stats = token_counts(&usages, 0, 0, 0);
    assert_eq!(stats.unpriced_tokens, i64::MAX);
    assert_eq!(stats.totals.all.total, i64::MAX);
    assert_eq!(stats.totals.all.input, i64::MAX);
}

#[test]
fn group_totals_sum_by_name_in_first_seen_order() {
    let usages = vec![usage(1, None, 3), usage(2, None, 4), usage(3, None, 5)];
    let keys = vec!["b".to_string(), "a".to_string(), "b".to_string()];
    let groups = group_totals(&usages, &keys);
    assert_eq!(groups.len(), 2);
    assert_eq!(groups[0].0, "b");
    assert_eq!(groups[0].1.total, 8);
    assert_eq!(groups[1].0, "a");
    assert_eq!(groups[1].1.total, 4);
}

#[test]
fn add_checked_leaves_totals_that_would_overflow() {
    let mut totals = UsageTotals::new();
    add_checked(&mut totals, &usage(1, None, 7));
    assert_eq!(totals.total, 7);
    let mut big = UsageTotals { input: 0, cached_input: 0, output: 0, reasoning_output: 0, total: i64::MAX - 1 };
    add_checked(&mut big, &usage(1, None, 7));
    assert_eq!(big.total, i64::MAX - 1);
    assert_eq!(big.input, 0);
}

#[test]
fn model_key_defaults_to_unknown() {
    assert_eq!(model_key(&usage(1, Some("gpt-5"), 1)), "gpt-5");
    assert_eq!(model_key(&usage(1, None, 1)), "unknown");
}

#[test]
fn token_counts_windows_nest_by_cutoff() {
    let day = 1_000;
    let week = 500;
    let month = 100;
    let usages = vec![
        usage(1_200, None, 7),
        usage(600, None, 11),
        usage(200, None, 13),
        usage(50, None, 17),
    ];
    let counts = token_counts(&usages, day, week, month);
    assert_eq!(counts.totals.last_24h.total, 7);
    assert_eq!(counts.totals.last_7d.total, 18);
    assert_eq!(counts.totals.last_30d.total, 31);
    assert_eq!(counts.totals.all.total, 48);
    assert!(counts.totals.last_24h.input <= counts.totals.last_7d.input);
    assert!(counts.totals.last_7d.input <= counts.totals.last_30d.input);
    assert!(counts.totals.last_30d.input <= counts.totals.all.input);
}

#[test]
fn group_totals_add_up_to_all_time_totals() {
    let usages = vec![
        usage(1, Some("gpt-5"), 3),
        usage(2, None, 4),
        usage(3, Some("gpt-5"), 5),
        usage(4, Some("other"), 6),
    ];
    let keys: Vec<String> = usages.iter().map(model_key).collect();
    let groups = group_totals(&usages, &keys);
    let counts = token_counts(&usages, 0, 0, 0);
    let sum_total: i64 = groups.iter().map(|g| g.1.total).sum();
    let sum_input: i64 = groups.iter().map(|g| g.1.input).sum();
    assert_eq!(groups.len(), 3);
    assert_eq!(sum_total, counts.totals.all.total);
    assert_eq!(sum_input, counts.totals.all.input);
    assert_eq!(sum_total, 18);
}

#[test]
fn token_counts_all_time_is_sum_with_negative_counts() {
    let usages = vec![usage(1, None, 5), usage(2, None, -3), usage(3, None, 4)];
    let counts = token_counts(&usages, 0, 0, 0);
    assert_eq!(counts.totals.all.total, 6);
    assert_eq!(counts.totals.all.input, 6);
}
