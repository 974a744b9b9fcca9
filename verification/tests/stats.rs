use tool_executor::json::{JsonNumber, JsonValue};
use tool_executor::session::{SessionSummary, TokenUsageRecord};
use tool_executor::stats::{
    human_int, human_int_str, normalize_epoch, parse_epoch, parse_epoch_number, parse_epoch_str,
    pricing_model_for, prompt_stats, session_activity_counts, session_window,
    top_session_by_compactions, top_sessions_by_turns, usage_line, SessionActivityCounts,
    UsageTotals, WindowedUsage,
};

fn conv(v: serde_json::Value) -> JsonValue {
    match v {
        serde_json::Value::Null => JsonValue::Null,
        serde_json::Value::Bool(b) => JsonValue::Bool(b),
        serde_json::Value::Number(n) => {
            if let Some(u) = n.as_u64() {
                JsonValue::Number(JsonNumber::PosInt(u))
            } else if let Some(i) = n.as_i64() {
                JsonValue::Number(JsonNumber::NegInt(i))
            } else {
                JsonValue::Number(JsonNumber::Float(n.to_string()))
            }
        }
        serde_json::Value::String(s) => JsonValue::String(s),
        serde_json::Value::Array(a) => JsonValue::Array(a.into_iter().map(conv).collect()),
        serde_json::Value::Object(m) => {
            JsonValue::Object(m.into_iter().map(|(k, v)| (k, conv(v))).collect())
        }
    }
}

/// The records of a log, one JSON value per non-blank line that parses.
fn records(text: &str) -> Vec<JsonValue> {
    text.lines()
        .filter(|line| !line.trim().is_empty())
        .filter_map(|line| serde_json::from_str::<serde_json::Value>(line).ok())
        .map(conv)
        .collect()
}

fn summary(id: &str, created: Option<i64>, started: Option<i64>, last: Option<i64>) -> SessionSummary {
    SessionSummary {
        id: id.into(),
        provider: "codex".into(),
        wrapper: None,
        model: None,
        label: None,
        path: format!("{id}.jsonl"),
        uuid: None,
        first_prompt: None,
        actionable: true,
        created_at: created,
        started_at: started,
        last_active: last,
        size: 1,
        mtime: last.unwrap_or(0),
    }
}

fn usage(input: i64, cached: i64, output: i64, total: i64) -> TokenUsageRecord {
    TokenUsageRecord {
        session_id: "sess".into(),
        timestamp: 0,
        model: None,
        input_tokens: input,
        cached_input_tokens: cached,
        output_tokens: output,
        reasoning_output_tokens: 0,
        total_tokens: total,
        rate_limits: None,
    }
}

#[test]
fn pricing_model_matches_prefixes() {
    assert_eq!(pricing_model_for("gpt-5.2-preview"), Some("gpt-5.2"));
    assert_eq!(pricing_model_for("gpt-5.1"), Some("gpt-5.1"));
    assert_eq!(pricing_model_for("gpt-5-mini-2025"), Some("gpt-5-mini"));
    assert_eq!(pricing_model_for("gpt-5"), Some("gpt-5"));
    assert_eq!(pricing_model_for("o3-mini"), None);
}

#[test]
fn parse_epoch_handles_seconds_and_millis() {
    let seconds = JsonValue::Number(JsonNumber::PosInt(1_700_000_000));
    let millis = JsonValue::Number(JsonNumber::PosInt(1_700_000_000_000));
    let from_seconds = parse_epoch(&seconds).expect("seconds");
    let from_millis = parse_epoch(&millis).expect("millis");
    assert_eq!(from_seconds, 1_700_000_000);
    assert_eq!(from_millis, 1_700_000_000);

    let from_str = parse_epoch(&JsonValue::String("1700000000".into())).expect("string");
    assert_eq!(from_str, 1_700_000_000);
}

#[test]
fn parse_epoch_handles_edge_numeric_and_string_inputs() {
    assert_eq!(parse_epoch(&JsonValue::Bool(true)), None);

    let unsigned = JsonNumber::PosInt((i64::MAX as u64) + 1);
    assert_eq!(parse_epoch_number(&unsigned), None);

    let float = JsonNumber::Float("1.5".into());
    assert_eq!(parse_epoch_number(&float), None);

    let large_text = ((i64::MAX as u64) + 1).to_string();
    assert_eq!(parse_epoch_str(&large_text), None);
    assert_eq!(parse_epoch_str("not-a-number"), None);
}

#[test]
fn normalize_epoch_divides_millis() {
    assert_eq!(normalize_epoch(1_000_000_000_000), 1_000_000_000_000);
    assert_eq!(normalize_epoch(1_000_000_000_001), 1_000_000_000);
    assert_eq!(normalize_epoch(-5), -5);
}

#[test]
fn collect_session_activity_counts_tracks_turns_and_compactions() {
    let log = [
        "{\"type\":\"turn_context\",\"payload\":{\"model\":\"gpt-5\"}}\n",
        "{\"type\":\"event_msg\",\"payload\":{\"type\":\"context_compacted\"}}\n",
        "{\"type\":\"event_msg\",\"payload\":{\"type\":\"token_count\",\"info\":null}}\n",
        "{not-json}\n",
        "{\"type\":\"turn_context\",\"payload\":{\"model\":\"gpt-5\"}}\n",
    ]
    .concat();
    let counts = session_activity_counts(&records(&log));
    assert_eq!(counts.turns, 2);
    assert_eq!(counts.compactions, 1);
}

#[test]
fn session_activity_counts_skips_empty_lines() {
    let log = [
        "\n",
        "   \n",
        "{\"type\":\"turn_context\",\"payload\":{\"model\":\"gpt-5\"}}\n",
    ]
    .concat();
    let counts = session_activity_counts(&records(&log));
    assert_eq!(counts.turns, 1);
    assert_eq!(counts.compactions, 0);
}

#[test]
fn session_activity_counts_returns_default_when_file_missing() {
    let counts = session_activity_counts(&Vec::new());
    assert_eq!(counts.turns, 0);
    assert_eq!(counts.compactions, 0);
}

#[test]
fn session_activity_rankings_are_sorted_and_filtered() {
    let rows = vec![
        (
            "codex/b".to_string(),
            SessionActivityCounts {
                turns: 5,
                compactions: 1,
            },
        ),
        (
            "codex/a".to_string(),
            SessionActivityCounts {
                turns: 5,
                compactions: 0,
            },
        ),
        (
            "codex/c".to_string(),
            SessionActivityCounts {
                turns: 2,
                compactions: 3,
            },
        ),
        (
            "codex/d".to_string(),
            SessionActivityCounts {
                turns: 0,
                compactions: 0,
            },
        ),
    ];

    let top_turns = top_sessions_by_turns(&rows, 5);
    assert_eq!(
        top_turns,
        vec![
            ("codex/a".to_string(), 5),
            ("codex/b".to_string(), 5),
            ("codex/c".to_string(), 2),
        ]
    );

    let top_compactions = top_session_by_compactions(&rows);
    assert_eq!(top_compactions, Some(("codex/c".to_string(), 3)));

    let no_compactions = top_session_by_compactions(&vec![(
        "codex/none".to_string(),
        SessionActivityCounts {
            turns: 1,
            compactions: 0,
        },
    )]);
    assert_eq!(no_compactions, None);
}

#[test]
fn top_sessions_by_turns_respects_limit() {
    let rows = vec![
        ("x".to_string(), SessionActivityCounts { turns: 1, compactions: 0 }),
        ("y".to_string(), SessionActivityCounts { turns: 3, compactions: 0 }),
        ("z".to_string(), SessionActivityCounts { turns: 2, compactions: 0 }),
    ];
    assert_eq!(
        top_sessions_by_turns(&rows, 2),
        vec![("y".to_string(), 3), ("z".to_string(), 2)]
    );
    assert!(top_sessions_by_turns(&rows, 0).is_empty());
}

#[test]
fn session_window_prefers_earliest_start_and_latest_end() {
    let sessions = vec![
        summary("a", Some(20), Some(10), Some(30)),
        summary("b", Some(5), None, Some(40)),
    ];
    let (first, last) = session_window(&sessions);
    assert_eq!(first, Some(5));
    assert_eq!(last, Some(40));
}

#[test]
fn session_window_updates_first_and_last_when_timestamps_present() {
    let sessions = vec![summary("x", Some(10), Some(20), Some(30))];
    let (first, last) = session_window(&sessions);
    assert_eq!(first, Some(20));
    assert_eq!(last, Some(30));
}

#[test]
fn human_int_str_adds_separators() {
    assert_eq!(human_int_str("123456789"), "123,456,789");
}

#[test]
fn human_int_and_fmt_usd_support_negative_values() {
    assert_eq!(human_int(-1_234_567), "-1,234,567");
    assert_eq!(human_int(0), "0");
    assert_eq!(human_int(999), "999");
    assert_eq!(human_int(1000), "1,000");
}

#[test]
fn prompt_stats_counts_windows() {
    let (counts, last) = prompt_stats(&vec![100, 50, 10], 60, 20, 0);
    assert_eq!(counts.all, 3);
    assert_eq!(counts.last_24h, 1);
    assert_eq!(counts.last_7d, 2);
    assert_eq!(counts.last_30d, 3);
    assert_eq!(last, Some(100));
}

#[test]
fn usage_totals_sum_events() {
    let mut totals = UsageTotals::new();
    totals.add(&usage(10, 1, 5, 15));
    totals.add(&usage(20, 2, 10, 30));
    assert_eq!(totals.input, 30);
    assert_eq!(totals.cached_input, 3);
    assert_eq!(totals.output, 15);
    assert_eq!(totals.total, 45);

    let mut windows = WindowedUsage::new();
    windows.add(&usage(10, 1, 5, 15), true, true, true);
    windows.add(&usage(20, 2, 10, 30), false, true, true);
    assert_eq!(windows.last_24h.total, 15);
    assert_eq!(windows.last_7d.total, 45);
    assert_eq!(windows.all.total, 45);
}

#[test]
fn usage_line_shows_grouped_numbers() {
    let mut totals = UsageTotals::new();
    totals.add(&usage(1234, 0, 5, 1239));
    let line = usage_line("all", &totals);
    assert!(line.contains("1,234"));
    assert!(line.contains("1,239"));
}

#[test]
fn human_int_str_groups_by_bytes() {
    assert_eq!(human_int_str("ü"), "ü");
    assert_eq!(human_int_str("1234ü"), "123,4ü");
    assert_eq!(human_int_str("1234"), "1,234");
    assert_eq!(human_int_str(""), "");
}
