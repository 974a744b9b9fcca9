use tool_executor::config::model::ProviderConfig;
use tool_executor::indexer::{
    build_ingest, clean_text, collect_ingest_state, compute_session_id, extract_messages,
    extract_text, is_jsonl, parse_timestamp, should_remove, summarize_instructions,
    update_existing_source, FileOutcome, IndexReport, IngestError,
};
use tool_executor::json::{JsonNumber, JsonValue};
use tool_executor::session::MessageRecord;

fn conv(v: serde_json::Value) -> JsonValue {
    match v {
        serde_json::Value::Null => JsonValue::Null,
        serde_json::Value::Bool(b) => JsonValue::Bool(b),
        serde_json::Value::Number(n) => {
            if let Some(u) = n.as_u64() {
                JsonValue::Number(JsonNumber::PosInt(u))
            } else if let Some(i) = n.as_i64() {
                JsonValue::Number(JsonNumber::NegInt(i))
            } else {
                JsonValue::Number(JsonNumber::Float(n.to_string()))
            }
        }
        serde_json::Value::String(s) => JsonValue::String(s),
        serde_json::Value::Array(a) => JsonValue::Array(a.into_iter().map(conv).collect()),
        serde_json::Value::Object(m) => {
            JsonValue::Object(m.into_iter().map(|(k, v)| (k, conv(v))).collect())
        }
    }
}

fn json(text: &str) -> JsonValue {
    conv(serde_json::from_str(text).expect("valid json"))
}

fn provider_with_root(root: &str) -> ProviderConfig {
    ProviderConfig {
        name: "codex".to_string(),
        bin: "codex".to_string(),
        flags: Vec::new(),
        env: Vec::new(),
        session_roots: vec![root.to_string()],
        stdin: None,
    }
}

#[test]
fn compute_session_id_normalizes_paths() {
    let provider = provider_with_root("/tmp/t/sessions");
    let (id, relative) =
        compute_session_id(&provider, "/tmp/t/sessions/nested/conversation.jsonl", &vec![None]);
    assert_eq!(id, format!("{}/nested/conversation.jsonl", provider.name));
    assert_eq!(relative, "nested/conversation.jsonl");
}

#[test]
fn compute_session_id_falls_back_to_filename() {
    let provider = provider_with_root("/tmp/t/sessions");
    let (id, relative) = compute_session_id(&provider, "/tmp/t/orphan.jsonl", &vec![None]);
    assert_eq!(id, "codex/orphan.jsonl");
    assert_eq!(relative, "orphan.jsonl");
}

#[test]
fn compute_session_id_handles_canonical_roots() {
    let provider = provider_with_root("/tmp/t/link");
    let (id, relative) = compute_session_id(
        &provider,
        "/tmp/t/real/symlinked.jsonl",
        &vec![Some("/tmp/t/real".to_string())],
    );
    assert_eq!(id, format!("{}/symlinked.jsonl", provider.name));
    assert_eq!(relative, "symlinked.jsonl");
}

#[test]
fn update_existing_source_prefers_response_item() {
    let mut record = MessageRecord::new(
        "sess",
        0,
        "assistant",
        "reply",
        Some("event_msg".into()),
        None,
    );
    update_existing_source(&mut record, Some(&"response_item".to_string()));
    assert_eq!(record.source.as_deref(), Some("response_item"));

    update_existing_source(&mut record, Some(&"other".to_string()));
    assert_eq!(record.source.as_deref(), Some("response_item"));

    let mut missing = MessageRecord::new("sess", 1, "assistant", "text", None, None);
    update_existing_source(&mut missing, Some(&"event_msg".to_string()));
    assert_eq!(missing.source.as_deref(), Some("event_msg"));
}

#[test]
fn extract_text_handles_nested_payloads() {
    let nested = json(
        r#"{"payload": {"content": [{"type": "text", "text": "Hello"}, {"type": "text", "text": " world"}]}}"#,
    );
    assert_eq!(extract_text(&nested), Some("Hello world".into()));

    let message = json(r#"{"message": "fallback"}"#);
    assert_eq!(extract_text(&message), Some("fallback".into()));
}

#[test]
fn extract_messages_covers_event_and_response() {
    let event = json(r#"{"type": "event_msg", "payload": {"type": "user_message", "message": "Hello"}}"#);
    let mut results = extract_messages(&event);
    assert_eq!(results.len(), 1);
    assert_eq!(results[0].0, "user");

    let response = json(
        r#"{"type": "response_item", "payload": {"role": "assistant", "content": [{"type": "text", "text": "Hi"}]}}"#,
    );
    results = extract_messages(&response);
    assert_eq!(results.len(), 1);
    assert_eq!(results[0].0, "assistant");

    let direct = json(r#"{"role": "system", "content": [{"type": "text", "text": "System"}]}"#);
    results = extract_messages(&direct);
    assert_eq!(results.len(), 1);
    assert_eq!(results[0].0, "system");
}

#[test]
fn instructions_only_sessions_get_placeholder() {
    let records = vec![
        json(r##"{"type":"session_meta","payload":{"instructions":"# General guidance\n\nKeep things simple.\n"}}"##),
        json(r#"{"type":"response_item","payload":{"type":"message","role":"user","content":[{"type":"input_text","text":"<user_instructions>\n\n# General guidance\n\nKeep things simple.\n</user_instructions>"}]}}"#),
    ];
    let provider = provider_with_root("/tmp/t");
    let path = "/tmp/t/session.jsonl";
    let (session_id, relative) = compute_session_id(&provider, path, &vec![None]);
    let state = collect_ingest_state(&session_id, &records);
    assert!(state.preview_fits());
    let now = 1_700_000_000;
    let ingest = build_ingest(&provider, path, session_id, relative, state, 100, now, Some(now))
        .expect("placeholder session");

    assert_eq!(ingest.messages.len(), 1);
    assert_eq!(ingest.messages[0].role, "system");
    assert!(
        ingest.messages[0].content.contains("General guidance"),
        "placeholder should summarize instructions"
    );
    assert!(ingest.messages[0].is_first);
    assert_eq!(ingest.messages[0].source, None);
    assert_eq!(ingest.summary.uuid.as_deref(), Some("session"));
    assert!(!ingest.summary.actionable);
    assert_eq!(ingest.summary.first_prompt.as_deref(), Some("General guidance"));
    assert_eq!(ingest.summary.started_at, Some(now));
    assert_eq!(ingest.summary.last_active, Some(now));
}

#[test]
fn user_and_assistant_messages_are_ingested() {
    let records = vec![
        json(r#"{"type":"event_msg","payload":{"type":"user_message","message":"Hello world"}}"#),
        json(r#"{"type":"response_item","payload":{"type":"message","role":"assistant","content":[{"type":"text","text":"Hi there"}]}}"#),
    ];
    let provider = provider_with_root("/tmp/t");
    let path = "/tmp/t/conversation.jsonl";
    let (session_id, relative) = compute_session_id(&provider, path, &vec![None]);
    let state = collect_ingest_state(&session_id, &records);
    assert!(state.preview_fits());
    let now = 1_700_000_000;
    let ingest = build_ingest(&provider, path, session_id, relative, state, 100, now, Some(now))
        .expect("session with messages");

    assert_eq!(ingest.messages.len(), 2);
    assert_eq!(ingest.messages[0].role, "user");
    assert_eq!(ingest.messages[0].content, "Hello world");
    assert!(ingest.messages[0].is_first);
    assert_eq!(ingest.messages[0].source.as_deref(), Some("event_msg"));
    assert_eq!(ingest.messages[1].role, "assistant");
    assert!(!ingest.messages[1].is_first);
    assert_eq!(ingest.messages[1].source.as_deref(), Some("response_item"));
    assert!(ingest.summary.actionable);
    assert_eq!(ingest.summary.first_prompt.as_deref(), Some("Hello world"));
    assert_eq!(ingest.summary.uuid.as_deref(), Some("conversation"));
    assert_eq!(ingest.summary.started_at, Some(now));
    assert_eq!(ingest.summary.last_active, Some(now));
}

#[test]
fn empty_log_is_refused() {
    let provider = provider_with_root("/tmp/t");
    let path = "/tmp/t/empty.jsonl";
    let (session_id, relative) = compute_session_id(&provider, path, &vec![None]);
    let state = collect_ingest_state(&session_id, &Vec::new());
    assert!(state.preview_fits());
    let err = build_ingest(&provider, path, session_id, relative, state, 0, 1, None)
        .expect_err("no messages");
    assert_eq!(err, IngestError::NoMessages);
    assert_eq!(err.message(), "no messages discovered in session");
}

#[test]
fn clean_text_drops_environment_context() {
    assert_eq!(clean_text("  hello  "), Some("hello".to_string()));
    assert_eq!(clean_text("   "), None);
    assert_eq!(clean_text("<environment_context>cwd</environment_context>"), None);
    assert_eq!(clean_text("<user_instructions>x</user_instructions>"), None);
}

#[test]
fn summarize_instructions_uses_first_heading_text() {
    assert_eq!(
        summarize_instructions("# General guidance\n\nKeep things simple.\n"),
        Some("General guidance".to_string())
    );
}

#[test]
fn parse_timestamp_reads_rfc3339() {
    let value = json(r#"{"timestamp": "2024-01-01T00:00:00Z"}"#);
    assert_eq!(parse_timestamp(&value), Some(1_704_067_200));
    let missing = json(r#"{"other": 1}"#);
    assert_eq!(parse_timestamp(&missing), None);
}

#[test]
fn is_jsonl_matches_extension_case_insensitively() {
    assert!(is_jsonl("/tmp/a.jsonl"));
    assert!(is_jsonl("/tmp/a.JSONL"));
    assert!(!is_jsonl("/tmp/a.json"));
    assert!(!is_jsonl("/tmp/jsonl"));
}

#[test]
fn index_report_counts_outcomes() {
    let mut report = IndexReport::new();
    let mut seen = Vec::new();
    report.record("/a.jsonl", FileOutcome::Indexed("codex/a.jsonl".into()), true, &mut seen);
    report.record("/b.jsonl", FileOutcome::Unchanged, true, &mut seen);
    report.record("/c.jsonl", FileOutcome::Failed("bad".into()), false, &mut seen);
    report.record_removed();
    assert_eq!(report.scanned, 2);
    assert_eq!(report.updated, 1);
    assert_eq!(report.skipped, 1);
    assert_eq!(report.removed, 1);
    assert_eq!(report.errors.len(), 1);
    assert_eq!(report.errors[0].path, "/c.jsonl");
    assert_eq!(seen, vec!["codex/a.jsonl".to_string()]);
}

#[test]
fn indexer_removes_stale_sessions_when_files_deleted() {
    let seen = vec!["codex/a.jsonl".to_string()];
    assert!(!should_remove(&seen, &"codex/a.jsonl".to_string(), false));
    assert!(should_remove(&seen, &"codex/b.jsonl".to_string(), false));
    assert!(!should_remove(&seen, &"codex/b.jsonl".to_string(), true));
}

#[test]
fn ingest_stores_clean_text_and_first_user_prompt() {
    let records = vec![
        json(r#"{"type":"response_item","payload":{"type":"message","role":"assistant","content":[{"type":"text","text":"  Ready  "}]}}"#),
        json(r#"{"type":"response_item","payload":{"type":"message","role":"user","content":[{"type":"text","text":"<environment_context>cwd</environment_context>"}]}}"#),
        json(r#"{"type":"response_item","payload":{"type":"message","role":"User","content":[{"type":"text","text":"  first question \n"}]}}"#),
        json(r#"{"type":"event_msg","payload":{"type":"user_message","message":"second question"}}"#),
    ];
    let state = collect_ingest_state("codex/demo", &records);
    assert_eq!(state.messages.len(), 3);
    for (i, m) in state.messages.iter().enumerate() {
        assert_eq!(m.content, m.content.trim());
        assert!(!m.content.is_empty());
        assert!(!m.content.starts_with("<environment_context>"));
        assert_eq!(m.index, i as i64);
        assert_eq!(m.session_id, "codex/demo");
    }
    assert_eq!(state.messages[0].content, "Ready");
    assert_eq!(state.first_prompt.as_deref(), Some("first question"));
}
