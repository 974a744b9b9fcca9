use tool_executor::json::JsonValue;
use tool_executor::providers::{extract_session_uuid, resume_info};
use tool_executor::session::{fallback_session_uuid, SessionSummary};

fn sample_summary() -> SessionSummary {
    SessionSummary {
        id: "sess-1".into(),
        provider: "codex".into(),
        wrapper: None,
        model: None,
        label: Some("demo".into()),
        path: "/tmp/session.jsonl".into(),
        uuid: None,
        first_prompt: Some("Hello".into()),
        actionable: true,
        created_at: Some(1),
        started_at: Some(1),
        last_active: Some(1),
        size: 1,
        mtime: 1,
    }
}

fn payload_record(id: &str) -> JsonValue {
    JsonValue::Object(vec![
        (
            "payload".to_string(),
            JsonValue::Object(vec![("id".to_string(), JsonValue::String(id.to_string()))]),
        ),
        ("type".to_string(), JsonValue::String("event_msg".to_string())),
    ])
}

#[test]
fn extracts_uuid_from_payload() {
    let records = vec![payload_record("abc123")];
    let uuid = extract_session_uuid(Some(&records), "/tmp/whatever.jsonl").expect("uuid");
    assert_eq!(uuid, "abc123");
}

#[test]
fn extract_session_uuid_uses_file_name_when_records_lack_ids() {
    let records = vec![JsonValue::Object(vec![(
        "type".to_string(),
        JsonValue::String("noop".to_string()),
    )])];
    let uuid = extract_session_uuid(Some(&records), "/tmp/rollout-x-abc.jsonl").expect("uuid");
    assert_eq!(uuid, "abc");
}

#[test]
fn falls_back_to_rollout_suffix() {
    let uuid = fallback_session_uuid("/tmp/rollout-2024-07-30T02-42-13-7f6c3c.jsonl").expect("uuid");
    assert_eq!(uuid, "7f6c3c");
}

#[test]
fn falls_back_to_filename_without_extension() {
    let uuid = fallback_session_uuid("/tmp/abcd-ef.jsonl").expect("uuid");
    assert_eq!(uuid, "abcd-ef");
}

#[test]
fn resume_info_uses_existing_uuid() {
    let mut summary = sample_summary();
    summary.uuid = Some("known-uuid".into());
    let extracted = extract_session_uuid(None, &summary.path);
    let plan = resume_info(&summary, extracted).expect("resume plan");
    assert_eq!(plan.args, vec!["resume".to_string(), "known-uuid".into()]);
    assert_eq!(plan.resume_token.as_deref(), Some("known-uuid"));
}

#[test]
fn resume_info_includes_model_when_available() {
    let mut summary = sample_summary();
    summary.uuid = Some("known-uuid".into());
    summary.model = Some("o3-mini".into());
    let extracted = extract_session_uuid(None, &summary.path);
    let plan = resume_info(&summary, extracted).expect("resume plan");
    assert_eq!(
        plan.args,
        vec![
            "-m".to_string(),
            "o3-mini".to_string(),
            "resume".to_string(),
            "known-uuid".to_string()
        ]
    );
    assert_eq!(plan.resume_token.as_deref(), Some("known-uuid"));
}

#[test]
fn resume_info_falls_back_when_log_missing() {
    let mut summary = sample_summary();
    summary.path = "/tmp/fallback-log.jsonl".into();
    summary.uuid = None;
    let extracted = extract_session_uuid(None, &summary.path);
    let plan = resume_info(&summary, extracted).expect("resume plan");
    assert_eq!(plan.args, vec!["resume".to_string(), "fallback-log".into()]);
    assert_eq!(plan.resume_token.as_deref(), Some("fallback-log"));
}

#[test]
fn resume_info_returns_none_when_no_identifier() {
    let mut summary = sample_summary();
    summary.path = String::new();
    summary.uuid = None;
    let extracted = extract_session_uuid(None, &summary.path);
    let plan = resume_info(&summary, extracted);
    assert!(plan.is_none());
}

#[test]
fn resume_info_returns_none_for_other_providers() {
    let summary = SessionSummary {
        id: "sess".into(),
        provider: "other".into(),
        wrapper: None,
        model: None,
        label: None,
        path: "/tmp/other.jsonl".into(),
        uuid: None,
        first_prompt: None,
        actionable: false,
        created_at: None,
        started_at: None,
        last_active: None,
        size: 0,
        mtime: 0,
    };
    let extracted = extract_session_uuid(None, &summary.path);
    assert!(resume_info(&summary, extracted).is_none());
}
