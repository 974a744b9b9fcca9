use tool_executor::json::JsonValue;
use tool_executor::session::{
    fallback_session_uuid, session_uuid_from_value, MessageRecord, SessionSummary, Transcript,
};

fn obj(members: Vec<(&str, JsonValue)>) -> JsonValue {
    JsonValue::Object(
        members
            .into_iter()
            .map(|(k, v)| (k.to_string(), v))
            .collect(),
    )
}

fn text(s: &str) -> JsonValue {
    JsonValue::String(s.to_string())
}

fn sample_summary() -> SessionSummary {
    SessionSummary {
        id: "sample".into(),
        provider: "codex".into(),
        wrapper: None,
        model: None,
        label: Some("demo".into()),
        path: "/tmp/sample.jsonl".into(),
        uuid: Some("abc123".into()),
        first_prompt: Some("Hello world".into()),
        actionable: true,
        created_at: Some(1),
        started_at: Some(2),
        last_active: Some(3),
        size: 1024,
        mtime: 4,
    }
}

fn records(items: &[(&str, &str)]) -> Vec<MessageRecord> {
    let mut messages = Vec::new();
    for (idx, (role, content)) in items.iter().enumerate() {
        let mut record = MessageRecord::new(
            "sample",
            i64::try_from(idx).expect("message index within i64 range"),
            role,
            content,
            None,
            Some(5),
        );
        if idx == 0 {
            record.is_first = true;
        }
        messages.push(record);
    }
    messages
}

#[test]
fn transcript_markdown_limits_output() {
    let messages = records(&[
        ("user", "First message"),
        ("assistant", "Response"),
        ("system", "Skip me"),
        ("assistant", "<user_instructions>ignored</user_instructions>"),
    ]);
    let transcript = Transcript {
        session: sample_summary(),
        messages,
    };

    let lines = transcript.markdown_lines(Some(1));
    assert!(lines.iter().any(|line| line.contains("First message")));
    assert!(lines
        .iter()
        .any(|line| line.contains("… and 1 more messages")));
    assert!(lines.iter().all(|line| !line.contains("Skip me")));
}

#[test]
fn transcript_markdown_includes_assistant_roles_without_limit() {
    let messages = records(&[("user", "Hello"), ("assistant", "Hi there")]);
    let transcript = Transcript {
        session: sample_summary(),
        messages,
    };

    let lines = transcript.markdown_lines(None);
    assert!(lines.iter().any(|line| line.contains("— User")));
    assert!(lines.iter().any(|line| line.contains("— Assistant")));
}

#[test]
fn transcript_markdown_starts_with_session_heading() {
    let transcript = Transcript {
        session: sample_summary(),
        messages: records(&[("user", "Hello")]),
    };
    let lines = transcript.markdown_lines(None);
    assert!(lines[0].contains("abc123"));
    assert!(lines.iter().all(|line| !line.contains("more messages")));
}

#[test]
fn session_summary_has_path_matches_exact_path() {
    let summary = sample_summary();
    assert!(summary.has_path("/tmp/sample.jsonl"));
    assert!(!summary.has_path("/tmp/other.jsonl"));
}

#[test]
fn session_uuid_from_value_falls_back_to_session_key() {
    let value = obj(vec![
        ("session", obj(vec![("id", text("session-1"))])),
        ("payload", obj(vec![("type", text("noop"))])),
    ]);
    assert_eq!(session_uuid_from_value(&value), Some("session-1".into()));
}

#[test]
fn session_uuid_from_value_uses_payload_id() {
    let value = obj(vec![("payload", obj(vec![("id", text("payload-42"))]))]);
    assert_eq!(session_uuid_from_value(&value), Some("payload-42".into()));
}

#[test]
fn session_uuid_from_value_is_none_without_ids() {
    let value = obj(vec![("payload", obj(vec![("type", text("noop"))]))]);
    assert_eq!(session_uuid_from_value(&value), None);
    assert_eq!(session_uuid_from_value(&JsonValue::Null), None);
}

#[test]
fn fallback_session_uuid_extracts_rollout_suffix() {
    assert_eq!(
        fallback_session_uuid("/tmp/rollout-2024-10-26-abcdef.jsonl"),
        Some("abcdef".to_string())
    );
}

#[test]
fn fallback_session_uuid_handles_rollout_without_suffix() {
    assert_eq!(
        fallback_session_uuid("/tmp/rollout-log.jsonl"),
        Some("log".to_string())
    );
}

#[test]
fn fallback_session_uuid_keeps_plain_stem() {
    assert_eq!(
        fallback_session_uuid("/tmp/session.jsonl"),
        Some("session".to_string())
    );
    assert_eq!(fallback_session_uuid("/"), None);
}

#[test]
fn session_summary_staleness_detects_changes() {
    let summary = sample_summary();
    assert!(summary.is_stale(2048, 8));
    assert!(!summary.is_stale(1024, 4));
    assert!(summary.is_stale(1024, 5));
}

#[test]
fn transcript_markdown_shows_first_renderable_messages_in_order() {
    let messages = records(&[
        ("system", "not shown"),
        ("user", "one"),
        ("assistant", "   "),
        ("ASSISTANT", "two"),
        ("user", "three"),
    ]);
    let transcript = Transcript {
        session: sample_summary(),
        messages,
    };
    let lines = transcript.markdown_lines(Some(2));
    let one = lines.iter().position(|l| l == "one").expect("first shown");
    let two = lines.iter().position(|l| l == "two").expect("second shown");
    assert!(one < two);
    assert!(lines.iter().all(|l| l != "three" && l != "not shown"));
    assert_eq!(lines.iter().filter(|l| l.starts_with("## ")).count(), 2);
    assert_eq!(lines[lines.len() - 2], "*… and 1 more messages*");
}
