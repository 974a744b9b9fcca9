use tool_executor::launch::{
    collate_search_results, normalize_stdin_line, normalize_target_version_tag, parse_vars,
    self_update_message, should_capture_prompt_for_resume, should_warn_capture,
};
use tool_executor::session::{MessageRecord, SearchHit, SessionSummary, Transcript};

fn sample_summary() -> SessionSummary {
    SessionSummary {
        id: "id".into(),
        provider: "codex".into(),
        wrapper: Some("shellwrap".into()),
        model: None,
        label: Some("demo".into()),
        path: "/tmp/file.jsonl".into(),
        uuid: Some("abc".into()),
        first_prompt: Some("Hello".into()),
        actionable: true,
        created_at: Some(1),
        started_at: Some(2),
        last_active: Some(3),
        size: 4,
        mtime: 5,
    }
}

fn hit(id: &str, role: &str, snippet: Option<&str>, last_active: i64) -> SearchHit {
    SearchHit {
        session_id: id.into(),
        provider: "codex".into(),
        wrapper: None,
        label: None,
        role: Some(role.into()),
        snippet: snippet.map(|s| s.to_string()),
        last_active: Some(last_active),
        actionable: true,
    }
}

#[test]
fn export_markdown_emits_transcript_lines() {
    let summary = sample_summary();
    let mut message = MessageRecord::new(&summary.id, 0, "user", "Hello markdown", None, Some(0));
    message.is_first = true;
    let transcript = Transcript {
        session: summary,
        messages: vec![message],
    };
    let lines = transcript.markdown_lines(None);
    assert!(lines.iter().any(|line| line.contains("Hello markdown")));
}

#[test]
fn parse_vars_splits_key_value_pairs() {
    let vars = vec!["FOO=bar".into(), "BAZ=qux=quux".into()];
    let parsed = parse_vars(&vars).expect("valid vars");
    let get = |key: &str| parsed.iter().find(|(k, _)| k == key).map(|(_, v)| v.clone());
    assert_eq!(get("FOO"), Some("bar".to_string()));
    assert_eq!(get("BAZ"), Some("qux=quux".to_string()));
}

#[test]
fn parse_vars_rejects_missing_equals() {
    let err = parse_vars(&vec!["invalid".into()]).unwrap_err();
    assert!(err.contains("expected KEY=VALUE"));
}

#[test]
fn parse_vars_keeps_last_value_of_repeated_key() {
    let vars = vec!["A=1".into(), "B=2".into(), "A=3".into()];
    let parsed = parse_vars(&vars).expect("valid vars");
    assert_eq!(parsed.len(), 2);
    assert!(parsed.contains(&("A".to_string(), "3".to_string())));
    assert!(parsed.contains(&("B".to_string(), "2".to_string())));
}

#[test]
fn resume_capture_prompt_detects_profile_and_cli_pre_snippets() {
    assert!(should_capture_prompt_for_resume(false, true, &vec![]));
    assert!(should_capture_prompt_for_resume(false, false, &vec!["pre".into()]));
    assert!(should_capture_prompt_for_resume(true, false, &vec![]));
    assert!(!should_capture_prompt_for_resume(false, false, &vec![]));
}

#[test]
fn prompt_for_stdin_with_reader_appends_newline() {
    assert_eq!(normalize_stdin_line("value"), "value\n");
}

#[test]
fn prompt_for_stdin_with_reader_normalizes_crlf() {
    assert_eq!(normalize_stdin_line("value\r\n"), "value\n");
}

#[test]
fn should_warn_capture_respects_pre_pipeline() {
    assert!(should_warn_capture(true, false, None, true));
    assert!(!should_warn_capture(true, false, Some("payload"), true));
    assert!(!should_warn_capture(true, false, None, false));
    assert!(!should_warn_capture(true, true, None, true));
    assert!(!should_warn_capture(false, false, None, true));
}

#[test]
fn collate_search_results_applies_filters_and_limit() {
    let hits = vec![
        hit("keep-1", "user", Some("hello"), 120),
        hit("skip-role", "assistant", None, 140),
        hit("stale", "user", None, 10),
        hit("keep-2", "USER", None, 200),
    ];
    let summaries: Vec<Option<SessionSummary>> = hits
        .iter()
        .map(|h| {
            let mut s = sample_summary();
            s.id = h.session_id.clone();
            s.last_active = h.last_active;
            Some(s)
        })
        .collect();

    let detailed = collate_search_results(&hits, &summaries, Some(100), Some("user"), Some(1));
    assert_eq!(detailed.len(), 1);
    assert_eq!(detailed[0].0.session_id, "keep-1");

    let all = collate_search_results(&hits, &summaries, Some(100), Some("user"), None);
    let ids: Vec<&str> = all.iter().map(|(h, _)| h.session_id.as_str()).collect();
    assert_eq!(ids, vec!["keep-1", "keep-2"]);
}

#[test]
fn collate_search_results_skips_missing_summary() {
    let hits = vec![hit("missing", "user", None, 50)];
    let detailed = collate_search_results(&hits, &vec![None], None, None, None);
    assert!(detailed.is_empty());
}

#[test]
fn collate_search_results_returns_hit_details() {
    let mut first = hit("sess-123", "user", Some("Hello world"), 42);
    first.wrapper = Some("shellwrap".into());
    first.label = Some("Sample".into());
    let mut second = first.clone();
    second.session_id = "sess-456".into();

    let summary = sample_summary();
    let mut other_summary = summary.clone();
    other_summary.id = second.session_id.clone();

    let hits = vec![first.clone(), second.clone()];
    let mut lookup_count = 0;
    let summaries: Vec<Option<SessionSummary>> = hits
        .iter()
        .map(|h| {
            lookup_count += 1;
            if h.session_id == first.session_id {
                Some(summary.clone())
            } else if h.session_id == second.session_id {
                Some(other_summary.clone())
            } else {
                None
            }
        })
        .collect();
    let detailed = collate_search_results(&hits, &summaries, None, None, Some(1));
    assert_eq!(lookup_count, 2);
    assert_eq!(detailed.len(), 1);
    let (returned_hit, returned_summary) = &detailed[0];
    assert_eq!(returned_hit.session_id, first.session_id);
    assert_eq!(returned_summary.id, summary.id);
}

#[test]
fn normalize_target_version_tag_adds_prefix() {
    assert_eq!(normalize_target_version_tag(Some("1.2.3")), Some("v1.2.3".to_string()));
    assert_eq!(normalize_target_version_tag(Some("v1.2.3")), Some("v1.2.3".to_string()));
    assert_eq!(normalize_target_version_tag(None), None);
}

#[test]
fn self_update_message_reports_outcome() {
    assert_eq!(self_update_message(true, "v1.0.0"), "Updated tx to v1.0.0");
    assert_eq!(
        self_update_message(false, "v1.0.0"),
        "tx is already up to date (v1.0.0)"
    );
}
