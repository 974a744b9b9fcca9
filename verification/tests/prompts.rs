use tool_executor::config::model::PromptAssemblerConfig;
use tool_executor::json::{JsonNumber, JsonValue};
use tool_executor::prompts::{
    extract_profile_lines, prompt_entries, virtual_profile, PromptAssembler, PromptStatus, VirtualProfile, prompt_names,
};

fn conv(v: serde_json::Value) -> JsonValue {
    match v {
        serde_json::Value::Null => JsonValue::Null,
        serde_json::Value::Bool(b) => JsonValue::Bool(b),
        serde_json::Value::Number(n) => {
            if let Some(u) = n.as_u64() {
                JsonValue::Number(JsonNumber::PosInt(u))
            } else if let Some(i) = n.as_i64() {
                JsonValue::Number(JsonNumber::NegInt(i))
            } else {
                JsonValue::Number(JsonNumber::Float(n.to_string()))
            }
        }
        serde_json::Value::String(s) => JsonValue::String(s),
        serde_json::Value::Array(a) => JsonValue::Array(a.into_iter().map(conv).collect()),
        serde_json::Value::Object(m) => {
            JsonValue::Object(m.into_iter().map(|(k, v)| (k, conv(v))).collect())
        }
    }
}

fn json(text: &str) -> JsonValue {
    conv(serde_json::from_str(text).expect("valid json"))
}

fn profiles_from(namespace: &str, listing: &str, detail: &str) -> Vec<VirtualProfile> {
    let root = json(listing);
    let detail = json(detail);
    let entries = prompt_entries(&root).expect("listing shape");
    let mut out = Vec::new();
    for entry in entries {
        if let Some(JsonValue::String(name)) = tool_executor::json::json_get(entry, "name") {
            out.push(virtual_profile(namespace, name, entry, &detail));
        }
    }
    out
}

fn sample_profile(name: &str) -> VirtualProfile {
    VirtualProfile {
        key: format!("tests/{name}"),
        name: name.to_string(),
        description: None,
        tags: Vec::new(),
        stdin_supported: false,
        contents: vec!["Line one".to_string()],
    }
}

#[test]
fn fetch_prompts_parses_array_root() {
    let profiles = profiles_from(
        "tests",
        r#"[{"name": "demo", "stdin_supported": true}]"#,
        r#"{"name": "demo", "stdin_supported": true, "profile": {"content": "Line one\nLine two\n"}}"#,
    );
    assert_eq!(profiles.len(), 1);
    let profile = &profiles[0];
    assert_eq!(profile.key, "tests/demo");
    assert_eq!(profile.name, "demo");
    assert!(profile.stdin_supported);
    assert_eq!(
        profile.contents,
        vec!["Line one".to_string(), "Line two".to_string()]
    );
}

#[test]
fn fetch_prompts_parses_object_root() {
    let profiles = profiles_from(
        "tests",
        r#"{"prompts": [{"name": "demo", "tags": ["one", "two"]}]}"#,
        r#"{"name": "demo", "tags": ["one", "two"], "profile": {"content": "Hello\n"}}"#,
    );
    assert_eq!(profiles[0].tags, vec!["one", "two"]);
    assert_eq!(profiles[0].contents, vec!["Hello".to_string()]);
}

#[test]
fn fetch_prompts_errors_on_unexpected_shape() {
    let root = json("{}");
    let err = prompt_entries(&root).unwrap_err();
    assert!(err.message().contains("unexpected JSON shape from pa"));
}

#[test]
fn fetch_prompts_enriches_entries_with_detail_fallbacks() {
    let profiles = profiles_from(
        "tests",
        r#"{"prompts":[{"name":"demo"}]}"#,
        r#"{"profile":{"content":"Line A\nLine B\n"},"description":"From detail","tags":["t1","t2"],"stdin_supported":true}"#,
    );
    assert_eq!(profiles.len(), 1);
    let profile = &profiles[0];
    assert_eq!(profile.name, "demo");
    assert_eq!(profile.description.as_deref(), Some("From detail"));
    assert_eq!(profile.tags, vec!["t1".to_string(), "t2".to_string()]);
    assert!(profile.stdin_supported);
    assert_eq!(
        profile.contents,
        vec!["Line A".to_string(), "Line B".to_string()]
    );
}

#[test]
fn fetch_prompts_keeps_entry_stdin_supported() {
    let profiles = profiles_from(
        "tests",
        r#"[{"name": "demo", "stdin_supported": true, "description": "  Listed  "}]"#,
        r#"{"profile": {"content": "x"}, "description": "From detail"}"#,
    );
    assert!(profiles[0].stdin_supported);
    assert_eq!(profiles[0].description.as_deref(), Some("Listed"));
}

#[test]
fn extract_profile_lines_uses_parts_when_content_missing() {
    let detail = json(
        r#"{"profile": {"parts": [{"content": "Line one\nLine two\n"}, {"content": "Line three"}]}}"#,
    );
    let lines = extract_profile_lines(&detail);
    assert_eq!(
        lines,
        vec![
            "Line one".to_string(),
            "Line two".to_string(),
            "Line three".to_string()
        ]
    );
}

#[test]
fn extract_profile_lines_returns_empty_when_missing() {
    let detail = json("{}");
    let lines = extract_profile_lines(&detail);
    assert!(lines.is_empty());
}

#[test]
fn prompt_assembler_refresh_reports_unavailable() {
    let mut assembler = PromptAssembler::new(PromptAssemblerConfig {
        namespace: "tests".into(),
    });
    let status = assembler.refresh(true, Err("pa exited with status 1\nmore detail".into()));
    match status {
        PromptStatus::Unavailable { message } => {
            assert!(message.contains("prompt assembler unavailable"));
            assert!(!message.contains("more detail"));
        }
        other => panic!("unexpected status: {other:?}"),
    }
}

#[test]
fn prompt_assembler_refresh_reports_ready() {
    let mut assembler = PromptAssembler::new(PromptAssemblerConfig {
        namespace: "tests".into(),
    });
    match assembler.refresh(true, Ok(vec![sample_profile("demo")])) {
        PromptStatus::Ready { profiles } => {
            assert_eq!(profiles.len(), 1);
            assert_eq!(profiles[0].name, "demo");
        }
        other => panic!("unexpected status: {other:?}"),
    }
}

#[test]
fn prompt_names_keep_entries_with_a_string_name() {
    let entries = vec![
        json(r#"{"name":"alpha"}"#),
        json(r#"{"title":"no name"}"#),
        json(r#"{"name":7}"#),
        json(r#"{"name":"beta","stdin_supported":true}"#),
    ];
    let names = prompt_names(&entries);
    assert_eq!(names, vec![(0, "alpha".to_string()), (3, "beta".to_string())]);
}
