use indexmap::IndexMap;
use tool_executor::commands::{
    emit_json_check, env_var_checks, lint_report, prompt_available, resolve_resume_summary, resume_args,
    resume_profile, resume_working_dir, search_term, since_cutoff, ResumeError,
};
use tool_executor::config::model::{
    Config, ConfigDiagnostic, Defaults, DiagnosticLevel, FeatureConfig, ProfileConfig,
    ProviderConfig, SearchMode, SnippetConfig,
};
use tool_executor::prompts::{PromptStatus, VirtualProfile};
use tool_executor::providers::ResumePlan;
use tool_executor::session::SessionSummary;

fn provider(name: &str) -> ProviderConfig {
    ProviderConfig {
        name: name.into(),
        bin: "echo".into(),
        flags: Vec::new(),
        env: Vec::new(),
        session_roots: Vec::new(),
        stdin: None,
    }
}

fn profile(name: &str, provider: &str, pre: Vec<String>) -> ProfileConfig {
    ProfileConfig {
        name: name.into(),
        provider: provider.into(),
        description: None,
        pre,
        post: Vec::new(),
        wrap: None,
        prompt_assembler: None,
        prompt_assembler_args: Vec::new(),
    }
}

fn fixture_config() -> Config {
    let mut providers = IndexMap::new();
    providers.insert("codex".to_string(), provider("codex"));
    providers.insert("alt".to_string(), provider("alt"));
    let mut profiles = IndexMap::new();
    profiles.insert(
        "default".to_string(),
        profile("default", "codex", vec!["pre".into()]),
    );
    profiles.insert("mismatch".to_string(), profile("mismatch", "alt", Vec::new()));
    Config {
        defaults: Defaults {
            provider: Some("codex".into()),
            profile: None,
            search_mode: SearchMode::FirstPrompt,
            terminal_title: None,
        },
        providers,
        snippets: SnippetConfig {
            pre: IndexMap::new(),
            post: IndexMap::new(),
        },
        wrappers: IndexMap::new(),
        profiles,
        features: FeatureConfig {
            prompt_assembler: None,
        },
    }
}

fn summary(id: &str) -> SessionSummary {
    SessionSummary {
        id: id.into(),
        provider: "codex".into(),
        wrapper: None,
        model: None,
        label: None,
        path: "/tmp/sessions/a.jsonl".into(),
        uuid: Some("uuid-a".into()),
        first_prompt: None,
        actionable: true,
        created_at: None,
        started_at: None,
        last_active: Some(10),
        size: 1,
        mtime: 1,
    }
}

fn virtual_profile(name: &str) -> VirtualProfile {
    VirtualProfile {
        key: format!("tests/{name}"),
        name: name.into(),
        description: None,
        tags: Vec::new(),
        stdin_supported: true,
        contents: Vec::new(),
    }
}

#[test]
fn search_requires_full_text_for_role() {
    let err = search_term(Some("hello"), Some("user"), false)
        .expect_err("role filter without full-text should error");
    assert!(err.contains("--role requires --full-text"), "unexpected error: {err:?}");
}

#[test]
fn app_search_rejects_role_without_full_text() {
    let err = search_term(Some("  "), Some("user"), true).expect_err("role requires a term");
    assert!(err.contains("--role requires --full-text"));
}

#[test]
fn search_term_is_trimmed_and_optional() {
    assert_eq!(search_term(Some("  hello "), None, false), Ok(Some("hello".to_string())));
    assert_eq!(search_term(Some("   "), None, false), Ok(None));
    assert_eq!(search_term(None, None, true), Ok(None));
    assert_eq!(search_term(Some("x"), Some("user"), true), Ok(Some("x".to_string())));
}

#[test]
fn since_cutoff_saturates() {
    assert_eq!(since_cutoff(1000, Some(300)), Some(700));
    assert_eq!(since_cutoff(1000, None), None);
    assert_eq!(since_cutoff(i64::MIN, Some(1)), Some(i64::MIN));
    assert_eq!(since_cutoff(0, Some(i64::MIN)), Some(i64::MAX));
}

#[test]
fn config_lint_returns_error_for_error_diagnostics() {
    let diagnostics = vec![ConfigDiagnostic {
        level: DiagnosticLevel::Error,
        message: "broken config".into(),
    }];
    let (lines, outcome) = lint_report(&diagnostics);
    assert_eq!(lines, vec!["error: broken config".to_string()]);
    let err = outcome.expect_err("should surface configuration errors");
    assert!(err.contains("configuration contains errors"));
}

#[test]
fn config_lint_emits_warnings_without_error() {
    let warning = ConfigDiagnostic {
        level: DiagnosticLevel::Warning,
        message: "deprecated option".into(),
    };
    let (lines, outcome) = lint_report(&vec![warning]);
    assert_eq!(lines, vec!["warning: deprecated option".to_string()]);
    assert!(outcome.is_ok());
}

#[test]
fn app_config_lint_runs() {
    let (lines, outcome) = lint_report(&Vec::new());
    assert_eq!(lines, vec!["Configuration looks good.".to_string()]);
    assert!(outcome.is_ok());
}

#[test]
fn ensure_prompt_available_errors_when_disabled() {
    let err = prompt_available(false, &PromptStatus::Disabled, "demo")
        .expect_err("prompt lookup should fail when assembler disabled");
    assert!(err.contains("prompt-assembler is disabled"), "unexpected error: {err:?}");
}

#[test]
fn ensure_prompt_available_errors_when_existing_prompt_feature_is_disabled() {
    let status = PromptStatus::Ready {
        profiles: vec![virtual_profile("demo/prompt")],
    };
    let err = prompt_available(false, &status, "demo/prompt")
        .expect_err("prompt lookup should fail when assembler disabled");
    assert!(err.contains("prompt-assembler is disabled"));
}

#[test]
fn ensure_prompt_available_errors_when_prompt_name_missing() {
    let status = PromptStatus::Ready {
        profiles: vec![virtual_profile("other/prompt")],
    };
    let err = prompt_available(true, &status, "demo/prompt").expect_err("missing prompt should error");
    assert!(err.contains("prompt assembler prompt 'demo/prompt' not found"));
}

#[test]
fn ensure_prompt_available_surfaces_unavailable_prompt_assembler() {
    let status = PromptStatus::Unavailable {
        message: "prompt assembler unavailable: pa exited with status 1".into(),
    };
    let err = prompt_available(true, &status, "demo/prompt")
        .expect_err("unavailable prompt assembler should fail");
    assert!(err.contains("prompt assembler unavailable"));
}

#[test]
fn ensure_prompt_available_succeeds_when_prompt_exists() {
    let status = PromptStatus::Ready {
        profiles: vec![virtual_profile("demo/prompt")],
    };
    assert!(prompt_available(true, &status, "demo/prompt").is_ok());
}

#[test]
fn resolve_resume_profile_builds_prompt_invocation_and_validates_prompt() {
    let mut config = fixture_config();
    let default = &mut config.profiles["default"];
    default.prompt_assembler = Some("demo/prompt".into());
    default.prompt_assembler_args = vec!["one".into(), "two".into()];

    let (prompt_invocation, has_pre_snippets) =
        resume_profile(&config, Some("default"), "codex").expect("profile resolves");
    assert!(has_pre_snippets);
    let invocation = prompt_invocation.expect("prompt invocation");
    assert_eq!(invocation.name, "demo/prompt");
    assert_eq!(invocation.args, vec!["one".to_string(), "two".to_string()]);
}

#[test]
fn resume_profile_rejects_unknown_and_mismatched_profiles() {
    let config = fixture_config();
    assert!(matches!(resume_profile(&config, None, "codex"), Ok((None, false))));

    let err = resume_profile(&config, Some("missing"), "codex").expect_err("unknown profile");
    assert!(matches!(err, ResumeError::ProfileNotFound(ref n) if n == "missing"));
    assert_eq!(err.message(), "profile 'missing' not found");

    let err = resume_profile(&config, Some("mismatch"), "codex").expect_err("provider mismatch");
    assert_eq!(
        err.message(),
        "provider mismatch: session uses 'codex' but pipeline asked for 'alt'"
    );
}

#[test]
fn app_resume_requires_emit_json_companion_flag() {
    let err = emit_json_check(true, false, false)
        .expect_err("emit-json should require dry-run or emit-command");
    assert!(err.contains("--emit-json requires --dry-run or --emit-command"));
    assert!(emit_json_check(true, true, false).is_ok());
    assert!(emit_json_check(true, false, true).is_ok());
    assert!(emit_json_check(false, false, false).is_ok());
}

#[test]
fn resume_uses_current_dir_when_session_path_has_no_parent() {
    assert_eq!(resume_working_dir("/", "/work".to_string()), "/work");
    assert_eq!(
        resume_working_dir("/tmp/sessions/a.jsonl", "/work".to_string()),
        "/tmp/sessions"
    );
}

#[test]
fn app_resume_accepts_plain_session_id() {
    let found = summary("codex/a.jsonl");
    let resolved = resolve_resume_summary("codex/a.jsonl", Some(found), None).expect("found");
    assert_eq!(resolved.id, "codex/a.jsonl");
}

#[test]
fn resolve_resume_summary_handles_last_and_missing() {
    let latest = summary("codex/latest.jsonl");
    let resolved = resolve_resume_summary("LAST", None, Some(latest)).expect("latest");
    assert_eq!(resolved.id, "codex/latest.jsonl");
    assert_eq!(
        resolve_resume_summary("last", None, None).unwrap_err(),
        "no previous sessions available to resume"
    );
    assert_eq!(
        resolve_resume_summary("nope", None, None).unwrap_err(),
        "session 'nope' not found"
    );
}

#[test]
fn resume_args_put_plan_arguments_first() {
    let plan = ResumePlan {
        args: vec!["resume".into(), "uuid-a".into()],
        resume_token: Some("uuid-a".into()),
    };
    let (args, token) = resume_args(Some(plan), &vec!["--flag".to_string()]);
    assert_eq!(args, vec!["resume", "uuid-a", "--flag"]);
    assert_eq!(token.as_deref(), Some("uuid-a"));
    let (args, token) = resume_args(None, &vec!["--flag".to_string()]);
    assert_eq!(args, vec!["--flag"]);
    assert!(token.is_none());
}

#[test]
fn env_var_checks_reports_each_variable() {
    let env = vec![("TOKEN".to_string(), "abc".to_string())];
    let checks = env_var_checks("Bearer ${env:TOKEN} ${env:MISSING_X} ${env:TOKEN}", &env).expect("pattern compiles");
    assert_eq!(
        checks,
        vec![("TOKEN".to_string(), true), ("MISSING_X".to_string(), false), ("TOKEN".to_string(), true)]
    );
    assert_eq!(env_var_checks("plain", &env), Some(Vec::new()));
}
