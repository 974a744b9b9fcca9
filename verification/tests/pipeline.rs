use indexmap::IndexMap;
use tool_executor::config::model::{
    Config, Defaults, EnvVar, FeatureConfig, ProfileConfig, ProviderConfig, SearchMode, Snippet,
    SnippetConfig, StdinMapping, StdinMode, WrapperConfig, WrapperMode,
};
use tool_executor::pipeline::{
    build_pipeline, command_string, cut_at_spans, expand_env_template, single_quote, Invocation,
    PipelineError, PipelineRequest, SessionContext,
};

fn codex_config(capture: bool) -> Config {
    let mut providers = IndexMap::new();
    providers.insert(
        "codex".to_string(),
        ProviderConfig {
            name: "codex".into(),
            bin: "codex".into(),
            flags: vec!["--search".into()],
            env: Vec::new(),
            session_roots: Vec::new(),
            stdin: if capture {
                Some(StdinMapping {
                    args: vec!["{prompt}".into()],
                    mode: StdinMode::CaptureArg,
                })
            } else {
                None
            },
        },
    );

    Config {
        defaults: Defaults {
            provider: Some("codex".into()),
            profile: None,
            search_mode: SearchMode::FirstPrompt,
            terminal_title: None,
        },
        providers,
        snippets: SnippetConfig {
            pre: IndexMap::new(),
            post: IndexMap::new(),
        },
        wrappers: IndexMap::new(),
        profiles: IndexMap::new(),
        features: FeatureConfig {
            prompt_assembler: None,
        },
    }
}

fn request<'a>(config: &'a Config, inline_pre: Vec<String>, capture_prompt: bool) -> PipelineRequest<'a> {
    PipelineRequest {
        config,
        provider_hint: Some("codex"),
        profile: None,
        additional_pre: Vec::new(),
        additional_post: Vec::new(),
        inline_pre,
        wrap: None,
        provider_args: Vec::new(),
        capture_prompt,
        vars: Vec::new(),
        session: SessionContext::default(),
        cwd: "/tmp".to_string(),
        environment: Vec::new(),
        tx_path: "tx".to_string(),
    }
}

#[test]
fn inline_pre_commands_are_included_for_capture_arg() {
    let config = codex_config(true);
    let request = request(&config, vec!["pa hello".into()], true);

    let plan = build_pipeline(&request).expect("pipeline builds");
    assert!(
        plan.pipeline.contains("pa hello"),
        "expected inline pre command in pipeline: {}",
        plan.pipeline
    );
    assert!(
        plan.pipeline.contains("{prompt}"),
        "expected captured prompt placeholder in pipeline: {}",
        plan.pipeline
    );
    assert_eq!(
        plan.friendly_display, r#"codex --search "$(pa hello)""#,
        "expected friendly display to use command substitution"
    );
}

#[test]
fn capture_arg_is_skipped_when_disabled() {
    let config = codex_config(true);
    let request = request(&config, Vec::new(), false);

    let plan = build_pipeline(&request).expect("pipeline builds");
    assert!(
        !plan.pipeline.contains("internal capture-arg"),
        "expected capture helper to be skipped: {}",
        plan.pipeline
    );
    assert!(
        plan.pipeline.contains("codex --search"),
        "expected provider invocation in pipeline: {}",
        plan.pipeline
    );
    assert!(
        !plan.pipeline.contains("{prompt}"),
        "expected prompt placeholder to be absent: {}",
        plan.pipeline
    );
    assert_eq!(
        plan.friendly_display, plan.display,
        "expected friendly display to match pipeline when capture is disabled"
    );
}

#[test]
fn friendly_display_for_capture_without_pre() {
    let config = codex_config(true);
    let request = request(&config, Vec::new(), true);

    let plan = build_pipeline(&request).expect("pipeline builds");
    assert!(
        plan.pipeline.contains("internal capture-arg"),
        "expected capture helper when capture enabled: {}",
        plan.pipeline
    );
    assert_eq!(
        plan.friendly_display, "codex --search",
        "expected friendly display to omit placeholder when source unknown"
    );
}

#[test]
fn plain_provider_runs_as_shell_pipeline() {
    let config = codex_config(false);
    let request = request(&config, Vec::new(), false);
    let plan = build_pipeline(&request).expect("pipeline builds");
    assert_eq!(plan.pipeline, "codex --search");
    assert_eq!(plan.provider, "codex");
    assert_eq!(plan.cwd, "/tmp");
    assert!(matches!(plan.invocation, Invocation::Shell { ref command } if command == "codex --search"));
}

#[test]
fn snippets_wrap_the_provider() {
    let mut config = codex_config(false);
    config.snippets.pre.insert(
        "setup".to_string(),
        Snippet { name: "setup".into(), command: "echo pre".into() },
    );
    config.snippets.post.insert(
        "tidy".to_string(),
        Snippet { name: "tidy".into(), command: "cat".into() },
    );
    config.profiles.insert(
        "demo".to_string(),
        ProfileConfig {
            name: "demo".into(),
            provider: "codex".into(),
            description: None,
            pre: vec!["setup".into()],
            post: vec!["tidy".into()],
            wrap: None,
            prompt_assembler: None,
            prompt_assembler_args: Vec::new(),
        },
    );
    let mut req = request(&config, Vec::new(), false);
    req.provider_hint = None;
    req.profile = Some("demo");
    let plan = build_pipeline(&req).expect("pipeline builds");
    assert_eq!(plan.pipeline, "echo pre | codex --search | cat");
    assert_eq!(plan.pre_snippets, vec!["setup"]);
    assert_eq!(plan.post_snippets, vec!["tidy"]);
}

#[test]
fn unknown_profile_and_snippet_are_errors() {
    let config = codex_config(false);
    let mut req = request(&config, Vec::new(), false);
    req.profile = Some("missing");
    let err = build_pipeline(&req).expect_err("unknown profile");
    assert!(matches!(err, PipelineError::ProfileNotFound(ref name) if name == "missing"));

    let mut req = request(&config, Vec::new(), false);
    req.additional_pre = vec!["nope".into()];
    let err = build_pipeline(&req).expect_err("unknown snippet");
    assert!(err.message().contains("nope"));
}

#[test]
fn unknown_provider_is_an_error() {
    let config = codex_config(false);
    let mut req = request(&config, Vec::new(), false);
    req.provider_hint = Some("llama");
    let err = build_pipeline(&req).expect_err("unknown provider");
    assert!(matches!(err, PipelineError::ProviderNotDefined(ref name) if name == "llama"));
}

#[test]
fn exec_wrapper_renders_arguments() {
    let mut config = codex_config(false);
    config.wrappers.insert(
        "tmux".to_string(),
        WrapperConfig {
            name: "tmux".into(),
            mode: WrapperMode::Exec {
                argv: vec!["tmux".into(), "new".into(), "{{CMD}}".into()],
            },
        },
    );
    let mut req = request(&config, Vec::new(), false);
    req.wrap = Some("tmux");
    let plan = build_pipeline(&req).expect("pipeline builds");
    assert_eq!(plan.wrapper.as_deref(), Some("tmux"));
    match plan.invocation {
        Invocation::Exec { argv } => {
            assert_eq!(argv[0], "tmux");
            assert_eq!(argv[2], "codex --search");
        }
        Invocation::Shell { .. } => panic!("expected exec invocation"),
    }
}

#[test]
fn provider_env_templates_are_rendered() {
    let mut config = codex_config(false);
    config.providers["codex"].env.push(EnvVar {
        key: "API_KEY".into(),
        value_template: "${env:HOME_KEY}".into(),
    });
    let mut req = request(&config, Vec::new(), false);
    req.environment = vec![("HOME_KEY".to_string(), "secret".to_string())];
    let plan = build_pipeline(&req).expect("pipeline builds");
    assert_eq!(plan.env, vec![("API_KEY".to_string(), "secret".to_string())]);

    let req = request(&config, Vec::new(), false);
    let err = build_pipeline(&req).expect_err("missing env var");
    assert!(matches!(err, PipelineError::EnvNotSet { .. }));
}

#[test]
fn command_string_quotes_arguments() {
    assert_eq!(
        command_string("codex", &vec!["--flag".to_string(), "two words".to_string()]),
        "codex --flag 'two words'"
    );
    assert_eq!(single_quote("it's"), "'it'\\''s'");
}

#[test]
fn expand_env_template_reads_variables() {
    let env = vec![("NAME".to_string(), "tx".to_string())];
    assert_eq!(expand_env_template("hi ${env:NAME}!", &env), Some(Ok("hi tx!".to_string())));
    assert_eq!(expand_env_template("plain", &env), Some(Ok("plain".to_string())));
    assert!(matches!(expand_env_template("${env:MISSING}", &env), Some(Err(_))));
}

#[test]
fn cut_at_spans_cuts_between_matches_by_byte_offsets() {
    // "é${env:A}x${env:B}" with byte offsets: é takes two bytes.
    let text = "é${env:A}x${env:B}";
    let spans = vec![(2, 10, Some((8, 9))), (11, 19, Some((17, 18)))];
    let (pieces, tail) = cut_at_spans(text, &spans).expect("offsets at boundaries");
    assert_eq!(pieces, vec![("é".to_string(), "A".to_string()), ("x".to_string(), "B".to_string())]);
    assert_eq!(tail, "");
    let (pieces, tail) = cut_at_spans("a{{k}}b", &vec![(1, 6, None)]).expect("cut");
    assert_eq!(pieces, vec![("a".to_string(), String::new())]);
    assert_eq!(tail, "b");
    assert!(cut_at_spans(text, &vec![(1, 10, None)]).is_none());
}

#[test]
fn expand_env_template_keeps_text_around_multibyte_characters() {
    let env = vec![("A".to_string(), "1".to_string())];
    assert_eq!(expand_env_template("é-${env:A}-ü", &env), Some(Ok("é-1-ü".to_string())));
}
