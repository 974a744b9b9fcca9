use indexmap::IndexMap;
use tool_executor::config::model::{
    codex_homes, expand_optional_path, parse_command_args, parse_env_var, parse_stdin, Config, ConfigDiagnostic,
    Defaults, DiagnosticLevel, FeatureConfig, ProfileConfig, ProviderConfig, RawConfig,
    RawDefaults, RawFeatures, RawProfile, RawProvider, RawSnippets, RawStdinMode, RawWrapper,
    SearchMode, SnippetConfig, StdinMode, WrapperCommandSpec, WrapperMode,
};
use tool_executor::config::{
    bundled_default_config, default_directories, default_template, resolve_default_directories_with,
    resolve_directories, AppDirectories,
};

fn raw_provider(bin: Option<&str>, flags: &[&str], env: &[&str]) -> RawProvider {
    RawProvider {
        bin: bin.map(|b| b.to_string()),
        flags: flags.iter().map(|s| s.to_string()).collect(),
        env: env.iter().map(|s| s.to_string()).collect(),
        stdin_to: None,
        stdin_mode: RawStdinMode::Pipe,
    }
}

fn raw_config(providers: IndexMap<String, RawProvider>) -> RawConfig {
    RawConfig {
        defaults: RawDefaults {
            provider: None,
            profile: None,
            search_mode: RawDefaults::default_search_mode(),
            terminal_title: None,
        },
        providers,
        snippets: RawSnippets {
            pre: IndexMap::new(),
            post: IndexMap::new(),
        },
        wrappers: IndexMap::new(),
        profiles: IndexMap::new(),
        features: RawFeatures { pa: None },
    }
}

fn messages(diagnostics: &[ConfigDiagnostic]) -> Vec<String> {
    diagnostics.iter().map(|diag| diag.message.clone()).collect()
}

fn lint_fixture_config() -> Config {
    let mut providers = IndexMap::new();
    providers.insert(
        "codex".to_string(),
        ProviderConfig {
            name: "codex".into(),
            bin: "codex".into(),
            flags: Vec::new(),
            env: Vec::new(),
            session_roots: Vec::new(),
            stdin: None,
        },
    );

    let mut profiles = IndexMap::new();
    profiles.insert(
        "default".to_string(),
        ProfileConfig {
            name: "default".into(),
            provider: "codex".into(),
            description: None,
            pre: vec!["setup".into()],
            post: vec!["teardown".into()],
            wrap: Some("missing-wrap".into()),
            prompt_assembler: None,
            prompt_assembler_args: Vec::new(),
        },
    );

    Config {
        defaults: Defaults {
            provider: Some("missing".into()),
            profile: Some("absent-profile".into()),
            search_mode: SearchMode::FirstPrompt,
            terminal_title: None,
        },
        providers,
        snippets: SnippetConfig {
            pre: IndexMap::new(),
            post: IndexMap::new(),
        },
        wrappers: IndexMap::new(),
        profiles,
        features: FeatureConfig {
            prompt_assembler: None,
        },
    }
}

#[test]
fn default_template_contains_provider() {
    let template = default_template();
    assert!(
        template.contains("provider = \"codex\""),
        "expected bundled template to include provider stanza"
    );
}

#[test]
fn bundled_default_config_renders_template() {
    let dirs = AppDirectories {
        config_dir: "/tmp/tx-test/config".into(),
        data_dir: "/tmp/tx-test/data".into(),
        cache_dir: "/tmp/tx-test/cache".into(),
    };
    let rendered = bundled_default_config(&dirs);
    assert!(
        rendered.contains("provider = \"codex\""),
        "expected rendered template to include provider stanza"
    );
}

#[test]
fn config_from_value_requires_provider_bin() {
    let mut providers = IndexMap::new();
    providers.insert("codex".to_string(), raw_provider(None, &["--search"], &[]));
    let error = raw_config(providers)
        .into_config(&Vec::new())
        .expect_err("missing bin should error");
    let message = format!("{error:?}");
    assert!(message.contains("provider 'codex' is missing required field 'bin'"));
}

#[test]
fn config_from_value_rejects_malformed_env_entry() {
    let mut providers = IndexMap::new();
    providers.insert(
        "codex".to_string(),
        raw_provider(Some("codex"), &[], &["=VALUE"]),
    );
    let error = raw_config(providers)
        .into_config(&Vec::new())
        .expect_err("env key required");
    let message = format!("{error:?}");
    assert!(message.contains("environment entry '=VALUE' is missing a key"));
}

#[test]
fn config_from_value_converts_providers_in_order() {
    let mut providers = IndexMap::new();
    providers.insert(
        "codex".to_string(),
        raw_provider(Some("codex"), &["--search"], &["API_KEY = ${env:API_KEY}"]),
    );
    providers.insert("echo".to_string(), raw_provider(Some("echo"), &[], &[]));
    let config = raw_config(providers)
        .into_config(&vec!["/home/u/.codex".to_string()])
        .expect("valid config");
    let names: Vec<&String> = config.providers.keys().collect();
    assert_eq!(names, vec!["codex", "echo"]);
    let codex = &config.providers["codex"];
    assert_eq!(codex.bin, "codex");
    assert_eq!(codex.flags, vec!["--search"]);
    assert_eq!(codex.env[0].key, "API_KEY");
    assert_eq!(codex.env[0].value_template, "${env:API_KEY}");
    assert_eq!(
        codex.session_roots,
        vec!["/home/u/.codex/session", "/home/u/.codex/sessions"]
    );
    assert!(config.providers["echo"].session_roots.is_empty());
    assert_eq!(config.defaults.search_mode, SearchMode::FirstPrompt);
}

#[test]
fn config_lint_reports_missing_defaults_and_profile_references() {
    let defaults = Defaults {
        provider: Some("codex".into()),
        profile: Some("demo".into()),
        search_mode: SearchMode::FirstPrompt,
        terminal_title: None,
    };

    let snippets = SnippetConfig {
        pre: IndexMap::new(),
        post: IndexMap::new(),
    };

    let mut profiles = IndexMap::new();
    profiles.insert(
        "demo".to_string(),
        ProfileConfig {
            name: "demo".into(),
            provider: "missing-provider".into(),
            description: None,
            pre: vec!["prep".into()],
            post: vec!["cleanup".into()],
            wrap: Some("shellwrap".into()),
            prompt_assembler: None,
            prompt_assembler_args: Vec::new(),
        },
    );

    let config = Config {
        defaults,
        providers: IndexMap::new(),
        snippets,
        wrappers: IndexMap::new(),
        profiles,
        features: FeatureConfig {
            prompt_assembler: None,
        },
    };

    let diagnostics = config.lint();
    assert!(diagnostics.iter().any(|diag| {
        diag.message
            .contains("default provider 'codex' is not defined in [providers]")
    }));
    assert!(diagnostics.iter().any(|diag| {
        diag.message
            .contains("profile 'demo' references unknown provider 'missing-provider'")
    }));
    assert!(diagnostics.iter().any(|diag| {
        diag.message
            .contains("profile 'demo' references unknown pre snippet 'prep'")
    }));
    assert!(diagnostics.iter().any(|diag| {
        diag.message
            .contains("profile 'demo' references unknown post snippet 'cleanup'")
    }));
    assert!(diagnostics.iter().any(|diag| {
        diag.message
            .contains("profile 'demo' references unknown wrapper 'shellwrap'")
    }));
}

#[test]
fn search_mode_as_str_reports_variants() {
    assert_eq!(SearchMode::FirstPrompt.as_str(), "first_prompt");
    assert_eq!(SearchMode::FullText.as_str(), "full_text");
}

#[test]
fn raw_defaults_rejects_unknown_search_mode() {
    let defaults = RawDefaults {
        provider: None,
        profile: None,
        search_mode: "invalid".into(),
        terminal_title: None,
    };
    let err = defaults
        .into_defaults()
        .expect_err("unknown search mode should fail");
    assert!(err.to_string().contains("unknown search_mode 'invalid'"));
}

#[test]
fn raw_defaults_accepts_full_text() {
    let defaults = RawDefaults {
        provider: Some("codex".into()),
        profile: None,
        search_mode: " full_text ".into(),
        terminal_title: None,
    };
    let parsed = defaults.into_defaults().expect("full_text is known");
    assert_eq!(parsed.search_mode, SearchMode::FullText);
    assert_eq!(parsed.provider.as_deref(), Some("codex"));
}

#[test]
fn parse_stdin_variants_cover_success_and_errors() {
    let args = parse_stdin("codex: jq .prompt -", "codex").expect("parse args");
    assert_eq!(args, vec!["jq", ".prompt"]);

    let error = parse_stdin("other: jq .prompt", "codex").expect_err("mismatch");
    let message = format!("{error:?}");
    assert!(message.contains("stdin_to refers to provider 'other'"));
}

#[test]
fn parse_command_args_reports_invalid_syntax() {
    let error = parse_command_args("\"unterminated").expect_err("expected error");
    let message = format!("{error:?}");
    assert!(message.contains("failed to parse command line"));
}

#[test]
fn parse_command_args_splits_quoted_words() {
    let args = parse_command_args("jq '.a b' -r").expect("balanced quotes");
    assert_eq!(args, vec!["jq", ".a b", "-r"]);
}

#[test]
fn config_lint_reports_unknown_entries() {
    let config = lint_fixture_config();
    let diagnostics = config.lint();
    let messages = messages(&diagnostics);

    assert!(messages
        .iter()
        .any(|msg| msg.contains("default provider 'missing'")));
    assert!(messages
        .iter()
        .any(|msg| msg.contains("default profile 'absent-profile'")));
    assert!(messages
        .iter()
        .any(|msg| msg.contains("profile 'default' references unknown pre snippet 'setup'")));
    assert!(messages.iter().any(|msg| {
        msg.contains("profile 'default' references unknown post snippet 'teardown'")
    }));
    assert!(messages.iter().any(|msg| {
        msg.contains("profile 'default' references unknown wrapper 'missing-wrap'")
    }));
}

#[test]
fn config_lint_reports_unknown_provider_reference() {
    let mut config = lint_fixture_config();
    config.providers.clear();
    let messages: Vec<_> = config.lint().into_iter().map(|diag| diag.message).collect();
    assert!(messages
        .iter()
        .any(|msg| msg.contains("references unknown provider")));
}

#[test]
fn config_lint_is_empty_when_references_resolve() {
    let mut config = lint_fixture_config();
    config.defaults.provider = Some("codex".into());
    config.defaults.profile = Some("default".into());
    config.profiles["default"].pre.clear();
    config.profiles["default"].post.clear();
    config.profiles["default"].wrap = None;
    assert!(config.lint().is_empty());
}

#[test]
fn config_lint_levels_are_errors_for_missing_references() {
    let config = lint_fixture_config();
    let diagnostics = config.lint();
    assert!(!diagnostics.is_empty());
    assert!(diagnostics
        .iter()
        .all(|diag| diag.level == DiagnosticLevel::Error || diag.level == DiagnosticLevel::Warning));
}

#[test]
fn expand_optional_path_returns_none_for_blank_input() {
    assert_eq!(expand_optional_path("   "), None);
}

#[test]
fn expand_optional_path_keeps_plain_paths() {
    assert_eq!(
        expand_optional_path("/var/log/sessions"),
        Some("/var/log/sessions".to_string())
    );
}

#[test]
fn parse_stdin_returns_empty_for_blank_input() {
    let args = parse_stdin("   ", "codex").expect("blank is fine");
    assert!(args.is_empty());
}

#[test]
fn raw_stdin_mode_resolves_aliases() {
    let capture = RawStdinMode::parse_token("capture-arg").expect("alias");
    assert!(matches!(capture.into_mode(), StdinMode::CaptureArg));

    let pipe = RawStdinMode::parse_token("PIPE").expect("upper case");
    assert!(matches!(pipe.into_mode(), StdinMode::Pipe));
}

#[test]
fn raw_stdin_mode_rejects_unknown_value() {
    assert!(RawStdinMode::parse_token("weird").is_none());
}

#[test]
fn raw_stdin_mode_empty_token_defaults_to_pipe() {
    let mode = RawStdinMode::parse_token("").expect("empty token should parse");
    assert!(matches!(mode.into_mode(), StdinMode::Pipe));
}

#[test]
fn raw_snippets_into_snippets_maps_pre_and_post_entries() {
    let mut pre = IndexMap::new();
    pre.insert("setup".to_string(), "echo pre".to_string());
    let mut post = IndexMap::new();
    post.insert("teardown".to_string(), "echo post".to_string());
    let snippets = RawSnippets { pre, post }.into_snippets();
    assert_eq!(
        snippets
            .pre
            .get("setup")
            .map(|snippet| snippet.command.as_str()),
        Some("echo pre")
    );
    assert_eq!(
        snippets
            .post
            .get("teardown")
            .map(|snippet| snippet.command.as_str()),
        Some("echo post")
    );
}

#[test]
fn parse_env_var_parses_key_and_template() {
    let var = parse_env_var("API_KEY=${env:API_KEY}").expect("valid entry");
    assert_eq!(var.key, "API_KEY");
    assert_eq!(var.value_template, "${env:API_KEY}");
}

#[test]
fn parse_env_var_rejects_missing_equals() {
    let err = parse_env_var("MISSING").unwrap_err();
    assert!(err
        .to_string()
        .contains("environment entry 'MISSING' must be in KEY=VALUE form"));
}

#[test]
fn raw_wrapper_into_shell_mode() {
    let wrapper = RawWrapper {
        shell: Some(true),
        cmd: WrapperCommandSpec::String("echo hello".into()),
    };
    let config = wrapper.into_wrapper("shellwrap".into()).expect("shell wrapper");
    assert!(matches!(
        config.mode,
        WrapperMode::Shell { ref command } if command == "echo hello"
    ));
}

#[test]
fn raw_wrapper_into_exec_mode() {
    let wrapper = RawWrapper {
        shell: Some(false),
        cmd: WrapperCommandSpec::List(vec!["ls".into(), "-la".into()]),
    };
    let config = wrapper.into_wrapper("execwrap".into()).expect("exec wrapper");
    assert!(matches!(
        config.mode,
        WrapperMode::Exec { ref argv }
            if argv.len() == 2 && argv[0] == "ls" && argv[1] == "-la"
    ));
}

#[test]
fn raw_wrapper_into_wrapper_reports_type_mismatch() {
    let wrapper = RawWrapper {
        shell: Some(true),
        cmd: WrapperCommandSpec::List(vec!["ls".into()]),
    };
    let err = wrapper.into_wrapper("bad".into()).unwrap_err();
    assert!(err
        .to_string()
        .contains("wrapper 'bad' sets shell=true but cmd is not a string"));
}

#[test]
fn raw_wrapper_into_wrapper_reports_exec_type_mismatch() {
    let wrapper = RawWrapper {
        shell: Some(false),
        cmd: WrapperCommandSpec::String("echo hi".into()),
    };
    let err = wrapper.into_wrapper("bad-exec".into()).unwrap_err();
    assert!(err
        .to_string()
        .contains("wrapper 'bad-exec' expects cmd to be an array when shell=false"));
}

#[test]
fn raw_profile_into_profile_keeps_fields() {
    let raw = RawProfile {
        provider: "codex".into(),
        description: Some("demo".into()),
        pre: vec!["setup".into()],
        post: vec![],
        wrap: Some("tmux".into()),
        prompt_assembler: None,
        prompt_assembler_args: vec![],
    };
    let profile = raw.into_profile("demo".into());
    assert_eq!(profile.name, "demo");
    assert_eq!(profile.provider, "codex");
    assert_eq!(profile.pre, vec!["setup"]);
    assert_eq!(profile.wrap.as_deref(), Some("tmux"));
}

#[test]
fn resolve_directories_uses_env_overrides() {
    let defaults = default_directories("/home/u", None, None, None);
    let dirs = resolve_directories(
        defaults,
        None,
        Some("/tmp/c".into()),
        Some("/tmp/d".into()),
        Some("/tmp/k".into()),
    );
    assert_eq!(dirs.config_dir, "/tmp/c");
    assert_eq!(dirs.data_dir, "/tmp/d");
    assert_eq!(dirs.cache_dir, "/tmp/k");
}

#[test]
fn resolve_directories_defaults_without_env() {
    let defaults = default_directories("/home/u", None, None, None);
    let dirs = resolve_directories(defaults, None, None, None, None);
    assert_eq!(dirs.config_dir, "/home/u/.config/tx");
    assert_eq!(dirs.data_dir, "/home/u/.local/share/tx");
    assert_eq!(dirs.cache_dir, "/home/u/.cache/tx");
}

#[test]
fn resolve_directories_prefers_override_over_env() {
    let defaults = default_directories("/home/u", None, None, None);
    let dirs = resolve_directories(
        defaults,
        Some("/tmp/override".into()),
        Some("/tmp/other".into()),
        Some("/tmp/d".into()),
        None,
    );
    assert_eq!(dirs.config_dir, "/tmp/override");
    assert_eq!(dirs.data_dir, "/tmp/d");
    assert_eq!(dirs.cache_dir, "/home/u/.cache/tx");
}

#[test]
fn resolve_default_directories_uses_xdg_env() {
    let dirs = default_directories(
        "/home/u",
        Some("/xdg/config".into()),
        Some("/xdg/data".into()),
        Some("/xdg/cache".into()),
    );
    assert_eq!(dirs.config_dir, "/xdg/config/tx");
    assert_eq!(dirs.data_dir, "/xdg/data/tx");
    assert_eq!(dirs.cache_dir, "/xdg/cache/tx");
}

#[test]
fn toml_path_keeps_unix_paths() {
    assert_eq!(tool_executor::paths::toml_path("/tmp/sessions dir/x"), "/tmp/sessions dir/x");
}

#[test]
fn resolve_default_directories_prefers_project_dirs() {
    let fake = ("/tmp/config".to_string(), "/tmp/data".to_string(), "/tmp/cache".to_string());
    let resolved = resolve_default_directories_with(|| Some(fake.clone()), || unreachable!()).expect("resolved");
    assert_eq!(resolved, fake);
}

#[test]
fn resolve_default_directories_falls_back_to_base_dirs() {
    let fake = ("/tmp/base-config".to_string(), "/tmp/base-data".to_string(), "/tmp/base-cache".to_string());
    let resolved = resolve_default_directories_with(|| None, || Some(fake.clone())).expect("resolved");
    assert_eq!(resolved, fake);
}

#[test]
fn mod_resolve_default_directories_errors_without_sources() {
    let err = resolve_default_directories_with(|| None, || None).expect_err("expected error");
    assert!(err.contains("unable to resolve platform directories"));
}

#[test]
fn resolve_directories_prefers_override_argument() {
    let defaults = AppDirectories {
        config_dir: "/home/u/.config/tx".into(),
        data_dir: "/home/u/.local/share/tx".into(),
        cache_dir: "/home/u/.cache/tx".into(),
    };
    let dirs = resolve_directories(defaults, Some("/tmp/override".into()), None, None, None);
    assert_eq!(dirs.config_dir, "/tmp/override");
}

#[test]
fn expand_optional_path_keeps_text_without_variables() {
    assert_eq!(expand_optional_path("/tmp/codex home"), Some("/tmp/codex home".to_string()));
    assert_eq!(expand_optional_path("relative/dir"), Some("relative/dir".to_string()));
    assert_eq!(expand_optional_path("  "), None);
}

#[test]
fn toml_path_for_doubles_backslashes_on_windows() {
    assert_eq!(tool_executor::paths::toml_path_for(r"C:\Users\me\sessions", '\\'), r"C:\\Users\\me\\sessions");
    assert_eq!(tool_executor::paths::toml_path_for("/tmp/sessions", '/'), "/tmp/sessions");
    assert_eq!(tool_executor::paths::toml_path_for(r"a\b", '/'), r"a\b");
}

#[test]
fn codex_homes_lists_plain_codex_home_first() {
    let homes = codex_homes(Some("/srv/custom-codex"));
    assert!(!homes.is_empty());
    assert_eq!(homes[0], "/srv/custom-codex");
    assert!(homes.len() <= 2);
    let blank = codex_homes(Some("   "));
    assert!(blank.len() <= 1);
    assert!(blank.iter().all(|h| h != "   "));
}
