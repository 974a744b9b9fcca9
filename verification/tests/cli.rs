use tool_executor::cli::{
    desired_level, parse_positive_usize, parse_role, parse_since, Cli, Command, ConfigCommand,
    ConfigDefaultCommand, LogLevel, RagCommand, RagIndexCommand, RagSearchCommand, ResumeCommand,
    SearchCommand, StatsCommand,
};

fn args(items: &[&str]) -> Vec<String> {
    items.iter().map(|s| s.to_string()).collect()
}

fn into_search(command: Command) -> Option<SearchCommand> {
    if let Command::Search(cmd) = command {
        Some(cmd)
    } else {
        None
    }
}

fn into_resume(command: Command) -> Option<ResumeCommand> {
    if let Command::Resume(cmd) = command {
        Some(cmd)
    } else {
        None
    }
}

fn into_config_default(command: Command) -> Option<ConfigDefaultCommand> {
    if let Command::Config(ConfigCommand::Default(cmd)) = command {
        Some(cmd)
    } else {
        None
    }
}

fn into_rag_search(command: Command) -> Option<RagSearchCommand> {
    if let Command::Rag(RagCommand::Search(cmd)) = command {
        Some(cmd)
    } else {
        None
    }
}

#[test]
fn parse_search_with_full_text_role_and_since() {
    let cli = Cli::try_parse_from(args(&[
        "tx",
        "search",
        "--full-text",
        "--role",
        "user",
        "--since",
        "5m",
        "--limit",
        "10",
        "context",
    ]))
    .expect("parse search command");

    let cmd = cli.command.and_then(into_search).expect("search command");
    assert!(cmd.full_text);
    assert_eq!(cmd.term.as_deref(), Some("context"));
    assert_eq!(cmd.role.as_deref(), Some("user"));
    assert_eq!(cmd.since, Some(300));
    assert_eq!(cmd.limit, Some(10));
}

#[test]
fn parse_search_rejects_invalid_role() {
    let err = Cli::try_parse_from(args(&["tx", "search", "--full-text", "--role", "admin", "term"]))
        .expect_err("invalid role should fail");
    let message = err.to_string();
    assert!(message.contains("invalid role 'admin'"));
}

#[test]
fn parse_search_rejects_bad_since() {
    let err = Cli::try_parse_from(args(&["tx", "search", "--since", "later"]))
        .expect_err("invalid duration should fail");
    let message = err.to_string();
    assert!(message.contains("invalid duration 'later'"));
}

#[test]
fn parse_role_accepts_assistant() {
    let role = parse_role("assistant").expect("assistant is valid");
    assert_eq!(role, "assistant");
}

#[test]
fn parse_resume_collects_provider_args() {
    let cli = Cli::try_parse_from(args(&[
        "tx",
        "resume",
        "sess-1",
        "--emit-command",
        "--",
        "--flag",
        "value",
    ]))
    .expect("parse resume");

    let cmd = cli.command.and_then(into_resume).expect("resume command");
    assert_eq!(cmd.session_id, "sess-1");
    assert!(cmd.emit_command);
    assert_eq!(cmd.provider_args, vec!["--flag", "value"]);
}

#[test]
fn parse_config_default_raw_flag() {
    let cli = Cli::try_parse_from(args(&["tx", "config", "default", "--raw"]))
        .expect("parse config default");
    let cmd = cli
        .command
        .and_then(into_config_default)
        .expect("config default command");
    assert!(cmd.raw);
}

#[test]
fn parse_stats_codex() {
    let cli = Cli::try_parse_from(args(&["tx", "stats", "codex"])).expect("parse stats");
    assert!(cli
        .command
        .is_some_and(|command| matches!(command, Command::Stats(StatsCommand::Codex))));
}

#[test]
fn parse_rag_index_command() {
    let cli = Cli::try_parse_from(args(&[
        "tx",
        "rag",
        "index",
        "--since",
        "1000",
        "--session",
        "sess-1",
        "--reindex",
        "--batch-size",
        "32",
    ]))
    .expect("parse rag index");

    assert!(cli.command.is_some_and(|command| matches!(
        command,
        Command::Rag(RagCommand::Index(RagIndexCommand {
            since: Some(1000),
            session: Some(_),
            reindex: true,
            batch_size: 32
        }))
    )));
}

#[test]
fn parse_rag_search_command() {
    let cli = Cli::try_parse_from(args(&[
        "tx",
        "rag",
        "search",
        "--query",
        "find timeout bug",
        "--k",
        "7",
        "--session",
        "sess-2",
        "--tool",
        "event_msg",
        "--since",
        "10",
        "--until",
        "20",
        "--json",
    ]))
    .expect("parse rag search");

    let cmd = cli
        .command
        .and_then(into_rag_search)
        .expect("rag search command");
    assert_eq!(cmd.query, "find timeout bug");
    assert_eq!(cmd.k, 7);
    assert_eq!(cmd.session.as_deref(), Some("sess-2"));
    assert_eq!(cmd.tool.as_deref(), Some("event_msg"));
    assert_eq!(cmd.since, Some(10));
    assert_eq!(cmd.until, Some(20));
    assert!(cmd.json);
}

#[test]
fn parse_rag_search_rejects_zero_k() {
    let err = Cli::try_parse_from(args(&[
        "tx",
        "rag",
        "search",
        "--query",
        "find timeout bug",
        "--k",
        "0",
    ]))
    .expect_err("zero k should fail");
    let message = err.to_string();
    assert!(message.contains("must be > 0"));
}

#[test]
fn command_extractors_return_none_for_mismatch() {
    assert!(into_search(Command::Stats(StatsCommand::Codex)).is_none());
    assert!(into_resume(Command::Stats(StatsCommand::Codex)).is_none());
    assert!(into_config_default(Command::Stats(StatsCommand::Codex)).is_none());
    assert!(into_rag_search(Command::Stats(StatsCommand::Codex)).is_none());
}

#[test]
fn desired_level_handles_quiet_and_verbose() {
    let mut cli = Cli {
        config_dir: None,
        verbose: 0,
        quiet: false,
        command: None,
    };
    assert_eq!(desired_level(&cli), LogLevel::Info);

    cli.verbose = 1;
    assert_eq!(desired_level(&cli), LogLevel::Debug);

    cli.verbose = 2;
    assert_eq!(desired_level(&cli), LogLevel::Trace);

    cli.quiet = true;
    assert_eq!(desired_level(&cli), LogLevel::Error);
}

#[test]
fn parse_role_rejects_other_roles() {
    let err = parse_role("admin").expect_err("admin is not a role");
    assert!(err.contains("invalid role 'admin'"));
    assert_eq!(parse_role("user").unwrap(), "user");
}

#[test]
fn parse_positive_usize_rejects_zero_and_garbage() {
    assert_eq!(parse_positive_usize("7").unwrap(), 7);
    assert!(parse_positive_usize("0").unwrap_err().contains("must be > 0"));
    assert!(parse_positive_usize("seven").is_err());
}

#[test]
fn parse_since_accepts_units() {
    assert_eq!(parse_since("90s").unwrap(), 90);
    assert_eq!(parse_since("2h").unwrap(), 7200);
    assert_eq!(parse_since("1d").unwrap(), 86400);
    assert!(parse_since("later").unwrap_err().contains("invalid duration 'later'"));
}

#[test]
fn parse_verbose_counts_and_quiet_flag() {
    let cli = Cli::try_parse_from(args(&["tx", "-v", "-v", "stats", "codex"])).expect("parse");
    assert_eq!(cli.verbose, 2);
    assert!(!cli.quiet);
    let cli = Cli::try_parse_from(args(&["tx", "--quiet", "doctor"])).expect("parse");
    assert!(cli.quiet);
    assert!(matches!(cli.command, Some(Command::Doctor)));
}

#[test]
fn parse_without_command_yields_none() {
    let cli = Cli::try_parse_from(args(&["tx"])).expect("parse");
    assert!(cli.command.is_none());
    let cli = Cli::try_parse_from(args(&["tx", "--config-dir", "/tmp/cfg"])).expect("parse");
    assert_eq!(cli.config_dir.as_deref(), Some("/tmp/cfg"));
}

#[test]
fn parse_errors_name_what_went_wrong() {
    let message = |items: &[&str]| Cli::try_parse_from(args(items)).expect_err("refused").to_string();
    assert_eq!(
        message(&["tx", "resume"]),
        "error: the following required arguments were not provided: <SESSION_ID>"
    );
    assert_eq!(
        message(&["tx", "stats"]),
        "error: 'tx stats' requires a subcommand but one was not provided"
    );
    assert_eq!(message(&["tx", "bogus"]), "error: unrecognized subcommand 'bogus'");
    assert_eq!(message(&["tx", "config", "nope"]), "error: unrecognized subcommand 'nope'");
    assert_eq!(
        message(&["tx", "search", "--limit", "x"]),
        "error: invalid value 'x' for '--limit': invalid digit found in string"
    );
    assert_eq!(
        message(&["tx", "search", "--provider", "a", "--provider", "b"]),
        "error: the argument '--provider' cannot be used multiple times"
    );
    assert_eq!(message(&["tx", "doctor", "extra"]), "error: unexpected argument 'extra' found");
    assert_eq!(message(&["tx", "--bogus"]), "error: unexpected argument '--bogus' found");
}
