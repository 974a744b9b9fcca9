# tool_executor

`tx` launches AI code-assistant sessions from declarative pipelines, indexes
their transcripts, and resumes them. This crate is its library, verified with
Verus: the functions under `src/` are proved against their `requires`/`ensures`
contracts, except the small trusted wrappers around outside crates described
below, and `src/laws.rs` states properties of the library as a whole.

## Layout

- `src/cli.rs` – the command line: options, subcommands and their arguments.
- `src/config/` – the configuration model (`model.rs`), merging of TOML files
  (`merge.rs`), directories (`mod.rs`), and the ordered name maps (`maps.rs`).
- `src/pipeline.rs` – planning a pipeline: profiles, snippets, wrappers,
  environment templates and the shell command that results.
- `src/indexer.rs`, `src/session.rs`, `src/providers.rs` – reading session logs
  into index records, transcripts, and resume plans.
- `src/stats.rs`, `src/usage.rs` – usage statistics and token totals.
- `src/rag.rs` – chunking and checks for semantic search.
- `src/commands.rs`, `src/launch.rs`, `src/internal.rs`, `src/prompts.rs` – the
  decisions of the individual commands.
- `src/json.rs`, `src/text.rs`, `src/paths.rs`, `src/clock.rs` – values and
  helpers the rest is written over.
- `app/` – the `tx` program around the library: the terminal, files, the
  SQLite index, processes, HTTP and floating-point cost estimates.
- `tests/` – tests of the library.

Calls into outside crates (`regex`, `blake3`, `time`, `humantime`, `shlex`,
`shell-escape`, `shellexpand`, `directories`, `indexmap`, and `std::path`) go
through small trusted wrappers marked `#[verifier::external_body]`. Verus takes
their `ensures` clauses without proof; each one's doc comment says what it
claims of the outside function. Where an outside result is too involved to
state, an `uninterp spec fn` names it and the wrapper ties its result to that
name.
