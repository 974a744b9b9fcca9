//! The configuration model: providers, snippets, wrappers, profiles, features.

use vstd::prelude::*;

use crate::config::env::{home_dir, join_path, joined_path, shell_expand, starts_with_tilde, without_vars};
use crate::config::maps::{
    ProfileMap, ProviderMap, RawProfileMap, RawProviderMap, RawSnippetMap, RawWrapperMap,
    SnippetMap, WrapperMap, has_key, lookup, profile_entries, profiles_at, profiles_get,
    profiles_insert, profiles_len, profiles_new, provider_entries, providers_get,
    providers_insert, providers_new, raw_profile_entries, raw_profiles_at, raw_profiles_len,
    raw_provider_entries, raw_providers_at, raw_providers_len, raw_snippet_entries,
    raw_snippets_at, raw_snippets_len, raw_wrapper_entries, raw_wrappers_at, raw_wrappers_len,
    snippet_entries, snippets_get, snippets_insert, snippets_new, with_entry, wrapper_entries,
    map_values, lemma_map_with_entry,
    wrappers_get, wrappers_insert, wrappers_new,
};
use crate::paths::{paths_equal, same_path};
use crate::text::{
    chars_of, lower_seq, replace_all, split_once, split_once_chars, str_chars, string_of,
    string_views, to_ascii_lowercase, trim, trim_chars, views, eq_chars, replace_chars,
};

verus! {

// ---------------------------------------------------------------------------
// The model
// ---------------------------------------------------------------------------

#[derive(Debug)]
pub struct Config {
    pub defaults: Defaults,
    pub providers: ProviderMap,
    pub snippets: SnippetConfig,
    pub wrappers: WrapperMap,
    pub profiles: ProfileMap,
    pub features: FeatureConfig,
}

#[derive(Debug)]
pub struct Defaults {
    pub provider: Option<String>,
    pub profile: Option<String>,
    pub search_mode: SearchMode,
    pub terminal_title: Option<String>,
}

#[derive(Debug, Clone, Copy, PartialEq, Eq, Structural)]
pub enum SearchMode {
    FirstPrompt,
    FullText,
}

impl SearchMode {
    pub open spec fn name(self) -> Seq<char> {
        match self {
            SearchMode::FirstPrompt => "first_prompt"@,
            SearchMode::FullText => "full_text"@,
        }
    }

    pub fn as_str(self) -> (r: &'static str)
        ensures
            r@ == self.name(),
    {
        match self {
            SearchMode::FirstPrompt => "first_prompt",
            SearchMode::FullText => "full_text",
        }
    }
}

#[derive(Debug)]
pub struct ProviderConfig {
    pub name: String,
    pub bin: String,
    pub flags: Vec<String>,
    pub env: Vec<EnvVar>,
    pub session_roots: Vec<String>,
    pub stdin: Option<StdinMapping>,
}

#[derive(Debug)]
pub struct EnvVar {
    pub key: String,
    pub value_template: String,
}

#[derive(Debug)]
pub struct StdinMapping {
    pub args: Vec<String>,
    pub mode: StdinMode,
}

#[derive(Debug, Clone, Copy, PartialEq, Eq, Structural)]
pub enum StdinMode {
    Pipe,
    CaptureArg,
}

#[derive(Debug)]
pub struct SnippetConfig {
    pub pre: SnippetMap,
    pub post: SnippetMap,
}

#[derive(Debug)]
pub struct Snippet {
    pub name: String,
    pub command: String,
}

#[derive(Debug)]
pub struct WrapperConfig {
    pub name: String,
    pub mode: WrapperMode,
}

#[derive(Debug)]
pub enum WrapperMode {
    Shell { command: String },
    Exec { argv: Vec<String> },
}

#[derive(Debug)]
pub struct ProfileConfig {
    pub name: String,
    pub provider: String,
    pub description: Option<String>,
    pub pre: Vec<String>,
    pub post: Vec<String>,
    pub wrap: Option<String>,
    pub prompt_assembler: Option<String>,
    pub prompt_assembler_args: Vec<String>,
}

#[derive(Debug)]
pub struct FeatureConfig {
    pub prompt_assembler: Option<PromptAssemblerConfig>,
}

#[derive(Debug)]
pub struct PromptAssemblerConfig {
    pub namespace: String,
}

impl Clone for PromptAssemblerConfig {
    fn clone(&self) -> (r: Self)
        ensures
            r == *self,
    {
        PromptAssemblerConfig { namespace: self.namespace.clone() }
    }
}

#[derive(Debug)]
pub struct ConfigDiagnostic {
    pub level: DiagnosticLevel,
    pub message: String,
}

#[derive(Debug, Clone, Copy, PartialEq, Eq, Structural)]
pub enum DiagnosticLevel {
    Warning,
    Error,
}

/// An error raised while turning raw configuration into the model.
#[derive(Debug)]
pub struct ConfigError {
    pub message: String,
}

impl ConfigError {
    /// The message, as `Display` would show it.
    pub fn to_string(&self) -> (r: String)
        ensures
            r@ == self.message@,
    {
        self.message.clone()
    }
}

pub fn config_error(message: Vec<char>) -> (r: ConfigError)
    ensures
        r.message@ == message@,
{
    ConfigError { message: string_of(&message) }
}

// ---------------------------------------------------------------------------
// Lint
// ---------------------------------------------------------------------------

/// A diagnostic as a level and its text.
pub open spec fn diag_view(d: ConfigDiagnostic) -> (DiagnosticLevel, Seq<char>) {
    (d.level, d.message@)
}

pub open spec fn diag_views(ds: Seq<ConfigDiagnostic>) -> Seq<(DiagnosticLevel, Seq<char>)> {
    Seq::new(ds.len(), |i: int| diag_view(ds[i]))
}

/// The warnings for snippet names of a profile that the snippet table lacks.
pub open spec fn missing_snippet_diags(
    table: Seq<(Seq<char>, Snippet)>,
    profile: Seq<char>,
    names: Seq<String>,
    kind: Seq<char>,
) -> Seq<(DiagnosticLevel, Seq<char>)>
    decreases names.len(),
{
    if names.len() == 0 {
        Seq::empty()
    } else {
        let rest = missing_snippet_diags(table, profile, names.drop_last(), kind);
        let n = names.last()@;
        if has_key(table, n) {
            rest
        } else {
            rest.push(
                (
                    DiagnosticLevel::Warning,
                    "profile '"@ + profile + "' references unknown "@ + kind + " snippet '"@ + n
                        + "'"@,
                ),
            )
        }
    }
}

/// The diagnostics for one profile, in the order `lint` reports them.
pub open spec fn profile_diags(c: Config, p: ProfileConfig) -> Seq<(DiagnosticLevel, Seq<char>)> {
    let provider = if has_key(provider_entries(c.providers), p.provider@) {
        Seq::empty()
    } else {
        seq![
            (
                DiagnosticLevel::Error,
                "profile '"@ + p.name@ + "' references unknown provider '"@ + p.provider@ + "'"@,
            ),
        ]
    };
    let wrap = match p.wrap {
        Some(w) => if has_key(wrapper_entries(c.wrappers), w@) {
            Seq::empty()
        } else {
            seq![
                (
                    DiagnosticLevel::Warning,
                    "profile '"@ + p.name@ + "' references unknown wrapper '"@ + w@ + "'"@,
                ),
            ]
        },
        None => Seq::empty(),
    };
    provider + missing_snippet_diags(snippet_entries(c.snippets.pre), p.name@, p.pre@, "pre"@)
        + missing_snippet_diags(snippet_entries(c.snippets.post), p.name@, p.post@, "post"@) + wrap
}

/// The diagnostics of the profiles among `ps`, in order.
pub open spec fn profiles_diags(c: Config, ps: Seq<(Seq<char>, ProfileConfig)>) -> Seq<
    (DiagnosticLevel, Seq<char>),
>
    decreases ps.len(),
{
    if ps.len() == 0 {
        Seq::empty()
    } else {
        profiles_diags(c, ps.drop_last()) + profile_diags(c, ps.last().1)
    }
}

/// The diagnostics for the defaults.
pub open spec fn defaults_diags(c: Config) -> Seq<(DiagnosticLevel, Seq<char>)> {
    let p = match c.defaults.provider {
        Some(name) => if has_key(provider_entries(c.providers), name@) {
            Seq::empty()
        } else {
            seq![
                (
                    DiagnosticLevel::Error,
                    "default provider '"@ + name@ + "' is not defined in [providers]"@,
                ),
            ]
        },
        None => Seq::empty(),
    };
    let q = match c.defaults.profile {
        Some(name) => if has_key(profile_entries(c.profiles), name@) {
            Seq::empty()
        } else {
            seq![
                (
                    DiagnosticLevel::Error,
                    "default profile '"@ + name@ + "' is not defined in [profiles]"@,
                ),
            ]
        },
        None => Seq::empty(),
    };
    p + q
}

/// Every diagnostic `lint` reports for a configuration.
pub open spec fn lint_spec(c: Config) -> Seq<(DiagnosticLevel, Seq<char>)> {
    defaults_diags(c) + profiles_diags(c, profile_entries(c.profiles))
}

fn push_diag(out: &mut Vec<ConfigDiagnostic>, level: DiagnosticLevel, message: Vec<char>)
    ensures
        diag_views(final(out)@) == diag_views(old(out)@).push((level, message@)),
{
    out.push(ConfigDiagnostic { level, message: string_of(&message) });
    assert(diag_views(out@) =~= diag_views(old(out)@).push((level, message@)));
}

pub fn clone_strings(v: &Vec<String>) -> (r: Vec<String>)
    ensures
        string_views(r@) == string_views(v@),
        r@ == v@,
{
    let mut out: Vec<String> = Vec::new();
    let mut i: usize = 0;
    while i < v.len()
        invariant
            i <= v.len(),
            out@ == v@.subrange(0, i as int),
        decreases v.len() - i,
    {
        out.push(v[i].clone());
        i += 1;
        assert(out@ =~= v@.subrange(0, i as int));
    }
    assert(v@.subrange(0, v@.len() as int) =~= v@);
    out
}

fn quoted_msg(a: &str, x: &String, b: &str) -> (r: Vec<char>)
    ensures
        r@ == a@ + x@ + b@,
{
    let mut v = chars_of(a);
    crate::text::append_chars(&mut v, &str_chars(x));
    crate::text::append_str(&mut v, b);
    v
}

fn quoted_msg2(a: &str, x: &String, b: &str, y: &String, c: &str) -> (r: Vec<char>)
    ensures
        r@ == a@ + x@ + b@ + y@ + c@,
{
    let mut v = quoted_msg(a, x, b);
    crate::text::append_chars(&mut v, &str_chars(y));
    crate::text::append_str(&mut v, c);
    v
}

fn lint_snippets(
    out: &mut Vec<ConfigDiagnostic>,
    table: &SnippetMap,
    profile: &String,
    names: &Vec<String>,
    kind: &str,
)
    ensures
        diag_views(final(out)@) == diag_views(old(out)@) + missing_snippet_diags(
            snippet_entries(*table),
            profile@,
            names@,
            kind@,
        ),
{
    let mut i: usize = 0;
    let ghost start = diag_views(out@);
    while i < names.len()
        invariant
            i <= names.len(),
            diag_views(out@) == start + missing_snippet_diags(
                snippet_entries(*table),
                profile@,
                names@.subrange(0, i as int),
                kind@,
            ),
        decreases names.len() - i,
    {
        proof {
            assert(names@.subrange(0, i + 1).drop_last() =~= names@.subrange(0, i as int));
        }
        let found = snippets_get(table, names[i].as_str());
        if found.is_none() {
            let mut v = chars_of("profile '");
            crate::text::append_chars(&mut v, &str_chars(profile));
            crate::text::append_str(&mut v, "' references unknown ");
            crate::text::append_str(&mut v, kind);
            crate::text::append_str(&mut v, " snippet '");
            crate::text::append_chars(&mut v, &str_chars(&names[i]));
            crate::text::append_str(&mut v, "'");
            push_diag(out, DiagnosticLevel::Warning, v);
            proof {
                assert(diag_views(out@) =~= start + missing_snippet_diags(
                    snippet_entries(*table),
                    profile@,
                    names@.subrange(0, i + 1),
                    kind@,
                ));
            }
        }
        i += 1;
    }
    assert(names@.subrange(0, names@.len() as int) =~= names@);
}

impl Config {
    /// Check that every name the configuration refers to is defined.
    pub fn lint(&self) -> (r: Vec<ConfigDiagnostic>)
        ensures
            diag_views(r@) == lint_spec(*self),
    {
        let mut diags: Vec<ConfigDiagnostic> = Vec::new();
        if let Some(default_provider) = &self.defaults.provider {
            if providers_get(&self.providers, default_provider.as_str()).is_none() {
                let m = quoted_msg(
                    "default provider '",
                    default_provider,
                    "' is not defined in [providers]",
                );
                push_diag(&mut diags, DiagnosticLevel::Error, m);
            }
        }
        if let Some(default_profile) = &self.defaults.profile {
            if profiles_get(&self.profiles, default_profile.as_str()).is_none() {
                let m = quoted_msg(
                    "default profile '",
                    default_profile,
                    "' is not defined in [profiles]",
                );
                push_diag(&mut diags, DiagnosticLevel::Error, m);
            }
        }
        assert(diag_views(diags@) =~= defaults_diags(*self));
        let n = profiles_len(&self.profiles);
        let mut i: usize = 0;
        let ghost es = profile_entries(self.profiles);
        while i < n
            invariant
                i <= n,
                n == es.len(),
                es == profile_entries(self.profiles),
                diag_views(diags@) == defaults_diags(*self) + profiles_diags(
                    *self,
                    es.subrange(0, i as int),
                ),
            decreases n - i,
        {
            let (_, profile) = profiles_at(&self.profiles, i);
            let ghost before = diag_views(diags@);
            proof {
                assert(es.subrange(0, i + 1).drop_last() =~= es.subrange(0, i as int));
                assert(es.subrange(0, i + 1).last() == es[i as int]);
            }
            if providers_get(&self.providers, profile.provider.as_str()).is_none() {
                let m = quoted_msg2(
                    "profile '",
                    &profile.name,
                    "' references unknown provider '",
                    &profile.provider,
                    "'",
                );
                push_diag(&mut diags, DiagnosticLevel::Error, m);
            }
            let ghost after_provider = diag_views(diags@);
            lint_snippets(&mut diags, &self.snippets.pre, &profile.name, &profile.pre, "pre");
            lint_snippets(&mut diags, &self.snippets.post, &profile.name, &profile.post, "post");
            let ghost after_snippets = diag_views(diags@);
            if let Some(wrapper) = &profile.wrap {
                if wrappers_get(&self.wrappers, wrapper.as_str()).is_none() {
                    let m = quoted_msg2(
                        "profile '",
                        &profile.name,
                        "' references unknown wrapper '",
                        wrapper,
                        "'",
                    );
                    push_diag(&mut diags, DiagnosticLevel::Warning, m);
                }
            }
            proof {
                assert(diag_views(diags@) =~= before + profile_diags(*self, *profile));
                assert(defaults_diags(*self) + profiles_diags(*self, es.subrange(0, i + 1)) =~= before
                    + profile_diags(*self, *profile));
            }
            i += 1;
        }
        assert(es.subrange(0, n as int) =~= es);
        diags
    }
}

// ---------------------------------------------------------------------------
// Raw configuration, as decoded from TOML
// ---------------------------------------------------------------------------

/// Top-level settings as written in the file.
#[derive(Debug)]
pub struct RawDefaults {
    pub provider: Option<String>,
    pub profile: Option<String>,
    pub search_mode: String,
    pub terminal_title: Option<String>,
}

impl RawDefaults {
    pub fn default_search_mode() -> (r: String)
        ensures
            r@ == "first_prompt"@,
    {
        "first_prompt".to_owned()
    }

    /// The search mode a `search_mode` text names, once trimmed.
    pub open spec fn search_mode_of(raw: Seq<char>) -> Option<SearchMode> {
        let key = trim(raw);
        if key.len() == 0 || key == "first_prompt"@ {
            Some(SearchMode::FirstPrompt)
        } else if key == "full_text"@ {
            Some(SearchMode::FullText)
        } else {
            None
        }
    }

    pub fn into_defaults(self) -> (r: Result<Defaults, ConfigError>)
        ensures
            match r {
                Ok(d) => Self::search_mode_of(self.search_mode@) == Some(d.search_mode)
                    && d.provider == self.provider && d.profile == self.profile && d.terminal_title
                    == self.terminal_title,
                Err(e) => Self::search_mode_of(self.search_mode@) is None && e.message@ == "unknown search_mode '"@
                    + trim(self.search_mode@) + "'"@,
            },
    {
        let key = trim_chars(&str_chars(&self.search_mode));
        let first = chars_of("first_prompt");
        let full = chars_of("full_text");
        let search_mode = if key.len() == 0 || eq_chars(&key, &first) {
            SearchMode::FirstPrompt
        } else if eq_chars(&key, &full) {
            SearchMode::FullText
        } else {
            let mut m = chars_of("unknown search_mode '");
            crate::text::append_chars(&mut m, &key);
            crate::text::append_str(&mut m, "'");
            return Err(config_error(m));
        };
        Ok(Defaults {
            provider: self.provider,
            profile: self.profile,
            search_mode,
            terminal_title: self.terminal_title,
        })
    }
}

/// How a provider receives its prompt, as written in the file.
#[derive(Debug, Clone, Copy, PartialEq, Eq, Structural)]
pub enum RawStdinMode {
    Pipe,
    CaptureArg,
}

impl Default for RawStdinMode {
    fn default() -> (r: Self)
        ensures
            r == RawStdinMode::Pipe,
    {
        RawStdinMode::Pipe
    }
}

impl RawStdinMode {
    pub open spec fn mode(self) -> StdinMode {
        match self {
            RawStdinMode::Pipe => StdinMode::Pipe,
            RawStdinMode::CaptureArg => StdinMode::CaptureArg,
        }
    }

    pub fn into_mode(self) -> (r: StdinMode)
        ensures
            r == self.mode(),
    {
        match self {
            RawStdinMode::Pipe => StdinMode::Pipe,
            RawStdinMode::CaptureArg => StdinMode::CaptureArg,
        }
    }

    /// The mode a token names: empty is `pipe`; otherwise case and `-`/`_` do not
    /// matter.
    pub open spec fn token_mode(raw: Seq<char>) -> Option<RawStdinMode> {
        let normalized = replace_all(lower_seq(raw), "-"@, "_"@);
        if raw.len() == 0 {
            Some(RawStdinMode::Pipe)
        } else if normalized == "pipe"@ {
            Some(RawStdinMode::Pipe)
        } else if normalized == "capture_arg"@ {
            Some(RawStdinMode::CaptureArg)
        } else {
            None
        }
    }

    pub fn parse_token(raw: &str) -> (r: Option<RawStdinMode>)
        ensures
            r == Self::token_mode(raw@),
    {
        let chars = chars_of(raw);
        if chars.len() == 0 {
            return Some(RawStdinMode::Pipe);
        }
        let lowered = to_ascii_lowercase(&chars);
        let dash = chars_of("-");
        let under = chars_of("_");
        proof {
            reveal_strlit("-");
        }
        let normalized = replace_chars(&lowered, &dash, &under);
        if eq_chars(&normalized, &chars_of("pipe")) {
            Some(RawStdinMode::Pipe)
        } else if eq_chars(&normalized, &chars_of("capture_arg")) {
            Some(RawStdinMode::CaptureArg)
        } else {
            None
        }
    }
}

/// A provider table as written in the file.
#[derive(Debug)]
pub struct RawProvider {
    pub bin: Option<String>,
    pub flags: Vec<String>,
    pub env: Vec<String>,
    pub stdin_to: Option<String>,
    pub stdin_mode: RawStdinMode,
}

/// `shlex::split`: the words of a POSIX-shell-like command line, `None` when the
/// quoting is unbalanced.
pub uninterp spec fn shell_words(raw: Seq<char>) -> Option<Seq<Seq<char>>>;

/// Calls `shlex::split`; the contract ties the result to `shell_words`.
#[verifier::external_body]
fn shlex_split(raw: &str) -> (r: Option<Vec<String>>)
    ensures
        match r {
            Some(v) => shell_words(raw@) == Some(string_views(v@)),
            None => shell_words(raw@) is None,
        },
{
    shlex::split(raw)
}

/// `KEY=VALUE` split at the first `=`, both sides trimmed.
pub open spec fn env_var_of(raw: Seq<char>) -> Result<(Seq<char>, Seq<char>), Seq<char>> {
    match split_once(raw, '=') {
        None => Err("environment entry '"@ + raw + "' must be in KEY=VALUE form"@),
        Some((k, v)) => if trim(k).len() == 0 {
            Err("environment entry '"@ + raw + "' is missing a key"@)
        } else {
            Ok((trim(k), trim(v)))
        },
    }
}

pub fn parse_env_var(raw: &str) -> (r: Result<EnvVar, ConfigError>)
    ensures
        match r {
            Ok(e) => env_var_of(raw@) == Ok::<(Seq<char>, Seq<char>), Seq<char>>((e.key@, e.value_template@)),
            Err(e) => env_var_of(raw@) == Err::<(Seq<char>, Seq<char>), Seq<char>>(e.message@),
        },
{
    let chars = chars_of(raw);
    match split_once_chars(&chars, '=') {
        None => {
            let mut m = chars_of("environment entry '");
            crate::text::append_chars(&mut m, &chars);
            crate::text::append_str(&mut m, "' must be in KEY=VALUE form");
            Err(config_error(m))
        },
        Some((k, v)) => {
            let key = trim_chars(&k);
            if key.len() == 0 {
                let mut m = chars_of("environment entry '");
                crate::text::append_chars(&mut m, &chars);
                crate::text::append_str(&mut m, "' is missing a key");
                return Err(config_error(m));
            }
            let value = trim_chars(&v);
            Ok(EnvVar { key: string_of(&key), value_template: string_of(&value) })
        },
    }
}

/// The words of a command line (`shlex` rules).
pub open spec fn command_args_of(raw: Seq<char>) -> Result<Seq<Seq<char>>, Seq<char>> {
    match shell_words(raw) {
        Some(words) => Ok(words),
        None => Err("failed to parse command line '"@ + raw + "'"@),
    }
}

pub fn parse_command_args(raw: &str) -> (r: Result<Vec<String>, ConfigError>)
    ensures
        match r {
            Ok(v) => command_args_of(raw@) == Ok::<Seq<Seq<char>>, Seq<char>>(string_views(v@)),
            Err(e) => command_args_of(raw@) == Err::<Seq<Seq<char>>, Seq<char>>(e.message@),
        },
{
    match shlex_split(raw) {
        Some(v) => Ok(v),
        None => {
            let mut m = chars_of("failed to parse command line '");
            crate::text::append_str(&mut m, raw);
            crate::text::append_str(&mut m, "'");
            Err(config_error(m))
        },
    }
}

/// `stdin_to`: an optional `provider:` prefix (which must name this provider or be
/// blank), then a command line whose final `-` is dropped.
pub open spec fn stdin_args_of(raw: Seq<char>, provider: Seq<char>) -> Result<Seq<Seq<char>>, Seq<char>>
    decreases raw.len(),
{
    match split_once(raw, ':') {
        Some((prefix, rest)) => {
            proof {
                crate::text::lemma_first_index(raw, ':');
            }
            if trim(prefix).len() != 0 && trim(prefix) != provider {
                Err(
                    "stdin_to refers to provider '"@ + prefix + "' but is declared under provider '"@
                        + provider + "'"@,
                )
            } else {
                stdin_args_of(rest, provider)
            }
        },
        None => {
            let t = trim(raw);
            if t.len() == 0 {
                Ok(Seq::empty())
            } else {
                match command_args_of(t) {
                    Err(e) => Err(e),
                    Ok(args) => Ok(
                        if args.len() > 0 && args.last() == "-"@ {
                            args.drop_last()
                        } else {
                            args
                        },
                    ),
                }
            }
        },
    }
}

pub fn parse_stdin(raw: &str, provider: &str) -> (r: Result<Vec<String>, ConfigError>)
    ensures
        match r {
            Ok(v) => stdin_args_of(raw@, provider@) == Ok::<Seq<Seq<char>>, Seq<char>>(string_views(v@)),
            Err(e) => stdin_args_of(raw@, provider@) == Err::<Seq<Seq<char>>, Seq<char>>(e.message@),
        },
    decreases raw@.len(),
{
    let chars = chars_of(raw);
    match split_once_chars(&chars, ':') {
        Some((prefix, rest)) => {
            proof {
                crate::text::lemma_first_index(raw@, ':');
            }
            let tp = trim_chars(&prefix);
            let pv = chars_of(provider);
            if tp.len() != 0 && !eq_chars(&tp, &pv) {
                let mut m = chars_of("stdin_to refers to provider '");
                crate::text::append_chars(&mut m, &prefix);
                crate::text::append_str(&mut m, "' but is declared under provider '");
                crate::text::append_str(&mut m, provider);
                crate::text::append_str(&mut m, "'");
                return Err(config_error(m));
            }
            let rest_s = string_of(&rest);
            parse_stdin(rest_s.as_str(), provider)
        },
        None => {
            let t = trim_chars(&chars);
            if t.len() == 0 {
                let v: Vec<String> = Vec::new();
                assert(string_views(v@) =~= Seq::<Seq<char>>::empty());
                return Ok(v);
            }
            let ts = string_of(&t);
            let mut args = parse_command_args(ts.as_str())?;
            let ghost before = args@;
            if args.len() > 0 && crate::text::eq_str(&args[args.len() - 1], "-") {
                args.pop();
                assert(string_views(args@) =~= string_views(before).drop_last());
            }
            Ok(args)
        },
    }
}

// ---------------------------------------------------------------------------
// Session roots
// ---------------------------------------------------------------------------

/// A path list with `c` appended, unless the same path is already listed.
pub open spec fn push_unique(list: Seq<Seq<char>>, c: Seq<char>) -> Seq<Seq<char>> {
    if exists|i: int| 0 <= i < list.len() && same_path(#[trigger] list[i], c) {
        list
    } else {
        list.push(c)
    }
}

/// `push_unique_path`: append unless an equal path is already listed.
pub fn push_unique_path(list: &mut Vec<String>, candidate: String)
    ensures
        string_views(final(list)@) == push_unique(string_views(old(list)@), candidate@),
{
    let ghost before = string_views(list@);
    let mut i: usize = 0;
    while i < list.len()
        invariant
            i <= list.len(),
            string_views(list@) == before,
            forall|k: int| 0 <= k < i ==> !same_path(list@[k]@, candidate@),
        decreases list.len() - i,
    {
        if paths_equal(list[i].as_str(), candidate.as_str()) {
            assert(same_path(before[i as int], candidate@));
            return;
        }
        i += 1;
    }
    assert forall|k: int| 0 <= k < before.len() implies !same_path(#[trigger] before[k], candidate@) by {
        assert(before[k] == list@[k]@);
    }
    list.push(candidate);
    assert(string_views(list@) =~= before.push(candidate@));
}

/// The session directories under each home, in order: `session` then `sessions`,
/// each listed once.
pub open spec fn roots_of(homes: Seq<Seq<char>>) -> Seq<Seq<char>>
    decreases homes.len(),
{
    if homes.len() == 0 {
        Seq::empty()
    } else {
        let h = homes.last();
        push_unique(push_unique(roots_of(homes.drop_last()), joined_path(h, "session"@)), joined_path(h, "sessions"@))
    }
}

/// The session roots for a provider: for Codex, those under the given homes;
/// for any other provider, none.
pub fn infer_session_roots(provider: &str, homes: &Vec<String>) -> (r: Vec<String>)
    ensures
        provider@ == "codex"@ ==> string_views(r@) == roots_of(string_views(homes@)),
        provider@ != "codex"@ ==> r@.len() == 0,
{
    let p = chars_of(provider);
    if eq_chars(&p, &chars_of("codex")) {
        codex_session_roots(homes)
    } else {
        Vec::new()
    }
}

/// `session` and `sessions` under each home, with repeats dropped.
pub fn codex_session_roots(homes: &Vec<String>) -> (r: Vec<String>)
    ensures
        string_views(r@) == roots_of(string_views(homes@)),
{
    let mut roots: Vec<String> = Vec::new();
    let mut i: usize = 0;
    while i < homes.len()
        invariant
            i <= homes.len(),
            string_views(roots@) == roots_of(string_views(homes@).subrange(0, i as int)),
        decreases homes.len() - i,
    {
        proof {
            assert(string_views(homes@).subrange(0, i + 1).drop_last() =~= string_views(homes@).subrange(0, i as int));
        }
        let a = join_path(homes[i].as_str(), "session");
        let b = join_path(homes[i].as_str(), "sessions");
        push_unique_path(&mut roots, a);
        push_unique_path(&mut roots, b);
        i += 1;
    }
    proof {
        assert(string_views(homes@).subrange(0, homes@.len() as int) =~= string_views(homes@));
    }
    roots
}

/// The Codex homes from the expanded `$CODEX_HOME` and the home directory: the
/// first, then `.codex` under the second, each listed once.
pub open spec fn homes_of(codex_home: Option<Seq<char>>, home: Option<Seq<char>>) -> Seq<Seq<char>> {
    let first = match codex_home {
        Some(c) => push_unique(Seq::empty(), c),
        None => Seq::empty(),
    };
    match home {
        Some(h) => push_unique(first, joined_path(h, ".codex"@)),
        None => first,
    }
}

pub fn codex_homes_from(codex_home: Option<String>, home: Option<String>) -> (r: Vec<String>)
    ensures
        string_views(r@) == homes_of(opt_view(codex_home), opt_view(home)),
{
    let mut homes: Vec<String> = Vec::new();
    assert(string_views(homes@) =~= Seq::<Seq<char>>::empty());
    if let Some(path) = codex_home {
        push_unique_path(&mut homes, path);
    }
    if let Some(h) = home {
        let codex = join_path(h.as_str(), ".codex");
        push_unique_path(&mut homes, codex);
    }
    homes
}

/// `CODEX_HOME` is set, not blank, and names no variable: its expansion
/// cannot fail.
pub open spec fn expands(codex_home: Option<&str>) -> bool {
    codex_home matches Some(h) && trim(h@).len() > 0 && without_vars(h@)
}

/// `CODEX_HOME` also does not start with `~`: it expands to itself.
pub open spec fn kept_as_is(codex_home: Option<&str>) -> bool {
    expands(codex_home) && !starts_with_tilde(codex_home.unwrap()@)
}

/// The Codex homes: `$CODEX_HOME` expanded (when set and not blank), then
/// `~/.codex`, each listed once. The value of `CODEX_HOME` is read by the caller;
/// the expansion and the home directory depend on the environment.
pub fn codex_homes(codex_home: Option<&str>) -> (r: Vec<String>)
    ensures
        r@.len() <= 2,
        (codex_home matches Some(h) ==> trim(h@).len() == 0) ==> r@.len() <= 1,
        exists|expanded: Option<Seq<char>>, home: Option<Seq<char>>|
            #![trigger homes_of(expanded, home)]
            {
                &&& string_views(r@) == homes_of(expanded, home)
                &&& (codex_home matches Some(h) ==> trim(h@).len() == 0) ==> expanded is None
                &&& expands(codex_home) ==> expanded is Some
                &&& kept_as_is(codex_home) ==> expanded == Some(codex_home.unwrap()@)
            },
        kept_as_is(codex_home) ==> r@.len() >= 1 && r@[0]@ == codex_home.unwrap()@,
{
    let expanded = match codex_home {
        Some(raw) => expand_optional_path(raw),
        None => None,
    };
    let home = home_dir();
    let homes = codex_homes_from(expanded, home);
    proof {
        assert(homes@.len() == string_views(homes@).len());
        assert(string_views(homes@) == homes_of(opt_view(expanded), opt_view(home)));
        if kept_as_is(codex_home) {
            let h = codex_home.unwrap();
            {
                assert(opt_view(expanded) == Some(h@));
                let first = push_unique(Seq::<Seq<char>>::empty(), h@);
                assert(first =~= seq![h@]);
                lemma_push_unique_front(first, opt_view(home));
                assert(string_views(homes@)[0] == homes@[0]@);
            }
        }
    }
    homes
}

/// Adding a home after the first keeps the first in front.
proof fn lemma_push_unique_front(first: Seq<Seq<char>>, home: Option<Seq<char>>)
    requires
        first.len() >= 1,
    ensures
        (match home {
            Some(h) => push_unique(first, joined_path(h, ".codex"@)),
            None => first,
        }).len() >= 1,
        (match home {
            Some(h) => push_unique(first, joined_path(h, ".codex"@)),
            None => first,
        })[0] == first[0],
{
}

/// `None` for blank text, else the shell expansion when it succeeds: text
/// without `$` always expands, and comes back unchanged when it also does not
/// start with `~`.
pub fn expand_optional_path(raw: &str) -> (r: Option<String>)
    ensures
        trim(raw@).len() == 0 ==> r is None,
        trim(raw@).len() > 0 && without_vars(raw@) ==> r is Some,
        trim(raw@).len() > 0 && without_vars(raw@) && !starts_with_tilde(raw@) ==> (r matches Some(s) && s@ == raw@),
{
    let t = trim_chars(&chars_of(raw));
    if t.len() == 0 {
        return None;
    }
    shell_expand(raw)
}

// ---------------------------------------------------------------------------
// Raw tables and their conversion
// ---------------------------------------------------------------------------

/// Whether a provider's prompt handling needs a stdin mapping.
pub open spec fn provider_view_ok(raw: RawProvider, name: Seq<char>, homes: Seq<Seq<char>>, p: ProviderConfig) -> bool {
    &&& p.name@ == name
    &&& raw.bin matches Some(b) && p.bin@ == b@
    &&& string_views(p.flags@) == string_views(raw.flags@)
    &&& stdin_args_of_opt(raw.stdin_to, name) matches Ok(args) && match p.stdin {
        Some(m) => (raw.stdin_to is Some || raw.stdin_mode.mode() != StdinMode::Pipe) && m.mode
            == raw.stdin_mode.mode() && string_views(m.args@) == args,
        None => raw.stdin_to is None && raw.stdin_mode.mode() == StdinMode::Pipe,
    }
    &&& env_vars_of(raw.env@) matches Ok(vars) && env_views(p.env@) == vars
    &&& (name == "codex"@ ==> string_views(p.session_roots@) == roots_of(homes))
    &&& (name != "codex"@ ==> p.session_roots@.len() == 0)
}

pub open spec fn stdin_args_of_opt(raw: Option<String>, name: Seq<char>) -> Result<Seq<Seq<char>>, Seq<char>> {
    match raw {
        Some(r) => stdin_args_of(r@, name),
        None => Ok(Seq::empty()),
    }
}

pub open spec fn env_views(vs: Seq<EnvVar>) -> Seq<(Seq<char>, Seq<char>)> {
    Seq::new(vs.len(), |i: int| (vs[i].key@, vs[i].value_template@))
}

/// All `KEY=VALUE` entries parsed, or the first entry's error.
pub open spec fn env_vars_of(raw: Seq<String>) -> Result<Seq<(Seq<char>, Seq<char>)>, Seq<char>>
    decreases raw.len(),
{
    if raw.len() == 0 {
        Ok(Seq::empty())
    } else {
        match env_vars_of(raw.drop_last()) {
            Err(e) => Err(e),
            Ok(vs) => match env_var_of(raw.last()@) {
                Err(e) => Err(e),
                Ok(v) => Ok(vs.push(v)),
            },
        }
    }
}

/// The error converting a provider table, if any: a missing `bin`, then a bad
/// `stdin_to`, then the first bad `env` entry.
pub open spec fn provider_error(raw: RawProvider, name: Seq<char>) -> Option<Seq<char>> {
    if raw.bin is None {
        Some("provider '"@ + name + "' is missing required field 'bin'"@)
    } else if stdin_args_of_opt(raw.stdin_to, name) is Err {
        Some(stdin_args_of_opt(raw.stdin_to, name)->Err_0)
    } else if env_vars_of(raw.env@) is Err {
        Some(env_vars_of(raw.env@)->Err_0)
    } else {
        None
    }
}

impl RawProvider {
    #[verifier::loop_isolation(false)]
    pub fn into_provider(&self, name: String, homes: &Vec<String>) -> (r: Result<ProviderConfig, ConfigError>)
        ensures
            match r {
                Ok(p) => provider_error(*self, name@) is None && provider_view_ok(*self, name@, string_views(homes@), p),
                Err(e) => provider_error(*self, name@) == Some(e.message@),
            },
    {
        let bin = match &self.bin {
            Some(b) => b.clone(),
            None => {
                let m = quoted_msg("provider '", &name, "' is missing required field 'bin'");
                return Err(config_error(m));
            },
        };
        let session_roots = infer_session_roots(name.as_str(), homes);
        let stdin_mode = self.stdin_mode.into_mode();
        let stdin_args = match &self.stdin_to {
            Some(raw) => parse_stdin(raw.as_str(), name.as_str())?,
            None => {
                let v: Vec<String> = Vec::new();
                assert(string_views(v@) =~= Seq::<Seq<char>>::empty());
                v
            },
        };
        let stdin = if self.stdin_to.is_some() || stdin_mode != StdinMode::Pipe {
            Some(StdinMapping { args: stdin_args, mode: stdin_mode })
        } else {
            None
        };
        let mut env: Vec<EnvVar> = Vec::new();
        let mut i: usize = 0;
        assert(self.env@.subrange(0, 0) =~= Seq::<String>::empty());
        assert(env_views(env@) =~= Seq::<(Seq<char>, Seq<char>)>::empty());
        while i < self.env.len()
            invariant
                i <= self.env.len(),
                env_vars_of(self.env@.subrange(0, i as int)) == Ok::<Seq<(Seq<char>, Seq<char>)>, Seq<char>>(env_views(env@)),
            decreases self.env.len() - i,
        {
            proof {
                assert(self.env@.subrange(0, i + 1).drop_last() =~= self.env@.subrange(0, i as int));
            }
            match parse_env_var(self.env[i].as_str()) {
                Ok(v) => {
                    let ghost before = env@;
                    env.push(v);
                    assert(env_views(env@) =~= env_views(before).push((v.key@, v.value_template@)));
                    assert(self.env@.subrange(0, i + 1).last() == self.env@[i as int]);
                },
                Err(e) => {
                    proof {
                        lemma_env_vars_err_extends(self.env@, i as int);
                    }
                    return Err(e);
                },
            }
            i += 1;
        }
        assert(self.env@.subrange(0, self.env@.len() as int) =~= self.env@);
        Ok(ProviderConfig { name, bin, flags: clone_strings(&self.flags), env, session_roots, stdin })
    }
}

/// An error on an entry stays the error of every longer list.
proof fn lemma_env_vars_err_extends(raw: Seq<String>, i: int)
    requires
        0 <= i < raw.len(),
        env_vars_of(raw.subrange(0, i)) is Ok,
        env_var_of(raw[i]@) is Err,
    ensures
        env_vars_of(raw) == Err::<Seq<(Seq<char>, Seq<char>)>, Seq<char>>(env_var_of(raw[i]@)->Err_0),
    decreases raw.len() - i,
{
    assert(raw.subrange(0, i + 1).drop_last() =~= raw.subrange(0, i));
    lemma_env_vars_err_prefix(raw, i + 1);
}

/// Once a prefix errs, every extension errs the same way.
proof fn lemma_env_vars_err_prefix(raw: Seq<String>, n: int)
    requires
        0 <= n <= raw.len(),
        env_vars_of(raw.subrange(0, n)) is Err,
    ensures
        env_vars_of(raw) == env_vars_of(raw.subrange(0, n)),
    decreases raw.len() - n,
{
    if n < raw.len() {
        assert(raw.subrange(0, n + 1).drop_last() =~= raw.subrange(0, n));
        lemma_env_vars_err_prefix(raw, n + 1);
    } else {
        assert(raw.subrange(0, n) =~= raw);
    }
}

/// Snippet tables as written in the file: name to command.
#[derive(Debug)]
pub struct RawSnippets {
    pub pre: RawSnippetMap,
    pub post: RawSnippetMap,
}

pub open spec fn snippet_view(s: Snippet) -> (Seq<char>, Seq<char>) {
    (s.name@, s.command@)
}

/// The snippet table built from raw `name = command` entries: each name maps to
/// the snippet of that name and command.
pub open spec fn snippets_from(es: Seq<(Seq<char>, String)>) -> Seq<(Seq<char>, (Seq<char>, Seq<char>))>
    decreases es.len(),
{
    if es.len() == 0 {
        Seq::empty()
    } else {
        let (k, c) = es.last();
        with_entry(snippets_from(es.drop_last()), k, (k, c@))
    }
}

fn convert_snippets(raw: &RawSnippetMap) -> (r: SnippetMap)
    ensures
        map_values(snippet_entries(r), |s: Snippet| snippet_view(s)) == snippets_from(raw_snippet_entries(*raw)),
{
    let mut out = snippets_new();
    let n = raw_snippets_len(raw);
    let mut i: usize = 0;
    let ghost es = raw_snippet_entries(*raw);
    let ghost f = |s: Snippet| snippet_view(s);
    assert(map_values(snippet_entries(out), f) =~= snippets_from(es.subrange(0, 0)));
    while i < n
        invariant
            i <= n,
            n == es.len(),
            es == raw_snippet_entries(*raw),
            f == (|s: Snippet| snippet_view(s)),
            map_values(snippet_entries(out), f) == snippets_from(es.subrange(0, i as int)),
        decreases n - i,
    {
        let (k, c) = raw_snippets_at(raw, i);
        let snippet = Snippet { name: k.clone(), command: c.clone() };
        proof {
            assert(es.subrange(0, i + 1).drop_last() =~= es.subrange(0, i as int));
            assert(es.subrange(0, i + 1).last() == es[i as int]);
            lemma_map_with_entry(snippet_entries(out), f, k@, snippet);
        }
        snippets_insert(&mut out, k.clone(), snippet);
        i += 1;
    }
    assert(es.subrange(0, n as int) =~= es);
    out
}

impl RawSnippets {
    pub fn into_snippets(&self) -> (r: SnippetConfig)
        ensures
            map_values(snippet_entries(r.pre), |s: Snippet| snippet_view(s)) == snippets_from(raw_snippet_entries(self.pre)),
            map_values(snippet_entries(r.post), |s: Snippet| snippet_view(s)) == snippets_from(raw_snippet_entries(self.post)),
    {
        SnippetConfig { pre: convert_snippets(&self.pre), post: convert_snippets(&self.post) }
    }
}

/// A wrapper's `cmd`: one shell string or an argument vector.
#[derive(Debug)]
pub enum WrapperCommandSpec {
    String(String),
    List(Vec<String>),
}

/// A wrapper table as written in the file.
#[derive(Debug)]
pub struct RawWrapper {
    pub shell: Option<bool>,
    pub cmd: WrapperCommandSpec,
}

/// A wrapper mode as text: `(true, [command])` for a shell wrapper, `(false, argv)`
/// for an exec wrapper.
pub open spec fn mode_view(m: WrapperMode) -> (bool, Seq<Seq<char>>) {
    match m {
        WrapperMode::Shell { command } => (true, seq![command@]),
        WrapperMode::Exec { argv } => (false, string_views(argv@)),
    }
}

pub open spec fn wrapper_view(w: WrapperConfig) -> (Seq<char>, (bool, Seq<Seq<char>>)) {
    (w.name@, mode_view(w.mode))
}

/// The wrapper a raw table describes: `shell = true` needs a string `cmd`,
/// otherwise `cmd` must be a list.
pub open spec fn wrapper_of(raw: RawWrapper, name: Seq<char>) -> Result<(Seq<char>, (bool, Seq<Seq<char>>)), Seq<char>> {
    let shell = match raw.shell {
        Some(b) => b,
        None => false,
    };
    if shell {
        match raw.cmd {
            WrapperCommandSpec::String(c) => Ok((name, (true, seq![c@]))),
            WrapperCommandSpec::List(_) => Err("wrapper '"@ + name + "' sets shell=true but cmd is not a string"@),
        }
    } else {
        match raw.cmd {
            WrapperCommandSpec::List(v) => Ok((name, (false, string_views(v@)))),
            WrapperCommandSpec::String(_) => Err("wrapper '"@ + name + "' expects cmd to be an array when shell=false"@),
        }
    }
}

impl RawWrapper {
    pub fn into_wrapper(&self, name: String) -> (r: Result<WrapperConfig, ConfigError>)
        ensures
            match r {
                Ok(w) => wrapper_of(*self, name@) == Ok::<(Seq<char>, (bool, Seq<Seq<char>>)), Seq<char>>(wrapper_view(w)),
                Err(e) => wrapper_of(*self, name@) == Err::<(Seq<char>, (bool, Seq<Seq<char>>)), Seq<char>>(e.message@),
            },
    {
        let shell = match self.shell {
            Some(b) => b,
            None => false,
        };
        let mode = if shell {
            match &self.cmd {
                WrapperCommandSpec::String(value) => WrapperMode::Shell { command: value.clone() },
                WrapperCommandSpec::List(_) => {
                    let m = quoted_msg("wrapper '", &name, "' sets shell=true but cmd is not a string");
                    return Err(config_error(m));
                },
            }
        } else {
            match &self.cmd {
                WrapperCommandSpec::List(values) => WrapperMode::Exec { argv: clone_strings(values) },
                WrapperCommandSpec::String(_) => {
                    let m = quoted_msg("wrapper '", &name, "' expects cmd to be an array when shell=false");
                    return Err(config_error(m));
                },
            }
        };
        Ok(WrapperConfig { name, mode })
    }
}

/// A profile table as written in the file.
#[derive(Debug)]
pub struct RawProfile {
    pub provider: String,
    pub description: Option<String>,
    pub pre: Vec<String>,
    pub post: Vec<String>,
    pub wrap: Option<String>,
    pub prompt_assembler: Option<String>,
    pub prompt_assembler_args: Vec<String>,
}

/// Trimmed text, dropped when blank.
pub open spec fn nonblank(o: Option<String>) -> Option<Seq<char>> {
    match o {
        Some(s) => if trim(s@).len() > 0 {
            Some(trim(s@))
        } else {
            None
        },
        None => None,
    }
}

pub open spec fn opt_view(o: Option<String>) -> Option<Seq<char>> {
    match o {
        Some(s) => Some(s@),
        None => None,
    }
}

fn trimmed_nonblank(o: Option<String>) -> (r: Option<String>)
    ensures
        opt_view(r) == nonblank(o),
{
    match o {
        Some(s) => {
            let t = trim_chars(&str_chars(&s));
            if t.len() > 0 {
                Some(string_of(&t))
            } else {
                None
            }
        },
        None => None,
    }
}

impl RawProfile {
    pub fn into_profile(&self, name: String) -> (r: ProfileConfig)
        ensures
            r.name@ == name@,
            r.provider@ == self.provider@,
            opt_view(r.description) == nonblank(self.description),
            string_views(r.pre@) == string_views(self.pre@),
            string_views(r.post@) == string_views(self.post@),
            opt_view(r.wrap) == opt_view(self.wrap),
            opt_view(r.prompt_assembler) == nonblank(self.prompt_assembler),
            string_views(r.prompt_assembler_args@) == string_views(self.prompt_assembler_args@),
    {
        ProfileConfig {
            name,
            provider: self.provider.clone(),
            description: trimmed_nonblank(crate::session::clone_opt_string(&self.description)),
            pre: clone_strings(&self.pre),
            post: clone_strings(&self.post),
            wrap: crate::session::clone_opt_string(&self.wrap),
            prompt_assembler: trimmed_nonblank(crate::session::clone_opt_string(&self.prompt_assembler)),
            prompt_assembler_args: clone_strings(&self.prompt_assembler_args),
        }
    }
}

/// `[features]` as written in the file.
#[derive(Debug)]
pub struct RawFeatures {
    pub pa: Option<RawPromptAssembler>,
}

/// `[features.pa]` as written in the file.
#[derive(Debug)]
pub struct RawPromptAssembler {
    pub enabled: Option<bool>,
    pub namespace: String,
}

impl RawPromptAssembler {
    pub fn default_namespace() -> (r: String)
        ensures
            r@ == "pa"@,
    {
        "pa".to_owned()
    }

    pub fn into_config(self) -> (r: PromptAssemblerConfig)
        ensures
            r.namespace == self.namespace,
    {
        PromptAssemblerConfig { namespace: self.namespace }
    }
}

impl RawFeatures {
    /// The prompt assembler is on only when `[features.pa]` sets `enabled = true`.
    pub fn into_features(self) -> (r: FeatureConfig)
        ensures
            match self.pa {
                Some(raw) => if raw.enabled == Some(true) {
                    r.prompt_assembler == Some(PromptAssemblerConfig { namespace: raw.namespace })
                } else {
                    r.prompt_assembler is None
                },
                None => r.prompt_assembler is None,
            },
    {
        let prompt_assembler = match self.pa {
            Some(raw) => {
                match raw.enabled {
                    Some(true) => Some(raw.into_config()),
                    _ => None,
                }
            },
            None => None,
        };
        FeatureConfig { prompt_assembler }
    }
}


// ---------------------------------------------------------------------------
// The whole file
// ---------------------------------------------------------------------------

/// The configuration as decoded from the merged TOML tables.
#[derive(Debug)]
pub struct RawConfig {
    pub defaults: RawDefaults,
    pub providers: RawProviderMap,
    pub snippets: RawSnippets,
    pub wrappers: RawWrapperMap,
    pub profiles: RawProfileMap,
    pub features: RawFeatures,
}

/// The first provider table (in file order) that does not convert, as its error.
pub open spec fn providers_error(es: Seq<(Seq<char>, RawProvider)>) -> Option<Seq<char>>
    decreases es.len(),
{
    if es.len() == 0 {
        None
    } else {
        match providers_error(es.drop_last()) {
            Some(e) => Some(e),
            None => provider_error(es.last().1, es.last().0),
        }
    }
}

/// The first wrapper table (in file order) that does not convert, as its error.
pub open spec fn wrappers_error(es: Seq<(Seq<char>, RawWrapper)>) -> Option<Seq<char>>
    decreases es.len(),
{
    if es.len() == 0 {
        None
    } else {
        match wrappers_error(es.drop_last()) {
            Some(e) => Some(e),
            None => match wrapper_of(es.last().1, es.last().0) {
                Err(e) => Some(e),
                Ok(_) => None,
            },
        }
    }
}

/// What `into_profile` states of a converted profile.
pub open spec fn profile_view_ok(raw: RawProfile, name: Seq<char>, p: ProfileConfig) -> bool {
    &&& p.name@ == name
    &&& p.provider@ == raw.provider@
    &&& opt_view(p.description) == nonblank(raw.description)
    &&& string_views(p.pre@) == string_views(raw.pre@)
    &&& string_views(p.post@) == string_views(raw.post@)
    &&& opt_view(p.wrap) == opt_view(raw.wrap)
    &&& opt_view(p.prompt_assembler) == nonblank(raw.prompt_assembler)
    &&& string_views(p.prompt_assembler_args@) == string_views(raw.prompt_assembler_args@)
}

pub open spec fn wrapper_view_ok(raw: RawWrapper, name: Seq<char>, w: WrapperConfig) -> bool {
    wrapper_of(raw, name) == Ok::<(Seq<char>, (bool, Seq<Seq<char>>)), Seq<char>>(wrapper_view(w))
}

/// `out` has exactly the keys of the first `n` entries of `raw`, and each of its
/// values stands in `rel` to a raw entry of the same key.
pub open spec fn drawn_from<V, W>(
    out: Seq<(Seq<char>, W)>,
    raw: Seq<(Seq<char>, V)>,
    n: int,
    rel: spec_fn(V, Seq<char>, W) -> bool,
) -> bool {
    &&& forall|k: Seq<char>| #[trigger] has_key(out, k) <==> exists|j: int| 0 <= j < n && #[trigger] raw[j].0 == k
    &&& forall|i: int| 0 <= i < out.len() ==> exists|j: int| 0 <= j < n && #[trigger] raw[j].0 == #[trigger] out[i].0 && rel(raw[j].1, raw[j].0, out[i].1)
}

proof fn lemma_drawn_insert<V, W>(
    out: Seq<(Seq<char>, W)>,
    raw: Seq<(Seq<char>, V)>,
    n: int,
    rel: spec_fn(V, Seq<char>, W) -> bool,
    w: W,
)
    requires
        0 <= n < raw.len(),
        drawn_from(out, raw, n, rel),
        rel(raw[n].1, raw[n].0, w),
    ensures
        drawn_from(crate::config::maps::with_entry(out, raw[n].0, w), raw, n + 1, rel),
{
    let k = raw[n].0;
    let r = crate::config::maps::with_entry(out, k, w);
    crate::config::maps::lemma_key_index(out, k);
    assert forall|q: Seq<char>| has_key(r, q) <==> exists|j: int| 0 <= j < n + 1 && #[trigger] raw[j].0 == q by {
        crate::config::maps::lemma_with_entry_keys(out, k, w, q);
        if q == k {
            assert(raw[n].0 == q);
        }
        if exists|j: int| 0 <= j < n + 1 && #[trigger] raw[j].0 == q {
            let j = choose|j: int| 0 <= j < n + 1 && #[trigger] raw[j].0 == q;
            if j < n {
                assert(exists|j: int| 0 <= j < n && #[trigger] raw[j].0 == q);
            }
        }
    }
    assert forall|i: int| #![trigger r[i]] 0 <= i < r.len() implies exists|j: int| 0 <= j < n + 1 && #[trigger] raw[j].0 == r[i].0 && rel(raw[j].1, raw[j].0, r[i].1) by {
        if r[i] == (k, w) {
            assert(raw[n].0 == r[i].0 && rel(raw[n].1, raw[n].0, r[i].1));
        } else {
            assert(i < out.len() && r[i] == out[i]);
            let j = choose|j: int| 0 <= j < n && #[trigger] raw[j].0 == out[i].0 && rel(raw[j].1, raw[j].0, out[i].1);
            assert(raw[j].0 == r[i].0);
        }
    }
}

proof fn lemma_drawn_empty<V, W>(raw: Seq<(Seq<char>, V)>, rel: spec_fn(V, Seq<char>, W) -> bool)
    ensures
        drawn_from(Seq::<(Seq<char>, W)>::empty(), raw, 0, rel),
{
    assert forall|k: Seq<char>| !has_key(Seq::<(Seq<char>, W)>::empty(), k) by {
        crate::config::maps::lemma_key_index(Seq::<(Seq<char>, W)>::empty(), k);
    }
}

impl RawConfig {
    /// Convert the decoded tables: the defaults first, then each provider and each
    /// wrapper in file order; the first that does not convert gives the error.
    #[verifier::loop_isolation(false)]
    pub fn into_config(self, homes: &Vec<String>) -> (r: Result<Config, ConfigError>)
        ensures
            match r {
                Ok(c) => {
                    &&& RawDefaults::search_mode_of(self.defaults.search_mode@) == Some(c.defaults.search_mode)
                    &&& c.defaults.provider == self.defaults.provider
                    &&& c.defaults.profile == self.defaults.profile
                    &&& c.defaults.terminal_title == self.defaults.terminal_title
                    &&& providers_error(raw_provider_entries(self.providers)) is None
                    &&& wrappers_error(raw_wrapper_entries(self.wrappers)) is None
                    &&& drawn_from(provider_entries(c.providers), raw_provider_entries(self.providers),
                        raw_provider_entries(self.providers).len() as int,
                        |raw: RawProvider, name: Seq<char>, p: ProviderConfig| provider_view_ok(raw, name, string_views(homes@), p))
                    &&& drawn_from(wrapper_entries(c.wrappers), raw_wrapper_entries(self.wrappers),
                        raw_wrapper_entries(self.wrappers).len() as int,
                        |raw: RawWrapper, name: Seq<char>, w: WrapperConfig| wrapper_view_ok(raw, name, w))
                    &&& drawn_from(profile_entries(c.profiles), raw_profile_entries(self.profiles),
                        raw_profile_entries(self.profiles).len() as int,
                        |raw: RawProfile, name: Seq<char>, p: ProfileConfig| profile_view_ok(raw, name, p))
                    &&& map_values(snippet_entries(c.snippets.pre), |s: Snippet| snippet_view(s)) == snippets_from(raw_snippet_entries(self.snippets.pre))
                    &&& map_values(snippet_entries(c.snippets.post), |s: Snippet| snippet_view(s)) == snippets_from(raw_snippet_entries(self.snippets.post))
                },
                Err(e) => if RawDefaults::search_mode_of(self.defaults.search_mode@) is None {
                    e.message@ == "unknown search_mode '"@ + trim(self.defaults.search_mode@) + "'"@
                } else if providers_error(raw_provider_entries(self.providers)) is Some {
                    providers_error(raw_provider_entries(self.providers)) == Some(e.message@)
                } else {
                    wrappers_error(raw_wrapper_entries(self.wrappers)) == Some(e.message@)
                },
            },
    {
        let ghost praw = raw_provider_entries(self.providers);
        let ghost wraw = raw_wrapper_entries(self.wrappers);
        let ghost fraw = raw_profile_entries(self.profiles);
        let ghost prel = |raw: RawProvider, name: Seq<char>, p: ProviderConfig| provider_view_ok(raw, name, string_views(homes@), p);
        let ghost wrel = |raw: RawWrapper, name: Seq<char>, w: WrapperConfig| wrapper_view_ok(raw, name, w);
        let ghost frel = |raw: RawProfile, name: Seq<char>, p: ProfileConfig| profile_view_ok(raw, name, p);
        let defaults = self.defaults.into_defaults()?;

        let mut providers = providers_new();
        proof { lemma_drawn_empty(praw, prel); }
        let n = raw_providers_len(&self.providers);
        let mut i: usize = 0;
        while i < n
            invariant
                n == praw.len(),
                praw == raw_provider_entries(self.providers),
                i <= n,
                providers_error(praw.subrange(0, i as int)) is None,
                drawn_from(provider_entries(providers), praw, i as int, prel),
            decreases n - i,
        {
            let (name, raw) = raw_providers_at(&self.providers, i);
            proof {
                assert(praw.subrange(0, i + 1).drop_last() =~= praw.subrange(0, i as int));
            }
            let key = name.clone();
            match raw.into_provider(key, homes) {
                Ok(p) => {
                    proof {
                        assert(prel(praw[i as int].1, praw[i as int].0, p));
                        lemma_drawn_insert(provider_entries(providers), praw, i as int, prel, p);
                    }
                    providers_insert(&mut providers, name.clone(), p);
                },
                Err(e) => {
                    proof { lemma_providers_error_prefix(praw, i as int + 1); }
                    return Err(e);
                },
            }
            i += 1;
        }
        proof { assert(praw.subrange(0, n as int) =~= praw); }

        let snippets = self.snippets.into_snippets();

        let mut wrappers = wrappers_new();
        proof { lemma_drawn_empty(wraw, wrel); }
        let n = raw_wrappers_len(&self.wrappers);
        let mut i: usize = 0;
        while i < n
            invariant
                n == wraw.len(),
                wraw == raw_wrapper_entries(self.wrappers),
                i <= n,
                wrappers_error(wraw.subrange(0, i as int)) is None,
                drawn_from(wrapper_entries(wrappers), wraw, i as int, wrel),
            decreases n - i,
        {
            let (name, raw) = raw_wrappers_at(&self.wrappers, i);
            proof {
                assert(wraw.subrange(0, i + 1).drop_last() =~= wraw.subrange(0, i as int));
            }
            let key = name.clone();
            match raw.into_wrapper(key) {
                Ok(w) => {
                    proof {
                        assert(wrel(wraw[i as int].1, wraw[i as int].0, w));
                        lemma_drawn_insert(wrapper_entries(wrappers), wraw, i as int, wrel, w);
                    }
                    wrappers_insert(&mut wrappers, name.clone(), w);
                },
                Err(e) => {
                    proof { lemma_wrappers_error_prefix(wraw, i as int + 1); }
                    return Err(e);
                },
            }
            i += 1;
        }
        proof { assert(wraw.subrange(0, n as int) =~= wraw); }

        let mut profiles = profiles_new();
        proof { lemma_drawn_empty(fraw, frel); }
        let n = raw_profiles_len(&self.profiles);
        let mut i: usize = 0;
        while i < n
            invariant
                n == fraw.len(),
                fraw == raw_profile_entries(self.profiles),
                i <= n,
                drawn_from(profile_entries(profiles), fraw, i as int, frel),
            decreases n - i,
        {
            let (name, raw) = raw_profiles_at(&self.profiles, i);
            let key = name.clone();
            let p = raw.into_profile(key);
            proof {
                assert(frel(fraw[i as int].1, fraw[i as int].0, p));
                lemma_drawn_insert(profile_entries(profiles), fraw, i as int, frel, p);
            }
            profiles_insert(&mut profiles, name.clone(), p);
            i += 1;
        }

        let features = self.features.into_features();
        Ok(Config { defaults, providers, snippets, wrappers, profiles, features })
    }
}

/// Once a prefix of the provider tables has an error, the whole list has it.
proof fn lemma_providers_error_prefix(es: Seq<(Seq<char>, RawProvider)>, n: int)
    requires
        0 <= n <= es.len(),
        providers_error(es.subrange(0, n)) is Some,
    ensures
        providers_error(es) == providers_error(es.subrange(0, n)),
    decreases es.len() - n,
{
    if n < es.len() {
        assert(es.subrange(0, n + 1).drop_last() =~= es.subrange(0, n));
        lemma_providers_error_prefix(es, n + 1);
    } else {
        assert(es.subrange(0, n) =~= es);
    }
}

/// Once a prefix of the wrapper tables has an error, the whole list has it.
proof fn lemma_wrappers_error_prefix(es: Seq<(Seq<char>, RawWrapper)>, n: int)
    requires
        0 <= n <= es.len(),
        wrappers_error(es.subrange(0, n)) is Some,
    ensures
        wrappers_error(es) == wrappers_error(es.subrange(0, n)),
    decreases es.len() - n,
{
    if n < es.len() {
        assert(es.subrange(0, n + 1).drop_last() =~= es.subrange(0, n));
        lemma_wrappers_error_prefix(es, n + 1);
    } else {
        assert(es.subrange(0, n) =~= es);
    }
}

} // verus!
