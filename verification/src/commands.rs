//! The decisions of the `search`, `resume` and `config lint` commands, apart
//! from the database, the prompt assembler and the terminal they talk to.

use vstd::prelude::*;

use crate::config::maps::{lookup, profile_entries, profiles_get};
use crate::config::model::{opt_view, Config, ConfigDiagnostic, DiagnosticLevel};
use crate::paths::{parent, parent_of};
use crate::pipeline::{lookup_pair, lookup_value, piece_views, regex_pieces, split_captures, sv, ENV_TOKEN};
use crate::prompts::PromptStatus;
use crate::providers::ResumePlan;
use crate::session::SessionSummary;
use crate::text::{
    append_chars, append_str, chars_of, eq_chars, lower_seq, str_chars, string_of, string_views, trim,
    trim_chars,
};

verus! {

// ---------------------------------------------------------------------------
// search
// ---------------------------------------------------------------------------

pub const ROLE_NEEDS_FULL_TEXT: &'static str = "--role requires --full-text and a non-empty search term";

/// The search term: trimmed, and dropped when blank.
pub open spec fn term_of(term: Option<Seq<char>>) -> Option<Seq<char>> {
    match term {
        Some(t) => if trim(t).len() > 0 {
            Some(trim(t))
        } else {
            None
        },
        None => None,
    }
}

/// A role filter needs a full-text search with a term.
pub open spec fn role_refused(term: Option<Seq<char>>, role: Option<Seq<char>>, full_text: bool) -> bool {
    role is Some && (!full_text || term_of(term) is None)
}

pub fn search_term(term: Option<&str>, role: Option<&str>, full_text: bool) -> (r: Result<Option<String>, String>)
    ensures
        match r {
            Ok(t) => !role_refused(sv(term), sv(role), full_text) && opt_view(t) == term_of(sv(term)),
            Err(m) => role_refused(sv(term), sv(role), full_text) && m@ == ROLE_NEEDS_FULL_TEXT@,
        },
{
    let t = match term {
        Some(raw) => {
            let c = trim_chars(&chars_of(raw));
            if c.len() > 0 {
                Some(string_of(&c))
            } else {
                None
            }
        },
        None => None,
    };
    if role.is_some() && (!full_text || t.is_none()) {
        return Err(ROLE_NEEDS_FULL_TEXT.to_owned());
    }
    Ok(t)
}

/// `i64::saturating_sub`.
pub open spec fn saturating(v: int) -> i64 {
    if v < i64::MIN {
        i64::MIN
    } else if v > i64::MAX {
        i64::MAX
    } else {
        v as i64
    }
}

/// The earliest activity time a `--since` window admits: `now` minus the window.
pub fn since_cutoff(now: i64, since: Option<i64>) -> (r: Option<i64>)
    ensures
        r == match since {
            Some(s) => Some(saturating(now - s)),
            None => None::<i64>,
        },
{
    match since {
        Some(s) => {
            let d: i128 = (now as i128) - (s as i128);
            if d < (i64::MIN as i128) {
                Some(i64::MIN)
            } else if d > (i64::MAX as i128) {
                Some(i64::MAX)
            } else {
                Some(d as i64)
            }
        },
        None => None,
    }
}

// ---------------------------------------------------------------------------
// resume
// ---------------------------------------------------------------------------

/// The session to resume: the one found for the identifier, else, for `last` (in
/// any case), the latest actionable session.
pub open spec fn resume_target(
    session_id: Seq<char>,
    found: Option<SessionSummary>,
    latest: Option<SessionSummary>,
) -> Result<SessionSummary, Seq<char>> {
    match found {
        Some(s) => Ok(s),
        None => if lower_seq(session_id) == "last"@ {
            match latest {
                Some(l) => Ok(l),
                None => Err("no previous sessions available to resume"@),
            }
        } else {
            Err("session '"@ + session_id + "' not found"@)
        },
    }
}

/// `found` is the session stored under the identifier, `latest` the latest
/// actionable session (both read by the caller).
pub fn resolve_resume_summary(
    session_id: &str,
    found: Option<SessionSummary>,
    latest: Option<SessionSummary>,
) -> (r: Result<SessionSummary, String>)
    ensures
        match r {
            Ok(s) => resume_target(session_id@, found, latest) == Ok::<SessionSummary, Seq<char>>(s),
            Err(m) => resume_target(session_id@, found, latest) == Err::<SessionSummary, Seq<char>>(m@),
        },
{
    match found {
        Some(s) => Ok(s),
        None => {
            let lowered = crate::text::to_ascii_lowercase(&chars_of(session_id));
            proof {
                reveal_strlit("last");
            }
            if eq_chars(&lowered, &chars_of("last")) {
                match latest {
                    Some(l) => Ok(l),
                    None => Err("no previous sessions available to resume".to_owned()),
                }
            } else {
                let mut m = chars_of("session '");
                append_str(&mut m, session_id);
                append_str(&mut m, "' not found");
                Err(string_of(&m))
            }
        },
    }
}

/// A prompt of the prompt assembler, with its arguments.
#[derive(Debug)]
pub struct PromptInvocation {
    pub name: String,
    pub args: Vec<String>,
}

/// The error `tx` exits with status 2 for: the session was recorded with one
/// provider and the profile asks for another.
#[derive(Debug)]
pub enum AppError {
    ProviderMismatch { expected: String, actual: String },
}

pub open spec fn app_error_text(e: AppError) -> Seq<char> {
    match e {
        AppError::ProviderMismatch { expected, actual } => "provider mismatch: session uses '"@ + expected@
            + "' but pipeline asked for '"@ + actual@ + "'"@,
    }
}

impl AppError {
    pub fn message(&self) -> (r: String)
        ensures
            r@ == app_error_text(*self),
    {
        let mut m: Vec<char> = Vec::new();
        match self {
            AppError::ProviderMismatch { expected, actual } => {
                append_str(&mut m, "provider mismatch: session uses '");
                append_chars(&mut m, &str_chars(expected));
                append_str(&mut m, "' but pipeline asked for '");
                append_chars(&mut m, &str_chars(actual));
                append_str(&mut m, "'");
            },
        }
        string_of(&m)
    }
}

/// Why a profile cannot resume a session.
#[derive(Debug)]
pub enum ResumeError {
    ProfileNotFound(String),
    App(AppError),
}

pub open spec fn resume_error_text(e: ResumeError) -> Seq<char> {
    match e {
        ResumeError::ProfileNotFound(n) => "profile '"@ + n@ + "' not found"@,
        ResumeError::App(a) => app_error_text(a),
    }
}

impl ResumeError {
    pub fn message(&self) -> (r: String)
        ensures
            r@ == resume_error_text(*self),
    {
        match self {
            ResumeError::ProfileNotFound(n) => {
                let mut m: Vec<char> = Vec::new();
                append_str(&mut m, "profile '");
                append_chars(&mut m, &str_chars(n));
                append_str(&mut m, "' not found");
                string_of(&m)
            },
            ResumeError::App(a) => a.message(),
        }
    }
}

fn clone_strings(v: &Vec<String>) -> (r: Vec<String>)
    ensures
        string_views(r@) == string_views(v@),
{
    crate::config::model::clone_strings(v)
}

/// The profile chosen for a resumed session: with a profile, its prompt
/// invocation (when it names a prompt) and whether it has pre snippets; the profile must exist and
/// use the session's provider.
pub fn resume_profile(config: &Config, profile_name: Option<&str>, summary_provider: &str) -> (r: Result<
    (Option<PromptInvocation>, bool),
    ResumeError,
>)
    ensures
        match profile_name {
            None => r matches Ok((None, false)),
            Some(n) => match lookup(profile_entries(config.profiles), n@) {
                None => r matches Err(ResumeError::ProfileNotFound(m)) && m@ == n@,
                Some(p) => if p.provider@ != summary_provider@ {
                    r matches Err(ResumeError::App(AppError::ProviderMismatch { expected, actual }))
                        && expected@ == summary_provider@ && actual@ == p.provider@
                } else {
                    r matches Ok((inv, has_pre)) && has_pre == (p.pre@.len() > 0) && match p.prompt_assembler {
                        Some(pa) => inv matches Some(i) && i.name@ == pa@ && string_views(i.args@) == string_views(
                            p.prompt_assembler_args@,
                        ),
                        None => inv is None,
                    }
                },
            },
        },
{
    let name = match profile_name {
        Some(n) => n,
        None => return Ok((None, false)),
    };
    let profile = match profiles_get(&config.profiles, name) {
        Some(p) => p,
        None => return Err(ResumeError::ProfileNotFound(name.to_owned())),
    };
    if !eq_chars(&str_chars(&profile.provider), &chars_of(summary_provider)) {
        return Err(
            ResumeError::App(
                AppError::ProviderMismatch { expected: summary_provider.to_owned(), actual: profile.provider.clone() },
            ),
        );
    }
    let invocation = match &profile.prompt_assembler {
        Some(pa) => Some(PromptInvocation { name: pa.clone(), args: clone_strings(&profile.prompt_assembler_args) }),
        None => None,
    };
    Ok((invocation, profile.pre.len() > 0))
}

/// Why a profile's prompt cannot be used, if it cannot: the prompt assembler
/// must be enabled, and once refreshed (`status`) must list the prompt.
pub open spec fn prompt_problem(enabled: bool, status: PromptStatus, name: Seq<char>) -> Option<Seq<char>> {
    let disabled = "profile references prompt '"@ + name + "' but prompt-assembler is disabled"@;
    if !enabled {
        Some(disabled)
    } else {
        match status {
            PromptStatus::Ready { profiles } => if exists|i: int|
                0 <= i < profiles@.len() && (#[trigger] profiles@[i]).name@ == name {
                None
            } else {
                Some("prompt assembler prompt '"@ + name + "' not found"@)
            },
            PromptStatus::Unavailable { message } => Some(message@),
            PromptStatus::Disabled => Some(disabled),
        }
    }
}

#[verifier::loop_isolation(false)]
pub fn prompt_available(enabled: bool, status: &PromptStatus, name: &str) -> (r: Result<(), String>)
    ensures
        match r {
            Ok(()) => prompt_problem(enabled, *status, name@) is None,
            Err(m) => prompt_problem(enabled, *status, name@) == Some(m@),
        },
{
    let disabled = {
        let mut m = chars_of("profile references prompt '");
        append_str(&mut m, name);
        append_str(&mut m, "' but prompt-assembler is disabled");
        m
    };
    if !enabled {
        return Err(string_of(&disabled));
    }
    match status {
        PromptStatus::Ready { profiles } => {
            let target = chars_of(name);
            let mut i: usize = 0;
            while i < profiles.len()
                invariant
                    i <= profiles@.len(),
                    target@ == name@,
                    forall|j: int| 0 <= j < i ==> (#[trigger] profiles@[j]).name@ != name@,
                decreases profiles.len() - i,
            {
                if eq_chars(&str_chars(&profiles[i].name), &target) {
                    assert(profiles@[i as int].name@ == name@);
                    return Ok(());
                }
                i += 1;
            }
            let mut m = chars_of("prompt assembler prompt '");
            append_str(&mut m, name);
            append_str(&mut m, "' not found");
            Err(string_of(&m))
        },
        PromptStatus::Unavailable { message } => Err(message.clone()),
        PromptStatus::Disabled => Err(string_of(&disabled)),
    }
}

/// `--emit-json` only changes how `--dry-run` or `--emit-command` print.
pub fn emit_json_check(emit_json: bool, dry_run: bool, emit_command: bool) -> (r: Result<(), String>)
    ensures
        r is Err <==> (emit_json && !(dry_run || emit_command)),
        r matches Err(m) ==> m@ == "--emit-json requires --dry-run or --emit-command"@,
{
    if emit_json && !(dry_run || emit_command) {
        Err("--emit-json requires --dry-run or --emit-command".to_owned())
    } else {
        Ok(())
    }
}

/// The directory a resumed session runs in: its log's directory, else `cwd`.
pub fn resume_working_dir(path: &str, cwd: String) -> (r: String)
    ensures
        r@ == match parent_of(path@) {
            Some(d) => d,
            None => cwd@,
        },
{
    match parent(path) {
        Some(d) => d,
        None => cwd,
    }
}

/// The provider arguments of a resume: the resume plan's, then the command
/// line's; and the plan's resume token.
pub fn resume_args(plan: Option<ResumePlan>, cmd_args: &Vec<String>) -> (r: (Vec<String>, Option<String>))
    ensures
        string_views(r.0@) == match plan {
            Some(p) => string_views(p.args@) + string_views(cmd_args@),
            None => string_views(cmd_args@),
        },
        r.1 == match plan {
            Some(p) => p.resume_token,
            None => None::<String>,
        },
{
    let mut args: Vec<String> = Vec::new();
    let mut token: Option<String> = None;
    if let Some(p) = plan {
        token = p.resume_token;
        args = p.args;
    }
    let ghost start = string_views(args@);
    let mut i: usize = 0;
    while i < cmd_args.len()
        invariant
            i <= cmd_args@.len(),
            string_views(args@) == start + string_views(cmd_args@).subrange(0, i as int),
        decreases cmd_args.len() - i,
    {
        let ghost before = args@;
        args.push(cmd_args[i].clone());
        assert(string_views(args@) =~= string_views(before).push(cmd_args@[i as int]@));
        assert(string_views(cmd_args@).subrange(0, i + 1) =~= string_views(cmd_args@).subrange(0, i as int).push(
            cmd_args@[i as int]@,
        ));
        i += 1;
    }
    assert(string_views(cmd_args@).subrange(0, cmd_args@.len() as int) =~= string_views(cmd_args@));
    (args, token)
}

// ---------------------------------------------------------------------------
// config lint
// ---------------------------------------------------------------------------

/// The line printed for a diagnostic.
pub open spec fn diag_line(d: ConfigDiagnostic) -> Seq<char> {
    match d.level {
        DiagnosticLevel::Warning => "warning: "@ + d.message@,
        DiagnosticLevel::Error => "error: "@ + d.message@,
    }
}

/// `config lint`: the lines printed, and an error when some diagnostic is an
/// error.
pub open spec fn lint_lines(ds: Seq<ConfigDiagnostic>) -> Seq<Seq<char>> {
    if ds.len() == 0 {
        seq!["Configuration looks good."@]
    } else {
        Seq::new(ds.len(), |i: int| diag_line(ds[i]))
    }
}

pub fn lint_report(diagnostics: &Vec<ConfigDiagnostic>) -> (r: (Vec<String>, Result<(), String>))
    ensures
        string_views(r.0@) == lint_lines(diagnostics@),
        r.1 is Err <==> exists|i: int| 0 <= i < diagnostics@.len() && (#[trigger] diagnostics@[i]).level
            == DiagnosticLevel::Error,
        r.1 matches Err(m) ==> m@ == "configuration contains errors"@,
{
    let mut lines: Vec<String> = Vec::new();
    if diagnostics.len() == 0 {
        lines.push("Configuration looks good.".to_owned());
        assert(string_views(lines@) =~= lint_lines(diagnostics@));
        return (lines, Ok(()));
    }
    let mut has_error = false;
    let mut i: usize = 0;
    while i < diagnostics.len()
        invariant
            i <= diagnostics@.len(),
            diagnostics@.len() > 0,
            string_views(lines@) == Seq::new(i as nat, |j: int| diag_line(diagnostics@[j])),
            has_error == exists|j: int| 0 <= j < i && (#[trigger] diagnostics@[j]).level == DiagnosticLevel::Error,
        decreases diagnostics.len() - i,
    {
        let d = &diagnostics[i];
        let mut m: Vec<char> = match d.level {
            DiagnosticLevel::Warning => chars_of("warning: "),
            DiagnosticLevel::Error => {
                has_error = true;
                chars_of("error: ")
            },
        };
        append_chars(&mut m, &str_chars(&d.message));
        assert(m@ == diag_line(diagnostics@[i as int]));
        let ghost before = lines@;
        let line = string_of(&m);
        lines.push(line);
        assert(string_views(lines@) =~= string_views(before).push(line@));
        assert(string_views(lines@) =~= Seq::new((i + 1) as nat, |j: int| diag_line(diagnostics@[j])));
        i += 1;
    }
    assert(string_views(lines@) =~= lint_lines(diagnostics@));
    if has_error {
        (lines, Err("configuration contains errors".to_owned()))
    } else {
        (lines, Ok(()))
    }
}

// ---------------------------------------------------------------------------
// db reset
// ---------------------------------------------------------------------------

/// `db reset` deletes the index only when `--yes` confirms it.
pub fn reset_confirmed(yes: bool) -> (r: Result<(), String>)
    ensures
        r is Ok <==> yes,
        r matches Err(m) ==> m@ == "refusing to delete database without --yes confirmation"@,
{
    if yes {
        Ok(())
    } else {
        Err("refusing to delete database without --yes confirmation".to_owned())
    }
}

// ---------------------------------------------------------------------------
// doctor
// ---------------------------------------------------------------------------

/// For each `${env:NAME}` of an environment value template, in order: the name
/// and whether `env` sets it. `None` when the pattern does not compile.
pub open spec fn env_checks_of(template: Seq<char>, env: Seq<(Seq<char>, Seq<char>)>) -> Option<Seq<(Seq<char>, bool)>> {
    match regex_pieces(ENV_TOKEN@, template) {
        None => None,
        Some((pieces, _)) => Some(
            Seq::new(pieces.len(), |i: int| (pieces[i].1, lookup_pair(env, pieces[i].1) is Some)),
        ),
    }
}

/// `run_doctor`'s check of a provider's environment value: each variable the
/// template names, and whether it is set in `env` (the process environment, read
/// by the caller).
pub fn env_var_checks(template: &str, env: &Vec<(String, String)>) -> (r: Option<Vec<(String, bool)>>)
    ensures
        match r {
            Some(v) => env_checks_of(template@, piece_views(env@)) == Some(
                Seq::new(v@.len(), |i: int| (v@[i].0@, v@[i].1)),
            ),
            None => env_checks_of(template@, piece_views(env@)) is None,
        },
{
    let (pieces, _tail) = match split_captures(ENV_TOKEN, template) {
        Some(p) => p,
        None => return None,
    };
    let ghost pv = piece_views(pieces@);
    let mut out: Vec<(String, bool)> = Vec::new();
    let mut i: usize = 0;
    while i < pieces.len()
        invariant
            i <= pieces.len(),
            pv == piece_views(pieces@),
            out@.len() == i,
            forall|k: int| 0 <= k < i ==> (#[trigger] out@[k]).0@ == pv[k].1 && out@[k].1 == (lookup_pair(piece_views(env@), pv[k].1) is Some),
        decreases pieces.len() - i,
    {
        assert(pv[i as int] == (pieces@[i as int].0@, pieces@[i as int].1@));
        let set = lookup_value(env, pieces[i].1.as_str()).is_some();
        out.push((pieces[i].1.clone(), set));
        i += 1;
    }
    proof {
        let got = Seq::new(out@.len(), |k: int| (out@[k].0@, out@[k].1));
        let want = Seq::new(pv.len(), |k: int| (pv[k].1, lookup_pair(piece_views(env@), pv[k].1) is Some));
        assert(got =~= want);
    }
    Some(out)
}

} // verus!
