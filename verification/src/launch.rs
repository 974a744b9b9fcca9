//! Decisions taken when launching, resuming or updating: variables, prompt
//! capture, search result filtering, and messages.

use vstd::prelude::*;

use crate::config::model::opt_view;
use crate::indexer::pair_views;
use crate::session::{SearchHit, SessionSummary};
use crate::text::{
    append_chars, append_str, chars_of, ends_with, lower_seq, split_once, split_once_chars, starts_with,
    str_chars, string_of, string_views, trim, trim_chars,
};

verus! {

// ---------------------------------------------------------------------------
// Variables
// ---------------------------------------------------------------------------

/// The value of `key` replaced, or `key` appended (`HashMap::insert`, in first
/// insertion order).
pub open spec fn set_var(vars: Seq<(Seq<char>, Seq<char>)>, key: Seq<char>, value: Seq<char>) -> Seq<(Seq<char>, Seq<char>)> {
    if exists|i: int| 0 <= i < vars.len() && #[trigger] vars[i].0 == key {
        let i = choose|i: int| 0 <= i < vars.len() && #[trigger] vars[i].0 == key;
        vars.update(i, (key, value))
    } else {
        vars.push((key, value))
    }
}

/// Keys are listed once.
pub open spec fn distinct_keys(vars: Seq<(Seq<char>, Seq<char>)>) -> bool {
    forall|i: int, j: int| 0 <= i < j < vars.len() ==> #[trigger] vars[i].0 != #[trigger] vars[j].0
}

/// `parse_vars`: each `KEY=VALUE` (the key trimmed) in order, a later value
/// replacing an earlier one; or the first entry without `=`.
pub open spec fn vars_of(entries: Seq<Seq<char>>) -> Result<Seq<(Seq<char>, Seq<char>)>, Seq<char>>
    decreases entries.len(),
{
    if entries.len() == 0 {
        Ok(Seq::empty())
    } else {
        match vars_of(entries.drop_last()) {
            Err(e) => Err(e),
            Ok(vars) => match split_once(entries.last(), '=') {
                Some((k, v)) => Ok(set_var(vars, trim(k), v)),
                None => Err(entries.last()),
            },
        }
    }
}

proof fn lemma_vars_err_stays(entries: Seq<Seq<char>>, n: int)
    requires
        0 <= n <= entries.len(),
        vars_of(entries.subrange(0, n)) is Err,
    ensures
        vars_of(entries) == vars_of(entries.subrange(0, n)),
    decreases entries.len() - n,
{
    if n < entries.len() {
        assert(entries.subrange(0, n + 1).drop_last() =~= entries.subrange(0, n));
        lemma_vars_err_stays(entries, n + 1);
    } else {
        assert(entries.subrange(0, n) =~= entries);
    }
}

/// Parse `--var KEY=VALUE` entries; the error names the entry without `=`.
pub fn parse_vars(vars: &Vec<String>) -> (r: Result<Vec<(String, String)>, String>)
    ensures
        match r {
            Ok(v) => vars_of(string_views(vars@)) == Ok::<Seq<(Seq<char>, Seq<char>)>, Seq<char>>(pair_views(v@))
                && distinct_keys(pair_views(v@)),
            Err(m) => vars_of(string_views(vars@)) is Err && m@ == "invalid var '"@ + vars_of(string_views(vars@))->Err_0
                + "', expected KEY=VALUE"@,
        },
{
    let ghost ev = string_views(vars@);
    let mut out: Vec<(String, String)> = Vec::new();
    let mut i: usize = 0;
    assert(ev.subrange(0, 0) =~= Seq::<Seq<char>>::empty());
    assert(pair_views(out@) =~= Seq::<(Seq<char>, Seq<char>)>::empty());
    while i < vars.len()
        invariant
            i <= vars.len(),
            ev == string_views(vars@),
            vars_of(ev.subrange(0, i as int)) == Ok::<Seq<(Seq<char>, Seq<char>)>, Seq<char>>(pair_views(out@)),
            distinct_keys(pair_views(out@)),
        decreases vars.len() - i,
    {
        assert(ev.subrange(0, i + 1).drop_last() =~= ev.subrange(0, i as int));
        assert(ev.subrange(0, i + 1).last() == vars@[i as int]@);
        let entry = str_chars(&vars[i]);
        match split_once_chars(&entry, '=') {
            None => {
                proof { lemma_vars_err_stays(ev, i as int + 1); }
                let mut m = chars_of("invalid var '");
                append_chars(&mut m, &entry);
                append_str(&mut m, "', expected KEY=VALUE");
                return Err(string_of(&m));
            },
            Some((k, v)) => {
                let key = string_of(&trim_chars(&k));
                let value = string_of(&v);
                let ghost pv = pair_views(out@);
                let mut found: Option<usize> = None;
                let mut j: usize = 0;
                while j < out.len()
                    invariant_except_break
                        found is None,
                    invariant
                        j <= out.len(),
                        pv == pair_views(out@),
                        forall|q: int| 0 <= q < j ==> pv[q].0 != key@,
                    ensures
                        match found {
                            Some(f) => f < out.len() && pv[f as int].0 == key@,
                            None => forall|q: int| 0 <= q < pv.len() ==> pv[q].0 != key@,
                        },
                    decreases out.len() - j,
                {
                    assert(pv[j as int] == (out@[j as int].0@, out@[j as int].1@));
                    if crate::text::eq_chars(&str_chars(&out[j].0), &str_chars(&key)) {
                        found = Some(j);
                        break;
                    }
                    j += 1;
                }
                match found {
                    Some(f) => {
                        proof {
                            let c = choose|q: int| 0 <= q < pv.len() && #[trigger] pv[q].0 == key@;
                            if c != f {
                                if c < f {
                                    assert(pv[c].0 != pv[f as int].0);
                                } else {
                                    assert(pv[f as int].0 != pv[c].0);
                                }
                            }
                        }
                        out.set(f, (key, value));
                        assert(pair_views(out@) =~= pv.update(f as int, (trim(k@), v@)));
                    },
                    None => {
                        out.push((key, value));
                        assert(pair_views(out@) =~= pv.push((trim(k@), v@)));
                    },
                }
            },
        }
        i += 1;
    }
    assert(ev.subrange(0, vars@.len() as int) =~= ev);
    Ok(out)
}

// ---------------------------------------------------------------------------
// Prompt capture
// ---------------------------------------------------------------------------

/// `should_capture_prompt_for_resume`: a prompt is captured when the profile
/// assembles one or has pre snippets, or pre snippets were given.
pub fn should_capture_prompt_for_resume(has_prompt_invocation: bool, profile_has_pre_snippets: bool, cmd_pre_snippets: &Vec<String>) -> (r: bool)
    ensures
        r == (has_prompt_invocation || profile_has_pre_snippets || cmd_pre_snippets@.len() > 0),
{
    has_prompt_invocation || profile_has_pre_snippets || cmd_pre_snippets.len() > 0
}

/// `should_warn_capture`: warn before reading a prompt from the terminal when
/// the plan captures the prompt and no pre command or piped input supplies it.
pub fn should_warn_capture(uses_capture_arg: bool, capture_has_pre_commands: bool, capture_input: Option<&str>, stdin_is_terminal: bool) -> (r: bool)
    ensures
        r == (capture_input is None && stdin_is_terminal && uses_capture_arg && !capture_has_pre_commands),
{
    capture_input.is_none() && stdin_is_terminal && uses_capture_arg && !capture_has_pre_commands
}

/// A line typed at the prompt, ending in exactly one `\n` (`\r\n` becomes `\n`).
pub open spec fn stdin_line(buffer: Seq<char>) -> Seq<char> {
    let b = if ends_with(buffer, "\r\n"@) {
        buffer.subrange(0, buffer.len() - 2).push('\n')
    } else {
        buffer
    };
    if ends_with(b, "\n"@) {
        b
    } else {
        b.push('\n')
    }
}

pub fn normalize_stdin_line(buffer: &str) -> (r: String)
    ensures
        r@ == stdin_line(buffer@),
{
    let mut b = chars_of(buffer);
    proof {
        reveal_strlit("\r\n");
        reveal_strlit("\n");
    }
    let n = b.len();
    if n >= 2 && b[n - 2] == '\r' && b[n - 1] == '\n' {
        assert(ends_with(b@, "\r\n"@)) by {
            assert(b@.subrange(n - 2, n as int) =~= "\r\n"@);
        }
        b.pop();
        b.pop();
        b.push('\n');
        assert(b@ =~= buffer@.subrange(0, buffer@.len() - 2).push('\n'));
    } else {
        assert(!ends_with(b@, "\r\n"@)) by {
            if ends_with(b@, "\r\n"@) {
                assert(b@.subrange(n - 2, n as int)[0] == b@[n - 2]);
                assert(b@.subrange(n - 2, n as int)[1] == b@[n - 1]);
            }
        }
    }
    let m = b.len();
    if m >= 1 && b[m - 1] == '\n' {
        assert(ends_with(b@, "\n"@)) by {
            assert(b@.subrange(m - 1, m as int) =~= "\n"@);
        }
    } else {
        assert(!ends_with(b@, "\n"@)) by {
            if ends_with(b@, "\n"@) {
                assert(b@.subrange(m - 1, m as int)[0] == b@[m - 1]);
            }
        }
        b.push('\n');
    }
    string_of(&b)
}

// ---------------------------------------------------------------------------
// Search results
// ---------------------------------------------------------------------------

/// Whether a hit passes the role filter (roles compared ignoring ASCII case).
pub open spec fn role_matches(role: Option<Seq<char>>, filter: Option<Seq<char>>) -> bool {
    match filter {
        Some(f) => role matches Some(r) && lower_seq(r) == lower_seq(f),
        None => true,
    }
}

pub fn hit_role_matches(hit: &SearchHit, filter: Option<&str>) -> (r: bool)
    ensures
        r == role_matches(opt_view(hit.role), match filter { Some(f) => Some(f@), None => None }),
{
    match filter {
        Some(f) => match &hit.role {
            Some(role) => crate::text::eq_ignore_ascii_case(&str_chars(role), &chars_of(f)),
            None => false,
        },
        None => true,
    }
}

/// Whether a session is recent enough: active at or after the cutoff (or of
/// unknown activity).
pub open spec fn recent_enough(summary: SessionSummary, since: Option<i64>) -> bool {
    match since {
        Some(cutoff) => !(summary.last_active matches Some(last) && last < cutoff),
        None => true,
    }
}

/// The hits kept: each passing the role filter whose session was found and is
/// recent enough, in order; `summaries[i]` is the lookup of hit `i`'s session
/// (made only for hits passing the role filter).
pub open spec fn collated(
    hits: Seq<SearchHit>,
    summaries: Seq<Option<SessionSummary>>,
    since: Option<i64>,
    filter: Option<Seq<char>>,
    n: int,
) -> Seq<(SearchHit, SessionSummary)>
    decreases n,
{
    if n <= 0 || n > hits.len() {
        Seq::empty()
    } else {
        let prev = collated(hits, summaries, since, filter, n - 1);
        let h = hits[n - 1];
        if role_matches(opt_view(h.role), filter) && n - 1 < summaries.len() {
            match summaries[n - 1] {
                Some(s) => if recent_enough(s, since) {
                    prev.push((h, s))
                } else {
                    prev
                },
                None => prev,
            }
        } else {
            prev
        }
    }
}

/// `collate_search_results`: the hits kept, at most `limit` of them.
pub fn collate_search_results(
    hits: &Vec<SearchHit>,
    summaries: &Vec<Option<SessionSummary>>,
    since_epoch: Option<i64>,
    role_filter: Option<&str>,
    limit: Option<usize>,
) -> (r: Vec<(SearchHit, SessionSummary)>)
    ensures
        ({
            let all = collated(hits@, summaries@, since_epoch, match role_filter { Some(f) => Some(f@), None => None }, hits@.len() as int);
            r@ == match limit {
                Some(l) => if all.len() > l { all.take(l as int) } else { all },
                None => all,
            }
        }),
{
    let ghost fv = match role_filter { Some(f) => Some(f@), None => None::<Seq<char>> };
    let mut detailed: Vec<(SearchHit, SessionSummary)> = Vec::new();
    let mut i: usize = 0;
    assert(detailed@ =~= collated(hits@, summaries@, since_epoch, fv, 0));
    while i < hits.len()
        invariant
            i <= hits.len(),
            detailed@ == collated(hits@, summaries@, since_epoch, fv, i as int),
            fv == match role_filter { Some(f) => Some(f@), None => None::<Seq<char>> },
        decreases hits.len() - i,
    {
        let hit = &hits[i];
        if hit_role_matches(hit, role_filter) && i < summaries.len() {
            match &summaries[i] {
                Some(summary) => {
                    let keep = match since_epoch {
                        Some(cutoff) => match summary.last_active {
                            Some(last) => !(last < cutoff),
                            None => true,
                        },
                        None => true,
                    };
                    if keep {
                        detailed.push((hit.clone(), summary.clone()));
                    }
                },
                None => {},
            }
        }
        i += 1;
    }
    if let Some(l) = limit {
        if detailed.len() > l {
            detailed.truncate(l);
        }
    }
    detailed
}

// ---------------------------------------------------------------------------
// Self update
// ---------------------------------------------------------------------------

/// `normalize_target_version_tag`: a release tag starts with `v`.
pub fn normalize_target_version_tag(tag: Option<&str>) -> (r: Option<String>)
    ensures
        match tag {
            Some(t) => r matches Some(s) && s@ == (if starts_with(t@, "v"@) { t@ } else { "v"@ + t@ }),
            None => r is None,
        },
{
    match tag {
        Some(t) => {
            let c = chars_of(t);
            if crate::text::starts_with_str(&c, "v") {
                Some(t.to_owned())
            } else {
                let mut m = chars_of("v");
                append_chars(&mut m, &c);
                Some(string_of(&m))
            }
        },
        None => None,
    }
}

/// `self_update_message`.
pub fn self_update_message(updated: bool, version: &str) -> (r: String)
    ensures
        r@ == (if updated { "Updated tx to "@ + version@ } else { "tx is already up to date ("@ + version@ + ")"@ }),
{
    if updated {
        let mut m = chars_of("Updated tx to ");
        append_str(&mut m, version);
        string_of(&m)
    } else {
        let mut m = chars_of("tx is already up to date (");
        append_str(&mut m, version);
        append_str(&mut m, ")");
        string_of(&m)
    }
}

/// How a planned command is printed: as JSON, or as its text (with a trailing
/// newline or not, in its friendly form or not).
#[derive(Debug, Clone, Copy)]
pub enum EmitMode {
    Json,
    Plain { newline: bool, friendly: bool },
}

} // verus!
