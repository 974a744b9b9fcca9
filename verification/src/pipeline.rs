//! Planning the shell pipeline that runs a provider with its snippets and wrapper.

use vstd::prelude::*;

use crate::config::maps::{
    SnippetMap, lookup, profile_entries, profiles_get, provider_entries, providers_get,
    snippet_entries, snippets_get, wrapper_entries, wrappers_get,
};
use crate::indexer::utf8_width;
use crate::config::model::{Config, ProfileConfig, ProviderConfig, Snippet, StdinMode, WrapperConfig, opt_view};
use crate::text::{
    append_chars, append_str, chars_of, contains, join, join_strings, replace_all, replace_chars,
    str_chars, string_of, string_views, starts_with,
};

verus! {

// ---------------------------------------------------------------------------
// Shell quoting
// ---------------------------------------------------------------------------

/// Characters that `shell_escape::unix::escape` leaves unquoted.
pub open spec fn shell_safe(c: char) -> bool {
    ('a' <= c && c <= 'z') || ('A' <= c && c <= 'Z') || ('0' <= c && c <= '9') || c == '-' || c == '_'
        || c == '=' || c == '/' || c == ',' || c == '.' || c == '+'
}

/// The quoted body: `'` and `!` become `'\'` / `'\!` followed by `'`.
pub open spec fn escape_body(s: Seq<char>) -> Seq<char>
    decreases s.len(),
{
    if s.len() == 0 {
        Seq::empty()
    } else {
        let c = s.last();
        escape_body(s.drop_last()) + if c == '\'' || c == '!' {
            seq!['\'', '\\', c, '\'']
        } else {
            seq![c]
        }
    }
}

/// `shell_escape::unix::escape`: a non-empty word of safe characters is kept as
/// it is; anything else is put in single quotes.
pub open spec fn shell_escaped(s: Seq<char>) -> Seq<char> {
    if s.len() > 0 && forall|i: int| 0 <= i < s.len() ==> shell_safe(#[trigger] s[i]) {
        s
    } else {
        seq!['\''] + escape_body(s) + seq!['\'']
    }
}

/// Calls `shell_escape::unix::escape`, whose whole behaviour `shell_escaped`
/// states (taken from the crate's source).
#[verifier::external_body]
fn shell_escape(s: &str) -> (r: String)
    ensures
        r@ == shell_escaped(s@),
{
    shell_escape::unix::escape(std::borrow::Cow::Borrowed(s)).into_owned()
}

pub open spec fn escaped_all(args: Seq<Seq<char>>) -> Seq<Seq<char>> {
    Seq::new(args.len(), |i: int| shell_escaped(args[i]))
}

/// `command_string`: the program and its arguments, each shell-escaped, joined by
/// spaces.
pub open spec fn command_text(bin: Seq<char>, args: Seq<Seq<char>>) -> Seq<char> {
    join(seq![shell_escaped(bin)] + escaped_all(args), " "@)
}

pub fn command_string(bin: &str, args: &Vec<String>) -> (r: String)
    ensures
        r@ == command_text(bin@, string_views(args@)),
{
    let mut parts: Vec<String> = Vec::new();
    parts.push(shell_escape(bin));
    let mut i: usize = 0;
    while i < args.len()
        invariant
            i <= args.len(),
            string_views(parts@) == seq![shell_escaped(bin@)] + escaped_all(string_views(args@).subrange(0, i as int)),
        decreases args.len() - i,
    {
        let e = shell_escape(args[i].as_str());
        let ghost before = parts@;
        parts.push(e);
        assert(string_views(parts@) =~= string_views(before).push(e@));
        assert(escaped_all(string_views(args@).subrange(0, i + 1)) =~= escaped_all(string_views(args@).subrange(0, i as int)).push(shell_escaped(args@[i as int]@)));
        assert(string_views(parts@) =~= seq![shell_escaped(bin@)] + escaped_all(string_views(args@).subrange(0, i + 1)));
        i += 1;
    }
    assert(string_views(args@).subrange(0, args@.len() as int) =~= string_views(args@));
    join_strings(&parts, " ")
}

/// The body of a single-quoted word: each `'` becomes `'\''`.
pub open spec fn quote_body(s: Seq<char>) -> Seq<char>
    decreases s.len(),
{
    if s.len() == 0 {
        Seq::empty()
    } else {
        quote_body(s.drop_last()) + if s.last() == '\'' {
            seq!['\'', '\\', '\'', '\'']
        } else {
            seq![s.last()]
        }
    }
}

/// `single_quote`: the text as one single-quoted shell word.
pub open spec fn single_quoted(s: Seq<char>) -> Seq<char> {
    seq!['\''] + quote_body(s) + seq!['\'']
}

pub fn single_quote(input: &str) -> (r: String)
    ensures
        r@ == single_quoted(input@),
{
    let s = chars_of(input);
    let mut out: Vec<char> = Vec::new();
    out.push('\'');
    let mut i: usize = 0;
    while i < s.len()
        invariant
            i <= s.len(),
            out@ == seq!['\''] + quote_body(s@.subrange(0, i as int)),
        decreases s.len() - i,
    {
        assert(s@.subrange(0, i + 1).drop_last() =~= s@.subrange(0, i as int));
        if s[i] == '\'' {
            out.push('\'');
            out.push('\\');
            out.push('\'');
            out.push('\'');
        } else {
            out.push(s[i]);
        }
        assert(out@ =~= seq!['\''] + quote_body(s@.subrange(0, i + 1)));
        i += 1;
    }
    assert(s@.subrange(0, s@.len() as int) =~= s@);
    out.push('\'');
    string_of(&out)
}

// ---------------------------------------------------------------------------
// Placeholders found by pattern
// ---------------------------------------------------------------------------

/// What `Regex::new(pattern)` then `captures_iter(text)` give: for each match in
/// order, the byte range of the whole match and of its first capture group (when
/// that group took part). `None` when the pattern does not compile.
pub uninterp spec fn regex_spans(pattern: Seq<char>, text: Seq<char>) -> Option<Seq<(int, int, Option<(int, int)>)>>;

pub open spec fn span_views(v: Seq<(usize, usize, Option<(usize, usize)>)>) -> Seq<(int, int, Option<(int, int)>)> {
    Seq::new(
        v.len(),
        |i: int|
            (
                v[i].0 as int,
                v[i].1 as int,
                match v[i].2 {
                    Some((a, b)) => Some((a as int, b as int)),
                    None => None,
                },
            ),
    )
}

/// Compiles `pattern` with `regex::Regex::new` and lists, for each match of
/// `captures_iter(text)`, the byte offsets of the whole match and of group 1.
/// The contract only ties the result to the name `regex_spans`.
#[verifier::external_body]
fn capture_spans(pattern: &str, text: &str) -> (r: Option<Vec<(usize, usize, Option<(usize, usize)>)>>)
    ensures
        match r {
            Some(v) => regex_spans(pattern@, text@) == Some(span_views(v@)),
            None => regex_spans(pattern@, text@) is None,
        },
{
    let re = regex::Regex::new(pattern).ok()?;
    Some(
        re.captures_iter(text).map(
            |c| (c.get_match().start(), c.get_match().end(), c.get(1).map(|g| (g.start(), g.end()))),
        ).collect(),
    )
}

/// The index of the character that starts at UTF-8 byte `b`, counting from
/// character `i`; `None` when `b` falls inside a character or past the end.
pub open spec fn char_pos_from(t: Seq<char>, b: int, i: int) -> Option<int>
    decreases t.len() - i,
{
    if b == 0 {
        Some(i)
    } else if b < 0 || i < 0 || i >= t.len() {
        None
    } else {
        char_pos_from(t, b - utf8_width(t[i]), i + 1)
    }
}

/// The character index of byte offset `b` of the text.
pub open spec fn char_pos(t: Seq<char>, b: int) -> Option<int> {
    char_pos_from(t, b, 0)
}

/// The text of a capture group: empty when the group did not take part.
pub open spec fn group_text(t: Seq<char>, g: Option<(int, int)>) -> Option<Seq<char>> {
    match g {
        None => Some(Seq::empty()),
        Some((a, b)) => match (char_pos(t, a), char_pos(t, b)) {
            (Some(x), Some(y)) => if x <= y {
                Some(t.subrange(x, y))
            } else {
                None
            },
            _ => None,
        },
    }
}

/// The first `n` matches cut out of the text: for each, the text since the
/// previous match and its group; with the character index where the last
/// match ended. `None` when an offset is not at a character boundary or the
/// matches overlap.
pub open spec fn cut_spans(t: Seq<char>, spans: Seq<(int, int, Option<(int, int)>)>, n: int) -> Option<
    (Seq<(Seq<char>, Seq<char>)>, int),
>
    decreases n,
{
    if n <= 0 || n > spans.len() {
        Some((Seq::empty(), 0))
    } else {
        match cut_spans(t, spans, n - 1) {
            None => None,
            Some((pieces, last)) => match (char_pos(t, spans[n - 1].0), char_pos(t, spans[n - 1].1), group_text(t, spans[n - 1].2)) {
                (Some(s), Some(e), Some(g)) => if last <= s <= e {
                    Some((pieces.push((t.subrange(last, s), g)), e))
                } else {
                    None
                },
                _ => None,
            },
        }
    }
}

/// The text cut at each match of the pattern: for each match in order, the
/// text since the previous match and the first capture group (empty when it
/// did not take part); then the text after the last match. `None` when the
/// pattern does not compile.
pub open spec fn regex_pieces(pattern: Seq<char>, text: Seq<char>) -> Option<(Seq<(Seq<char>, Seq<char>)>, Seq<char>)> {
    match regex_spans(pattern, text) {
        None => None,
        Some(spans) => match cut_spans(text, spans, spans.len() as int) {
            Some((pieces, last)) => Some((pieces, text.subrange(last, text.len() as int))),
            None => None,
        },
    }
}

pub open spec fn piece_views(v: Seq<(String, String)>) -> Seq<(Seq<char>, Seq<char>)> {
    Seq::new(v.len(), |i: int| (v[i].0@, v[i].1@))
}

proof fn lemma_char_pos_from(t: Seq<char>, b: int, i: int)
    requires
        0 <= i <= t.len(),
    ensures
        char_pos_from(t, b, i) matches Some(j) ==> i <= j <= t.len(),
    decreases t.len() - i,
{
    if b != 0 && b >= 0 && i < t.len() {
        lemma_char_pos_from(t, b - utf8_width(t[i]), i + 1);
    }
}

/// The character index of byte offset `b` of `t`.
fn char_index(t: &Vec<char>, b: usize) -> (r: Option<usize>)
    ensures
        match r {
            Some(j) => char_pos(t@, b as int) == Some(j as int) && j <= t@.len(),
            None => char_pos(t@, b as int) is None,
        },
{
    let mut rem: usize = b;
    let mut i: usize = 0;
    while rem > 0 && i < t.len()
        invariant
            i <= t@.len(),
            char_pos(t@, b as int) == char_pos_from(t@, rem as int, i as int),
        decreases t.len() - i,
    {
        let w = crate::indexer::utf8_width_exec(t[i]);
        if w > rem {
            proof {
                assert(char_pos_from(t@, rem - w, i + 1) is None);
            }
            return None;
        }
        rem = rem - w;
        i += 1;
    }
    proof {
        lemma_char_pos_from(t@, rem as int, i as int);
    }
    if rem == 0 {
        Some(i)
    } else {
        None
    }
}

proof fn lemma_cut_none_stays(t: Seq<char>, spans: Seq<(int, int, Option<(int, int)>)>, k: int, n: int)
    requires
        0 < k <= n <= spans.len(),
        cut_spans(t, spans, k) is None,
    ensures
        cut_spans(t, spans, n) is None,
    decreases n - k,
{
    if n > k {
        lemma_cut_none_stays(t, spans, k, n - 1);
    }
}

/// Cut `text` at the given match offsets (as `regex_spans` lists them).
pub fn cut_at_spans(text: &str, spans: &Vec<(usize, usize, Option<(usize, usize)>)>) -> (r: Option<(Vec<(String, String)>, String)>)
    ensures
        match r {
            Some((pieces, tail)) => cut_spans(text@, span_views(spans@), spans@.len() as int) matches Some((pv, last))
                && pv == piece_views(pieces@) && tail@ == text@.subrange(last, text@.len() as int),
            None => cut_spans(text@, span_views(spans@), spans@.len() as int) is None,
        },
{
    let t = chars_of(text);
    let ghost sv = span_views(spans@);
    let mut pieces: Vec<(String, String)> = Vec::new();
    let mut last: usize = 0;
    let mut k: usize = 0;
    while k < spans.len()
        invariant
            k <= spans@.len(),
            t@ == text@,
            sv == span_views(spans@),
            last <= t@.len(),
            cut_spans(text@, sv, k as int) == Some::<(Seq<(Seq<char>, Seq<char>)>, int)>((piece_views(pieces@), last as int)),
        decreases spans.len() - k,
    {
        let (a, b, g) = spans[k];
        let ghost prev = piece_views(pieces@);
        assert(sv[k as int] == (a as int, b as int, match g { Some((x, y)) => Some((x as int, y as int)), None => None::<(int, int)> }));
        let s = match char_index(&t, a) {
            Some(s) => s,
            None => {
                proof {
                    lemma_cut_none_stays(text@, sv, k + 1, sv.len() as int);
                }
                return None;
            },
        };
        let e = match char_index(&t, b) {
            Some(e) => e,
            None => {
                proof {
                    lemma_cut_none_stays(text@, sv, k + 1, sv.len() as int);
                }
                return None;
            },
        };
        let group = match g {
            None => Vec::new(),
            Some((x, y)) => {
                let gx = match char_index(&t, x) {
                    Some(v) => v,
                    None => {
                        proof {
                            lemma_cut_none_stays(text@, sv, k + 1, sv.len() as int);
                        }
                        return None;
                    },
                };
                let gy = match char_index(&t, y) {
                    Some(v) => v,
                    None => {
                        proof {
                            lemma_cut_none_stays(text@, sv, k + 1, sv.len() as int);
                        }
                        return None;
                    },
                };
                if gx > gy {
                    proof {
                        lemma_cut_none_stays(text@, sv, k + 1, sv.len() as int);
                    }
                    return None;
                }
                crate::text::slice_chars(&t, gx, gy)
            },
        };
        proof {
            assert(group_text(text@, sv[k as int].2) == Some(group@)) by {
                if g is None {
                    assert(group@ =~= Seq::<char>::empty());
                }
            }
        }
        if !(last <= s && s <= e) {
            proof {
                lemma_cut_none_stays(text@, sv, k + 1, sv.len() as int);
            }
            return None;
        }
        let before = crate::text::slice_chars(&t, last, s);
        pieces.push((string_of(&before), string_of(&group)));
        proof {
            assert(piece_views(pieces@) =~= prev.push((text@.subrange(last as int, s as int), group@)));
        }
        last = e;
        k += 1;
    }
    let tail = crate::text::slice_chars(&t, last, t.len());
    Some((pieces, string_of(&tail)))
}

/// `Regex::new(pattern)` and `captures_iter(text)`, with the text cut at each
/// match.
pub(crate) fn split_captures(pattern: &str, text: &str) -> (r: Option<(Vec<(String, String)>, String)>)
    ensures
        match r {
            Some((pieces, tail)) => regex_pieces(pattern@, text@) == Some((piece_views(pieces@), tail@)),
            None => regex_pieces(pattern@, text@) is None,
        },
{
    let spans = match capture_spans(pattern, text) {
        Some(v) => v,
        None => return None,
    };
    cut_at_spans(text, &spans)
}

/// `${env:NAME}` references in an environment value template.
pub const ENV_TOKEN: &'static str = "\\$\\{env:([A-Za-z0-9_]+)\\}";

/// `{{key}}` placeholders in wrapper templates.
pub const TEMPLATE_TOKEN: &'static str = "\\{\\{([^}]+)\\}\\}";

/// The value of the first entry named `name`.
pub open spec fn lookup_pair(entries: Seq<(Seq<char>, Seq<char>)>, name: Seq<char>) -> Option<Seq<char>>
    decreases entries.len(),
{
    if entries.len() == 0 {
        None
    } else if entries[0].0 == name {
        Some(entries[0].1)
    } else {
        lookup_pair(entries.drop_first(), name)
    }
}

pub fn lookup_value<'a>(entries: &'a Vec<(String, String)>, name: &str) -> (r: Option<&'a String>)
    ensures
        match r {
            Some(v) => lookup_pair(piece_views(entries@), name@) == Some(v@),
            None => lookup_pair(piece_views(entries@), name@) is None,
        },
{
    let ghost all = piece_views(entries@);
    let mut i: usize = 0;
    assert(all.subrange(0, all.len() as int) =~= all);
    while i < entries.len()
        invariant
            i <= entries.len(),
            all == piece_views(entries@),
            lookup_pair(all, name@) == lookup_pair(all.subrange(i as int, all.len() as int), name@),
        decreases entries.len() - i,
    {
        let ghost rest = all.subrange(i as int, all.len() as int);
        assert(rest[0] == (entries@[i as int].0@, entries@[i as int].1@));
        assert(rest.drop_first() =~= all.subrange(i + 1, all.len() as int));
        if crate::text::eq_str(&entries[i].0, name) {
            return Some(&entries[i].1);
        }
        i += 1;
    }
    None
}

/// The template with each `${env:NAME}` replaced by the variable's value, or the
/// first name that is not set.
pub open spec fn expand_pieces(
    pieces: Seq<(Seq<char>, Seq<char>)>,
    n: int,
    env: Seq<(Seq<char>, Seq<char>)>,
) -> Result<Seq<char>, Seq<char>>
    decreases n,
{
    if n <= 0 || n > pieces.len() {
        Ok(Seq::empty())
    } else {
        match expand_pieces(pieces, n - 1, env) {
            Err(e) => Err(e),
            Ok(acc) => match lookup_pair(env, pieces[n - 1].1) {
                Some(v) => Ok(acc + pieces[n - 1].0 + v),
                None => Err(pieces[n - 1].1),
            },
        }
    }
}

/// Why a pipeline could not be planned.
#[derive(Debug)]
pub enum PipelineError {
    ProfileNotFound(String),
    NoProvider,
    ProviderNotDefined(String),
    WrapperNotFound(String),
    UnknownSnippet { kind: String, name: String },
    EnvNotSet { key: String, provider: String, var: String },
    MissingVariable(String),
    UnknownPlaceholder(String),
    BadPattern,
}

/// A `PipelineError` as text fields.
pub enum ErrView {
    ProfileNotFound(Seq<char>),
    NoProvider,
    ProviderNotDefined(Seq<char>),
    WrapperNotFound(Seq<char>),
    UnknownSnippet(Seq<char>, Seq<char>),
    EnvNotSet(Seq<char>, Seq<char>, Seq<char>),
    MissingVariable(Seq<char>),
    UnknownPlaceholder(Seq<char>),
    BadPattern,
}

pub open spec fn err_view(e: PipelineError) -> ErrView {
    match e {
        PipelineError::ProfileNotFound(n) => ErrView::ProfileNotFound(n@),
        PipelineError::NoProvider => ErrView::NoProvider,
        PipelineError::ProviderNotDefined(n) => ErrView::ProviderNotDefined(n@),
        PipelineError::WrapperNotFound(n) => ErrView::WrapperNotFound(n@),
        PipelineError::UnknownSnippet { kind, name } => ErrView::UnknownSnippet(kind@, name@),
        PipelineError::EnvNotSet { key, provider, var } => ErrView::EnvNotSet(key@, provider@, var@),
        PipelineError::MissingVariable(n) => ErrView::MissingVariable(n@),
        PipelineError::UnknownPlaceholder(k) => ErrView::UnknownPlaceholder(k@),
        PipelineError::BadPattern => ErrView::BadPattern,
    }
}

/// The message shown for an error.
pub open spec fn err_text(e: ErrView) -> Seq<char> {
    match e {
        ErrView::ProfileNotFound(n) => "profile '"@ + n + "' not found"@,
        ErrView::NoProvider => "no provider selected; specify --profile or <provider>"@,
        ErrView::ProviderNotDefined(n) => "provider '"@ + n + "' not defined"@,
        ErrView::WrapperNotFound(n) => "wrapper '"@ + n + "' not found"@,
        ErrView::UnknownSnippet(kind, n) => "unknown "@ + kind + " snippet '"@ + n + "' \u{2014} define it under [snippets."@ + kind
            + "] in configuration"@,
        ErrView::EnvNotSet(key, provider, var) => "while expanding $"@ + key + " for provider "@ + provider
            + ": environment variable '"@ + var + "' not set"@,
        ErrView::MissingVariable(n) => "missing value for variable '"@ + n + "'"@,
        ErrView::UnknownPlaceholder(k) => "unknown template placeholder '{{"@ + k + "}}'"@,
        ErrView::BadPattern => "placeholder pattern does not compile"@,
    }
}

impl PipelineError {
    /// The message, as `Display` would show it.
    pub fn message(&self) -> (r: String)
        ensures
            r@ == err_text(err_view(*self)),
    {
        let mut m: Vec<char> = Vec::new();
        match self {
            PipelineError::ProfileNotFound(n) => {
                append_str(&mut m, "profile '");
                append_chars(&mut m, &str_chars(n));
                append_str(&mut m, "' not found");
            },
            PipelineError::NoProvider => {
                append_str(&mut m, "no provider selected; specify --profile or <provider>");
            },
            PipelineError::ProviderNotDefined(n) => {
                append_str(&mut m, "provider '");
                append_chars(&mut m, &str_chars(n));
                append_str(&mut m, "' not defined");
            },
            PipelineError::WrapperNotFound(n) => {
                append_str(&mut m, "wrapper '");
                append_chars(&mut m, &str_chars(n));
                append_str(&mut m, "' not found");
            },
            PipelineError::UnknownSnippet { kind, name } => {
                append_str(&mut m, "unknown ");
                append_chars(&mut m, &str_chars(kind));
                append_str(&mut m, " snippet '");
                append_chars(&mut m, &str_chars(name));
                append_str(&mut m, "' \u{2014} define it under [snippets.");
                append_chars(&mut m, &str_chars(kind));
                append_str(&mut m, "] in configuration");
            },
            PipelineError::EnvNotSet { key, provider, var } => {
                append_str(&mut m, "while expanding $");
                append_chars(&mut m, &str_chars(key));
                append_str(&mut m, " for provider ");
                append_chars(&mut m, &str_chars(provider));
                append_str(&mut m, ": environment variable '");
                append_chars(&mut m, &str_chars(var));
                append_str(&mut m, "' not set");
            },
            PipelineError::MissingVariable(n) => {
                append_str(&mut m, "missing value for variable '");
                append_chars(&mut m, &str_chars(n));
                append_str(&mut m, "'");
            },
            PipelineError::UnknownPlaceholder(k) => {
                append_str(&mut m, "unknown template placeholder '{{");
                append_chars(&mut m, &str_chars(k));
                append_str(&mut m, "}}'");
            },
            PipelineError::BadPattern => {
                append_str(&mut m, "placeholder pattern does not compile");
            },
        }
        string_of(&m)
    }
}

/// `expand_env_template`: `Ok(text)`, or `Err(name)` for the first variable that
/// is not set; `None` when the pattern does not compile.
pub open spec fn expanded_env(template: Seq<char>, env: Seq<(Seq<char>, Seq<char>)>) -> Option<Result<Seq<char>, Seq<char>>> {
    match regex_pieces(ENV_TOKEN@, template) {
        None => None,
        Some((pieces, tail)) => Some(
            match expand_pieces(pieces, pieces.len() as int, env) {
                Ok(acc) => Ok(acc + tail),
                Err(e) => Err(e),
            },
        ),
    }
}

/// Replace each `${env:NAME}` in the template by the value `NAME` has in `env`
/// (the process environment, read by the caller).
pub fn expand_env_template(template: &str, env: &Vec<(String, String)>) -> (r: Option<Result<String, String>>)
    ensures
        match r {
            None => expanded_env(template@, piece_views(env@)) is None,
            Some(Ok(s)) => expanded_env(template@, piece_views(env@)) == Some(Ok::<Seq<char>, Seq<char>>(s@)),
            Some(Err(v)) => expanded_env(template@, piece_views(env@)) == Some(Err::<Seq<char>, Seq<char>>(v@)),
        },
{
    let (pieces, tail) = match split_captures(ENV_TOKEN, template) {
        Some(p) => p,
        None => return None,
    };
    let ghost pv = piece_views(pieces@);
    let mut out: Vec<char> = Vec::new();
    let mut i: usize = 0;
    while i < pieces.len()
        invariant
            i <= pieces.len(),
            pv == piece_views(pieces@),
            regex_pieces(ENV_TOKEN@, template@) == Some((pv, tail@)),
            expand_pieces(pv, i as int, piece_views(env@)) == Ok::<Seq<char>, Seq<char>>(out@),
        decreases pieces.len() - i,
    {
        assert(pv[i as int] == (pieces@[i as int].0@, pieces@[i as int].1@));
        match lookup_value(env, pieces[i].1.as_str()) {
            Some(v) => {
                append_chars(&mut out, &str_chars(&pieces[i].0));
                append_chars(&mut out, &str_chars(v));
            },
            None => {
                proof {
                    lemma_expand_err_stays(pv, i as int + 1, piece_views(env@));
                }
                return Some(Err(pieces[i].1.clone()));
            },
        }
        i += 1;
    }
    assert(pv.len() == pieces@.len());
    append_chars(&mut out, &str_chars(&tail));
    Some(Ok(string_of(&out)))
}

proof fn lemma_expand_err_stays(pieces: Seq<(Seq<char>, Seq<char>)>, n: int, env: Seq<(Seq<char>, Seq<char>)>)
    requires
        0 <= n <= pieces.len(),
        expand_pieces(pieces, n, env) is Err,
    ensures
        expand_pieces(pieces, pieces.len() as int, env) == expand_pieces(pieces, n, env),
    decreases pieces.len() - n,
{
    if n < pieces.len() {
        lemma_expand_err_stays(pieces, n + 1, env);
    }
}


// ---------------------------------------------------------------------------
// Wrapper templates
// ---------------------------------------------------------------------------

/// How `{{CMD}}` is substituted: as it is (exec wrappers), or as one
/// single-quoted shell word (shell wrappers).
#[derive(Debug, Clone, Copy, PartialEq, Eq, Structural)]
pub enum CmdMode {
    Raw,
    Shell,
}

/// The values a wrapper template can refer to.
pub struct TemplateContext<'a> {
    pub pipeline: &'a str,
    pub provider: &'a str,
    pub session_id: Option<&'a str>,
    pub session_label: Option<&'a str>,
    pub session_path: Option<&'a str>,
    pub session_resume_token: Option<&'a str>,
    pub cwd: &'a str,
    pub vars: &'a Vec<(String, String)>,
}

pub open spec fn or_empty(o: Option<&str>) -> Seq<char> {
    match o {
        Some(s) => s@,
        None => Seq::empty(),
    }
}

/// A template context as text.
pub struct CtxView {
    pub pipeline: Seq<char>,
    pub provider: Seq<char>,
    pub session_id: Seq<char>,
    pub session_label: Seq<char>,
    pub session_path: Seq<char>,
    pub session_resume_token: Seq<char>,
    pub cwd: Seq<char>,
    pub vars: Seq<(Seq<char>, Seq<char>)>,
}

pub open spec fn ctx_view(ctx: TemplateContext) -> CtxView {
    CtxView {
        pipeline: ctx.pipeline@,
        provider: ctx.provider@,
        session_id: or_empty(ctx.session_id),
        session_label: or_empty(ctx.session_label),
        session_path: or_empty(ctx.session_path),
        session_resume_token: or_empty(ctx.session_resume_token),
        cwd: ctx.cwd@,
        vars: piece_views(ctx.vars@),
    }
}

/// The text a `{{key}}` placeholder stands for.
pub open spec fn placeholder_of(key: Seq<char>, ctx: CtxView, mode: CmdMode) -> Result<Seq<char>, ErrView> {
    if key == "CMD"@ {
        Ok(
            match mode {
                CmdMode::Raw => ctx.pipeline,
                CmdMode::Shell => single_quoted(ctx.pipeline),
            },
        )
    } else if key == "provider"@ {
        Ok(ctx.provider)
    } else if key == "session.id"@ {
        Ok(ctx.session_id)
    } else if key == "session.label"@ {
        Ok(ctx.session_label)
    } else if key == "session.path"@ {
        Ok(ctx.session_path)
    } else if key == "session.resume_token"@ {
        Ok(ctx.session_resume_token)
    } else if key == "cwd"@ {
        Ok(ctx.cwd)
    } else if starts_with(key, "var:"@) {
        let name = key.subrange(4, key.len() as int);
        match lookup_pair(ctx.vars, name) {
            Some(v) => Ok(v),
            None => Err(ErrView::MissingVariable(name)),
        }
    } else {
        Err(ErrView::UnknownPlaceholder(key))
    }
}

fn str_is(s: &str, lit: &str) -> (r: bool)
    ensures
        r == (s@ == lit@),
{
    crate::text::eq_chars(&chars_of(s), &chars_of(lit))
}

fn opt_text(o: Option<&str>) -> (r: String)
    ensures
        r@ == or_empty(o),
{
    match o {
        Some(s) => s.to_owned(),
        None => String::new(),
    }
}

pub fn resolve_placeholder(key: &str, ctx: &TemplateContext, mode: CmdMode) -> (r: Result<String, PipelineError>)
    ensures
        match r {
            Ok(s) => placeholder_of(key@, ctx_view(*ctx), mode) == Ok::<Seq<char>, ErrView>(s@),
            Err(e) => placeholder_of(key@, ctx_view(*ctx), mode) == Err::<Seq<char>, ErrView>(err_view(e)),
        },
{
    if str_is(key, "CMD") {
        return Ok(
            match mode {
                CmdMode::Raw => ctx.pipeline.to_owned(),
                CmdMode::Shell => single_quote(ctx.pipeline),
            },
        );
    }
    if str_is(key, "provider") {
        return Ok(ctx.provider.to_owned());
    }
    if str_is(key, "session.id") {
        return Ok(opt_text(ctx.session_id));
    }
    if str_is(key, "session.label") {
        return Ok(opt_text(ctx.session_label));
    }
    if str_is(key, "session.path") {
        return Ok(opt_text(ctx.session_path));
    }
    if str_is(key, "session.resume_token") {
        return Ok(opt_text(ctx.session_resume_token));
    }
    if str_is(key, "cwd") {
        return Ok(ctx.cwd.to_owned());
    }
    let kc = chars_of(key);
    proof {
        reveal_strlit("var:");
    }
    if crate::text::starts_with_str(&kc, "var:") {
        let name = string_of(&crate::text::slice_chars(&kc, 4, kc.len()));
        return match lookup_value(ctx.vars, name.as_str()) {
            Some(v) => Ok(v.clone()),
            None => Err(PipelineError::MissingVariable(name)),
        };
    }
    Err(PipelineError::UnknownPlaceholder(key.to_owned()))
}

/// The pieces of a template with their placeholders filled, or the first error.
pub open spec fn render_pieces(
    pieces: Seq<(Seq<char>, Seq<char>)>,
    n: int,
    ctx: CtxView,
    mode: CmdMode,
) -> Result<Seq<char>, ErrView>
    decreases n,
{
    if n <= 0 || n > pieces.len() {
        Ok(Seq::empty())
    } else {
        match render_pieces(pieces, n - 1, ctx, mode) {
            Err(e) => Err(e),
            Ok(acc) => match placeholder_of(pieces[n - 1].1, ctx, mode) {
                Ok(v) => Ok(acc + pieces[n - 1].0 + v),
                Err(e) => Err(e),
            },
        }
    }
}

/// `render_template`: each `{{key}}` replaced by its value.
pub open spec fn rendered(input: Seq<char>, ctx: CtxView, mode: CmdMode) -> Result<Seq<char>, ErrView> {
    match regex_pieces(TEMPLATE_TOKEN@, input) {
        None => Err(ErrView::BadPattern),
        Some((pieces, tail)) => match render_pieces(pieces, pieces.len() as int, ctx, mode) {
            Ok(acc) => Ok(acc + tail),
            Err(e) => Err(e),
        },
    }
}

proof fn lemma_render_err_stays(pieces: Seq<(Seq<char>, Seq<char>)>, n: int, ctx: CtxView, mode: CmdMode)
    requires
        0 <= n <= pieces.len(),
        render_pieces(pieces, n, ctx, mode) is Err,
    ensures
        render_pieces(pieces, pieces.len() as int, ctx, mode) == render_pieces(pieces, n, ctx, mode),
    decreases pieces.len() - n,
{
    if n < pieces.len() {
        lemma_render_err_stays(pieces, n + 1, ctx, mode);
    }
}

pub fn render_template(input: &str, ctx: &TemplateContext, mode: CmdMode) -> (r: Result<String, PipelineError>)
    ensures
        match r {
            Ok(s) => rendered(input@, ctx_view(*ctx), mode) == Ok::<Seq<char>, ErrView>(s@),
            Err(e) => rendered(input@, ctx_view(*ctx), mode) == Err::<Seq<char>, ErrView>(err_view(e)),
        },
{
    let (pieces, tail) = match split_captures(TEMPLATE_TOKEN, input) {
        Some(p) => p,
        None => return Err(PipelineError::BadPattern),
    };
    let ghost pv = piece_views(pieces@);
    let mut out: Vec<char> = Vec::new();
    let mut i: usize = 0;
    while i < pieces.len()
        invariant
            i <= pieces.len(),
            pv == piece_views(pieces@),
            regex_pieces(TEMPLATE_TOKEN@, input@) == Some((pv, tail@)),
            render_pieces(pv, i as int, ctx_view(*ctx), mode) == Ok::<Seq<char>, ErrView>(out@),
        decreases pieces.len() - i,
    {
        assert(pv[i as int] == (pieces@[i as int].0@, pieces@[i as int].1@));
        match resolve_placeholder(pieces[i].1.as_str(), ctx, mode) {
            Ok(v) => {
                append_chars(&mut out, &str_chars(&pieces[i].0));
                append_chars(&mut out, &str_chars(&v));
            },
            Err(e) => {
                proof {
                    lemma_render_err_stays(pv, i as int + 1, ctx_view(*ctx), mode);
                }
                return Err(e);
            },
        }
        i += 1;
    }
    assert(pv.len() == pieces@.len());
    append_chars(&mut out, &str_chars(&tail));
    Ok(string_of(&out))
}

/// How the planned command is run.
#[derive(Debug)]
pub enum Invocation {
    Shell { command: String },
    Exec { argv: Vec<String> },
}

pub enum InvView {
    Shell(Seq<char>),
    Exec(Seq<Seq<char>>),
}

pub open spec fn inv_view(i: Invocation) -> InvView {
    match i {
        Invocation::Shell { command } => InvView::Shell(command@),
        Invocation::Exec { argv } => InvView::Exec(string_views(argv@)),
    }
}

/// Each argument rendered in order, or the first error.
pub open spec fn render_all(args: Seq<Seq<char>>, n: int, ctx: CtxView) -> Result<Seq<Seq<char>>, ErrView>
    decreases n,
{
    if n <= 0 || n > args.len() {
        Ok(Seq::empty())
    } else {
        match render_all(args, n - 1, ctx) {
            Err(e) => Err(e),
            Ok(acc) => match rendered(args[n - 1], ctx, CmdMode::Raw) {
                Ok(v) => Ok(acc.push(v)),
                Err(e) => Err(e),
            },
        }
    }
}

proof fn lemma_render_all_err_stays(args: Seq<Seq<char>>, n: int, ctx: CtxView)
    requires
        0 <= n <= args.len(),
        render_all(args, n, ctx) is Err,
    ensures
        render_all(args, args.len() as int, ctx) == render_all(args, n, ctx),
    decreases args.len() - n,
{
    if n < args.len() {
        lemma_render_all_err_stays(args, n + 1, ctx);
    }
}

/// `render_wrapper`: a shell wrapper's command rendered with `{{CMD}}` quoted; an
/// exec wrapper's arguments each rendered with `{{CMD}}` as it is.
pub open spec fn wrapper_invocation(mode: crate::config::model::WrapperMode, ctx: CtxView) -> Result<InvView, ErrView> {
    match mode {
        crate::config::model::WrapperMode::Shell { command } => match rendered(command@, ctx, CmdMode::Shell) {
            Ok(c) => Ok(InvView::Shell(c)),
            Err(e) => Err(e),
        },
        crate::config::model::WrapperMode::Exec { argv } => match render_all(string_views(argv@), argv@.len() as int, ctx) {
            Ok(a) => Ok(InvView::Exec(a)),
            Err(e) => Err(e),
        },
    }
}

#[verifier::loop_isolation(false)]
pub fn render_wrapper(wrapper: &crate::config::model::WrapperConfig, ctx: &TemplateContext) -> (r: Result<Invocation, PipelineError>)
    ensures
        match r {
            Ok(i) => wrapper_invocation(wrapper.mode, ctx_view(*ctx)) == Ok::<InvView, ErrView>(inv_view(i)),
            Err(e) => wrapper_invocation(wrapper.mode, ctx_view(*ctx)) == Err::<InvView, ErrView>(err_view(e)),
        },
{
    match &wrapper.mode {
        crate::config::model::WrapperMode::Shell { command } => {
            let rendered = render_template(command.as_str(), ctx, CmdMode::Shell)?;
            Ok(Invocation::Shell { command: rendered })
        },
        crate::config::model::WrapperMode::Exec { argv } => {
            let ghost av = string_views(argv@);
            let mut out: Vec<String> = Vec::new();
            let mut i: usize = 0;
            assert(string_views(out@) =~= Seq::<Seq<char>>::empty());
            while i < argv.len()
                invariant
                    i <= argv.len(),
                    av == string_views(argv@),
                    render_all(av, i as int, ctx_view(*ctx)) == Ok::<Seq<Seq<char>>, ErrView>(string_views(out@)),
                decreases argv.len() - i,
            {
                assert(av[i as int] == argv@[i as int]@);
                match render_template(argv[i].as_str(), ctx, CmdMode::Raw) {
                    Ok(v) => {
                        let ghost before = out@;
                        out.push(v);
                        assert(string_views(out@) =~= string_views(before).push(v@));
                    },
                    Err(e) => {
                        proof {
                            lemma_render_all_err_stays(av, i as int + 1, ctx_view(*ctx));
                        }
                        return Err(e);
                    },
                }
                i += 1;
            }
            assert(av.len() == argv@.len());
            Ok(Invocation::Exec { argv: out })
        },
    }
}


// ---------------------------------------------------------------------------
// The request and the plan
// ---------------------------------------------------------------------------

/// The session a pipeline resumes, if any.
#[derive(Debug, Clone)]
pub struct SessionContext {
    pub id: Option<String>,
    pub label: Option<String>,
    pub path: Option<String>,
    pub resume_token: Option<String>,
}

impl Default for SessionContext {
    fn default() -> (r: Self)
        ensures
            r.id is None && r.label is None && r.path is None && r.resume_token is None,
    {
        SessionContext { id: None, label: None, path: None, resume_token: None }
    }
}

/// What to run: the configuration, the choices made on the command line, and
/// the values of the surroundings (working directory, environment, the path of
/// this program) that the plan refers to.
pub struct PipelineRequest<'a> {
    pub config: &'a Config,
    pub provider_hint: Option<&'a str>,
    pub profile: Option<&'a str>,
    pub additional_pre: Vec<String>,
    pub additional_post: Vec<String>,
    pub inline_pre: Vec<String>,
    pub wrap: Option<&'a str>,
    pub provider_args: Vec<String>,
    pub capture_prompt: bool,
    pub vars: Vec<(String, String)>,
    pub session: SessionContext,
    pub cwd: String,
    pub environment: Vec<(String, String)>,
    pub tx_path: String,
}

/// The planned command.
#[derive(Debug)]
pub struct PipelinePlan {
    pub pipeline: String,
    pub display: String,
    pub friendly_display: String,
    pub env: Vec<(String, String)>,
    pub invocation: Invocation,
    pub provider: String,
    pub pre_snippets: Vec<String>,
    pub post_snippets: Vec<String>,
    pub wrapper: Option<String>,
    pub cwd: String,
}

pub open spec fn sv(o: Option<&str>) -> Option<Seq<char>> {
    match o {
        Some(s) => Some(s@),
        None => None,
    }
}

/// The profile named on the command line, if any.
pub open spec fn profile_sel(c: Config, name: Option<Seq<char>>) -> Result<Option<ProfileConfig>, ErrView> {
    match name {
        Some(n) => match lookup(profile_entries(c.profiles), n) {
            Some(p) => Ok(Some(p)),
            None => Err(ErrView::ProfileNotFound(n)),
        },
        None => Ok(None),
    }
}

/// The provider's name: the profile's, else the hint, else the default.
pub open spec fn provider_name_sel(c: Config, profile: Option<ProfileConfig>, hint: Option<Seq<char>>) -> Option<Seq<char>> {
    match profile {
        Some(p) => Some(p.provider@),
        None => match hint {
            Some(h) => Some(h),
            None => opt_view(c.defaults.provider),
        },
    }
}

pub open spec fn provider_sel(c: Config, profile: Option<ProfileConfig>, hint: Option<Seq<char>>) -> Result<ProviderConfig, ErrView> {
    match provider_name_sel(c, profile, hint) {
        None => Err(ErrView::NoProvider),
        Some(n) => match lookup(provider_entries(c.providers), n) {
            Some(p) => Ok(p),
            None => Err(ErrView::ProviderNotDefined(n)),
        },
    }
}

/// The wrapper's name: the one asked for, else the profile's.
pub open spec fn wrap_name_sel(requested: Option<Seq<char>>, profile: Option<ProfileConfig>) -> Option<Seq<char>> {
    match requested {
        Some(w) => Some(w),
        None => match profile {
            Some(p) => opt_view(p.wrap),
            None => None,
        },
    }
}

pub open spec fn wrapper_sel(c: Config, name: Option<Seq<char>>) -> Result<Option<WrapperConfig>, ErrView> {
    match name {
        Some(n) => match lookup(wrapper_entries(c.wrappers), n) {
            Some(w) => Ok(Some(w)),
            None => Err(ErrView::WrapperNotFound(n)),
        },
        None => Ok(None),
    }
}

fn resolve_profile<'a>(config: &'a Config, name: Option<&str>) -> (r: Result<Option<&'a ProfileConfig>, PipelineError>)
    ensures
        match r {
            Ok(Some(p)) => profile_sel(*config, sv(name)) == Ok::<Option<ProfileConfig>, ErrView>(Some(*p)),
            Ok(None) => profile_sel(*config, sv(name)) == Ok::<Option<ProfileConfig>, ErrView>(None),
            Err(e) => profile_sel(*config, sv(name)) == Err::<Option<ProfileConfig>, ErrView>(err_view(e)),
        },
{
    match name {
        Some(n) => match profiles_get(&config.profiles, n) {
            Some(p) => Ok(Some(p)),
            None => Err(PipelineError::ProfileNotFound(n.to_owned())),
        },
        None => Ok(None),
    }
}

fn resolve_provider<'a>(config: &'a Config, profile: Option<&ProfileConfig>, hint: Option<&str>) -> (r: Result<&'a ProviderConfig, PipelineError>)
    ensures
        match r {
            Ok(p) => provider_sel(*config, match profile { Some(x) => Some(*x), None => None }, sv(hint)) == Ok::<ProviderConfig, ErrView>(*p),
            Err(e) => provider_sel(*config, match profile { Some(x) => Some(*x), None => None }, sv(hint)) == Err::<ProviderConfig, ErrView>(err_view(e)),
        },
{
    let name: &str = match profile {
        Some(p) => p.provider.as_str(),
        None => match hint {
            Some(h) => h,
            None => match &config.defaults.provider {
                Some(d) => d.as_str(),
                None => return Err(PipelineError::NoProvider),
            },
        },
    };
    match providers_get(&config.providers, name) {
        Some(p) => Ok(p),
        None => Err(PipelineError::ProviderNotDefined(name.to_owned())),
    }
}

fn determine_wrapper<'a>(config: &'a Config, requested: Option<&str>, profile: Option<&ProfileConfig>) -> (r: Result<(Option<&'a WrapperConfig>, Option<String>), PipelineError>)
    ensures
        match r {
            Ok((w, name)) => {
                &&& opt_view(name) == wrap_name_sel(sv(requested), match profile { Some(x) => Some(*x), None => None })
                &&& wrapper_sel(*config, opt_view(name)) == Ok::<Option<WrapperConfig>, ErrView>(match w { Some(x) => Some(*x), None => None })
            },
            Err(e) => wrapper_sel(*config, wrap_name_sel(sv(requested), match profile { Some(x) => Some(*x), None => None }))
                == Err::<Option<WrapperConfig>, ErrView>(err_view(e)),
        },
{
    let wrap_name: Option<String> = match requested {
        Some(w) => Some(w.to_owned()),
        None => match profile {
            Some(p) => crate::session::clone_opt_string(&p.wrap),
            None => None,
        },
    };
    let wrapper = match &wrap_name {
        Some(n) => match wrappers_get(&config.wrappers, n.as_str()) {
            Some(w) => Some(w),
            None => return Err(PipelineError::WrapperNotFound(n.clone())),
        },
        None => None,
    };
    Ok((wrapper, wrap_name))
}

/// The snippet names: the profile's, then those added on the command line.
pub open spec fn names_of(profile_names: Option<Seq<Seq<char>>>, extra: Seq<Seq<char>>) -> Seq<Seq<char>> {
    match profile_names {
        Some(ns) => ns + extra,
        None => extra,
    }
}

fn append_strings(out: &mut Vec<String>, more: &Vec<String>)
    ensures
        string_views(final(out)@) == string_views(old(out)@) + string_views(more@),
{
    let ghost start = string_views(out@);
    let mut i: usize = 0;
    while i < more.len()
        invariant
            i <= more.len(),
            string_views(out@) == start + string_views(more@).subrange(0, i as int),
        decreases more.len() - i,
    {
        let ghost before = out@;
        out.push(more[i].clone());
        assert(string_views(out@) =~= string_views(before).push(more@[i as int]@));
        assert(string_views(more@).subrange(0, i + 1) =~= string_views(more@).subrange(0, i as int).push(more@[i as int]@));
        assert(string_views(out@) =~= start + string_views(more@).subrange(0, i + 1));
        i += 1;
    }
    assert(string_views(more@).subrange(0, more@.len() as int) =~= string_views(more@));
}

/// Each snippet's command in order, or an error naming the first unknown one.
pub open spec fn snippet_cmds(
    entries: Seq<(Seq<char>, Snippet)>,
    names: Seq<Seq<char>>,
    n: int,
    kind: Seq<char>,
) -> Result<Seq<Seq<char>>, ErrView>
    decreases n,
{
    if n <= 0 || n > names.len() {
        Ok(Seq::empty())
    } else {
        match snippet_cmds(entries, names, n - 1, kind) {
            Err(e) => Err(e),
            Ok(acc) => match lookup(entries, names[n - 1]) {
                Some(s) => Ok(acc.push(s.command@)),
                None => Err(ErrView::UnknownSnippet(kind, names[n - 1])),
            },
        }
    }
}

proof fn lemma_snippet_err_stays(entries: Seq<(Seq<char>, Snippet)>, names: Seq<Seq<char>>, n: int, kind: Seq<char>)
    requires
        0 <= n <= names.len(),
        snippet_cmds(entries, names, n, kind) is Err,
    ensures
        snippet_cmds(entries, names, names.len() as int, kind) == snippet_cmds(entries, names, n, kind),
    decreases names.len() - n,
{
    if n < names.len() {
        lemma_snippet_err_stays(entries, names, n + 1, kind);
    }
}

pub fn resolve_snippets(snippets: &SnippetMap, names: &Vec<String>, kind: &str) -> (r: Result<Vec<String>, PipelineError>)
    ensures
        match r {
            Ok(v) => snippet_cmds(snippet_entries(*snippets), string_views(names@), names@.len() as int, kind@)
                == Ok::<Seq<Seq<char>>, ErrView>(string_views(v@)),
            Err(e) => snippet_cmds(snippet_entries(*snippets), string_views(names@), names@.len() as int, kind@)
                == Err::<Seq<Seq<char>>, ErrView>(err_view(e)),
        },
{
    let ghost nv = string_views(names@);
    let mut out: Vec<String> = Vec::new();
    let mut i: usize = 0;
    assert(string_views(out@) =~= Seq::<Seq<char>>::empty());
    while i < names.len()
        invariant
            i <= names.len(),
            nv == string_views(names@),
            snippet_cmds(snippet_entries(*snippets), nv, i as int, kind@) == Ok::<Seq<Seq<char>>, ErrView>(string_views(out@)),
        decreases names.len() - i,
    {
        assert(nv[i as int] == names@[i as int]@);
        match snippets_get(snippets, names[i].as_str()) {
            Some(snippet) => {
                let ghost before = out@;
                out.push(snippet.command.clone());
                assert(string_views(out@) =~= string_views(before).push(snippet.command@));
            },
            None => {
                proof {
                    lemma_snippet_err_stays(snippet_entries(*snippets), nv, i as int + 1, kind@);
                }
                return Err(PipelineError::UnknownSnippet { kind: kind.to_owned(), name: names[i].clone() });
            },
        }
        i += 1;
    }
    assert(nv.len() == names@.len());
    Ok(out)
}

/// Whether the provider takes the prompt as an argument (`capture_arg`).
pub open spec fn captures(p: ProviderConfig) -> bool {
    p.stdin matches Some(m) && m.mode == StdinMode::CaptureArg
}

/// `build_provider_args`: the provider's flags, then its stdin arguments (for a
/// capturing provider only when the prompt is captured), then the extra
/// arguments.
pub open spec fn provider_args_of(p: ProviderConfig, capture_requested: bool, extra: Seq<Seq<char>>) -> Seq<Seq<char>> {
    string_views(p.flags@) + match p.stdin {
        Some(m) => if captures(p) && !capture_requested {
            Seq::empty()
        } else {
            string_views(m.args@)
        },
        None => Seq::empty(),
    } + extra
}

fn build_provider_args(provider: &ProviderConfig, capture_requested: bool, extra: &Vec<String>) -> (r: Vec<String>)
    ensures
        string_views(r@) == provider_args_of(*provider, capture_requested, string_views(extra@)),
{
    let mut args = crate::config::model::clone_strings(&provider.flags);
    let capture = match &provider.stdin {
        Some(m) => m.mode == StdinMode::CaptureArg,
        None => false,
    };
    if let Some(stdin) = &provider.stdin {
        if capture {
            if capture_requested {
                append_strings(&mut args, &stdin.args);
            }
        } else {
            append_strings(&mut args, &stdin.args);
        }
    }
    let ghost mid = string_views(args@);
    append_strings(&mut args, extra);
    assert(string_views(args@) =~= provider_args_of(*provider, capture_requested, string_views(extra@)));
    args
}

/// Each item preceded by the flag.
pub open spec fn flagged(flag: Seq<char>, items: Seq<Seq<char>>) -> Seq<Seq<char>>
    decreases items.len(),
{
    if items.len() == 0 {
        Seq::empty()
    } else {
        flagged(flag, items.drop_last()) + seq![flag, items.last()]
    }
}

/// The arguments of `tx internal capture-arg` for this provider.
pub open spec fn capture_args(provider: ProviderConfig, pre: Seq<Seq<char>>, args: Seq<Seq<char>>) -> Seq<Seq<char>> {
    seq!["internal"@, "capture-arg"@, "--provider"@, provider.name@, "--bin"@, provider.bin@] + flagged("--pre"@, pre)
        + flagged("--arg"@, args)
}

fn push_flagged(out: &mut Vec<String>, flag: &str, items: &Vec<String>)
    ensures
        string_views(final(out)@) == string_views(old(out)@) + flagged(flag@, string_views(items@)),
{
    let ghost start = string_views(out@);
    let ghost iv = string_views(items@);
    let mut i: usize = 0;
    assert(iv.subrange(0, 0) =~= Seq::<Seq<char>>::empty());
    assert(start + flagged(flag@, iv.subrange(0, 0)) =~= start);
    while i < items.len()
        invariant
            i <= items.len(),
            iv == string_views(items@),
            string_views(out@) == start + flagged(flag@, iv.subrange(0, i as int)),
        decreases items.len() - i,
    {
        let ghost before = string_views(out@);
        out.push(flag.to_owned());
        out.push(items[i].clone());
        assert(iv.subrange(0, i + 1).drop_last() =~= iv.subrange(0, i as int));
        assert(string_views(out@) =~= before + seq![flag@, iv[i as int]]);
        assert(string_views(out@) =~= start + flagged(flag@, iv.subrange(0, i + 1)));
        i += 1;
    }
    assert(iv.subrange(0, items@.len() as int) =~= iv);
}

/// `build_capture_command`: `tx internal capture-arg …` as a shell command.
pub fn build_capture_command(tx_path: &str, provider: &ProviderConfig, pre: &Vec<String>, args: &Vec<String>) -> (r: String)
    ensures
        r@ == command_text(tx_path@, capture_args(*provider, string_views(pre@), string_views(args@))),
{
    let mut internal: Vec<String> = Vec::new();
    internal.push("internal".to_owned());
    internal.push("capture-arg".to_owned());
    internal.push("--provider".to_owned());
    internal.push(provider.name.clone());
    internal.push("--bin".to_owned());
    internal.push(provider.bin.clone());
    let ghost head = string_views(internal@);
    assert(head =~= seq!["internal"@, "capture-arg"@, "--provider"@, provider.name@, "--bin"@, provider.bin@]);
    push_flagged(&mut internal, "--pre", pre);
    push_flagged(&mut internal, "--arg", args);
    assert(string_views(internal@) =~= capture_args(*provider, string_views(pre@), string_views(args@)));
    command_string(tx_path, &internal)
}

/// `compose_stages`: the capture command, or the pre commands then the provider
/// command; then the post commands.
pub open spec fn stages_of(
    tx_path: Seq<char>,
    p: ProviderConfig,
    capture: bool,
    pre: Seq<Seq<char>>,
    post: Seq<Seq<char>>,
    args: Seq<Seq<char>>,
) -> Seq<Seq<char>> {
    if capture {
        seq![command_text(tx_path, capture_args(p, pre, args))] + post
    } else {
        pre + seq![command_text(p.bin@, args)] + post
    }
}

fn compose_stages(tx_path: &str, provider: &ProviderConfig, capture: bool, pre: &Vec<String>, post: &Vec<String>, args: &Vec<String>) -> (r: Vec<String>)
    ensures
        string_views(r@) == stages_of(tx_path@, *provider, capture, string_views(pre@), string_views(post@), string_views(args@)),
{
    let mut stages: Vec<String> = Vec::new();
    assert(string_views(stages@) =~= Seq::<Seq<char>>::empty());
    if capture {
        let c = build_capture_command(tx_path, provider, pre, args);
        stages.push(c);
        assert(string_views(stages@) =~= seq![c@]);
    } else {
        append_strings(&mut stages, pre);
        let c = command_string(provider.bin.as_str(), args);
        let ghost before = stages@;
        stages.push(c);
        assert(string_views(stages@) =~= string_views(before).push(c@));
    }
    append_strings(&mut stages, post);
    assert(string_views(stages@) =~= stages_of(tx_path@, *provider, capture, string_views(pre@), string_views(post@), string_views(args@)));
    stages
}

pub open spec fn env_views(vs: Seq<crate::config::model::EnvVar>) -> Seq<(Seq<char>, Seq<char>)> {
    Seq::new(vs.len(), |i: int| (vs[i].key@, vs[i].value_template@))
}

/// `render_env`: each `KEY=template` with its template expanded, or the first
/// failure.
pub open spec fn env_rendered(
    entries: Seq<(Seq<char>, Seq<char>)>,
    n: int,
    provider: Seq<char>,
    env: Seq<(Seq<char>, Seq<char>)>,
) -> Result<Seq<(Seq<char>, Seq<char>)>, ErrView>
    decreases n,
{
    if n <= 0 || n > entries.len() {
        Ok(Seq::empty())
    } else {
        match env_rendered(entries, n - 1, provider, env) {
            Err(e) => Err(e),
            Ok(acc) => match expanded_env(entries[n - 1].1, env) {
                None => Err(ErrView::BadPattern),
                Some(Err(var)) => Err(ErrView::EnvNotSet(entries[n - 1].0, provider, var)),
                Some(Ok(v)) => Ok(acc.push((entries[n - 1].0, v))),
            },
        }
    }
}

proof fn lemma_env_err_stays(entries: Seq<(Seq<char>, Seq<char>)>, n: int, provider: Seq<char>, env: Seq<(Seq<char>, Seq<char>)>)
    requires
        0 <= n <= entries.len(),
        env_rendered(entries, n, provider, env) is Err,
    ensures
        env_rendered(entries, entries.len() as int, provider, env) == env_rendered(entries, n, provider, env),
    decreases entries.len() - n,
{
    if n < entries.len() {
        lemma_env_err_stays(entries, n + 1, provider, env);
    }
}

pub fn render_env(provider: &ProviderConfig, environment: &Vec<(String, String)>) -> (r: Result<Vec<(String, String)>, PipelineError>)
    ensures
        match r {
            Ok(v) => env_rendered(env_views(provider.env@), provider.env@.len() as int, provider.name@, piece_views(environment@))
                == Ok::<Seq<(Seq<char>, Seq<char>)>, ErrView>(piece_views(v@)),
            Err(e) => env_rendered(env_views(provider.env@), provider.env@.len() as int, provider.name@, piece_views(environment@))
                == Err::<Seq<(Seq<char>, Seq<char>)>, ErrView>(err_view(e)),
        },
{
    let ghost ev = env_views(provider.env@);
    let ghost envv = piece_views(environment@);
    let mut out: Vec<(String, String)> = Vec::new();
    let mut i: usize = 0;
    assert(piece_views(out@) =~= Seq::<(Seq<char>, Seq<char>)>::empty());
    while i < provider.env.len()
        invariant
            i <= provider.env.len(),
            ev == env_views(provider.env@),
            envv == piece_views(environment@),
            env_rendered(ev, i as int, provider.name@, envv) == Ok::<Seq<(Seq<char>, Seq<char>)>, ErrView>(piece_views(out@)),
        decreases provider.env.len() - i,
    {
        let entry = &provider.env[i];
        assert(ev[i as int] == (entry.key@, entry.value_template@));
        match expand_env_template(entry.value_template.as_str(), environment) {
            None => {
                proof { lemma_env_err_stays(ev, i as int + 1, provider.name@, envv); }
                return Err(PipelineError::BadPattern);
            },
            Some(Err(var)) => {
                proof { lemma_env_err_stays(ev, i as int + 1, provider.name@, envv); }
                return Err(PipelineError::EnvNotSet { key: entry.key.clone(), provider: provider.name.clone(), var });
            },
            Some(Ok(v)) => {
                let ghost before = out@;
                out.push((entry.key.clone(), v));
                assert(piece_views(out@) =~= piece_views(before).push((entry.key@, v@)));
            },
        }
        i += 1;
    }
    assert(ev.len() == provider.env@.len());
    Ok(out)
}


// ---------------------------------------------------------------------------
// Displays
// ---------------------------------------------------------------------------

/// How an invocation is shown: a shell command as it is, an argument vector
/// shell-escaped and joined by spaces.
pub open spec fn display_of(inv: InvView) -> Seq<char> {
    match inv {
        InvView::Shell(c) => c,
        InvView::Exec(a) => join(escaped_all(a), " "@),
    }
}

fn display_invocation(inv: &Invocation) -> (r: String)
    ensures
        r@ == display_of(inv_view(*inv)),
{
    match inv {
        Invocation::Shell { command } => command.clone(),
        Invocation::Exec { argv } => {
            let mut parts: Vec<String> = Vec::new();
            let mut i: usize = 0;
            while i < argv.len()
                invariant
                    i <= argv.len(),
                    string_views(parts@) == escaped_all(string_views(argv@).subrange(0, i as int)),
                decreases argv.len() - i,
            {
                let e = shell_escape(argv[i].as_str());
                let ghost before = parts@;
                parts.push(e);
                assert(string_views(parts@) =~= string_views(before).push(e@));
                assert(escaped_all(string_views(argv@).subrange(0, i + 1)) =~= escaped_all(string_views(argv@).subrange(0, i as int)).push(shell_escaped(argv@[i as int]@)));
                i += 1;
            }
            assert(string_views(argv@).subrange(0, argv@.len() as int) =~= string_views(argv@));
            join_strings(&parts, " ")
        },
    }
}

/// The text `"` escaped as `\"`.
pub open spec fn escape_quotes(s: Seq<char>) -> Seq<char> {
    replace_all(s, "\""@, "\\\""@)
}

/// How one provider argument is shown when the prompt is captured from the pre
/// commands (`sub` is their pipeline, `None` when there are none): `{prompt}`
/// alone becomes `"$(pre)"` (or is dropped without pre commands); an argument
/// containing `{prompt}` gets `$(pre)` (quoted when it held a space or a `"`),
/// or `<prompt>` shell-escaped without pre commands; others are shell-escaped.
pub open spec fn friendly_arg(arg: Seq<char>, sub: Option<Seq<char>>) -> Option<Seq<char>> {
    if arg == "{prompt}"@ {
        match sub {
            Some(p) => Some("\"$("@ + escape_quotes(p) + ")\""@),
            None => None,
        }
    } else if contains(arg, "{prompt}"@) {
        match sub {
            Some(p) => {
                let replaced = replace_all(arg, "{prompt}"@, "$("@ + p + ")"@);
                if arg.contains(' ') || arg.contains('"') {
                    Some("\""@ + escape_quotes(replaced) + "\""@)
                } else {
                    Some(replaced)
                }
            },
            None => Some(shell_escaped(replace_all(arg, "{prompt}"@, "<prompt>"@))),
        }
    } else {
        Some(shell_escaped(arg))
    }
}

pub open spec fn friendly_parts(args: Seq<Seq<char>>, n: int, sub: Option<Seq<char>>) -> Seq<Seq<char>>
    decreases n,
{
    if n <= 0 || n > args.len() {
        Seq::empty()
    } else {
        match friendly_arg(args[n - 1], sub) {
            Some(a) => friendly_parts(args, n - 1, sub).push(a),
            None => friendly_parts(args, n - 1, sub),
        }
    }
}

/// `friendly_capture_display`: the pipeline as a person would type it, with the
/// pre commands substituted for the prompt.
pub open spec fn friendly_text(bin: Seq<char>, pre: Seq<Seq<char>>, post: Seq<Seq<char>>, args: Seq<Seq<char>>) -> Seq<char> {
    let sub = if pre.len() == 0 {
        None
    } else {
        Some(join(pre, " | "@))
    };
    let stage = join(seq![shell_escaped(bin)] + friendly_parts(args, args.len() as int, sub), " "@);
    join(seq![stage] + post, " | "@)
}

fn friendly_one(arg: &String, sub: &Option<String>) -> (r: Option<String>)
    ensures
        opt_view(r) == friendly_arg(arg@, opt_view(*sub)),
{
    let a = str_chars(arg);
    let prompt = chars_of("{prompt}");
    let quote = chars_of("\"");
    let escaped_quote = chars_of("\\\"");
    proof {
        reveal_strlit("{prompt}");
        reveal_strlit("\"");
    }
    if crate::text::eq_chars(&a, &prompt) {
        return match sub {
            Some(p) => {
                let mut out = chars_of("\"$(");
                append_chars(&mut out, &replace_chars(&str_chars(p), &quote, &escaped_quote));
                append_str(&mut out, ")\"");
                Some(string_of(&out))
            },
            None => None,
        };
    }
    if crate::text::contains_chars(&a, &prompt) {
        return match sub {
            Some(p) => {
                let mut raw = chars_of("$(");
                append_chars(&mut raw, &str_chars(p));
                append_str(&mut raw, ")");
                let replaced = replace_chars(&a, &prompt, &raw);
                if crate::text::contains_char(&a, ' ') || crate::text::contains_char(&a, '"') {
                    let mut out = chars_of("\"");
                    append_chars(&mut out, &replace_chars(&replaced, &quote, &escaped_quote));
                    append_str(&mut out, "\"");
                    Some(string_of(&out))
                } else {
                    Some(string_of(&replaced))
                }
            },
            None => {
                let replaced = replace_chars(&a, &prompt, &chars_of("<prompt>"));
                let text = string_of(&replaced);
                Some(shell_escape(text.as_str()))
            },
        };
    }
    Some(shell_escape(arg.as_str()))
}

pub fn friendly_capture_display(provider: &ProviderConfig, pre: &Vec<String>, post: &Vec<String>, args: &Vec<String>) -> (r: String)
    ensures
        r@ == friendly_text(provider.bin@, string_views(pre@), string_views(post@), string_views(args@)),
{
    let sub: Option<String> = if pre.len() == 0 {
        None
    } else {
        Some(join_strings(pre, " | "))
    };
    let ghost subv = if pre@.len() == 0 {
        None
    } else {
        Some(join(string_views(pre@), " | "@))
    };
    assert(opt_view(sub) == subv);
    let ghost av = string_views(args@);
    let mut parts: Vec<String> = Vec::new();
    parts.push(shell_escape(provider.bin.as_str()));
    let mut i: usize = 0;
    while i < args.len()
        invariant
            i <= args.len(),
            av == string_views(args@),
            opt_view(sub) == subv,
            string_views(parts@) == seq![shell_escaped(provider.bin@)] + friendly_parts(av, i as int, subv),
        decreases args.len() - i,
    {
        assert(av[i as int] == args@[i as int]@);
        match friendly_one(&args[i], &sub) {
            Some(t) => {
                let ghost before = parts@;
                parts.push(t);
                assert(string_views(parts@) =~= string_views(before).push(t@));
            },
            None => {},
        }
        i += 1;
    }
    assert(av.len() == args@.len());
    let stage = join_strings(&parts, " ");
    let mut stages: Vec<String> = Vec::new();
    stages.push(stage);
    assert(string_views(stages@) =~= seq![stage@]);
    append_strings(&mut stages, post);
    join_strings(&stages, " | ")
}

// ---------------------------------------------------------------------------
// The whole plan
// ---------------------------------------------------------------------------

/// A plan as text.
pub struct PlanView {
    pub pipeline: Seq<char>,
    pub display: Seq<char>,
    pub friendly_display: Seq<char>,
    pub env: Seq<(Seq<char>, Seq<char>)>,
    pub invocation: InvView,
    pub provider: Seq<char>,
    pub pre_snippets: Seq<Seq<char>>,
    pub post_snippets: Seq<Seq<char>>,
    pub wrapper: Option<Seq<char>>,
    pub cwd: Seq<char>,
}

pub open spec fn plan_view(p: PipelinePlan) -> PlanView {
    PlanView {
        pipeline: p.pipeline@,
        display: p.display@,
        friendly_display: p.friendly_display@,
        env: piece_views(p.env@),
        invocation: inv_view(p.invocation),
        provider: p.provider@,
        pre_snippets: string_views(p.pre_snippets@),
        post_snippets: string_views(p.post_snippets@),
        wrapper: opt_view(p.wrapper),
        cwd: p.cwd@,
    }
}

/// The template context of a request once the pipeline is known.
pub open spec fn request_ctx(req: PipelineRequest, pipeline: Seq<char>, provider: Seq<char>) -> CtxView {
    CtxView {
        pipeline,
        provider,
        session_id: match req.session.id { Some(s) => s@, None => Seq::empty() },
        session_label: match req.session.label { Some(s) => s@, None => Seq::empty() },
        session_path: match req.session.path { Some(s) => s@, None => Seq::empty() },
        session_resume_token: match req.session.resume_token { Some(s) => s@, None => Seq::empty() },
        cwd: req.cwd@,
        vars: piece_views(req.vars@),
    }
}

/// `build_pipeline`: the plan for a request, or the first error met in this
/// order: profile, provider, wrapper, pre snippets, post snippets, environment,
/// wrapper template.
pub open spec fn plan_of(req: PipelineRequest) -> Result<PlanView, ErrView> {
    let c = *req.config;
    match profile_sel(c, sv(req.profile)) {
        Err(e) => Err(e),
        Ok(profile) => match provider_sel(c, profile, sv(req.provider_hint)) {
            Err(e) => Err(e),
            Ok(provider) => {
                let wrap_name = wrap_name_sel(sv(req.wrap), profile);
                match wrapper_sel(c, wrap_name) {
                    Err(e) => Err(e),
                    Ok(wrapper) => {
                        let pre_names = names_of(
                            match profile { Some(p) => Some(string_views(p.pre@)), None => None },
                            string_views(req.additional_pre@),
                        );
                        let post_names = names_of(
                            match profile { Some(p) => Some(string_views(p.post@)), None => None },
                            string_views(req.additional_post@),
                        );
                        match snippet_cmds(snippet_entries(c.snippets.pre), pre_names, pre_names.len() as int, "pre"@) {
                            Err(e) => Err(e),
                            Ok(pre_snips) => {
                                let pre = pre_snips + string_views(req.inline_pre@);
                                match snippet_cmds(snippet_entries(c.snippets.post), post_names, post_names.len() as int, "post"@) {
                                    Err(e) => Err(e),
                                    Ok(post) => {
                                        let args = provider_args_of(provider, req.capture_prompt, string_views(req.provider_args@));
                                        let capture = req.capture_prompt && captures(provider);
                                        let pipeline = join(stages_of(req.tx_path@, provider, capture, pre, post, args), " | "@);
                                        match env_rendered(env_views(provider.env@), provider.env@.len() as int, provider.name@, piece_views(req.environment@)) {
                                            Err(e) => Err(e),
                                            Ok(env) => {
                                                let inv = match wrapper {
                                                    Some(w) => wrapper_invocation(w.mode, request_ctx(req, pipeline, provider.name@)),
                                                    None => Ok(InvView::Shell(pipeline)),
                                                };
                                                match inv {
                                                    Err(e) => Err(e),
                                                    Ok(invocation) => {
                                                        let display = display_of(invocation);
                                                        Ok(PlanView {
                                                            pipeline,
                                                            display,
                                                            friendly_display: if wrapper is None && capture {
                                                                friendly_text(provider.bin@, pre, post, args)
                                                            } else {
                                                                display
                                                            },
                                                            env,
                                                            invocation,
                                                            provider: provider.name@,
                                                            pre_snippets: pre_names,
                                                            post_snippets: post_names,
                                                            wrapper: wrap_name,
                                                            cwd: req.cwd@,
                                                        })
                                                    },
                                                }
                                            },
                                        }
                                    },
                                }
                            },
                        }
                    },
                }
            },
        },
    }
}

fn opt_str(o: &Option<String>) -> (r: Option<&str>)
    ensures
        sv(r) == opt_view(*o),
{
    match o {
        Some(s) => Some(s.as_str()),
        None => None,
    }
}

/// Plan the pipeline for a request.
pub fn build_pipeline(request: &PipelineRequest) -> (r: Result<PipelinePlan, PipelineError>)
    ensures
        match r {
            Ok(plan) => plan_of(*request) == Ok::<PlanView, ErrView>(plan_view(plan)),
            Err(e) => plan_of(*request) == Err::<PlanView, ErrView>(err_view(e)),
        },
{
    let config = request.config;
    let profile = resolve_profile(config, request.profile)?;
    let provider = resolve_provider(config, profile, request.provider_hint)?;
    let (wrapper, wrap_name) = determine_wrapper(config, request.wrap, profile)?;

    let mut pre_names: Vec<String> = Vec::new();
    let mut post_names: Vec<String> = Vec::new();
    if let Some(p) = profile {
        append_strings(&mut pre_names, &p.pre);
        append_strings(&mut post_names, &p.post);
    }
    assert(profile is None ==> string_views(pre_names@) =~= Seq::<Seq<char>>::empty());
    assert(profile is None ==> string_views(post_names@) =~= Seq::<Seq<char>>::empty());
    append_strings(&mut pre_names, &request.additional_pre);
    append_strings(&mut post_names, &request.additional_post);

    let mut pre_commands = resolve_snippets(&config.snippets.pre, &pre_names, "pre")?;
    append_strings(&mut pre_commands, &request.inline_pre);
    let post_commands = resolve_snippets(&config.snippets.post, &post_names, "post")?;

    let provider_capture = match &provider.stdin {
        Some(m) => m.mode == StdinMode::CaptureArg,
        None => false,
    };
    let provider_args = build_provider_args(provider, request.capture_prompt, &request.provider_args);
    let capture_prompt = request.capture_prompt && provider_capture;
    let stages = compose_stages(request.tx_path.as_str(), provider, capture_prompt, &pre_commands, &post_commands, &provider_args);
    let pipeline = join_strings(&stages, " | ");
    let env = render_env(provider, &request.environment)?;

    let ctx = TemplateContext {
        pipeline: pipeline.as_str(),
        provider: provider.name.as_str(),
        session_id: opt_str(&request.session.id),
        session_label: opt_str(&request.session.label),
        session_path: opt_str(&request.session.path),
        session_resume_token: opt_str(&request.session.resume_token),
        cwd: request.cwd.as_str(),
        vars: &request.vars,
    };
    assert(ctx_view(ctx) == request_ctx(*request, pipeline@, provider.name@));
    let invocation = match wrapper {
        Some(w) => render_wrapper(w, &ctx)?,
        None => Invocation::Shell { command: pipeline.clone() },
    };
    let display = display_invocation(&invocation);
    let friendly_display = if wrapper.is_none() && capture_prompt {
        friendly_capture_display(provider, &pre_commands, &post_commands, &provider_args)
    } else {
        display.clone()
    };
    Ok(PipelinePlan {
        pipeline,
        display,
        friendly_display,
        env,
        invocation,
        provider: provider.name.clone(),
        pre_snippets: pre_names,
        post_snippets: post_names,
        wrapper: wrap_name,
        cwd: request.cwd.clone(),
    })
}

} // verus!
