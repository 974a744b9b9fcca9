//! Helpers of the internal subcommands: prompt capture and prompt assembly.

use vstd::prelude::*;

use crate::indexer::{utf8_len, utf8_width};
use crate::pipeline::{piece_views, regex_pieces, split_captures};
use crate::text::{append_chars, append_str, chars_of, contains, dec, push_dec, replace_all, str_chars, string_of, string_views};

verus! {

/// The placeholder a provider argument uses for the captured prompt.
pub const PROMPT_PLACEHOLDER: &'static str = "{prompt}";

/// `{N}` argument placeholders in a prompt template.
pub const PROMPT_ARG_TOKEN: &'static str = "\\{(\\d+)\\}";

/// Whether some argument holds the placeholder.
pub open spec fn any_placeholder(args: Seq<Seq<char>>) -> bool {
    exists|i: int| 0 <= i < args.len() && contains(#[trigger] args[i], PROMPT_PLACEHOLDER@)
}

/// `resolve_provider_args`: the placeholder in each argument replaced by the
/// prompt; when no argument had one, the prompt is appended.
pub open spec fn resolved_args(args: Seq<Seq<char>>, prompt: Seq<char>) -> Seq<Seq<char>> {
    let replaced = Seq::new(args.len(), |i: int| replace_all(args[i], PROMPT_PLACEHOLDER@, prompt));
    if any_placeholder(args) {
        replaced
    } else {
        replaced.push(prompt)
    }
}

pub fn resolve_provider_args(args: &Vec<String>, prompt: &str) -> (r: Vec<String>)
    ensures
        string_views(r@) == resolved_args(string_views(args@), prompt@),
{
    let ghost av = string_views(args@);
    let ph = chars_of(PROMPT_PLACEHOLDER);
    let pv = chars_of(prompt);
    proof {
        reveal_strlit("{prompt}");
    }
    let mut out: Vec<String> = Vec::new();
    let mut replaced = false;
    let mut i: usize = 0;
    while i < args.len()
        invariant
            i <= args.len(),
            av == string_views(args@),
            ph@ == PROMPT_PLACEHOLDER@,
            ph@.len() == 8,
            pv@ == prompt@,
            string_views(out@) == Seq::new(i as nat, |j: int| replace_all(av[j], PROMPT_PLACEHOLDER@, prompt@)),
            replaced == exists|j: int| 0 <= j < i && contains(#[trigger] av[j], PROMPT_PLACEHOLDER@),
        decreases args.len() - i,
    {
        let a = str_chars(&args[i]);
        assert(av[i as int] == a@);
        let has = crate::text::contains_chars(&a, &ph);
        let r = crate::text::replace_chars(&a, &ph, &pv);
        if has {
            replaced = true;
        } else {
            proof { lemma_replace_absent(a@, PROMPT_PLACEHOLDER@, prompt@); }
        }
        let item = if has { string_of(&r) } else { args[i].clone() };
        assert(item@ == replace_all(av[i as int], PROMPT_PLACEHOLDER@, prompt@));
        let ghost before = out@;
        out.push(item);
        assert(string_views(out@) =~= string_views(before).push(item@));
        assert(string_views(out@) =~= Seq::new((i + 1) as nat, |j: int| replace_all(av[j], PROMPT_PLACEHOLDER@, prompt@)));
        i += 1;
    }
    if !replaced {
        let ghost before = out@;
        out.push(prompt.to_owned());
        assert(string_views(out@) =~= string_views(before).push(prompt@));
    }
    out
}

/// Replacing a pattern that does not occur leaves the text as it is.
pub proof fn lemma_replace_absent(s: Seq<char>, pat: Seq<char>, rep: Seq<char>)
    requires
        pat.len() > 0,
        !contains(s, pat),
    ensures
        replace_all(s, pat, rep) == s,
    decreases s.len(),
{
    if s.len() > 0 {
        assert(!crate::text::starts_with(s, pat)) by {
            if crate::text::starts_with(s, pat) {
                assert(crate::text::occurs_at(s, pat, 0));
            }
        }
        assert(!contains(s.drop_first(), pat)) by {
            if contains(s.drop_first(), pat) {
                let k = choose|k: int| crate::text::occurs_at(s.drop_first(), pat, k);
                assert(s.subrange(k + 1, k + 1 + pat.len()) =~= s.drop_first().subrange(k, k + pat.len()));
                assert(crate::text::occurs_at(s, pat, k + 1));
            }
        }
        lemma_replace_absent(s.drop_first(), pat, rep);
        assert(seq![s[0]] + s.drop_first() =~= s);
    }
}

/// The number a placeholder names (`0` when it does not parse as a `usize`).
pub open spec fn placeholder_index(digits: Seq<char>) -> nat {
    match crate::cli::unsigned_of(digits, usize::MAX as nat) {
        Ok(v) => v,
        Err(_) => 0,
    }
}

/// The largest placeholder index among the first `n` pieces, if any.
pub open spec fn max_index(pieces: Seq<(Seq<char>, Seq<char>)>, n: int) -> Option<nat>
    decreases n,
{
    if n <= 0 || n > pieces.len() {
        None
    } else {
        let k = placeholder_index(pieces[n - 1].1);
        match max_index(pieces, n - 1) {
            Some(m) => Some(if m >= k { m } else { k }),
            None => Some(k),
        }
    }
}

/// `required_argument_count`: one more than the largest `{N}` in the prompt's
/// content, or 0 without placeholders (`None` when the pattern does not compile).
pub open spec fn required_count_of(content: Seq<char>) -> Option<nat> {
    match regex_pieces(PROMPT_ARG_TOKEN@, content) {
        None => None,
        Some((pieces, _)) => Some(
            match max_index(pieces, pieces.len() as int) {
                Some(m) => m + 1,
                None => 0,
            },
        ),
    }
}

pub fn required_argument_count(content: &str) -> (r: Option<usize>)
    ensures
        match r {
            Some(n) => required_count_of(content@) == Some(n as nat),
            None => required_count_of(content@) is None || (required_count_of(content@) matches Some(n) && n > usize::MAX),
        },
{
    let (pieces, _tail) = match split_captures(PROMPT_ARG_TOKEN, content) {
        Some(p) => p,
        None => return None,
    };
    let ghost pv = piece_views(pieces@);
    let mut best: Option<usize> = None;
    let mut i: usize = 0;
    while i < pieces.len()
        invariant
            i <= pieces.len(),
            pv == piece_views(pieces@),
            match best {
                Some(b) => max_index(pv, i as int) == Some(b as nat),
                None => max_index(pv, i as int) is None,
            },
        decreases pieces.len() - i,
    {
        assert(pv[i as int] == (pieces@[i as int].0@, pieces@[i as int].1@));
        let k: usize = match crate::cli::parse_usize(pieces[i].1.as_str()) {
            Ok(v) => v,
            Err(_) => 0,
        };
        best = Some(
            match best {
                Some(b) => if b >= k { b } else { k },
                None => k,
            },
        );
        i += 1;
    }
    assert(pv.len() == pieces@.len());
    match best {
        Some(b) => if b < usize::MAX { Some(b + 1) } else { None },
        None => Some(0),
    }
}

/// Whether the text takes more than `limit` bytes (UTF-8).
pub fn exceeds_limit(text: &str, limit: usize) -> (r: bool)
    ensures
        r == (utf8_len(text@) > limit),
{
    let cs = chars_of(text);
    let mut total: usize = 0;
    let mut i: usize = 0;
    assert(cs@.subrange(0, 0) =~= Seq::<char>::empty());
    while i < cs.len()
        invariant
            i <= cs.len(),
            cs@ == text@,
            total == utf8_len(cs@.subrange(0, i as int)),
            total <= limit,
        decreases cs.len() - i,
    {
        assert(cs@.subrange(0, i + 1).drop_last() =~= cs@.subrange(0, i as int));
        let c = cs[i];
        let u = c as u32;
        let w: usize = if u < 0x80 { 1 } else if u < 0x800 { 2 } else if u < 0x10000 { 3 } else { 4 };
        assert(w == utf8_width(c));
        assert(cs@.subrange(0, i + 1).last() == c);
        assert(utf8_len(cs@.subrange(0, i + 1)) == total + w);
        if w > limit - total {
            proof {
                lemma_utf8_len_prefix(cs@, i + 1);
            }
            return true;
        }
        total = total + w;
        i += 1;
    }
    assert(cs@.subrange(0, cs@.len() as int) =~= cs@);
    false
}

proof fn lemma_utf8_len_prefix(s: Seq<char>, n: int)
    requires
        0 <= n <= s.len(),
    ensures
        utf8_len(s.subrange(0, n)) <= utf8_len(s),
    decreases s.len() - n,
{
    if n < s.len() {
        lemma_utf8_len_prefix(s, n + 1);
        assert(s.subrange(0, n + 1).drop_last() =~= s.subrange(0, n));
    } else {
        assert(s.subrange(0, n) =~= s);
    }
}

/// The error for a prompt over the byte limit.
pub open spec fn limit_text(limit: nat) -> Seq<char> {
    "captured prompt exceeds configured limit of "@ + dec(limit) + " bytes"@
}

pub fn limit_error(limit: usize) -> (r: String)
    ensures
        r@ == limit_text(limit as nat),
{
    let mut m = chars_of("captured prompt exceeds configured limit of ");
    push_dec(&mut m, limit as u64);
    append_str(&mut m, " bytes");
    string_of(&m)
}

/// `read_with_limit`, one chunk at a time: the chunk is kept when the bytes read
/// so far stay within the limit.
pub fn accept_chunk(buffer: &mut Vec<u8>, chunk: &[u8], limit: usize) -> (r: Result<(), String>)
    ensures
        r is Ok <==> old(buffer)@.len() + chunk@.len() <= limit,
        r is Ok ==> final(buffer)@ == old(buffer)@ + chunk@,
        r matches Err(m) ==> final(buffer)@ == old(buffer)@ && m@ == limit_text(limit as nat),
{
    if chunk.len() > limit || buffer.len() > limit - chunk.len() {
        return Err(limit_error(limit));
    }
    let mut i: usize = 0;
    let ghost start = buffer@;
    while i < chunk.len()
        invariant
            i <= chunk@.len(),
            buffer@ == start + chunk@.subrange(0, i as int),
        decreases chunk.len() - i,
    {
        buffer.push(chunk[i]);
        assert(chunk@.subrange(0, i + 1) =~= chunk@.subrange(0, i as int).push(chunk@[i as int]));
        i += 1;
    }
    assert(chunk@.subrange(0, chunk@.len() as int) =~= chunk@);
    Ok(())
}

/// Where `capture-arg` takes the prompt from.
#[derive(Debug, Clone, Copy, PartialEq, Eq, Structural)]
pub enum CaptureSource {
    /// The data handed over in `TX_CAPTURE_STDIN_DATA`.
    Given,
    /// Standard input.
    Stdin,
    /// The output of the pre-snippet pipeline.
    PrePipeline,
}

/// `capture_prompt`: with pre commands their pipeline gives the prompt; without,
/// the data handed over, else standard input.
pub fn capture_source(has_pre_commands: bool, has_capture_input: bool) -> (r: CaptureSource)
    ensures
        r == (if has_pre_commands {
            CaptureSource::PrePipeline
        } else if has_capture_input {
            CaptureSource::Given
        } else {
            CaptureSource::Stdin
        }),
{
    if has_pre_commands {
        CaptureSource::PrePipeline
    } else if has_capture_input {
        CaptureSource::Given
    } else {
        CaptureSource::Stdin
    }
}

/// The handed-over prompt, refused when longer than `limit` bytes.
pub fn check_given_prompt(input: &str, limit: usize) -> (r: Result<String, String>)
    ensures
        match r {
            Ok(s) => utf8_len(input@) <= limit && s@ == input@,
            Err(m) => utf8_len(input@) > limit && m@ == limit_text(limit as nat),
        },
{
    if exceeds_limit(input, limit) {
        Err(limit_error(limit))
    } else {
        Ok(input.to_owned())
    }
}

/// The question asked for a missing prompt argument.
pub fn argument_request(prompt: &str, index: usize) -> (r: String)
    ensures
        r@ == "tx: prompt '"@ + prompt@ + "' requires a value for placeholder {"@ + dec(index as nat) + "}"@,
{
    let mut m = chars_of("tx: prompt '");
    append_str(&mut m, prompt);
    append_str(&mut m, "' requires a value for placeholder {");
    push_dec(&mut m, index as u64);
    append_str(&mut m, "}");
    string_of(&m)
}

/// A line read from a terminal, without its trailing `\n` and `\r` characters.
pub open spec fn without_line_end(s: Seq<char>) -> Seq<char>
    decreases s.len(),
{
    if s.len() > 0 && (s.last() == '\n' || s.last() == '\r') {
        without_line_end(s.drop_last())
    } else {
        s
    }
}

pub fn trim_line_end(line: &str) -> (r: String)
    ensures
        r@ == without_line_end(line@),
{
    let mut cs = chars_of(line);
    while cs.len() > 0 && (cs[cs.len() - 1] == '\n' || cs[cs.len() - 1] == '\r')
        invariant
            without_line_end(line@) == without_line_end(cs@),
        decreases cs.len(),
    {
        cs.pop();
    }
    string_of(&cs)
}

} // verus!
