//! Virtual profiles: prompts listed by the prompt-assembler (`pa`).

use vstd::prelude::*;

use crate::config::model::{PromptAssemblerConfig, opt_view};
use crate::json::{JsonValue, as_bool, as_str, get, json_as_bool, json_as_str, json_get, json_get_opt, json_str_at, str_at};
use crate::text::{append_chars, append_str, chars_of, lines, lines_of, str_chars, string_of, string_views, trim, trim_chars, views};

verus! {

/// A prompt offered as a profile.
#[derive(Debug)]
pub struct VirtualProfile {
    pub key: String,
    pub name: String,
    pub description: Option<String>,
    pub tags: Vec<String>,
    pub stdin_supported: bool,
    pub contents: Vec<String>,
}

/// What the prompt-assembler offers.
#[derive(Debug)]
pub enum PromptStatus {
    Disabled,
    Ready { profiles: Vec<VirtualProfile> },
    Unavailable { message: String },
}

/// Why the prompt listing could not be read.
#[derive(Debug, Clone, Copy, PartialEq, Eq, Structural)]
pub enum PromptError {
    /// The listing is neither an array nor an object with a `prompts` array.
    UnexpectedShape,
}

impl PromptError {
    pub fn message(&self) -> (r: String)
        ensures
            r@ == "unexpected JSON shape from pa; expected an array or object with 'prompts'"@,
    {
        "unexpected JSON shape from pa; expected an array or object with 'prompts'".to_owned()
    }
}

/// The prompt entries of a `pa list --json` listing: the array itself, or its
/// `prompts` array.
pub open spec fn listing_entries(root: JsonValue) -> Option<Seq<JsonValue>> {
    match root {
        JsonValue::Array(items) => Some(items@),
        _ => match get(root, "prompts"@) {
            Some(JsonValue::Array(items)) => Some(items@),
            _ => None,
        },
    }
}

pub fn prompt_entries(root: &JsonValue) -> (r: Result<&Vec<JsonValue>, PromptError>)
    ensures
        match r {
            Ok(items) => listing_entries(*root) == Some(items@),
            Err(_) => listing_entries(*root) is None,
        },
{
    match root {
        JsonValue::Array(items) => Ok(items),
        _ => match json_get(root, "prompts") {
            Some(JsonValue::Array(items)) => Ok(items),
            _ => Err(PromptError::UnexpectedShape),
        },
    }
}

/// The entries of a listing that have a string `name`, in order: the prompts
/// that get fetched. Each comes with its position in the listing and its name.
pub open spec fn named_entries(entries: Seq<JsonValue>, n: int) -> Seq<(int, Seq<char>)>
    decreases n,
{
    if n <= 0 || n > entries.len() {
        Seq::empty()
    } else {
        let prev = named_entries(entries, n - 1);
        match str_at(entries[n - 1], "name"@) {
            Some(name) => prev.push((n - 1, name)),
            None => prev,
        }
    }
}

/// The listing's entries with a string `name`, each as its position and name.
pub fn prompt_names(entries: &Vec<JsonValue>) -> (r: Vec<(usize, String)>)
    ensures
        r@.len() == named_entries(entries@, entries@.len() as int).len(),
        forall|i: int|
            0 <= i < r@.len() ==> #[trigger] named_entries(entries@, entries@.len() as int)[i] == (
                r@[i].0 as int,
                r@[i].1@,
            ),
{
    let mut out: Vec<(usize, String)> = Vec::new();
    let mut i: usize = 0;
    while i < entries.len()
        invariant
            i <= entries@.len(),
            out@.len() == named_entries(entries@, i as int).len(),
            forall|m: int|
                0 <= m < out@.len() ==> #[trigger] named_entries(entries@, i as int)[m] == (
                    out@[m].0 as int,
                    out@[m].1@,
                ),
        decreases entries.len() - i,
    {
        match json_str_at(&entries[i], "name") {
            Some(name) => {
                out.push((i, name.clone()));
            },
            None => {},
        }
        i += 1;
    }
    out
}

/// Trimmed text, dropped when blank.
pub open spec fn nonblank(o: Option<Seq<char>>) -> Option<Seq<char>> {
    match o {
        Some(s) => if trim(s).len() > 0 {
            Some(trim(s))
        } else {
            None
        },
        None => None,
    }
}

fn nonblank_exec(o: Option<&String>) -> (r: Option<String>)
    ensures
        opt_view(r) == nonblank(match o { Some(s) => Some(s@), None => None }),
{
    match o {
        Some(s) => {
            let t = trim_chars(&str_chars(s));
            if t.len() > 0 { Some(string_of(&t)) } else { None }
        },
        None => None,
    }
}

/// The strings among the items, in order.
pub open spec fn strings_in(items: Seq<JsonValue>) -> Seq<Seq<char>>
    decreases items.len(),
{
    if items.len() == 0 {
        Seq::empty()
    } else {
        match items.last() {
            JsonValue::String(s) => strings_in(items.drop_last()).push(s@),
            _ => strings_in(items.drop_last()),
        }
    }
}

/// The strings of an array value; none for anything else.
pub open spec fn string_list(v: Option<JsonValue>) -> Seq<Seq<char>> {
    match v {
        Some(JsonValue::Array(items)) => strings_in(items@),
        _ => Seq::empty(),
    }
}

fn string_list_exec(v: Option<&JsonValue>) -> (r: Vec<String>)
    ensures
        string_views(r@) == string_list(match v { Some(x) => Some(*x), None => None }),
{
    let mut out: Vec<String> = Vec::new();
    assert(string_views(out@) =~= Seq::<Seq<char>>::empty());
    match v {
        Some(JsonValue::Array(items)) => {
            let mut i: usize = 0;
            assert(items@.subrange(0, 0) =~= Seq::<JsonValue>::empty());
            while i < items.len()
                invariant
                    i <= items.len(),
                    string_views(out@) == strings_in(items@.subrange(0, i as int)),
                decreases items.len() - i,
            {
                assert(items@.subrange(0, i + 1).drop_last() =~= items@.subrange(0, i as int));
                match &items[i] {
                    JsonValue::String(s) => {
                        let ghost before = out@;
                        out.push(s.clone());
                        assert(string_views(out@) =~= string_views(before).push(s@));
                    },
                    _ => {},
                }
                i += 1;
            }
            assert(items@.subrange(0, items@.len() as int) =~= items@);
        },
        _ => {},
    }
    out
}

/// The lines of each part's `content`, in order.
pub open spec fn part_lines(parts: Seq<JsonValue>) -> Seq<Seq<char>>
    decreases parts.len(),
{
    if parts.len() == 0 {
        Seq::empty()
    } else {
        part_lines(parts.drop_last()) + match str_at(parts.last(), "content"@) {
            Some(c) => lines(c),
            None => Seq::empty(),
        }
    }
}

/// `extract_profile_lines`: the lines of the profile's `content`, else the lines
/// of its parts' contents.
pub open spec fn profile_lines(detail: JsonValue) -> Seq<Seq<char>> {
    let profile = get(detail, "profile"@);
    match as_str(crate::json::get_opt(profile, "content"@)) {
        Some(c) => lines(c),
        None => match crate::json::get_opt(profile, "parts"@) {
            Some(JsonValue::Array(parts)) => part_lines(parts@),
            _ => Seq::empty(),
        },
    }
}

fn push_lines(out: &mut Vec<String>, text: &String)
    ensures
        string_views(final(out)@) == string_views(old(out)@) + lines(text@),
{
    let ls = lines_of(&str_chars(text));
    let ghost start = string_views(out@);
    let mut i: usize = 0;
    while i < ls.len()
        invariant
            i <= ls.len(),
            views(ls@) == lines(text@),
            string_views(out@) == start + views(ls@).subrange(0, i as int),
        decreases ls.len() - i,
    {
        let ghost before = out@;
        out.push(string_of(&ls[i]));
        assert(string_views(out@) =~= string_views(before).push(ls@[i as int]@));
        assert(views(ls@).subrange(0, i + 1) =~= views(ls@).subrange(0, i as int).push(ls@[i as int]@));
        i += 1;
    }
    assert(views(ls@).subrange(0, ls@.len() as int) =~= views(ls@));
}

pub fn extract_profile_lines(detail: &JsonValue) -> (r: Vec<String>)
    ensures
        string_views(r@) == profile_lines(*detail),
{
    let profile = json_get(detail, "profile");
    let mut out: Vec<String> = Vec::new();
    assert(string_views(out@) =~= Seq::<Seq<char>>::empty());
    if let Some(content) = json_as_str(json_get_opt(profile, "content")) {
        push_lines(&mut out, content);
        return out;
    }
    match json_get_opt(profile, "parts") {
        Some(JsonValue::Array(parts)) => {
            let mut i: usize = 0;
            assert(parts@.subrange(0, 0) =~= Seq::<JsonValue>::empty());
            while i < parts.len()
                invariant
                    i <= parts.len(),
                    string_views(out@) == part_lines(parts@.subrange(0, i as int)),
                decreases parts.len() - i,
            {
                assert(parts@.subrange(0, i + 1).drop_last() =~= parts@.subrange(0, i as int));
                if let Some(c) = json_str_at(&parts[i], "content") {
                    push_lines(&mut out, c);
                } else {
                    assert(string_views(out@) + Seq::<Seq<char>>::empty() =~= string_views(out@));
                }
                i += 1;
            }
            assert(parts@.subrange(0, parts@.len() as int) =~= parts@);
        },
        _ => {},
    }
    out
}

/// A virtual profile as text.
pub struct ProfileView {
    pub key: Seq<char>,
    pub name: Seq<char>,
    pub description: Option<Seq<char>>,
    pub tags: Seq<Seq<char>>,
    pub stdin_supported: bool,
    pub contents: Seq<Seq<char>>,
}

pub open spec fn profile_view(p: VirtualProfile) -> ProfileView {
    ProfileView {
        key: p.key@,
        name: p.name@,
        description: opt_view(p.description),
        tags: string_views(p.tags@),
        stdin_supported: p.stdin_supported,
        contents: string_views(p.contents@),
    }
}

/// The profile for a listed prompt named `name`, from its listing entry and its
/// `pa show --json` detail: the listing's description (or summary), tags and
/// stdin support, with the detail filling a missing description or empty tags
/// and deciding stdin support when it says.
pub open spec fn virtual_profile_of(namespace: Seq<char>, name: Seq<char>, entry: JsonValue, detail: JsonValue) -> ProfileView {
    let listed = match get(entry, "description"@) {
        Some(d) => Some(d),
        None => get(entry, "summary"@),
    };
    let description = match nonblank(as_str(listed)) {
        Some(d) => Some(d),
        None => nonblank(str_at(detail, "description"@)),
    };
    let listed_tags = string_list(get(entry, "tags"@));
    let tags = if listed_tags.len() == 0 {
        string_list(get(detail, "tags"@))
    } else {
        listed_tags
    };
    let listed_stdin = match as_bool(get(entry, "stdin_supported"@)) {
        Some(b) => b,
        None => false,
    };
    ProfileView {
        key: namespace + "/"@ + name,
        name,
        description,
        tags,
        stdin_supported: match as_bool(get(detail, "stdin_supported"@)) {
            Some(b) => b,
            None => listed_stdin,
        },
        contents: profile_lines(detail),
    }
}

pub fn virtual_profile(namespace: &str, name: &String, entry: &JsonValue, detail: &JsonValue) -> (r: VirtualProfile)
    ensures
        profile_view(r) == virtual_profile_of(namespace@, name@, *entry, *detail),
{
    let listed = match json_get(entry, "description") {
        Some(d) => Some(d),
        None => json_get(entry, "summary"),
    };
    let description = match nonblank_exec(json_as_str(listed)) {
        Some(d) => Some(d),
        None => nonblank_exec(json_str_at(detail, "description")),
    };
    let listed_tags = string_list_exec(json_get(entry, "tags"));
    let tags = if listed_tags.len() == 0 {
        string_list_exec(json_get(detail, "tags"))
    } else {
        listed_tags
    };
    let listed_stdin = match json_as_bool(json_get(entry, "stdin_supported")) {
        Some(b) => b,
        None => false,
    };
    let stdin_supported = match json_as_bool(json_get(detail, "stdin_supported")) {
        Some(b) => b,
        None => listed_stdin,
    };
    let mut key = chars_of(namespace);
    append_str(&mut key, "/");
    append_chars(&mut key, &str_chars(name));
    VirtualProfile {
        key: string_of(&key),
        name: name.clone(),
        description,
        tags,
        stdin_supported,
        contents: extract_profile_lines(detail),
    }
}

/// The prompt-assembler integration.
pub struct PromptAssembler {
    pub config: PromptAssemblerConfig,
}

/// The first line of the text (empty when it has none).
pub open spec fn first_line(s: Seq<char>) -> Seq<char> {
    if lines(s).len() > 0 {
        lines(s)[0]
    } else {
        Seq::empty()
    }
}

impl PromptAssembler {
    pub fn new(config: PromptAssemblerConfig) -> (r: Self)
        ensures
            r.config == config,
    {
        PromptAssembler { config }
    }

    /// The status after listing the prompts: ready with the profiles, or
    /// unavailable with the first line of the failure.
    pub fn refresh(&mut self, _force: bool, fetched: Result<Vec<VirtualProfile>, String>) -> (r: PromptStatus)
        ensures
            final(self).config == old(self).config,
            match fetched {
                Ok(ps) => r matches PromptStatus::Ready { profiles } && profiles@ == ps@,
                Err(e) => r matches PromptStatus::Unavailable { message } && message@ == first_line(
                    "prompt assembler unavailable: "@ + e@,
                ),
            },
    {
        match fetched {
            Ok(profiles) => PromptStatus::Ready { profiles },
            Err(e) => {
                let mut m = chars_of("prompt assembler unavailable: ");
                append_chars(&mut m, &str_chars(&e));
                let ls = lines_of(&m);
                let message = if ls.len() > 0 {
                    assert(views(ls@)[0] == ls@[0]@);
                    string_of(&ls[0])
                } else {
                    String::new()
                };
                PromptStatus::Unavailable { message }
            },
        }
    }
}

} // verus!
