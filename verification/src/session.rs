//! Indexed sessions, their messages, and transcript rendering.

use vstd::prelude::*;

use crate::clock::{format_unix_rfc3339, rfc3339_of_unix};
use crate::json::{JsonValue, get, json_get, json_str_at, str_at, as_str};
use crate::paths::{file_name, file_name_of, paths_equal, same_path};
use crate::text::{
    chars_of, dec, lines, lines_of, lower_seq, rsplit_once_at, rfind_char, slice_chars,
    starts_with, starts_with_chars, str_chars, string_of, to_ascii_lowercase, trim, trim_chars,
    trim_start, trim_start_chars, u64_to_chars, append_chars, append_str, ends_with, ends_with_chars,
    views, eq_chars,
};

verus! {

pub fn clone_opt_string(o: &Option<String>) -> (r: Option<String>)
    ensures
        r == *o,
{
    match o {
        Some(s) => Some(s.clone()),
        None => None,
    }
}

/// One indexed session log.
#[derive(Debug)]
pub struct SessionSummary {
    pub id: String,
    pub provider: String,
    pub wrapper: Option<String>,
    pub model: Option<String>,
    pub label: Option<String>,
    pub path: String,
    pub uuid: Option<String>,
    pub first_prompt: Option<String>,
    pub actionable: bool,
    pub created_at: Option<i64>,
    pub started_at: Option<i64>,
    pub last_active: Option<i64>,
    pub size: i64,
    pub mtime: i64,
}

impl Clone for SessionSummary {
    fn clone(&self) -> (r: Self)
        ensures
            r == *self,
    {
        SessionSummary {
            id: self.id.clone(),
            provider: self.provider.clone(),
            wrapper: clone_opt_string(&self.wrapper),
            model: clone_opt_string(&self.model),
            label: clone_opt_string(&self.label),
            path: self.path.clone(),
            uuid: clone_opt_string(&self.uuid),
            first_prompt: clone_opt_string(&self.first_prompt),
            actionable: self.actionable,
            created_at: self.created_at,
            started_at: self.started_at,
            last_active: self.last_active,
            size: self.size,
            mtime: self.mtime,
        }
    }
}

/// A session summary together with the messages to store for it.
#[derive(Debug)]
pub struct SessionIngest {
    pub summary: SessionSummary,
    pub messages: Vec<MessageRecord>,
}

/// One message of a session transcript.
#[derive(Debug)]
pub struct MessageRecord {
    pub session_id: String,
    pub index: i64,
    pub role: String,
    pub content: String,
    pub source: Option<String>,
    pub timestamp: Option<i64>,
    pub is_first: bool,
}

impl Clone for MessageRecord {
    fn clone(&self) -> (r: Self)
        ensures
            r == *self,
    {
        MessageRecord {
            session_id: self.session_id.clone(),
            index: self.index,
            role: self.role.clone(),
            content: self.content.clone(),
            source: clone_opt_string(&self.source),
            timestamp: self.timestamp,
            is_first: self.is_first,
        }
    }
}

/// A session row as listed by queries.
#[derive(Debug)]
pub struct SessionQuery {
    pub id: String,
    pub provider: String,
    pub wrapper: Option<String>,
    pub label: Option<String>,
    pub first_prompt: Option<String>,
    pub actionable: bool,
    pub last_active: Option<i64>,
}

impl SessionSummary {
    /// Whether the log on disk changed since it was indexed.
    pub fn is_stale(&self, size: i64, mtime: i64) -> (r: bool)
        ensures
            r == (self.size != size || self.mtime != mtime),
    {
        self.size != size || self.mtime != mtime
    }

    /// Whether the session was read from `path`.
    pub fn has_path(&self, path: &str) -> (r: bool)
        ensures
            r == same_path(self.path@, path@),
            self.path@ == path@ ==> r,
    {
        paths_equal(self.path.as_str(), path)
    }
}

/// Token counts reported by one usage event of a session.
#[derive(Debug)]
pub struct TokenUsageRecord {
    pub session_id: String,
    pub timestamp: i64,
    pub model: Option<String>,
    pub input_tokens: i64,
    pub cached_input_tokens: i64,
    pub output_tokens: i64,
    pub reasoning_output_tokens: i64,
    pub total_tokens: i64,
    pub rate_limits: Option<String>,
}

/// A search result.
#[derive(Debug)]
pub struct SearchHit {
    pub session_id: String,
    pub provider: String,
    pub wrapper: Option<String>,
    pub label: Option<String>,
    pub role: Option<String>,
    pub snippet: Option<String>,
    pub last_active: Option<i64>,
    pub actionable: bool,
}

impl Clone for SearchHit {
    fn clone(&self) -> (r: Self)
        ensures
            r == *self,
    {
        SearchHit {
            session_id: self.session_id.clone(),
            provider: self.provider.clone(),
            wrapper: clone_opt_string(&self.wrapper),
            label: clone_opt_string(&self.label),
            role: clone_opt_string(&self.role),
            snippet: clone_opt_string(&self.snippet),
            last_active: self.last_active,
            actionable: self.actionable,
        }
    }
}

/// A session and its messages in order.
#[derive(Debug)]
pub struct Transcript {
    pub session: SessionSummary,
    pub messages: Vec<MessageRecord>,
}

impl SessionIngest {
    pub fn new(summary: SessionSummary, messages: Vec<MessageRecord>) -> (r: Self)
        ensures
            r.summary == summary,
            r.messages@ == messages@,
    {
        SessionIngest { summary, messages }
    }
}

impl MessageRecord {
    /// A message that is not (yet) marked as the session's first.
    pub fn new(
        session_id: &str,
        index: i64,
        role: &str,
        content: &str,
        source: Option<String>,
        timestamp: Option<i64>,
    ) -> (r: Self)
        ensures
            r.session_id@ == session_id@,
            r.index == index,
            r.role@ == role@,
            r.content@ == content@,
            r.source == source,
            r.timestamp == timestamp,
            !r.is_first,
    {
        MessageRecord {
            session_id: session_id.to_owned(),
            index,
            role: role.to_owned(),
            content: content.to_owned(),
            source,
            timestamp,
            is_first: false,
        }
    }
}

// ---------------------------------------------------------------------------
// Session identifiers
// ---------------------------------------------------------------------------

/// The session id carried by one parsed log entry: `payload.id`, else
/// `payload.session_id`, else `session.id`, else the entry's own `id`.
pub open spec fn uuid_of_entry(v: JsonValue) -> Option<Seq<char>> {
    match v {
        JsonValue::Object(_) => {
            let payload = get(v, "payload"@);
            let from_payload = match payload {
                Some(p) => match str_at(p, "id"@) {
                    Some(s) => Some(s),
                    None => str_at(p, "session_id"@),
                },
                None => None,
            };
            let from_session = match get(v, "session"@) {
                Some(sess) => str_at(sess, "id"@),
                None => None,
            };
            if from_payload is Some {
                from_payload
            } else if from_session is Some {
                from_session
            } else {
                str_at(v, "id"@)
            }
        },
        _ => None,
    }
}

/// Attempt to extract a session UUID from a parsed Codex log entry.
pub fn session_uuid_from_value(value: &JsonValue) -> (r: Option<String>)
    ensures
        match r {
            Some(s) => uuid_of_entry(*value) == Some(s@),
            None => uuid_of_entry(*value) is None,
        },
{
    match value {
        JsonValue::Object(_) => {},
        _ => return None,
    }
    if let Some(payload) = json_get(value, "payload") {
        if let Some(uuid) = json_str_at(payload, "id") {
            return Some(uuid.clone());
        }
        if let Some(uuid) = json_str_at(payload, "session_id") {
            return Some(uuid.clone());
        }
    }
    if let Some(session) = json_get(value, "session") {
        if let Some(uuid) = json_str_at(session, "id") {
            return Some(uuid.clone());
        }
    }
    match json_str_at(value, "id") {
        Some(uuid) => Some(uuid.clone()),
        None => None,
    }
}

/// The session id a log file name implies: the name without `.jsonl`; for
/// `rollout-…` names, the text after the last `-`, or after `rollout-` when no
/// other `-` follows.
pub open spec fn uuid_from_file_name(name: Seq<char>) -> Seq<char> {
    let trimmed = if ends_with(name, ".jsonl"@) {
        name.subrange(0, name.len() - 6)
    } else {
        name
    };
    if starts_with(trimmed, "rollout-"@) {
        let stripped = trimmed.subrange(8, trimmed.len() as int);
        if stripped.contains('-') {
            let i = choose|i: int| rsplit_once_at(stripped, '-', i);
            stripped.subrange(i + 1, stripped.len() as int)
        } else {
            stripped
        }
    } else {
        trimmed
    }
}

/// Derive a fallback session UUID from the log file path when the payload does not
/// expose one.
pub fn fallback_session_uuid(path: &str) -> (r: Option<String>)
    ensures
        match file_name_of(path@) {
            Some(name) => r is Some && r->0@ == uuid_from_file_name(name),
            None => r is None,
        },
{
    let name = match file_name(path) {
        Some(n) => n,
        None => return None,
    };
    let name_chars = str_chars(&name);
    let suffix = chars_of(".jsonl");
    proof {
        reveal_strlit(".jsonl");
        reveal_strlit("rollout-");
    }
    let trimmed = if ends_with_chars(&name_chars, &suffix) {
        slice_chars(&name_chars, 0, name_chars.len() - 6)
    } else {
        name_chars
    };
    let prefix = chars_of("rollout-");
    if starts_with_chars(&trimmed, &prefix) {
        let stripped = slice_chars(&trimmed, 8, trimmed.len());
        match rfind_char(&stripped, '-') {
            Some(i) => {
                proof {
                    assert(rsplit_once_at(stripped@, '-', i as int));
                    let j = choose|j: int| rsplit_once_at(stripped@, '-', j);
                    assert(j == i);
                }
                let tail = slice_chars(&stripped, i + 1, stripped.len());
                return Some(string_of(&tail));
            },
            None => {
                return Some(string_of(&stripped));
            },
        }
    }
    Some(string_of(&trimmed))
}

// ---------------------------------------------------------------------------
// Markdown export
// ---------------------------------------------------------------------------

/// The time shown in a transcript heading: RFC 3339 when the time crate can write
/// it, its fallback pattern text when only that fails, `-` otherwise.
pub open spec fn timestamp_text(ts: Option<i64>) -> Seq<char> {
    match ts {
        Some(t) => match rfc3339_of_unix(t) {
            Some(Some(text)) => text,
            Some(None) => "%Y-%m-%d %H:%M:%S"@,
            None => "-"@,
        },
        None => "-"@,
    }
}

/// Whether a message is shown in a transcript: a user or assistant message whose
/// trimmed text is non-empty and is not an instructions or environment block.
pub open spec fn renderable(m: MessageRecord) -> bool {
    let role = lower_seq(m.role@);
    let trimmed = trim(trim_start(m.content@));
    &&& (role == "user"@ || role == "assistant"@)
    &&& trimmed.len() > 0
    &&& !starts_with(trimmed, "<user_instructions>"@)
    &&& !starts_with(trimmed, "<environment_context>"@)
}

/// The lines of one rendered message.
pub open spec fn message_block(m: MessageRecord) -> Seq<Seq<char>> {
    let title = if lower_seq(m.role@) == "user"@ {
        "User"@
    } else {
        "Assistant"@
    };
    seq!["## "@ + timestamp_text(m.timestamp) + " — "@ + title, Seq::empty()] + lines(
        trim_start(m.content@),
    ) + seq![Seq::empty()]
}

/// Rendering state after a prefix of the messages: lines emitted, messages
/// emitted, and renderable messages seen.
pub open spec fn md_fold(msgs: Seq<MessageRecord>, limit: Option<usize>) -> (Seq<Seq<char>>, nat, nat)
    decreases msgs.len(),
{
    if msgs.len() == 0 {
        (Seq::empty(), 0, 0)
    } else {
        let (ls, emitted, total) = md_fold(msgs.drop_last(), limit);
        let m = msgs.last();
        if !renderable(m) {
            (ls, emitted, total)
        } else if limit is Some && emitted >= limit->0 {
            (ls, emitted, total + 1)
        } else {
            (ls + message_block(m), emitted + 1, total + 1)
        }
    }
}

/// The transcript header: session id (uuid when known) and the wrapper, if any.
pub open spec fn md_header(s: SessionSummary) -> Seq<Seq<char>> {
    let id = match s.uuid {
        Some(u) => u@,
        None => s.id@,
    };
    let head = seq!["# Codex Session "@ + id];
    let with_wrapper = match s.wrapper {
        Some(w) => head.push("**Wrapper**: `"@ + w@ + "`"@),
        None => head,
    };
    with_wrapper.push(Seq::empty())
}

/// The whole Markdown rendering of a transcript.
pub open spec fn markdown(t: Transcript, limit: Option<usize>) -> Seq<Seq<char>> {
    let (body, _emitted, total) = md_fold(t.messages@, limit);
    let footer = match limit {
        Some(l) => if total > l {
            seq!["*… and "@ + dec((total - l) as nat) + " more messages*"@, Seq::empty()]
        } else {
            Seq::empty()
        },
        None => Seq::empty(),
    };
    md_header(t.session) + body + footer
}

fn timestamp_chars(ts: Option<i64>) -> (r: Vec<char>)
    ensures
        r@ == timestamp_text(ts),
{
    match ts {
        Some(t) => match format_unix_rfc3339(t) {
            Some(Some(text)) => str_chars(&text),
            Some(None) => chars_of("%Y-%m-%d %H:%M:%S"),
            None => chars_of("-"),
        },
        None => chars_of("-"),
    }
}

fn is_renderable(m: &MessageRecord) -> (r: bool)
    ensures
        r == renderable(*m),
{
    let role = to_ascii_lowercase(&str_chars(&m.role));
    let user = chars_of("user");
    let assistant = chars_of("assistant");
    if !eq_chars(&role, &user) && !eq_chars(&role, &assistant) {
        return false;
    }
    let text = trim_start_chars(&str_chars(&m.content));
    let trimmed = trim_chars(&text);
    if trimmed.len() == 0 {
        return false;
    }
    let a = chars_of("<user_instructions>");
    let b = chars_of("<environment_context>");
    !starts_with_chars(&trimmed, &a) && !starts_with_chars(&trimmed, &b)
}

fn push_line(out: &mut Vec<String>, line: &Vec<char>)
    ensures
        views_of(final(out)@) == views_of(old(out)@).push(line@),
{
    let s = string_of(line);
    out.push(s);
    assert(views_of(out@) =~= views_of(old(out)@).push(line@));
}

pub open spec fn views_of(v: Seq<String>) -> Seq<Seq<char>> {
    Seq::new(v.len(), |i: int| v[i]@)
}

fn push_block(out: &mut Vec<String>, m: &MessageRecord)
    ensures
        views_of(final(out)@) == views_of(old(out)@) + message_block(*m),
{
    let role = to_ascii_lowercase(&str_chars(&m.role));
    let user = chars_of("user");
    let mut heading = chars_of("## ");
    let ts = timestamp_chars(m.timestamp);
    append_chars(&mut heading, &ts);
    append_str(&mut heading, " — ");
    if eq_chars(&role, &user) {
        append_str(&mut heading, "User");
    } else {
        append_str(&mut heading, "Assistant");
    }
    let ghost start = views_of(out@);
    push_line(out, &heading);
    push_line(out, &Vec::new());
    let text = trim_start_chars(&str_chars(&m.content));
    let ls = lines_of(&text);
    let mut i: usize = 0;
    while i < ls.len()
        invariant
            i <= ls.len(),
            views(ls@) == lines(trim_start(m.content@)),
            views_of(out@) == start + seq![heading@, Seq::<char>::empty()] + views(ls@).subrange(0, i as int),
        decreases ls.len() - i,
    {
        push_line(out, &ls[i]);
        i += 1;
        assert(views(ls@).subrange(0, i as int) =~= views(ls@).subrange(0, i - 1).push(ls@[i - 1]@));
        assert(views_of(out@) =~= start + seq![heading@, Seq::<char>::empty()] + views(ls@).subrange(0, i as int));
    }
    push_line(out, &Vec::new());
    assert(views(ls@).subrange(0, i as int) =~= views(ls@));
    assert(views_of(out@) =~= start + message_block(*m));
}

impl Transcript {
    /// The transcript as Markdown lines; with a limit, only that many messages are
    /// written and a closing line counts the rest.
    pub fn markdown_lines(&self, limit: Option<usize>) -> (r: Vec<String>)
        ensures
            views_of(r@) == markdown(*self, limit),
    {
        let mut out: Vec<String> = Vec::new();
        let mut head = chars_of("# Codex Session ");
        match &self.session.uuid {
            Some(u) => {
                let v = str_chars(u);
                append_chars(&mut head, &v);
            },
            None => {
                let v = str_chars(&self.session.id);
                append_chars(&mut head, &v);
            },
        }
        push_line(&mut out, &head);
        if let Some(w) = &self.session.wrapper {
            let mut line = chars_of("**Wrapper**: `");
            append_chars(&mut line, &str_chars(w));
            append_str(&mut line, "`");
            push_line(&mut out, &line);
        }
        push_line(&mut out, &Vec::new());
        assert(views_of(out@) =~= md_header(self.session));

        let mut emitted: usize = 0;
        let mut total: usize = 0;
        let mut i: usize = 0;
        let ghost msgs = self.messages@;
        while i < self.messages.len()
            invariant
                i <= self.messages.len(),
                msgs == self.messages@,
                emitted <= total <= i,
                md_fold(msgs.subrange(0, i as int), limit) == (
                    views_of(out@).subrange(md_header(self.session).len() as int, views_of(out@).len() as int),
                    emitted as nat,
                    total as nat,
                ),
                views_of(out@).len() >= md_header(self.session).len(),
                views_of(out@).subrange(0, md_header(self.session).len() as int) == md_header(self.session),
            decreases self.messages.len() - i,
        {
            let m = &self.messages[i];
            proof {
                assert(msgs.subrange(0, i + 1).drop_last() =~= msgs.subrange(0, i as int));
                assert(msgs.subrange(0, i + 1).last() == msgs[i as int]);
            }
            let ghost hl = md_header(self.session).len() as int;
            let ghost before = views_of(out@);
            if is_renderable(m) {
                let over = match limit {
                    Some(max) => emitted >= max,
                    None => false,
                };
                if over {
                    total += 1;
                } else {
                    push_block(&mut out, m);
                    proof {
                        assert(views_of(out@).subrange(hl, views_of(out@).len() as int) =~= before.subrange(hl, before.len() as int) + message_block(*m));
                        assert(views_of(out@).subrange(0, hl) =~= before.subrange(0, hl));
                    }
                    emitted += 1;
                    total += 1;
                }
            }
            i += 1;
        }
        assert(msgs.subrange(0, msgs.len() as int) =~= msgs);
        let ghost body = views_of(out@).subrange(md_header(self.session).len() as int, views_of(out@).len() as int);
        assert(views_of(out@) =~= md_header(self.session) + body);
        if let Some(l) = limit {
            if total > l {
                let mut line = chars_of("*… and ");
                let n = u64_to_chars((total - l) as u64);
                append_chars(&mut line, &n);
                append_str(&mut line, " more messages*");
                push_line(&mut out, &line);
                push_line(&mut out, &Vec::new());
                assert(views_of(out@) =~= md_header(self.session) + body + seq![line@, Seq::<char>::empty()]);
            } else {
                assert(views_of(out@) =~= md_header(self.session) + body + Seq::<Seq<char>>::empty());
            }
        } else {
            assert(views_of(out@) =~= md_header(self.session) + body + Seq::<Seq<char>>::empty());
        }
        out
    }
}

} // verus!
