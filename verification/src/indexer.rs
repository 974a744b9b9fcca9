//! Reading session logs into indexable sessions and messages.

use vstd::prelude::*;

use crate::clock::{parse_rfc3339_unix, unix_of_rfc3339};
use crate::config::model::opt_view;
use crate::session::MessageRecord;
use crate::paths::{extension, extension_of, components, components_of, file_name, file_name_of, file_stem, file_stem_of, strip_prefix, strip_prefix_of};
use crate::config::model::ProviderConfig;
use crate::json::{JsonValue, get, json_get, json_str_at, member_index, member_pos, str_at};
use crate::text::{
    chars_of, join, join_strings, lines, lines_of, lower_seq, starts_with, starts_with_str,
    str_chars, string_of, string_views, trim, trim_chars, views,
};

verus! {

// ---------------------------------------------------------------------------
// Message text
// ---------------------------------------------------------------------------

/// The text of a value (`extract_text`): the pieces of its `content` array joined,
/// else the text of its `payload`, else its `message` string, else its `text`
/// string.
pub open spec fn text_of(v: JsonValue) -> Option<Seq<char>>
    decreases v, 0nat,
{
    match v {
        JsonValue::Object(ms) => {
            let from_content = match member_index(ms@, "content"@) {
                Some(i) => if 0 <= i < ms@.len() {
                    match ms@[i].1 {
                        JsonValue::Array(items) => {
                            let parts = parts_of(items@, items@.len() as int);
                            if parts.len() > 0 {
                                Some(join(parts, ""@))
                            } else {
                                None
                            }
                        },
                        _ => None,
                    }
                } else {
                    None
                },
                None => None,
            };
            let from_payload = match member_index(ms@, "payload"@) {
                Some(i) => if 0 <= i < ms@.len() {
                    text_of(ms@[i].1)
                } else {
                    None
                },
                None => None,
            };
            if from_content is Some {
                from_content
            } else if from_payload is Some {
                from_payload
            } else if str_at(v, "message"@) is Some {
                str_at(v, "message"@)
            } else {
                str_at(v, "text"@)
            }
        },
        _ => None,
    }
}

/// The pieces contributed by the first `n` items of a `content` array: an item's
/// `text` string, else its `message` string, else the text of its `content`.
pub open spec fn parts_of(items: Seq<JsonValue>, n: int) -> Seq<Seq<char>>
    decreases items, n,
{
    if n <= 0 || n > items.len() {
        Seq::empty()
    } else {
        let prev = parts_of(items, n - 1);
        let item = items[n - 1];
        match str_at(item, "text"@) {
            Some(t) => prev.push(t),
            None => match str_at(item, "message"@) {
                Some(m) => prev.push(m),
                None => match item {
                    JsonValue::Object(ms) => match member_index(ms@, "content"@) {
                        Some(j) => if 0 <= j < ms@.len() {
                            match text_of(ms@[j].1) {
                                Some(t) => prev.push(t),
                                None => prev,
                            }
                        } else {
                            prev
                        },
                        None => prev,
                    },
                    _ => prev,
                },
            },
        }
    }
}

/// The text of a message container, if it has any.
#[verifier::loop_isolation(false)]
pub fn extract_text(container: &JsonValue) -> (r: Option<String>)
    ensures
        opt_view(r) == text_of(*container),
    decreases *container,
{
    match container {
        JsonValue::Object(ms) => {
            let mut from_content: Option<String> = None;
            match member_pos(ms, "content") {
                Some(i) => {
                    match &ms[i].1 {
                        JsonValue::Array(items) => {
                            let mut parts: Vec<String> = Vec::new();
                            let mut k: usize = 0;
                            assert(string_views(parts@) =~= parts_of(items@, 0));
                            while k < items.len()
                                invariant
                                    k <= items.len(),
                                    string_views(parts@) == parts_of(items@, k as int),
                                decreases items.len() - k,
                            {
                                let item = &items[k];
                                let ghost before = parts@;
                                if let Some(t) = json_str_at(item, "text") {
                                    parts.push(t.clone());
                                } else if let Some(m) = json_str_at(item, "message") {
                                    parts.push(m.clone());
                                } else {
                                    match item {
                                        JsonValue::Object(ms2) => {
                                            match member_pos(ms2, "content") {
                                                Some(j) => {
                                                    proof {
                                                        assert(decreases_to!(*container => ms));
                                                        assert(decreases_to!(ms => ms@));
                                                        assert(decreases_to!(ms@ => ms@[i as int]));
                                                        assert(decreases_to!(ms@[i as int] => ms@[i as int].1));
                                                        assert(decreases_to!(ms@[i as int].1 => items));
                                                        assert(decreases_to!(items => items@));
                                                        assert(decreases_to!(items@ => items@[k as int]));
                                                        assert(decreases_to!(items@[k as int] => ms2));
                                                        assert(decreases_to!(ms2 => ms2@));
                                                        assert(decreases_to!(ms2@ => ms2@[j as int]));
                                                        assert(decreases_to!(ms2@[j as int] => ms2@[j as int].1));
                                                    }
                                                    if let Some(t) = extract_text(&ms2[j].1) {
                                                        parts.push(t);
                                                    }
                                                },
                                                None => {},
                                            }
                                        },
                                        _ => {},
                                    }
                                }
                                proof {
                                    assert(string_views(parts@) =~= parts_of(items@, k + 1));
                                }
                                k += 1;
                            }
                            if parts.len() > 0 {
                                from_content = Some(join_strings(&parts, ""));
                            }
                        },
                        _ => {},
                    }
                },
                None => {},
            }
            if from_content.is_some() {
                return from_content;
            }
            match member_pos(ms, "payload") {
                Some(i) => {
                    proof {
                        assert(decreases_to!(*container => ms));
                        assert(decreases_to!(ms => ms@));
                        assert(decreases_to!(ms@ => ms@[i as int]));
                        assert(decreases_to!(ms@[i as int] => ms@[i as int].1));
                    }
                    let p = extract_text(&ms[i].1);
                    if p.is_some() {
                        return p;
                    }
                },
                None => {},
            }
            if let Some(m) = json_str_at(container, "message") {
                return Some(m.clone());
            }
            match json_str_at(container, "text") {
                Some(t) => Some(t.clone()),
                None => None,
            }
        },
        _ => None,
    }
}


/// The pairs as text.
pub open spec fn pair_views(v: Seq<(String, String)>) -> Seq<(Seq<char>, Seq<char>)> {
    Seq::new(v.len(), |i: int| (v[i].0@, v[i].1@))
}

/// A `(role, text)` pair from a container with a `role` string and some text.
pub open spec fn role_text(c: JsonValue) -> Seq<(Seq<char>, Seq<char>)> {
    match (str_at(c, "role"@), text_of(c)) {
        (Some(r), Some(t)) => seq![(r, t)],
        _ => Seq::empty(),
    }
}

/// Messages named by the record's `type`: a user message event, or a response
/// item / message (its `payload`, or the record itself when there is none).
pub open spec fn typed_messages(v: JsonValue) -> Seq<(Seq<char>, Seq<char>)> {
    match str_at(v, "type"@) {
        Some(t) => if t == "event_msg"@ {
            match get(v, "payload"@) {
                Some(p) => if str_at(p, "type"@) == Some("user_message"@) && text_of(p) is Some {
                    seq![("user"@, text_of(p)->0)]
                } else {
                    Seq::empty()
                },
                None => Seq::empty(),
            }
        } else if t == "response_item"@ || t == "message"@ {
            role_text(
                match get(v, "payload"@) {
                    Some(p) => p,
                    None => v,
                },
            )
        } else {
            Seq::empty()
        },
        None => Seq::empty(),
    }
}

/// The `(role, text)` messages of one log record.
pub open spec fn messages_of(v: JsonValue) -> Seq<(Seq<char>, Seq<char>)> {
    typed_messages(v) + role_text(v)
}

fn role_text_exec(c: &JsonValue, out: &mut Vec<(String, String)>)
    ensures
        pair_views(final(out)@) == pair_views(old(out)@) + role_text(*c),
{
    let ghost before = out@;
    if let Some(role) = json_str_at(c, "role") {
        if let Some(text) = extract_text(c) {
            out.push((role.clone(), text));
            assert(pair_views(out@) =~= pair_views(before) + role_text(*c));
            return;
        }
    }
    assert(pair_views(out@) =~= pair_views(before) + role_text(*c));
}

/// The `(role, text)` messages of one log record.
pub fn extract_messages(value: &JsonValue) -> (r: Vec<(String, String)>)
    ensures
        pair_views(r@) == messages_of(*value),
{
    let mut messages: Vec<(String, String)> = Vec::new();
    assert(pair_views(messages@) =~= Seq::<(Seq<char>, Seq<char>)>::empty());
    if let Some(typ) = json_str_at(value, "type") {
        if crate::text::eq_str(typ, "event_msg") {
            if let Some(payload) = json_get(value, "payload") {
                let is_user = match json_str_at(payload, "type") {
                    Some(t) => crate::text::eq_str(t, "user_message"),
                    None => false,
                };
                if is_user {
                    if let Some(text) = extract_text(payload) {
                        proof {
                            reveal_strlit("user");
                        }
                        messages.push(("user".to_owned(), text));
                        assert(pair_views(messages@) =~= typed_messages(*value));
                    }
                }
            }
        } else if crate::text::eq_str(typ, "response_item") || crate::text::eq_str(typ, "message") {
            let container = match json_get(value, "payload") {
                Some(p) => p,
                None => value,
            };
            role_text_exec(container, &mut messages);
        }
    }
    assert(pair_views(messages@) =~= typed_messages(*value));
    role_text_exec(value, &mut messages);
    messages
}

pub const TAG_USER_INSTRUCTIONS: &'static str = "<user_instructions>";
pub const TAG_USER_INSTRUCTIONS_END: &'static str = "</user_instructions>";
pub const TAG_ENVIRONMENT_CONTEXT: &'static str = "<environment_context>";

/// Message text worth storing: trimmed, not blank, and not one of the bootstrap
/// blocks (user instructions or environment context).
pub open spec fn clean_of(input: Seq<char>) -> Option<Seq<char>> {
    let t = trim(input);
    if t.len() == 0 {
        None
    } else if starts_with(t, TAG_USER_INSTRUCTIONS@) || starts_with(t, TAG_USER_INSTRUCTIONS_END@)
        || starts_with(t, TAG_ENVIRONMENT_CONTEXT@) {
        None
    } else {
        Some(t)
    }
}

pub fn clean_text(input: &str) -> (r: Option<String>)
    ensures
        opt_view(r) == clean_of(input@),
{
    let t = trim_chars(&chars_of(input));
    if t.len() == 0 {
        return None;
    }
    if starts_with_str(&t, TAG_USER_INSTRUCTIONS) || starts_with_str(&t, TAG_USER_INSTRUCTIONS_END)
        || starts_with_str(&t, TAG_ENVIRONMENT_CONTEXT) {
        return None;
    }
    Some(string_of(&t))
}

/// The text with its leading `#` characters removed.
pub open spec fn strip_hashes(s: Seq<char>) -> Seq<char>
    decreases s.len(),
{
    if s.len() > 0 && s[0] == '#' {
        strip_hashes(s.drop_first())
    } else {
        s
    }
}

fn strip_hashes_chars(s: &Vec<char>) -> (r: Vec<char>)
    ensures
        r@ == strip_hashes(s@),
{
    let mut i: usize = 0;
    assert(s@.subrange(0, s@.len() as int) =~= s@);
    while i < s.len() && s[i] == '#'
        invariant
            i <= s.len(),
            strip_hashes(s@) == strip_hashes(s@.subrange(i as int, s@.len() as int)),
        decreases s.len() - i,
    {
        proof {
            let t = s@.subrange(i as int, s@.len() as int);
            assert(t.drop_first() =~= s@.subrange(i + 1, s@.len() as int));
        }
        i += 1;
    }
    crate::text::slice_chars(s, i, s.len())
}

/// The first line that says something: blank lines and lines starting with `<`
/// are skipped; a heading gives its text without the `#` marks (an empty heading
/// is skipped).
pub open spec fn summary_of_lines(ls: Seq<Seq<char>>) -> Option<Seq<char>>
    decreases ls.len(),
{
    if ls.len() == 0 {
        None
    } else {
        let t = trim(ls[0]);
        if t.len() == 0 || t[0] == '<' {
            summary_of_lines(ls.drop_first())
        } else if t[0] == '#' {
            let h = trim(strip_hashes(t));
            if h.len() > 0 {
                Some(h)
            } else {
                summary_of_lines(ls.drop_first())
            }
        } else {
            Some(t)
        }
    }
}

pub open spec fn summary_of(raw: Seq<char>) -> Option<Seq<char>> {
    summary_of_lines(lines(raw))
}

/// A one-line summary of an instructions block.
pub fn summarize_instructions(raw: &str) -> (r: Option<String>)
    ensures
        opt_view(r) == summary_of(raw@),
{
    let ls = lines_of(&chars_of(raw));
    let ghost all = views(ls@);
    let mut i: usize = 0;
    assert(all.subrange(0, all.len() as int) =~= all);
    while i < ls.len()
        invariant
            i <= ls.len(),
            all == views(ls@),
            all == lines(raw@),
            summary_of_lines(all) == summary_of_lines(all.subrange(i as int, all.len() as int)),
        decreases ls.len() - i,
    {
        let ghost rest = all.subrange(i as int, all.len() as int);
        assert(rest[0] == ls@[i as int]@);
        assert(rest.drop_first() =~= all.subrange(i + 1, all.len() as int));
        let t = trim_chars(&ls[i]);
        if t.len() == 0 || t[0] == '<' {
            i += 1;
            continue;
        }
        if t[0] == '#' {
            let h = trim_chars(&strip_hashes_chars(&t));
            if h.len() > 0 {
                return Some(string_of(&h));
            }
            i += 1;
            continue;
        }
        return Some(string_of(&t));
    }
    None
}

/// The first line of the text that is not blank and does not start with `<`,
/// trimmed.
pub open spec fn first_preview_line(ls: Seq<Seq<char>>) -> Option<Seq<char>>
    decreases ls.len(),
{
    if ls.len() == 0 {
        None
    } else {
        let t = trim(ls[0]);
        if t.len() > 0 && t[0] != '<' {
            Some(t)
        } else {
            first_preview_line(ls.drop_first())
        }
    }
}

fn first_preview_line_exec(text: &Vec<char>) -> (r: Option<Vec<char>>)
    ensures
        match r {
            Some(l) => first_preview_line(lines(text@)) == Some(l@),
            None => first_preview_line(lines(text@)) is None,
        },
{
    let ls = lines_of(text);
    let ghost all = views(ls@);
    let mut i: usize = 0;
    assert(all.subrange(0, all.len() as int) =~= all);
    while i < ls.len()
        invariant
            i <= ls.len(),
            all == views(ls@),
            all == lines(text@),
            first_preview_line(all) == first_preview_line(all.subrange(i as int, all.len() as int)),
        decreases ls.len() - i,
    {
        let ghost rest = all.subrange(i as int, all.len() as int);
        assert(rest[0] == ls@[i as int]@);
        assert(rest.drop_first() =~= all.subrange(i + 1, all.len() as int));
        let t = trim_chars(&ls[i]);
        if t.len() > 0 && t[0] != '<' {
            return Some(t);
        }
        i += 1;
    }
    None
}

/// `parse_timestamp`: the record's `timestamp` string as Unix seconds, when it is
/// RFC 3339.
pub open spec fn timestamp_of(v: JsonValue) -> Option<i64> {
    match str_at(v, "timestamp"@) {
        Some(t) => unix_of_rfc3339(t),
        None => None,
    }
}

pub fn parse_timestamp(value: &JsonValue) -> (r: Option<i64>)
    ensures
        r == timestamp_of(*value),
{
    match json_str_at(value, "timestamp") {
        Some(t) => parse_rfc3339_unix(t.as_str()),
        None => None,
    }
}


// ---------------------------------------------------------------------------
// Reading a whole log
// ---------------------------------------------------------------------------

/// A stored message as text: role, content, source, timestamp.
pub struct MsgView {
    pub role: Seq<char>,
    pub content: Seq<char>,
    pub source: Option<Seq<char>>,
    pub timestamp: Option<i64>,
}

/// What reading a log has gathered so far, as text.
pub struct IngestView {
    pub messages: Seq<MsgView>,
    pub first_prompt: Option<Seq<char>>,
    pub fallback_preview: Option<Seq<char>>,
    pub instructions_preview: Option<Seq<char>>,
    pub saw_instruction_block: bool,
    pub saw_any_record: bool,
    pub session_uuid: Option<Seq<char>>,
    pub earliest_timestamp: Option<i64>,
    pub latest_timestamp: Option<i64>,
}

/// What reading a log has gathered so far.
#[derive(Debug)]
pub struct IngestState {
    pub messages: Vec<MessageRecord>,
    pub first_prompt: Option<String>,
    pub fallback_preview: Option<String>,
    pub instructions_preview: Option<String>,
    pub saw_instruction_block: bool,
    pub saw_any_record: bool,
    pub session_uuid: Option<String>,
    pub earliest_timestamp: Option<i64>,
    pub latest_timestamp: Option<i64>,
}

pub open spec fn msg_view(m: MessageRecord) -> MsgView {
    MsgView { role: m.role@, content: m.content@, source: opt_view(m.source), timestamp: m.timestamp }
}

pub open spec fn msg_views(ms: Seq<MessageRecord>) -> Seq<MsgView> {
    Seq::new(ms.len(), |i: int| msg_view(ms[i]))
}

pub open spec fn state_view(st: IngestState) -> IngestView {
    IngestView {
        messages: msg_views(st.messages@),
        first_prompt: opt_view(st.first_prompt),
        fallback_preview: opt_view(st.fallback_preview),
        instructions_preview: opt_view(st.instructions_preview),
        saw_instruction_block: st.saw_instruction_block,
        saw_any_record: st.saw_any_record,
        session_uuid: opt_view(st.session_uuid),
        earliest_timestamp: st.earliest_timestamp,
        latest_timestamp: st.latest_timestamp,
    }
}

/// The index a message is stored with: its position (saturating at `i64::MAX`).
pub open spec fn index_at(i: int) -> i64 {
    if i <= i64::MAX {
        i as i64
    } else {
        i64::MAX
    }
}

/// Every stored message belongs to `session_id`, carries its position as index,
/// and is not yet marked first.
pub open spec fn records_in_order(ms: Seq<MessageRecord>, session_id: Seq<char>) -> bool {
    forall|i: int|
        0 <= i < ms.len() ==> (#[trigger] ms[i]).session_id@ == session_id && ms[i].index == index_at(i)
            && !ms[i].is_first
}

pub open spec fn empty_view() -> IngestView {
    IngestView {
        messages: Seq::empty(),
        first_prompt: None,
        fallback_preview: None,
        instructions_preview: None,
        saw_instruction_block: false,
        saw_any_record: false,
        session_uuid: None,
        earliest_timestamp: None,
        latest_timestamp: None,
    }
}

/// The messages are told apart by lower-cased role, cleaned text and timestamp.
pub open spec fn dedup_key(m: MsgView) -> (Seq<char>, Seq<char>, Option<i64>) {
    (lower_seq(m.role), m.content, m.timestamp)
}

/// The first stored message with the given key.
pub open spec fn find_key(ms: Seq<MsgView>, key: (Seq<char>, Seq<char>, Option<i64>), i: int) -> Option<int>
    decreases ms.len() - i,
{
    if i < 0 || i >= ms.len() {
        None
    } else if dedup_key(ms[i]) == key {
        Some(i)
    } else {
        find_key(ms, key, i + 1)
    }
}

/// `update_existing_source`: a repeated message takes the new source when it had
/// none, or when the new one is `response_item`.
pub open spec fn with_source(m: MsgView, source: Option<Seq<char>>) -> MsgView {
    match source {
        Some(s) => if m.source is None || s == "response_item"@ {
            MsgView { source: Some(s), ..m }
        } else {
            m
        },
        None => m,
    }
}

/// One `(role, content)` message of a record, read into the state.
pub open spec fn absorb_message(
    st: IngestView,
    role: Seq<char>,
    content: Seq<char>,
    source: Option<Seq<char>>,
    ts: Option<i64>,
) -> IngestView {
    let tc = trim(content);
    let fallback = if st.fallback_preview is None {
        match first_preview_line(lines(tc)) {
            Some(l) => Some(
                match summary_of(l) {
                    Some(x) => x,
                    None => l,
                },
            ),
            None => None,
        }
    } else {
        st.fallback_preview
    };
    let saw = st.saw_instruction_block || starts_with(tc, TAG_USER_INSTRUCTIONS@) || starts_with(
        tc,
        TAG_USER_INSTRUCTIONS_END@,
    );
    let st1 = IngestView { fallback_preview: fallback, saw_instruction_block: saw, ..st };
    match clean_of(content) {
        None => st1,
        Some(clean) => {
            let key = (lower_seq(role), clean, ts);
            match find_key(st1.messages, key, 0) {
                Some(j) => IngestView {
                    messages: st1.messages.update(j, with_source(st1.messages[j], source)),
                    ..st1
                },
                None => IngestView {
                    messages: st1.messages.push(
                        MsgView { role, content: clean, source, timestamp: ts },
                    ),
                    first_prompt: if st1.first_prompt is None && lower_seq(role) == "user"@ {
                        Some(clean)
                    } else {
                        st1.first_prompt
                    },
                    ..st1
                },
            }
        },
    }
}

/// The first `n` messages of a record, read into the state in order.
pub open spec fn absorb_all(
    st: IngestView,
    msgs: Seq<(Seq<char>, Seq<char>)>,
    n: int,
    source: Option<Seq<char>>,
    ts: Option<i64>,
) -> IngestView
    decreases n,
{
    if n <= 0 || n > msgs.len() {
        st
    } else {
        absorb_message(absorb_all(st, msgs, n - 1, source, ts), msgs[n - 1].0, msgs[n - 1].1, source, ts)
    }
}

pub open spec fn min_ts(cur: Option<i64>, t: i64) -> i64 {
    match cur {
        Some(c) => if c <= t {
            c
        } else {
            t
        },
        None => t,
    }
}

pub open spec fn max_ts(cur: Option<i64>, t: i64) -> i64 {
    match cur {
        Some(c) => if c >= t {
            c
        } else {
            t
        },
        None => t,
    }
}

/// One parsed record of the log, read into the state: it marks that a record
/// was seen, may supply the session UUID, an instructions summary and a
/// timestamp, and then its messages are read in order.
pub open spec fn ingest_record(st: IngestView, v: JsonValue) -> IngestView {
    let msgs = messages_of(v);
    absorb_all(record_header(st, v), msgs, msgs.len() as int, str_at(v, "type"@), timestamp_of(v))
}

/// What a record contributes before its messages are read.
pub open spec fn record_header(st: IngestView, v: JsonValue) -> IngestView {
    let ts = timestamp_of(v);
    IngestView {
        saw_any_record: true,
        session_uuid: if st.session_uuid is None {
            crate::session::uuid_of_entry(v)
        } else {
            st.session_uuid
        },
        instructions_preview: if st.instructions_preview is None {
            match get(v, "payload"@) {
                Some(p) => match str_at(p, "instructions"@) {
                    Some(i) => summary_of(i),
                    None => None,
                },
                None => None,
            }
        } else {
            st.instructions_preview
        },
        earliest_timestamp: match ts {
            Some(t) => Some(min_ts(st.earliest_timestamp, t)),
            None => st.earliest_timestamp,
        },
        latest_timestamp: match ts {
            Some(t) => Some(max_ts(st.latest_timestamp, t)),
            None => st.latest_timestamp,
        },
        ..st
    }
}

/// The first `n` records read in order.
pub open spec fn ingest_all(records: Seq<JsonValue>, n: int) -> IngestView
    decreases n,
{
    if n <= 0 || n > records.len() {
        empty_view()
    } else {
        ingest_record(ingest_all(records, n - 1), records[n - 1])
    }
}

/// `update_existing_source`.
pub fn update_existing_source(existing: &mut MessageRecord, source: Option<&String>)
    ensures
        msg_view(*final(existing)) == with_source(
            msg_view(*old(existing)),
            match source {
                Some(s) => Some(s@),
                None => None,
            },
        ),
        final(existing).session_id == old(existing).session_id,
        final(existing).index == old(existing).index,
        final(existing).is_first == old(existing).is_first,
{
    if let Some(value) = source {
        if existing.source.is_none() || crate::text::eq_str(value, "response_item") {
            existing.source = Some(value.clone());
        }
    }
}

fn find_key_exec(ms: &Vec<MessageRecord>, role_lower: &Vec<char>, clean: &Vec<char>, ts: Option<i64>) -> (r: Option<usize>)
    ensures
        match r {
            Some(j) => find_key(msg_views(ms@), (role_lower@, clean@, ts), 0) == Some(j as int) && j < ms@.len(),
            None => find_key(msg_views(ms@), (role_lower@, clean@, ts), 0) is None,
        },
{
    let ghost key = (role_lower@, clean@, ts);
    let ghost mv = msg_views(ms@);
    let mut i: usize = 0;
    while i < ms.len()
        invariant
            i <= ms.len(),
            mv == msg_views(ms@),
            key == (role_lower@, clean@, ts),
            find_key(mv, key, 0) == find_key(mv, key, i as int),
        decreases ms.len() - i,
    {
        let r = to_lowercase_string(&ms[i].role);
        let c = str_chars(&ms[i].content);
        assert(mv[i as int] == msg_view(ms@[i as int]));
        if same_ts(ms[i].timestamp, ts) && crate::text::eq_chars(&r, role_lower) && crate::text::eq_chars(&c, clean) {
            assert(dedup_key(mv[i as int]) == key);
            return Some(i);
        }
        assert(dedup_key(mv[i as int]) != key);
        i += 1;
    }
    None
}

fn same_ts(a: Option<i64>, b: Option<i64>) -> (r: bool)
    ensures
        r == (a == b),
{
    match (a, b) {
        (Some(x), Some(y)) => x == y,
        (None, None) => true,
        _ => false,
    }
}

fn to_lowercase_string(s: &String) -> (r: Vec<char>)
    ensures
        r@ == lower_seq(s@),
{
    crate::text::to_ascii_lowercase(&str_chars(s))
}

fn index_of_len(n: usize) -> (r: i64)
    ensures
        r == index_at(n as int),
{
    let m: u64 = n as u64;
    if m <= 0x7fff_ffff_ffff_ffffu64 {
        m as i64
    } else {
        i64::MAX
    }
}

/// One `(role, content)` message read into the state (the body of
/// `collect_ingest_state`'s inner loop).
fn absorb_message_exec(
    st: &mut IngestState,
    session_id: &str,
    role: &String,
    content: &String,
    source: &Option<String>,
    ts: Option<i64>,
)
    requires
        records_in_order(old(st).messages@, session_id@),
    ensures
        state_view(*final(st)) == absorb_message(state_view(*old(st)), role@, content@, opt_view(*source), ts),
        records_in_order(final(st).messages@, session_id@),
{
    let ghost before = state_view(*st);
    let tc = trim_chars(&str_chars(content));
    if st.fallback_preview.is_none() {
        match first_preview_line_exec(&tc) {
            Some(line) => {
                let ls = string_of(&line);
                st.fallback_preview = match summarize_instructions(ls.as_str()) {
                    Some(x) => Some(x),
                    None => Some(ls),
                };
            },
            None => {},
        }
    }
    if starts_with_str(&tc, TAG_USER_INSTRUCTIONS) || starts_with_str(&tc, TAG_USER_INSTRUCTIONS_END) {
        st.saw_instruction_block = true;
    }
    let ghost mid = state_view(*st);
    assert(mid.messages == before.messages);
    match clean_text(content.as_str()) {
        None => {
            assert(state_view(*st) =~= absorb_message(before, role@, content@, opt_view(*source), ts));
        },
        Some(clean) => {
            let role_lower = to_lowercase_string(role);
            let clean_chars = str_chars(&clean);
            match find_key_exec(&st.messages, &role_lower, &clean_chars, ts) {
                Some(j) => {
                    let mut m = st.messages[j].clone();
                    let src = match source {
                        Some(s) => Some(s),
                        None => None,
                    };
                    update_existing_source(&mut m, src);
                    st.messages.set(j, m);
                    assert(msg_views(st.messages@) =~= mid.messages.update(j as int, with_source(mid.messages[j as int], opt_view(*source))));
                },
                None => {
                    let index = index_of_len(st.messages.len());
                    proof {
                        reveal_strlit("user");
                    }
                    if st.first_prompt.is_none() && crate::text::eq_chars(&role_lower, &chars_of("user")) {
                        st.first_prompt = Some(clean.clone());
                    }
                    let rec = MessageRecord::new(session_id, index, role.as_str(), clean.as_str(), crate::session::clone_opt_string(source), ts);
                    st.messages.push(rec);
                    assert(msg_views(st.messages@) =~= mid.messages.push(
                        MsgView { role: role@, content: clean@, source: opt_view(*source), timestamp: ts },
                    ));
                },
            }
        },
    }
}

fn begin_record(st: &mut IngestState, value: &JsonValue)
    ensures
        state_view(*final(st)) == record_header(state_view(*old(st)), *value),
        final(st).messages@ == old(st).messages@,
{
    st.saw_any_record = true;
    if st.session_uuid.is_none() {
        st.session_uuid = crate::session::session_uuid_from_value(value);
    }
    if st.instructions_preview.is_none() {
        if let Some(payload) = json_get(value, "payload") {
            if let Some(instructions) = json_str_at(payload, "instructions") {
                st.instructions_preview = summarize_instructions(instructions.as_str());
            }
        }
    }
    let timestamp = parse_timestamp(value);
    if let Some(ts) = timestamp {
        st.earliest_timestamp = Some(
            match st.earliest_timestamp {
                Some(c) => if c <= ts { c } else { ts },
                None => ts,
            },
        );
        st.latest_timestamp = Some(
            match st.latest_timestamp {
                Some(c) => if c >= ts { c } else { ts },
                None => ts,
            },
        );
    }
}

/// Read the parsed records of one log, in order. Blank and malformed lines are
/// dropped by the reader before this.
pub fn collect_ingest_state(session_id: &str, records: &Vec<JsonValue>) -> (r: IngestState)
    ensures
        state_view(r) == ingest_all(records@, records@.len() as int),
        records_in_order(r.messages@, session_id@),
{
    let mut state = IngestState {
        messages: Vec::new(),
        first_prompt: None,
        fallback_preview: None,
        instructions_preview: None,
        saw_instruction_block: false,
        saw_any_record: false,
        session_uuid: None,
        earliest_timestamp: None,
        latest_timestamp: None,
    };
    assert(msg_views(state.messages@) =~= Seq::<MsgView>::empty());
    let mut n: usize = 0;
    while n < records.len()
        invariant
            n <= records.len(),
            state_view(state) == ingest_all(records@, n as int),
            records_in_order(state.messages@, session_id@),
        decreases records.len() - n,
    {
        let value = &records[n];
        begin_record(&mut state, value);
        let source: Option<String> = match json_str_at(value, "type") {
            Some(t) => Some(t.clone()),
            None => None,
        };
        let timestamp = parse_timestamp(value);
        let msgs = extract_messages(value);
        let ghost st1 = state_view(state);
        let ghost pv = pair_views(msgs@);
        let mut k: usize = 0;
        while k < msgs.len()
            invariant
                k <= msgs.len(),
                pv == pair_views(msgs@),
                state_view(state) == absorb_all(st1, pv, k as int, opt_view(source), timestamp),
                records_in_order(state.messages@, session_id@),
            decreases msgs.len() - k,
        {
            proof {
                assert(pv[k as int] == (msgs@[k as int].0@, msgs@[k as int].1@));
            }
            absorb_message_exec(&mut state, session_id, &msgs[k].0, &msgs[k].1, &source, timestamp);
            k += 1;
        }
        n += 1;
    }
    state
}


// ---------------------------------------------------------------------------
// Sessions without a transcript
// ---------------------------------------------------------------------------

/// The number of bytes a character takes in UTF-8.
pub open spec fn utf8_width(c: char) -> nat {
    if (c as u32) < 0x80 {
        1
    } else if (c as u32) < 0x800 {
        2
    } else if (c as u32) < 0x10000 {
        3
    } else {
        4
    }
}

/// The number of bytes the text takes in UTF-8 (`str::len`).
pub open spec fn utf8_len(s: Seq<char>) -> nat
    decreases s.len(),
{
    if s.len() == 0 {
        0
    } else {
        utf8_len(s.drop_last()) + utf8_width(s.last())
    }
}

/// The longest preview kept, in bytes.
pub const PREVIEW_LIMIT: usize = 240;

/// `String::truncate(PREVIEW_LIMIT)` can be applied: the text is short enough,
/// or some prefix of it takes exactly the limit.
pub open spec fn cut_ok(s: Seq<char>) -> bool {
    utf8_len(s) <= PREVIEW_LIMIT || exists|k: int| 0 <= k <= s.len() && utf8_len(#[trigger] s.take(k)) == PREVIEW_LIMIT
}

/// The text cut to `PREVIEW_LIMIT` bytes, when `cut_ok` holds.
pub open spec fn cut_preview(s: Seq<char>) -> Seq<char> {
    if utf8_len(s) <= PREVIEW_LIMIT {
        s
    } else {
        s.take(choose|k: int| 0 <= k <= s.len() && utf8_len(#[trigger] s.take(k)) == PREVIEW_LIMIT)
    }
}

pub(crate) fn utf8_width_exec(c: char) -> (r: usize)
    ensures
        r == utf8_width(c),
{
    let n = c as u32;
    if n < 0x80 {
        1
    } else if n < 0x800 {
        2
    } else if n < 0x10000 {
        3
    } else {
        4
    }
}

proof fn lemma_utf8_len_take_mono(s: Seq<char>, a: int, b: int)
    requires
        0 <= a <= b <= s.len(),
    ensures
        utf8_len(s.take(a)) + (b - a) <= utf8_len(s.take(b)),
    decreases b - a,
{
    if a < b {
        lemma_utf8_len_take_mono(s, a, b - 1);
        assert(s.take(b).drop_last() =~= s.take(b - 1));
    }
}

/// Whether `String::truncate(PREVIEW_LIMIT)` can be applied to the text.
pub fn preview_cut_ok(s: &Vec<char>) -> (r: Option<usize>)
    ensures
        match r {
            Some(k) => cut_ok(s@) && k <= s@.len() && s@.take(k as int) == cut_preview(s@),
            None => !cut_ok(s@),
        },
{
    let mut bytes: usize = 0;
    let mut k: usize = 0;
    while k < s.len()
        invariant
            k <= s.len(),
            bytes == utf8_len(s@.take(k as int)),
            bytes <= PREVIEW_LIMIT,
            forall|j: int| 0 <= j < k ==> utf8_len(#[trigger] s@.take(j)) < PREVIEW_LIMIT || j == k,
        ensures
            k == s.len() || bytes == PREVIEW_LIMIT,
        decreases s.len() - k,
    {
        if bytes == PREVIEW_LIMIT {
            break;
        }
        let w = utf8_width_exec(s[k]);
        assert(s@.take(k + 1).drop_last() =~= s@.take(k as int));
        if bytes + w > PREVIEW_LIMIT {
            proof {
                assert forall|j: int| 0 <= j <= s@.len() implies utf8_len(#[trigger] s@.take(j)) != PREVIEW_LIMIT by {
                    if j <= k {
                        if j < k {
                            lemma_utf8_len_take_mono(s@, j, k as int);
                        }
                    } else {
                        lemma_utf8_len_take_mono(s@, k + 1, j);
                    }
                }
                lemma_utf8_len_take_mono(s@, k + 1, s@.len() as int);
                assert(s@.take(s@.len() as int) =~= s@);
            }
            return None;
        }
        bytes = bytes + w;
        k += 1;
    }
    if k == s.len() {
        assert(s@.take(k as int) =~= s@);
        return Some(k);
    }
    proof {
        assert(utf8_len(s@.take(k as int)) == PREVIEW_LIMIT);
        lemma_utf8_len_take_mono(s@, k as int, s@.len() as int);
        assert(s@.take(s@.len() as int) =~= s@);
        let c = choose|j: int| 0 <= j <= s@.len() && utf8_len(#[trigger] s@.take(j)) == PREVIEW_LIMIT;
        if c < k {
            lemma_utf8_len_take_mono(s@, c, k as int);
        } else if c > k {
            lemma_utf8_len_take_mono(s@, k as int, c);
        }
    }
    Some(k)
}

/// The preview stored for a log with no messages: the first meaningful line, else
/// the instructions summary, else a note that only instructions (or only other
/// records) were seen.
pub open spec fn empty_preview(
    fallback_preview: Option<Seq<char>>,
    instructions_preview: Option<Seq<char>>,
    saw_instruction_block: bool,
    saw_any_record: bool,
) -> Option<Seq<char>> {
    if fallback_preview is Some {
        fallback_preview
    } else if instructions_preview is Some {
        instructions_preview
    } else if saw_instruction_block {
        Some(BOOTSTRAPPED_NOTE@)
    } else if saw_any_record {
        Some(CREATED_NOTE@)
    } else {
        None
    }
}

pub const BOOTSTRAPPED_NOTE: &'static str = "Session bootstrapped (instructions only)";
pub const CREATED_NOTE: &'static str = "Session created (no transcript yet)";

/// Why a log gives no session.
#[derive(Debug, Clone, Copy, PartialEq, Eq, Structural)]
pub enum IngestError {
    /// Neither messages nor any other record were found.
    NoMessages,
}

impl IngestError {
    pub fn message(&self) -> (r: String)
        ensures
            r@ == "no messages discovered in session"@,
    {
        "no messages discovered in session".to_owned()
    }
}

/// A log without messages gets one system message holding a preview (cut to
/// `PREVIEW_LIMIT` bytes), which also becomes the first prompt if there is none.
pub fn handle_empty_transcript(
    messages: &mut Vec<MessageRecord>,
    first_prompt: &mut Option<String>,
    fallback_preview: Option<String>,
    instructions_preview: Option<String>,
    saw_instruction_block: bool,
    saw_any_record: bool,
    session_id: &str,
) -> (r: Result<(), IngestError>)
    requires
        empty_preview(opt_view(fallback_preview), opt_view(instructions_preview), saw_instruction_block, saw_any_record)
            matches Some(p) ==> cut_ok(p),
    ensures
        match empty_preview(opt_view(fallback_preview), opt_view(instructions_preview), saw_instruction_block, saw_any_record) {
            Some(p) => {
                &&& r is Ok
                &&& final(messages)@.len() == old(messages)@.len() + 1
                &&& final(messages)@.drop_last() == old(messages)@
                &&& final(messages)@.last().session_id@ == session_id@
                &&& final(messages)@.last().index == 0
                &&& final(messages)@.last().role@ == "system"@
                &&& final(messages)@.last().content@ == cut_preview(p)
                &&& final(messages)@.last().source is None
                &&& final(messages)@.last().timestamp is None
                &&& !final(messages)@.last().is_first
                &&& opt_view(*final(first_prompt)) == (if *old(first_prompt) is None {
                    Some(cut_preview(p))
                } else {
                    opt_view(*old(first_prompt))
                })
            },
            None => r == Err::<(), IngestError>(IngestError::NoMessages) && final(messages)@ == old(messages)@
                && *final(first_prompt) == *old(first_prompt),
        },
{
    let preview: Option<String> = if fallback_preview.is_some() {
        fallback_preview
    } else if instructions_preview.is_some() {
        instructions_preview
    } else if saw_instruction_block {
        Some(BOOTSTRAPPED_NOTE.to_owned())
    } else if saw_any_record {
        Some(CREATED_NOTE.to_owned())
    } else {
        None
    };
    let preview = match preview {
        Some(p) => p,
        None => {
            return Err(IngestError::NoMessages);
        },
    };
    let chars = str_chars(&preview);
    let cut = match preview_cut_ok(&chars) {
        Some(k) => crate::text::slice_chars(&chars, 0, k),
        None => {
            return Err(IngestError::NoMessages);
        },
    };
    let text = string_of(&cut);
    if first_prompt.is_none() {
        *first_prompt = Some(text.clone());
    }
    let ghost before = messages@;
    messages.push(MessageRecord::new(session_id, 0, "system", text.as_str(), None, None));
    assert(messages@.drop_last() =~= before);
    Ok(())
}


// ---------------------------------------------------------------------------
// Session identifiers and the stored session
// ---------------------------------------------------------------------------

pub open spec fn opt_views(v: Seq<Option<String>>) -> Seq<Option<Seq<char>>> {
    Seq::new(v.len(), |i: int| opt_view(v[i]))
}

/// The path relative to the first session root (as configured, else as resolved
/// on disk) that contains it, searching from root `i` on.
pub open spec fn relative_from(
    path: Seq<char>,
    roots: Seq<Seq<char>>,
    canon: Seq<Option<Seq<char>>>,
    i: int,
) -> Option<Seq<char>>
    decreases roots.len() - i,
{
    if i < 0 || i >= roots.len() {
        None
    } else if strip_prefix_of(path, roots[i]) is Some {
        strip_prefix_of(path, roots[i])
    } else if i < canon.len() && canon[i] is Some && strip_prefix_of(path, canon[i]->0) is Some {
        strip_prefix_of(path, canon[i]->0)
    } else {
        relative_from(path, roots, canon, i + 1)
    }
}

/// The part of the path that names the session: relative to its root when that
/// is not empty, else the file name, else the whole path.
pub open spec fn session_relative(path: Seq<char>, roots: Seq<Seq<char>>, canon: Seq<Option<Seq<char>>>) -> Seq<char> {
    match relative_from(path, roots, canon, 0) {
        Some(r) if r.len() > 0 => r,
        _ => match file_name_of(path) {
            Some(f) => f,
            None => path,
        },
    }
}

/// The relative path with its components joined by `/`.
pub open spec fn normalized_relative(path: Seq<char>, roots: Seq<Seq<char>>, canon: Seq<Option<Seq<char>>>) -> Seq<char> {
    join(components_of(session_relative(path, roots, canon)), "/"@)
}

/// `compute_session_id`: the session id (`provider/relative`) and the normalized
/// relative path. `canonical_roots[i]` is the resolved form of the provider's
/// `i`-th session root, when it could be resolved.
pub fn compute_session_id(
    provider: &ProviderConfig,
    path: &str,
    canonical_roots: &Vec<Option<String>>,
) -> (r: (String, String))
    ensures
        r.1@ == normalized_relative(path@, string_views(provider.session_roots@), opt_views(canonical_roots@)),
        r.0@ == provider.name@ + "/"@ + r.1@,
{
    let ghost roots = string_views(provider.session_roots@);
    let ghost canon = opt_views(canonical_roots@);
    let mut relative: Option<String> = None;
    let mut i: usize = 0;
    while i < provider.session_roots.len()
        invariant_except_break
            relative is None,
        invariant
            i <= provider.session_roots.len(),
            roots == string_views(provider.session_roots@),
            canon == opt_views(canonical_roots@),
            relative_from(path@, roots, canon, 0) == relative_from(path@, roots, canon, i as int),
        ensures
            opt_view(relative) == relative_from(path@, roots, canon, 0),
        decreases provider.session_roots.len() - i,
    {
        assert(roots[i as int] == provider.session_roots@[i as int]@);
        if let Some(stripped) = strip_prefix(path, provider.session_roots[i].as_str()) {
            relative = Some(stripped);
            break;
        }
        if i < canonical_roots.len() {
            assert(canon[i as int] == opt_view(canonical_roots@[i as int]));
            if let Some(canon_root) = &canonical_roots[i] {
                if let Some(stripped) = strip_prefix(path, canon_root.as_str()) {
                    relative = Some(stripped);
                    break;
                }
            }
        }
        i += 1;
    }
    let nonempty: Option<String> = match relative {
        Some(r) => if str_chars(&r).len() > 0 { Some(r) } else { None },
        None => None,
    };
    let rel: String = match nonempty {
        Some(r) => r,
        None => match file_name(path) {
            Some(f) => f,
            None => path.to_owned(),
        },
    };
    let parts = components(rel.as_str());
    let normalized = join_strings(&parts, "/");
    let mut id = chars_of(provider.name.as_str());
    crate::text::append_str(&mut id, "/");
    crate::text::append_chars(&mut id, &str_chars(&normalized));
    (string_of(&id), normalized)
}

impl IngestState {
    /// Whether the preview of a log without messages can be cut to
    /// `PREVIEW_LIMIT` bytes (`build_ingest` needs this).
    pub fn preview_fits(&self) -> (r: bool)
        ensures
            r == (self.messages@.len() == 0 ==> (empty_preview(
                opt_view(self.fallback_preview),
                opt_view(self.instructions_preview),
                self.saw_instruction_block,
                self.saw_any_record,
            ) matches Some(p) ==> cut_ok(p))),
    {
        if self.messages.len() > 0 {
            return true;
        }
        let preview: Option<&String> = if self.fallback_preview.is_some() {
            self.fallback_preview.as_ref()
        } else if self.instructions_preview.is_some() {
            self.instructions_preview.as_ref()
        } else {
            None
        };
        match preview {
            Some(p) => preview_cut_ok(&str_chars(p)).is_some(),
            None => {
                proof {
                    reveal_strlit("Session bootstrapped (instructions only)");
                    reveal_strlit("Session created (no transcript yet)");
                    lemma_short_ascii_fits(BOOTSTRAPPED_NOTE@);
                    lemma_short_ascii_fits(CREATED_NOTE@);
                }
                true
            },
        }
    }
}

/// A text of at most `PREVIEW_LIMIT` characters, each one byte wide, fits.
proof fn lemma_short_ascii_fits(s: Seq<char>)
    requires
        s.len() <= PREVIEW_LIMIT,
        forall|i: int| 0 <= i < s.len() ==> (s[i] as u32) < 0x80,
    ensures
        utf8_len(s) == s.len(),
        cut_ok(s),
    decreases s.len(),
{
    if s.len() > 0 {
        lemma_short_ascii_fits(s.drop_last());
    }
}

/// Whether some message's role is `user`, ignoring ASCII case.
pub open spec fn any_user(ms: Seq<MessageRecord>) -> bool {
    exists|i: int| 0 <= i < ms.len() && lower_seq(#[trigger] ms[i].role@) == "user"@
}


/// The UUID a log's file name implies.
pub open spec fn path_uuid(path: Seq<char>) -> Option<Seq<char>> {
    match file_name_of(path) {
        Some(name) => Some(crate::session::uuid_from_file_name(name)),
        None => None,
    }
}

/// `preview_fits` as a statement.
pub open spec fn preview_fits_spec(st: IngestState) -> bool {
    st.messages@.len() == 0 ==> (empty_preview(
        opt_view(st.fallback_preview),
        opt_view(st.instructions_preview),
        st.saw_instruction_block,
        st.saw_any_record,
    ) matches Some(p) ==> cut_ok(p))
}

pub open spec fn state_empty_preview(st: IngestState) -> Option<Seq<char>> {
    empty_preview(
        opt_view(st.fallback_preview),
        opt_view(st.instructions_preview),
        st.saw_instruction_block,
        st.saw_any_record,
    )
}

/// The session stored for one log: `session_id` and `relative` come from
/// `compute_session_id`, `state` from `collect_ingest_state` with that id. The
/// first message is marked first; a log without messages gets a system message
/// with its preview, or is refused when it has none.
pub fn build_ingest(
    provider: &ProviderConfig,
    path: &str,
    session_id: String,
    relative: String,
    state: IngestState,
    size: i64,
    mtime: i64,
    created_at: Option<i64>,
) -> (r: Result<crate::session::SessionIngest, IngestError>)
    requires
        records_in_order(state.messages@, session_id@),
        preview_fits_spec(state),
    ensures
        match r {
            Err(e) => e == IngestError::NoMessages && state.messages@.len() == 0 && state_empty_preview(state) is None,
            Ok(ing) => {
                let s = ing.summary;
                let ms = ing.messages@;
                &&& !(state.messages@.len() == 0 && state_empty_preview(state) is None)
                &&& s.id == session_id
                &&& s.provider@ == provider.name@
                &&& s.wrapper is None && s.model is None
                &&& opt_view(s.label) == Some(
                    match file_stem_of(path@) {
                        Some(stem) => stem,
                        None => relative@,
                    },
                )
                &&& s.path@ == path@
                &&& opt_view(s.uuid) == (if state.session_uuid is Some {
                    opt_view(state.session_uuid)
                } else {
                    path_uuid(path@)
                })
                &&& s.actionable == any_user(ms)
                &&& s.created_at == created_at
                &&& s.started_at == (if state.earliest_timestamp is Some {
                    state.earliest_timestamp
                } else {
                    created_at
                })
                &&& s.last_active == Some(
                    match state.latest_timestamp {
                        Some(t) => t,
                        None => mtime,
                    },
                )
                &&& s.size == size && s.mtime == mtime
                &&& ms.len() > 0 && ms[0].is_first
                &&& (state.messages@.len() > 0 ==> ms == state.messages@.update(
                    0,
                    crate::session::MessageRecord { is_first: true, ..state.messages@[0] },
                ))
                &&& (state.messages@.len() > 0 ==> opt_view(s.first_prompt) == (if state.first_prompt is Some {
                    opt_view(state.first_prompt)
                } else {
                    Some(state.messages@[0].content@)
                }))
                &&& (state.messages@.len() == 0 ==> {
                    let p = cut_preview(state_empty_preview(state)->0);
                    &&& ms.len() == 1
                    &&& ms[0].session_id@ == session_id@ && ms[0].index == 0 && ms[0].role@ == "system"@
                    &&& ms[0].content@ == p && ms[0].source is None && ms[0].timestamp is None
                    &&& opt_view(s.first_prompt) == (if state.first_prompt is Some {
                        opt_view(state.first_prompt)
                    } else {
                        Some(p)
                    })
                })
            },
        },
{
    let label = match file_stem(path) {
        Some(stem) => Some(stem),
        None => Some(relative),
    };
    let mut state = state;
    let ghost before = state.messages@;
    if state.messages.len() == 0 {
        handle_empty_transcript(
            &mut state.messages,
            &mut state.first_prompt,
            state.fallback_preview,
            state.instructions_preview,
            state.saw_instruction_block,
            state.saw_any_record,
            session_id.as_str(),
        )?;
    }
    let ghost ms1 = state.messages@;
    let mut messages = state.messages;
    let mut first = messages[0].clone();
    first.is_first = true;
    messages.set(0, first);
    let mut actionable = false;
    let mut i: usize = 0;
    let user = chars_of("user");
    while i < messages.len()
        invariant
            i <= messages.len(),
            user@ == "user"@,
            actionable == exists|j: int| 0 <= j < i && lower_seq(#[trigger] messages@[j].role@) == "user"@,
        decreases messages.len() - i,
    {
        let lowered = crate::text::to_ascii_lowercase(&str_chars(&messages[i].role));
        if crate::text::eq_chars(&lowered, &user) {
            actionable = true;
        }
        i += 1;
    }
    let first_prompt = match state.first_prompt {
        Some(p) => Some(p),
        None => Some(messages[0].content.clone()),
    };
    let uuid = match state.session_uuid {
        Some(u) => Some(u),
        None => crate::session::fallback_session_uuid(path),
    };
    let started_at = match state.earliest_timestamp {
        Some(t) => Some(t),
        None => created_at,
    };
    let last_active = match state.latest_timestamp {
        Some(t) => t,
        None => mtime,
    };
    let summary = crate::session::SessionSummary {
        id: session_id,
        provider: provider.name.clone(),
        wrapper: None,
        model: None,
        label,
        path: path.to_owned(),
        uuid,
        first_prompt,
        actionable,
        created_at,
        started_at,
        last_active: Some(last_active),
        size,
        mtime,
    };
    Ok(crate::session::SessionIngest::new(summary, messages))
}


// ---------------------------------------------------------------------------
// A pass over the session roots
// ---------------------------------------------------------------------------

/// Whether the path names a `.jsonl` file (extension compared ignoring ASCII case).
pub open spec fn jsonl_path(path: Seq<char>) -> bool {
    extension_of(path) matches Some(ext) && lower_seq(ext) == "jsonl"@
}

pub fn is_jsonl(path: &str) -> (r: bool)
    ensures
        r == jsonl_path(path@),
{
    match extension(path) {
        Some(ext) => {
            let lowered = crate::text::to_ascii_lowercase(&str_chars(&ext));
            crate::text::eq_chars(&lowered, &chars_of("jsonl"))
        },
        None => false,
    }
}

/// A log that could not be indexed.
#[derive(Debug)]
pub struct IndexError {
    pub path: String,
    pub message: String,
}

/// What a pass over the session roots did.
#[derive(Debug)]
pub struct IndexReport {
    pub scanned: usize,
    pub updated: usize,
    pub skipped: usize,
    pub removed: usize,
    pub errors: Vec<IndexError>,
}

/// What processing one log gave: the id of a session (re)indexed, `None` when
/// the log was unchanged, or an error.
pub enum FileOutcome {
    Indexed(String),
    Unchanged,
    Failed(String),
}

impl IndexReport {
    pub fn new() -> (r: Self)
        ensures
            r.scanned == 0 && r.updated == 0 && r.skipped == 0 && r.removed == 0 && r.errors@.len() == 0,
    {
        IndexReport { scanned: 0, updated: 0, skipped: 0, removed: 0, errors: Vec::new() }
    }

    /// Count one log. A log found while walking a directory is counted as
    /// scanned before it is processed; a root that is itself a log is counted as
    /// scanned only when it was indexed.
    pub fn record(&mut self, path: &str, outcome: FileOutcome, walked: bool, seen: &mut Vec<String>)
        requires
            old(self).scanned < usize::MAX,
            old(self).updated < usize::MAX,
            old(self).skipped < usize::MAX,
        ensures
            final(self).removed == old(self).removed,
            match outcome {
                FileOutcome::Indexed(id) => {
                    &&& final(self).updated == old(self).updated + 1
                    &&& final(self).scanned == old(self).scanned + 1
                    &&& final(self).skipped == old(self).skipped
                    &&& final(self).errors@ == old(self).errors@
                    &&& final(seen)@ == old(seen)@.push(id)
                },
                FileOutcome::Unchanged => {
                    &&& final(self).updated == old(self).updated
                    &&& final(self).scanned == old(self).scanned + (if walked { 1int } else { 0int })
                    &&& final(self).skipped == old(self).skipped + 1
                    &&& final(self).errors@ == old(self).errors@
                    &&& final(seen)@ == old(seen)@
                },
                FileOutcome::Failed(message) => {
                    &&& final(self).updated == old(self).updated
                    &&& final(self).scanned == old(self).scanned + (if walked { 1int } else { 0int })
                    &&& final(self).skipped == old(self).skipped
                    &&& final(self).errors@.len() == old(self).errors@.len() + 1
                    &&& final(self).errors@.drop_last() == old(self).errors@
                    &&& final(self).errors@.last().path@ == path@
                    &&& final(self).errors@.last().message == message
                    &&& final(seen)@ == old(seen)@
                },
            },
    {
        if walked {
            self.scanned = self.scanned + 1;
        }
        match outcome {
            FileOutcome::Indexed(id) => {
                seen.push(id);
                self.updated = self.updated + 1;
                if !walked {
                    self.scanned = self.scanned + 1;
                }
            },
            FileOutcome::Unchanged => {
                self.skipped = self.skipped + 1;
            },
            FileOutcome::Failed(message) => {
                let ghost before = self.errors@;
                self.errors.push(IndexError { path: path.to_owned(), message });
                assert(self.errors@.drop_last() =~= before);
            },
        }
    }

    /// Count one stale session removed.
    pub fn record_removed(&mut self)
        requires
            old(self).removed < usize::MAX,
        ensures
            final(self).removed == old(self).removed + 1,
            final(self).scanned == old(self).scanned,
            final(self).updated == old(self).updated,
            final(self).skipped == old(self).skipped,
            final(self).errors@ == old(self).errors@,
    {
        self.removed = self.removed + 1;
    }
}

/// A stored session is stale when this pass did not index it and its log is gone.
pub fn should_remove(seen: &Vec<String>, session_id: &String, exists_on_disk: bool) -> (r: bool)
    ensures
        r == (!exists_on_disk && !(exists|i: int| 0 <= i < seen@.len() && seen@[i]@ == session_id@)),
{
    if exists_on_disk {
        return false;
    }
    let mut i: usize = 0;
    while i < seen.len()
        invariant
            i <= seen.len(),
            forall|k: int| 0 <= k < i ==> seen@[k]@ != session_id@,
        decreases seen.len() - i,
    {
        if crate::text::eq_chars(&str_chars(&seen[i]), &str_chars(session_id)) {
            return false;
        }
        i += 1;
    }
    true
}

} // verus!
