//! Usage statistics: token totals by time window, session activity, prompt
//! counts, and the numbers as shown.

use vstd::prelude::*;

use crate::cli::{i64_of, unsigned_of, IntError};
use crate::config::model::opt_view;
use crate::json::{JsonNumber, JsonValue, get, json_get, json_str_at, str_at};
use crate::session::{SessionSummary, TokenUsageRecord};
use crate::indexer::{utf8_len, utf8_width};
use crate::text::{append_chars, append_str, chars_of, dec, lower_seq, starts_with, str_chars, string_of};

verus! {

// ---------------------------------------------------------------------------
// Token totals
// ---------------------------------------------------------------------------

/// Token counts summed over usage events.
#[derive(Debug, Clone, Copy)]
pub struct UsageTotals {
    pub input: i64,
    pub cached_input: i64,
    pub output: i64,
    pub reasoning_output: i64,
    pub total: i64,
}

impl UsageTotals {
    pub fn new() -> (r: Self)
        ensures
            r.input == 0 && r.cached_input == 0 && r.output == 0 && r.reasoning_output == 0 && r.total == 0,
    {
        UsageTotals { input: 0, cached_input: 0, output: 0, reasoning_output: 0, total: 0 }
    }

    /// Whether adding `usage` stays within `i64`.
    pub open spec fn can_add(self, usage: TokenUsageRecord) -> bool {
        &&& i64::MIN <= self.input + usage.input_tokens <= i64::MAX
        &&& i64::MIN <= self.cached_input + usage.cached_input_tokens <= i64::MAX
        &&& i64::MIN <= self.output + usage.output_tokens <= i64::MAX
        &&& i64::MIN <= self.reasoning_output + usage.reasoning_output_tokens <= i64::MAX
        &&& i64::MIN <= self.total + usage.total_tokens <= i64::MAX
    }

    /// Add one usage event's counts.
    pub fn add(&mut self, usage: &TokenUsageRecord)
        requires
            old(self).can_add(*usage),
        ensures
            final(self).input == old(self).input + usage.input_tokens,
            final(self).cached_input == old(self).cached_input + usage.cached_input_tokens,
            final(self).output == old(self).output + usage.output_tokens,
            final(self).reasoning_output == old(self).reasoning_output + usage.reasoning_output_tokens,
            final(self).total == old(self).total + usage.total_tokens,
    {
        self.input = self.input + usage.input_tokens;
        self.cached_input = self.cached_input + usage.cached_input_tokens;
        self.output = self.output + usage.output_tokens;
        self.reasoning_output = self.reasoning_output + usage.reasoning_output_tokens;
        self.total = self.total + usage.total_tokens;
    }
}

/// Token totals over the last day, week, month, and all time.
#[derive(Debug, Clone, Copy)]
pub struct WindowedUsage {
    pub last_24h: UsageTotals,
    pub last_7d: UsageTotals,
    pub last_30d: UsageTotals,
    pub all: UsageTotals,
}

impl WindowedUsage {
    pub fn new() -> (r: Self)
        ensures
            r.all == UsageTotals::new_spec() && r.last_24h == UsageTotals::new_spec() && r.last_7d
                == UsageTotals::new_spec() && r.last_30d == UsageTotals::new_spec(),
    {
        WindowedUsage {
            last_24h: UsageTotals::new(),
            last_7d: UsageTotals::new(),
            last_30d: UsageTotals::new(),
            all: UsageTotals::new(),
        }
    }

    pub open spec fn can_add(self, usage: TokenUsageRecord, in_day: bool, in_week: bool, in_month: bool) -> bool {
        &&& self.all.can_add(usage)
        &&& in_day ==> self.last_24h.can_add(usage)
        &&& in_week ==> self.last_7d.can_add(usage)
        &&& in_month ==> self.last_30d.can_add(usage)
    }

    /// Add one usage event to all time and to each window it falls in.
    pub fn add(&mut self, usage: &TokenUsageRecord, in_day: bool, in_week: bool, in_month: bool)
        requires
            old(self).can_add(*usage, in_day, in_week, in_month),
        ensures
            final(self).all == old(self).all.plus(*usage),
            final(self).last_24h == (if in_day { old(self).last_24h.plus(*usage) } else { old(self).last_24h }),
            final(self).last_7d == (if in_week { old(self).last_7d.plus(*usage) } else { old(self).last_7d }),
            final(self).last_30d == (if in_month { old(self).last_30d.plus(*usage) } else { old(self).last_30d }),
    {
        self.all.add(usage);
        if in_day {
            self.last_24h.add(usage);
        }
        if in_week {
            self.last_7d.add(usage);
        }
        if in_month {
            self.last_30d.add(usage);
        }
    }
}

impl UsageTotals {
    pub open spec fn new_spec() -> UsageTotals {
        UsageTotals { input: 0, cached_input: 0, output: 0, reasoning_output: 0, total: 0 }
    }

    /// The totals with one event's counts added.
    pub open spec fn plus(self, usage: TokenUsageRecord) -> UsageTotals {
        UsageTotals {
            input: (self.input + usage.input_tokens) as i64,
            cached_input: (self.cached_input + usage.cached_input_tokens) as i64,
            output: (self.output + usage.output_tokens) as i64,
            reasoning_output: (self.reasoning_output + usage.reasoning_output_tokens) as i64,
            total: (self.total + usage.total_tokens) as i64,
        }
    }
}

// ---------------------------------------------------------------------------
// Counting by window
// ---------------------------------------------------------------------------

/// Counts over the last day, week, month, and all time.
#[derive(Debug, Clone, Copy)]
pub struct WindowCounts {
    pub last_24h: i64,
    pub last_7d: i64,
    pub last_30d: i64,
    pub all: i64,
}

/// How many of the timestamps are at or after `cutoff`.
pub open spec fn count_since(ts: Seq<i64>, cutoff: i64) -> nat
    decreases ts.len(),
{
    if ts.len() == 0 {
        0
    } else {
        count_since(ts.drop_last(), cutoff) + if ts.last() >= cutoff {
            1nat
        } else {
            0nat
        }
    }
}

/// The latest timestamp, if any.
pub open spec fn latest(ts: Seq<i64>) -> Option<i64>
    decreases ts.len(),
{
    if ts.len() == 0 {
        None
    } else {
        match latest(ts.drop_last()) {
            Some(c) => if ts.last() > c {
                Some(ts.last())
            } else {
                Some(c)
            },
            None => Some(ts.last()),
        }
    }
}

proof fn lemma_count_bound(ts: Seq<i64>, cutoff: i64)
    ensures
        count_since(ts, cutoff) <= ts.len(),
    decreases ts.len(),
{
    if ts.len() > 0 {
        lemma_count_bound(ts.drop_last(), cutoff);
    }
}

/// `prompt_stats`: how many prompts fall in each window, and the latest one.
pub fn prompt_stats(timestamps: &Vec<i64>, cutoff_day: i64, cutoff_week: i64, cutoff_month: i64) -> (r: (WindowCounts, Option<i64>))
    requires
        timestamps@.len() <= i64::MAX,
    ensures
        r.0.all == timestamps@.len(),
        r.0.last_24h == count_since(timestamps@, cutoff_day),
        r.0.last_7d == count_since(timestamps@, cutoff_week),
        r.0.last_30d == count_since(timestamps@, cutoff_month),
        r.1 == latest(timestamps@),
{
    let mut totals = WindowCounts { last_24h: 0, last_7d: 0, last_30d: 0, all: 0 };
    let mut last: Option<i64> = None;
    let mut i: usize = 0;
    while i < timestamps.len()
        invariant
            i <= timestamps.len(),
            timestamps@.len() <= i64::MAX,
            totals.all == i,
            totals.last_24h == count_since(timestamps@.subrange(0, i as int), cutoff_day),
            totals.last_7d == count_since(timestamps@.subrange(0, i as int), cutoff_week),
            totals.last_30d == count_since(timestamps@.subrange(0, i as int), cutoff_month),
            last == latest(timestamps@.subrange(0, i as int)),
        decreases timestamps.len() - i,
    {
        let ghost pre = timestamps@.subrange(0, i as int);
        assert(timestamps@.subrange(0, i + 1).drop_last() =~= pre);
        proof {
            lemma_count_bound(pre, cutoff_day);
            lemma_count_bound(pre, cutoff_week);
            lemma_count_bound(pre, cutoff_month);
        }
        let ts = timestamps[i];
        totals.all = totals.all + 1;
        if ts >= cutoff_day {
            totals.last_24h = totals.last_24h + 1;
        }
        if ts >= cutoff_week {
            totals.last_7d = totals.last_7d + 1;
        }
        if ts >= cutoff_month {
            totals.last_30d = totals.last_30d + 1;
        }
        last = match last {
            Some(c) => if ts > c { Some(ts) } else { Some(c) },
            None => Some(ts),
        };
        i += 1;
    }
    assert(timestamps@.subrange(0, timestamps@.len() as int) =~= timestamps@);
    (totals, last)
}

// ---------------------------------------------------------------------------
// Sessions
// ---------------------------------------------------------------------------

/// When a session started: its start, else its creation, else its last activity.
pub open spec fn start_of(s: SessionSummary) -> Option<i64> {
    if s.started_at is Some {
        s.started_at
    } else if s.created_at is Some {
        s.created_at
    } else {
        s.last_active
    }
}

/// When a session ended: its last activity, else its start, else its creation.
pub open spec fn end_of(s: SessionSummary) -> Option<i64> {
    if s.last_active is Some {
        s.last_active
    } else if s.started_at is Some {
        s.started_at
    } else {
        s.created_at
    }
}

pub open spec fn earliest_start(ss: Seq<SessionSummary>) -> Option<i64>
    decreases ss.len(),
{
    if ss.len() == 0 {
        None
    } else {
        let prev = earliest_start(ss.drop_last());
        match start_of(ss.last()) {
            Some(t) => Some(
                match prev {
                    Some(c) => if c <= t { c } else { t },
                    None => t,
                },
            ),
            None => prev,
        }
    }
}

pub open spec fn latest_end(ss: Seq<SessionSummary>) -> Option<i64>
    decreases ss.len(),
{
    if ss.len() == 0 {
        None
    } else {
        let prev = latest_end(ss.drop_last());
        match end_of(ss.last()) {
            Some(t) => Some(
                match prev {
                    Some(c) => if c >= t { c } else { t },
                    None => t,
                },
            ),
            None => prev,
        }
    }
}

/// `session_window`: the earliest start and the latest end over the sessions.
pub fn session_window(sessions: &Vec<SessionSummary>) -> (r: (Option<i64>, Option<i64>))
    ensures
        r.0 == earliest_start(sessions@),
        r.1 == latest_end(sessions@),
{
    let mut first: Option<i64> = None;
    let mut last: Option<i64> = None;
    let mut i: usize = 0;
    while i < sessions.len()
        invariant
            i <= sessions.len(),
            first == earliest_start(sessions@.subrange(0, i as int)),
            last == latest_end(sessions@.subrange(0, i as int)),
        decreases sessions.len() - i,
    {
        assert(sessions@.subrange(0, i + 1).drop_last() =~= sessions@.subrange(0, i as int));
        let s = &sessions[i];
        let start = if s.started_at.is_some() {
            s.started_at
        } else if s.created_at.is_some() {
            s.created_at
        } else {
            s.last_active
        };
        if let Some(t) = start {
            first = Some(
                match first {
                    Some(c) => if c <= t { c } else { t },
                    None => t,
                },
            );
        }
        let end = if s.last_active.is_some() {
            s.last_active
        } else if s.started_at.is_some() {
            s.started_at
        } else {
            s.created_at
        };
        if let Some(t) = end {
            last = Some(
                match last {
                    Some(c) => if c >= t { c } else { t },
                    None => t,
                },
            );
        }
        i += 1;
    }
    assert(sessions@.subrange(0, sessions@.len() as int) =~= sessions@);
    (first, last)
}

/// Turns and context compactions seen in one session log.
#[derive(Debug, Clone, Copy)]
pub struct SessionActivityCounts {
    pub turns: i64,
    pub compactions: i64,
}

/// A record that starts a turn.
pub open spec fn is_turn(v: JsonValue) -> bool {
    str_at(v, "type"@) == Some("turn_context"@)
}

/// A record that reports a context compaction.
pub open spec fn is_compaction(v: JsonValue) -> bool {
    &&& str_at(v, "type"@) == Some("event_msg"@)
    &&& get(v, "payload"@) matches Some(p) && str_at(p, "type"@) == Some("context_compacted"@)
}

pub open spec fn count_turns(vs: Seq<JsonValue>) -> nat
    decreases vs.len(),
{
    if vs.len() == 0 {
        0
    } else {
        count_turns(vs.drop_last()) + if is_turn(vs.last()) { 1nat } else { 0nat }
    }
}

pub open spec fn count_compactions(vs: Seq<JsonValue>) -> nat
    decreases vs.len(),
{
    if vs.len() == 0 {
        0
    } else {
        count_compactions(vs.drop_last()) + if !is_turn(vs.last()) && is_compaction(vs.last()) {
            1nat
        } else {
            0nat
        }
    }
}

proof fn lemma_turns_bound(vs: Seq<JsonValue>)
    ensures
        count_turns(vs) <= vs.len(),
        count_compactions(vs) <= vs.len(),
    decreases vs.len(),
{
    if vs.len() > 0 {
        lemma_turns_bound(vs.drop_last());
    }
}

/// `session_activity_counts` over the parsed records of one log (the reader
/// drops blank and malformed lines).
pub fn session_activity_counts(records: &Vec<JsonValue>) -> (r: SessionActivityCounts)
    requires
        records@.len() <= i64::MAX,
    ensures
        r.turns == count_turns(records@),
        r.compactions == count_compactions(records@),
{
    let mut counts = SessionActivityCounts { turns: 0, compactions: 0 };
    let mut i: usize = 0;
    while i < records.len()
        invariant
            i <= records.len(),
            records@.len() <= i64::MAX,
            counts.turns == count_turns(records@.subrange(0, i as int)),
            counts.compactions == count_compactions(records@.subrange(0, i as int)),
        decreases records.len() - i,
    {
        let ghost pre = records@.subrange(0, i as int);
        assert(records@.subrange(0, i + 1).drop_last() =~= pre);
        proof { lemma_turns_bound(pre); }
        let v = &records[i];
        let is_turn_rec = match json_str_at(v, "type") {
            Some(t) => crate::text::eq_str(t, "turn_context"),
            None => false,
        };
        if is_turn_rec {
            counts.turns = counts.turns + 1;
        } else {
            let is_event = match json_str_at(v, "type") {
                Some(t) => crate::text::eq_str(t, "event_msg"),
                None => false,
            };
            if is_event {
                let compacted = match json_get(v, "payload") {
                    Some(p) => match json_str_at(p, "type") {
                        Some(t) => crate::text::eq_str(t, "context_compacted"),
                        None => false,
                    },
                    None => false,
                };
                if compacted {
                    counts.compactions = counts.compactions + 1;
                }
            }
        }
        i += 1;
    }
    assert(records@.subrange(0, records@.len() as int) =~= records@);
    counts
}

// ---------------------------------------------------------------------------
// Numbers as shown
// ---------------------------------------------------------------------------

/// Digits grouped in threes from the right, separated by commas.
pub open spec fn group3(d: Seq<char>) -> Seq<char>
    decreases d.len(),
{
    if d.len() <= 3 {
        d
    } else {
        group3(d.subrange(0, d.len() - 3)) + seq![','] + d.subrange(d.len() - 3, d.len() as int)
    }
}

fn group3_exec(d: &Vec<char>) -> (r: Vec<char>)
    ensures
        r@ == group3(d@),
    decreases d@.len(),
{
    if d.len() <= 3 {
        return d.clone();
    }
    let head = crate::text::slice_chars(d, 0, d.len() - 3);
    let tail = crate::text::slice_chars(d, d.len() - 3, d.len());
    let mut out = group3_exec(&head);
    out.push(',');
    append_chars(&mut out, &tail);
    out
}

/// `human_int`: the value with thousands separators.
pub open spec fn human_int_text(v: int) -> Seq<char> {
    if v < 0 {
        seq!['-'] + group3(dec((-v) as nat))
    } else {
        group3(dec(v as nat))
    }
}

pub fn human_int(value: i64) -> (r: String)
    requires
        value != i64::MIN,
    ensures
        r@ == human_int_text(value as int),
{
    let magnitude: u64 = if value < 0 { (-value) as u64 } else { value as u64 };
    let digits = crate::text::u64_to_chars(magnitude);
    let grouped = group3_exec(&digits);
    let mut out: Vec<char> = Vec::new();
    if value < 0 {
        out.push('-');
    }
    append_chars(&mut out, &grouped);
    assert(value >= 0 ==> out@ =~= group3(dec(value as nat)));
    string_of(&out)
}

/// How many characters at the end of `d` take exactly its last three bytes, if
/// the byte three from the end starts a character.
pub open spec fn tail3_chars(d: Seq<char>) -> Option<int> {
    let n = d.len() as int;
    if n >= 1 && utf8_width(d[n - 1]) == 3 {
        Some(1)
    } else if n >= 2 && utf8_width(d[n - 1]) + utf8_width(d[n - 2]) == 3 {
        Some(2)
    } else if n >= 3 && utf8_width(d[n - 1]) == 1 && utf8_width(d[n - 2]) == 1 && utf8_width(d[n - 3]) == 1 {
        Some(3)
    } else {
        None
    }
}

/// `human_int_str`: the text cut into groups of three bytes from the right,
/// separated by commas; `None` where a cut would fall inside a character.
pub open spec fn group3_bytes(d: Seq<char>) -> Option<Seq<char>>
    decreases d.len(),
{
    if utf8_len(d) <= 3 {
        Some(d)
    } else {
        match tail3_chars(d) {
            None => None,
            Some(k) => match group3_bytes(d.subrange(0, d.len() - k)) {
                Some(h) => Some(h + seq![','] + d.subrange(d.len() - k, d.len() as int)),
                None => None,
            },
        }
    }
}

proof fn lemma_utf8_len_grows(s: Seq<char>, n: int)
    requires
        0 <= n <= s.len(),
    ensures
        utf8_len(s.subrange(0, n)) <= utf8_len(s),
    decreases s.len() - n,
{
    if n < s.len() {
        lemma_utf8_len_grows(s, n + 1);
        assert(s.subrange(0, n + 1).drop_last() =~= s.subrange(0, n));
    } else {
        assert(s.subrange(0, n) =~= s);
    }
}

/// Whether the text takes more than three bytes.
fn over_three_bytes(d: &Vec<char>) -> (r: bool)
    ensures
        r == (utf8_len(d@) > 3),
{
    let mut total: usize = 0;
    let mut i: usize = 0;
    assert(d@.subrange(0, 0) =~= Seq::<char>::empty());
    while i < d.len()
        invariant
            i <= d.len(),
            total == utf8_len(d@.subrange(0, i as int)),
            total <= 3,
        decreases d.len() - i,
    {
        assert(d@.subrange(0, i + 1).drop_last() =~= d@.subrange(0, i as int));
        let w = crate::indexer::utf8_width_exec(d[i]);
        if total + w > 3 {
            proof {
                lemma_utf8_len_grows(d@, i + 1);
            }
            return true;
        }
        total = total + w;
        i += 1;
    }
    assert(d@.subrange(0, d@.len() as int) =~= d@);
    false
}

fn group3_bytes_exec(d: &Vec<char>) -> (r: Vec<char>)
    requires
        group3_bytes(d@) is Some,
    ensures
        r@ == group3_bytes(d@)->0,
    decreases d@.len(),
{
    if !over_three_bytes(d) {
        return d.clone();
    }
    let n = d.len();
    let w1 = crate::indexer::utf8_width_exec(d[n - 1]);
    let k: usize = if w1 == 3 {
        1
    } else if n >= 2 && w1 + crate::indexer::utf8_width_exec(d[n - 2]) == 3 {
        2
    } else {
        3
    };
    assert(tail3_chars(d@) == Some(k as int));
    let head = crate::text::slice_chars(d, 0, n - k);
    let tail = crate::text::slice_chars(d, n - k, n);
    let mut out = group3_bytes_exec(&head);
    out.push(',');
    append_chars(&mut out, &tail);
    out
}

/// `human_int_str`: thousands separators, three bytes to a group from the right.
/// The text must not have a group boundary inside a character (the split would
/// panic there).
pub fn human_int_str(raw: &str) -> (r: String)
    requires
        group3_bytes(raw@) is Some,
    ensures
        r@ == group3_bytes(raw@)->0,
{
    string_of(&group3_bytes_exec(&chars_of(raw)))
}

/// `usage_line`: a window's totals with separators.
pub open spec fn usage_line_text(label: Seq<char>, u: UsageTotals) -> Seq<char> {
    label + ": input "@ + human_int_text(u.input as int) + " (cached "@ + human_int_text(u.cached_input as int)
        + ") output "@ + human_int_text(u.output as int) + " reasoning "@ + human_int_text(u.reasoning_output as int)
        + " total "@ + human_int_text(u.total as int)
}

pub fn usage_line(label: &str, usage: &UsageTotals) -> (r: String)
    requires
        usage.input != i64::MIN && usage.cached_input != i64::MIN && usage.output != i64::MIN
            && usage.reasoning_output != i64::MIN && usage.total != i64::MIN,
    ensures
        r@ == usage_line_text(label@, *usage),
{
    let mut out = chars_of(label);
    append_str(&mut out, ": input ");
    append_chars(&mut out, &str_chars(&human_int(usage.input)));
    append_str(&mut out, " (cached ");
    append_chars(&mut out, &str_chars(&human_int(usage.cached_input)));
    append_str(&mut out, ") output ");
    append_chars(&mut out, &str_chars(&human_int(usage.output)));
    append_str(&mut out, " reasoning ");
    append_chars(&mut out, &str_chars(&human_int(usage.reasoning_output)));
    append_str(&mut out, " total ");
    append_chars(&mut out, &str_chars(&human_int(usage.total)));
    string_of(&out)
}

/// `pricing_model_for`: the priced model family a model name belongs to.
pub open spec fn pricing_model_of(model: Seq<char>) -> Option<Seq<char>> {
    let m = lower_seq(model);
    if starts_with(m, "gpt-5.2"@) {
        Some("gpt-5.2"@)
    } else if starts_with(m, "gpt-5.1"@) {
        Some("gpt-5.1"@)
    } else if starts_with(m, "gpt-5-mini"@) {
        Some("gpt-5-mini"@)
    } else if starts_with(m, "gpt-5"@) {
        Some("gpt-5"@)
    } else {
        None
    }
}

pub fn pricing_model_for(model: &str) -> (r: Option<&'static str>)
    ensures
        match r {
            Some(s) => pricing_model_of(model@) == Some(s@),
            None => pricing_model_of(model@) is None,
        },
{
    let m = crate::text::to_ascii_lowercase(&chars_of(model));
    if crate::text::starts_with_str(&m, "gpt-5.2") {
        Some("gpt-5.2")
    } else if crate::text::starts_with_str(&m, "gpt-5.1") {
        Some("gpt-5.1")
    } else if crate::text::starts_with_str(&m, "gpt-5-mini") {
        Some("gpt-5-mini")
    } else if crate::text::starts_with_str(&m, "gpt-5") {
        Some("gpt-5")
    } else {
        None
    }
}

/// `normalize_epoch`: a value past 10^12 is taken as milliseconds.
pub open spec fn normalized_epoch(v: int) -> int {
    if v > 1_000_000_000_000 {
        v / 1000
    } else {
        v
    }
}

pub fn normalize_epoch(value: i64) -> (r: i64)
    ensures
        r == normalized_epoch(value as int),
{
    if value > 1_000_000_000_000 {
        value / 1000
    } else {
        value
    }
}

/// `parse_epoch_str`: an integer (seconds or milliseconds) as Unix seconds.
pub open spec fn epoch_of_text(text: Seq<char>) -> Option<int> {
    match i64_of(text) {
        Ok(v) => Some(normalized_epoch(v)),
        Err(_) => match unsigned_of(text, u64::MAX as nat) {
            Ok(v) => if v <= i64::MAX {
                Some(normalized_epoch(v as int))
            } else {
                None
            },
            Err(_) => None,
        },
    }
}

pub fn parse_epoch_str(text: &str) -> (r: Option<i64>)
    ensures
        match r {
            Some(v) => epoch_of_text(text@) == Some(v as int),
            None => epoch_of_text(text@) is None,
        },
{
    match crate::cli::parse_i64(text) {
        Ok(v) => Some(normalize_epoch(v)),
        Err(_) => match crate::cli::parse_u64(text) {
            Ok(v) => if v <= 0x7fff_ffff_ffff_ffffu64 {
                Some(normalize_epoch(v as i64))
            } else {
                None
            },
            Err(_) => None,
        },
    }
}


/// `parse_epoch_number`: an integer that fits in `i64` as Unix seconds; other
/// numbers give nothing.
pub open spec fn epoch_of_number(n: JsonNumber) -> Option<int> {
    match n {
        JsonNumber::PosInt(u) => if u <= i64::MAX {
            Some(normalized_epoch(u as int))
        } else {
            None
        },
        JsonNumber::NegInt(i) => Some(normalized_epoch(i as int)),
        JsonNumber::Float(_) => None,
    }
}

pub fn parse_epoch_number(num: &JsonNumber) -> (r: Option<i64>)
    ensures
        match r {
            Some(v) => epoch_of_number(*num) == Some(v as int),
            None => epoch_of_number(*num) is None,
        },
{
    match num {
        JsonNumber::PosInt(u) => if *u <= 0x7fff_ffff_ffff_ffffu64 {
            Some(normalize_epoch(*u as i64))
        } else {
            None
        },
        JsonNumber::NegInt(i) => Some(normalize_epoch(*i)),
        JsonNumber::Float(_) => None,
    }
}

/// `parse_epoch`: a number or a numeric string as Unix seconds.
pub open spec fn epoch_of_value(v: JsonValue) -> Option<int> {
    match v {
        JsonValue::Number(n) => epoch_of_number(n),
        JsonValue::String(s) => epoch_of_text(s@),
        _ => None,
    }
}

pub fn parse_epoch(value: &JsonValue) -> (r: Option<i64>)
    ensures
        match r {
            Some(v) => epoch_of_value(*value) == Some(v as int),
            None => epoch_of_value(*value) is None,
        },
{
    match value {
        JsonValue::Number(n) => parse_epoch_number(n),
        JsonValue::String(s) => parse_epoch_str(s.as_str()),
        _ => None,
    }
}


// ---------------------------------------------------------------------------
// Rankings
// ---------------------------------------------------------------------------

/// Lexicographic order on text (`String`'s `Ord`: UTF-8 byte order is code point
/// order).
pub open spec fn text_lt(a: Seq<char>, b: Seq<char>) -> bool
    decreases a.len(),
{
    if a.len() == 0 {
        b.len() > 0
    } else if b.len() == 0 {
        false
    } else if a[0] != b[0] {
        a[0] < b[0]
    } else {
        text_lt(a.drop_first(), b.drop_first())
    }
}

proof fn lemma_text_lt_irreflexive(a: Seq<char>)
    ensures
        !text_lt(a, a),
    decreases a.len(),
{
    if a.len() > 0 {
        lemma_text_lt_irreflexive(a.drop_first());
    }
}

proof fn lemma_text_lt_transitive(a: Seq<char>, b: Seq<char>, c: Seq<char>)
    requires
        text_lt(a, b),
        text_lt(b, c),
    ensures
        text_lt(a, c),
    decreases a.len(),
{
    if a.len() > 0 && b.len() > 0 && c.len() > 0 && a[0] == b[0] && b[0] == c[0] {
        lemma_text_lt_transitive(a.drop_first(), b.drop_first(), c.drop_first());
    }
}

proof fn lemma_text_lt_total(a: Seq<char>, b: Seq<char>)
    ensures
        a == b || text_lt(a, b) || text_lt(b, a),
    decreases a.len(),
{
    if a.len() > 0 && b.len() > 0 && a[0] != b[0] {
        assert(a[0] < b[0] || b[0] < a[0]);
    }
    if a.len() > 0 && b.len() > 0 && a[0] == b[0] {
        lemma_text_lt_total(a.drop_first(), b.drop_first());
        if a.drop_first() == b.drop_first() {
            assert(a =~= seq![a[0]] + a.drop_first());
            assert(b =~= seq![b[0]] + b.drop_first());
        }
    } else if a.len() == 0 && b.len() == 0 {
        assert(a =~= b);
    }
}

proof fn lemma_text_lt_asymmetric(a: Seq<char>, b: Seq<char>)
    requires
        text_lt(a, b),
    ensures
        !text_lt(b, a),
{
    if text_lt(b, a) {
        lemma_text_lt_transitive(a, b, a);
        lemma_text_lt_irreflexive(a);
    }
}

/// Ranking order: larger count first, then smaller id.
pub open spec fn rank_le(x: (Seq<char>, i64), y: (Seq<char>, i64)) -> bool {
    x.1 > y.1 || (x.1 == y.1 && (x.0 == y.0 || text_lt(x.0, y.0)))
}

pub proof fn lemma_rank_total_ordering()
    ensures
        vstd::relations::total_ordering(|x: (Seq<char>, i64), y: (Seq<char>, i64)| rank_le(x, y)),
{
    let r = |x: (Seq<char>, i64), y: (Seq<char>, i64)| rank_le(x, y);
    assert forall|x: (Seq<char>, i64), y: (Seq<char>, i64)| #[trigger] r(x, y) && #[trigger] r(y, x) implies x == y by {
        if x.0 != y.0 && x.1 == y.1 {
            lemma_text_lt_asymmetric(x.0, y.0);
        }
    }
    assert forall|x: (Seq<char>, i64), y: (Seq<char>, i64), z: (Seq<char>, i64)| #[trigger] r(x, y) && #[trigger] r(y, z) implies r(x, z) by {
        if x.1 == y.1 && y.1 == z.1 && x.0 != y.0 && y.0 != z.0 {
            lemma_text_lt_transitive(x.0, y.0, z.0);
        }
    }
    assert forall|x: (Seq<char>, i64), y: (Seq<char>, i64)| #[trigger] r(x, y) || r(y, x) by {
        lemma_text_lt_total(x.0, y.0);
    }
}

/// The rows with a positive count, as `(id, count)`; `turns` picks the turn
/// count, otherwise the compaction count.
pub open spec fn positive_items(rows: Seq<(String, SessionActivityCounts)>, turns: bool) -> Seq<(Seq<char>, i64)>
    decreases rows.len(),
{
    if rows.len() == 0 {
        Seq::empty()
    } else {
        let prev = positive_items(rows.drop_last(), turns);
        let (id, c) = rows.last();
        let n = if turns { c.turns } else { c.compactions };
        if n > 0 {
            prev.push((id@, n))
        } else {
            prev
        }
    }
}

/// The items in ranking order (the one such order: ranking is total).
pub open spec fn ranked(items: Seq<(Seq<char>, i64)>) -> Seq<(Seq<char>, i64)> {
    choose|s: Seq<(Seq<char>, i64)>| vstd::relations::sorted_by(s, |x: (Seq<char>, i64), y: (Seq<char>, i64)| rank_le(x, y))
        && s.to_multiset() == items.to_multiset()
}

pub open spec fn item_views(v: Seq<(String, i64)>) -> Seq<(Seq<char>, i64)> {
    Seq::new(v.len(), |i: int| (v[i].0@, v[i].1))
}

fn text_less(a: &String, b: &String) -> (r: bool)
    ensures
        r == text_lt(a@, b@),
{
    let x = str_chars(a);
    let y = str_chars(b);
    let mut i: usize = 0;
    assert(x@.subrange(0, x@.len() as int) =~= x@);
    assert(y@.subrange(0, y@.len() as int) =~= y@);
    while i < x.len() && i < y.len() && x[i] == y[i]
        invariant
            i <= x.len() && i <= y.len(),
            text_lt(x@, y@) == text_lt(x@.subrange(i as int, x@.len() as int), y@.subrange(i as int, y@.len() as int)),
        decreases x.len() - i,
    {
        let ghost xs = x@.subrange(i as int, x@.len() as int);
        let ghost ys = y@.subrange(i as int, y@.len() as int);
        assert(xs.drop_first() =~= x@.subrange(i + 1, x@.len() as int));
        assert(ys.drop_first() =~= y@.subrange(i + 1, y@.len() as int));
        i += 1;
    }
    let ghost xs = x@.subrange(i as int, x@.len() as int);
    let ghost ys = y@.subrange(i as int, y@.len() as int);
    if i == x.len() {
        return i < y.len();
    }
    if i == y.len() {
        return false;
    }
    assert(xs[0] == x@[i as int] && ys[0] == y@[i as int]);
    x[i] < y[i]
}

/// Whether `x` ranks strictly before `y`.
fn ranks_before(x: &(String, i64), y: &(String, i64)) -> (r: bool)
    ensures
        r == (rank_le((x.0@, x.1), (y.0@, y.1)) && !rank_le((y.0@, y.1), (x.0@, x.1))),
{
    proof {
        lemma_text_lt_total(x.0@, y.0@);
        if text_lt(x.0@, y.0@) {
            lemma_text_lt_asymmetric(x.0@, y.0@);
        }
        lemma_text_lt_irreflexive(x.0@);
    }
    x.1 > y.1 || (x.1 == y.1 && text_less(&x.0, &y.0))
}

/// The rows with a positive count, in ranking order.
fn rank_rows(rows: &Vec<(String, SessionActivityCounts)>, turns: bool) -> (r: Vec<(String, i64)>)
    ensures
        vstd::relations::sorted_by(item_views(r@), |x: (Seq<char>, i64), y: (Seq<char>, i64)| rank_le(x, y)),
        item_views(r@).to_multiset() == positive_items(rows@, turns).to_multiset(),
{
    let ghost le = |x: (Seq<char>, i64), y: (Seq<char>, i64)| rank_le(x, y);
    proof { lemma_rank_total_ordering(); }
    let mut out: Vec<(String, i64)> = Vec::new();
    let mut i: usize = 0;
    assert(item_views(out@) =~= Seq::<(Seq<char>, i64)>::empty());
    assert(rows@.subrange(0, 0) =~= Seq::<(String, SessionActivityCounts)>::empty());
    while i < rows.len()
        invariant
            i <= rows.len(),
            le == (|x: (Seq<char>, i64), y: (Seq<char>, i64)| rank_le(x, y)),
            vstd::relations::total_ordering(le),
            vstd::relations::sorted_by(item_views(out@), le),
            item_views(out@).to_multiset() == positive_items(rows@.subrange(0, i as int), turns).to_multiset(),
        decreases rows.len() - i,
    {
        assert(rows@.subrange(0, i + 1).drop_last() =~= rows@.subrange(0, i as int));
        let n = if turns { rows[i].1.turns } else { rows[i].1.compactions };
        if n > 0 {
            let item = (rows[i].0.clone(), n);
            let ghost iv = (item.0@, item.1);
            let mut p: usize = 0;
            while p < out.len() && !ranks_before(&item, &out[p])
                invariant
                    p <= out.len(),
                    iv == (item.0@, item.1),
                    forall|j: int| 0 <= j < p ==> #[trigger] le(item_views(out@)[j], iv),
                    vstd::relations::total_ordering(le),
                    le == (|x: (Seq<char>, i64), y: (Seq<char>, i64)| rank_le(x, y)),
                decreases out.len() - p,
            {
                assert(item_views(out@)[p as int] == (out@[p as int].0@, out@[p as int].1));
                assert(le(item_views(out@)[p as int], iv) || le(iv, item_views(out@)[p as int]));
                p += 1;
            }
            let ghost old_v = item_views(out@);
            proof {
                if p < out.len() {
                    assert(old_v[p as int] == (out@[p as int].0@, out@[p as int].1));
                    assert(le(iv, old_v[p as int]));
                }
            }
            out.insert(p, item);
            proof {
                let nv = item_views(out@);
                assert(nv =~= old_v.insert(p as int, iv));
                assert forall|a: int, b: int| 0 <= a < b < nv.len() implies #[trigger] le(nv[a], nv[b]) by {
                    if a < p && b == p {
                    } else if a < p && b > p {
                        assert(nv[b] == old_v[b - 1]);
                    } else if a == p && b > p {
                        assert(nv[b] == old_v[b - 1]);
                        if b - 1 > p {
                            assert(le(old_v[p as int], old_v[b - 1]));
                        }
                    } else if a > p {
                        assert(nv[a] == old_v[a - 1] && nv[b] == old_v[b - 1]);
                    } else {
                        assert(nv[a] == old_v[a] && nv[b] == old_v[b]);
                    }
                }
                vstd::seq_lib::to_multiset_insert(old_v, p as int, iv);
                vstd::seq_lib::to_multiset_build(positive_items(rows@.subrange(0, i as int), turns), iv);
            }
        }
        i += 1;
    }
    assert(rows@.subrange(0, rows@.len() as int) =~= rows@);
    out
}

/// `top_sessions_by_turns`: the sessions with turns, most turns first (ties by
/// id), at most `limit` of them.
pub fn top_sessions_by_turns(rows: &Vec<(String, SessionActivityCounts)>, limit: usize) -> (r: Vec<(String, i64)>)
    ensures
        item_views(r@) == ranked(positive_items(rows@, true)).take(
            if limit < positive_items(rows@, true).len() { limit as int } else { positive_items(rows@, true).len() as int },
        ),
{
    let mut ranked_rows = rank_rows(rows, true);
    proof { lemma_ranked_unique(item_views(ranked_rows@), positive_items(rows@, true)); }
    let ghost full = item_views(ranked_rows@);
    ranked_rows.truncate(limit);
    proof {
        vstd::seq_lib::to_multiset_len(full);
        vstd::seq_lib::to_multiset_len(positive_items(rows@, true));
    }
    assert(item_views(ranked_rows@) =~= full.take(ranked_rows@.len() as int));
    ranked_rows
}


/// A sorted arrangement of the items is their ranking.
proof fn lemma_ranked_unique(s: Seq<(Seq<char>, i64)>, items: Seq<(Seq<char>, i64)>)
    requires
        vstd::relations::sorted_by(s, |x: (Seq<char>, i64), y: (Seq<char>, i64)| rank_le(x, y)),
        s.to_multiset() == items.to_multiset(),
    ensures
        ranked(items) == s,
{
    let le = |x: (Seq<char>, i64), y: (Seq<char>, i64)| rank_le(x, y);
    lemma_rank_total_ordering();
    let c = ranked(items);
    assert(vstd::relations::sorted_by(c, le) && c.to_multiset() == items.to_multiset());
    vstd::seq_lib::lemma_sorted_unique(c, s, le);
}

/// `top_session_by_compactions`: the session with the most compactions (ties
/// by id), if any has one.
pub fn top_session_by_compactions(rows: &Vec<(String, SessionActivityCounts)>) -> (r: Option<(String, i64)>)
    ensures
        match r {
            Some(x) => ranked(positive_items(rows@, false)).len() > 0 && (x.0@, x.1) == ranked(positive_items(rows@, false))[0],
            None => ranked(positive_items(rows@, false)).len() == 0,
        },
{
    let ranked_rows = rank_rows(rows, false);
    proof {
        lemma_ranked_unique(item_views(ranked_rows@), positive_items(rows@, false));
    }
    if ranked_rows.len() == 0 {
        return None;
    }
    let first = ranked_rows[0].0.clone();
    assert(item_views(ranked_rows@)[0] == (ranked_rows@[0].0@, ranked_rows@[0].1));
    Some((first, ranked_rows[0].1))
}

} // verus!
