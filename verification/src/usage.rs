//! Token usage: the usage events a session log reports, and what they add up to.
//!
//! A Codex log reports usage in `event_msg` records whose payload has type
//! `token_count`; the counts are those of `payload.info.last_token_usage`. The
//! model is the session's, until a `turn_context` record names another.

use vstd::prelude::*;

use crate::config::model::opt_view;
use crate::indexer::{parse_timestamp, timestamp_of};
use crate::json::{as_str, get, get_opt, json_get, json_get_opt, json_str_at, str_at, JsonNumber, JsonValue};
use crate::session::{clone_opt_string, SessionSummary, TokenUsageRecord};
use crate::stats::{pricing_model_for, pricing_model_of, UsageTotals};
use crate::commands::saturating;
use crate::text::{eq_str, string_views};

verus! {

// ---------------------------------------------------------------------------
// Usage events of a log
// ---------------------------------------------------------------------------

/// A usage event as values.
pub struct UsageView {
    pub session_id: Seq<char>,
    pub timestamp: i64,
    pub model: Option<Seq<char>>,
    pub input: i64,
    pub cached_input: i64,
    pub output: i64,
    pub reasoning_output: i64,
    pub total: i64,
    pub rate_limits: Option<Seq<char>>,
}

pub open spec fn usage_view(u: TokenUsageRecord) -> UsageView {
    UsageView {
        session_id: u.session_id@,
        timestamp: u.timestamp,
        model: opt_view(u.model),
        input: u.input_tokens,
        cached_input: u.cached_input_tokens,
        output: u.output_tokens,
        reasoning_output: u.reasoning_output_tokens,
        total: u.total_tokens,
        rate_limits: opt_view(u.rate_limits),
    }
}

pub open spec fn events_view(s: Seq<(usize, TokenUsageRecord)>) -> Seq<(int, UsageView)> {
    s.map_values(|e: (usize, TokenUsageRecord)| (e.0 as int, usage_view(e.1)))
}

/// A token count: an integer, capped at `i64::MAX`; 0 for anything else or
/// nothing.
pub open spec fn count_value(v: Option<JsonValue>) -> i64 {
    match v {
        Some(JsonValue::Number(JsonNumber::PosInt(n))) => if n <= i64::MAX as u64 {
            n as i64
        } else {
            i64::MAX
        },
        Some(JsonValue::Number(JsonNumber::NegInt(n))) => n,
        _ => 0,
    }
}

/// The model in effect after `record`, given the one before it.
pub open spec fn model_after(m: Option<Seq<char>>, record: JsonValue) -> Option<Seq<char>> {
    if str_at(record, "type"@) == Some("turn_context"@) {
        match as_str(get_opt(get(record, "payload"@), "model"@)) {
            Some(x) => Some(x),
            None => m,
        }
    } else {
        m
    }
}

/// The model in effect after the first `n` records.
pub open spec fn model_at(start: Option<Seq<char>>, records: Seq<JsonValue>, n: int) -> Option<Seq<char>>
    decreases n,
{
    if n <= 0 {
        start
    } else {
        model_after(model_at(start, records, n - 1), records[n - 1])
    }
}

/// The usage object of a `token_count` event record.
pub open spec fn usage_object(record: JsonValue) -> Option<JsonValue> {
    let payload = get(record, "payload"@);
    if str_at(record, "type"@) == Some("event_msg"@) && as_str(get_opt(payload, "type"@)) == Some("token_count"@) {
        get_opt(get_opt(payload, "info"@), "last_token_usage"@)
    } else {
        None
    }
}

/// The event that `record`, the one at `position`, reports with usage object `u`.
pub open spec fn event_of(s: SessionSummary, record: JsonValue, u: JsonValue, model: Option<Seq<char>>) -> UsageView {
    UsageView {
        session_id: s.id@,
        timestamp: match timestamp_of(record) {
            Some(t) => t,
            None => s.mtime,
        },
        model,
        input: count_value(get(u, "input_tokens"@)),
        cached_input: count_value(get(u, "cached_input_tokens"@)),
        output: count_value(get(u, "output_tokens"@)),
        reasoning_output: count_value(get(u, "reasoning_output_tokens"@)),
        total: count_value(get(u, "total_tokens"@)),
        rate_limits: None,
    }
}

/// The usage events among the first `n` records, each with its record's position.
pub open spec fn usage_events(s: SessionSummary, records: Seq<JsonValue>, n: int) -> Seq<(int, UsageView)>
    decreases n,
{
    if n <= 0 {
        Seq::empty()
    } else {
        let prev = usage_events(s, records, n - 1);
        match usage_object(records[n - 1]) {
            Some(u) => prev.push((n - 1, event_of(s, records[n - 1], u, model_at(opt_view(s.model), records, n - 1)))),
            None => prev,
        }
    }
}

fn count_at(usage: &JsonValue, key: &str) -> (r: i64)
    ensures
        r == count_value(get(*usage, key@)),
{
    match json_get(usage, key) {
        Some(JsonValue::Number(JsonNumber::PosInt(n))) => if *n <= 0x7fff_ffff_ffff_ffffu64 {
            *n as i64
        } else {
            0x7fff_ffff_ffff_ffffi64
        },
        Some(JsonValue::Number(JsonNumber::NegInt(n))) => *n,
        _ => 0,
    }
}

fn is_str(v: Option<&String>, lit: &str) -> (r: bool)
    ensures
        r == (v matches Some(s) && s@ == lit@),
{
    match v {
        Some(s) => eq_str(s, lit),
        None => false,
    }
}

/// The usage events of a session log, in order, each with the position of its
/// record.
pub fn token_usage_events(session: &SessionSummary, records: &Vec<JsonValue>) -> (r: Vec<(usize, TokenUsageRecord)>)
    ensures
        events_view(r@) == usage_events(*session, records@, records@.len() as int),
{
    let mut model: Option<String> = clone_opt_string(&session.model);
    let mut out: Vec<(usize, TokenUsageRecord)> = Vec::new();
    let mut i: usize = 0;
    while i < records.len()
        invariant
            i <= records.len(),
            opt_view(model) == model_at(opt_view(session.model), records@, i as int),
            events_view(out@) == usage_events(*session, records@, i as int),
        decreases records.len() - i,
    {
        let record = &records[i];
        let kind = json_str_at(record, "type");
        let payload = json_get(record, "payload");
        let ghost prev = usage_events(*session, records@, i as int);
        assert(usage_events(*session, records@, i + 1) == match usage_object(records@[i as int]) {
            Some(u) => prev.push((i as int, event_of(*session, records@[i as int], u, model_at(opt_view(session.model), records@, i as int)))),
            None => prev,
        });
        proof {
            reveal_strlit("turn_context");
            reveal_strlit("event_msg");
            assert("turn_context"@.len() == 12 && "event_msg"@.len() == 9);
        }
        if is_str(kind, "turn_context") {
            match json_get_opt(payload, "model") {
                Some(JsonValue::String(m)) => {
                    model = Some(m.clone());
                },
                _ => {},
            }
        } else if is_str(kind, "event_msg") {
            let payload_kind = match json_get_opt(payload, "type") {
                Some(JsonValue::String(t)) => eq_str(t, "token_count"),
                _ => false,
            };
            if payload_kind {
                let usage = json_get_opt(json_get_opt(payload, "info"), "last_token_usage");
                match usage {
                    Some(u) => {
                        let event = TokenUsageRecord {
                            session_id: session.id.clone(),
                            timestamp: match parse_timestamp(record) {
                                Some(t) => t,
                                None => session.mtime,
                            },
                            model: clone_opt_string(&model),
                            input_tokens: count_at(u, "input_tokens"),
                            cached_input_tokens: count_at(u, "cached_input_tokens"),
                            output_tokens: count_at(u, "output_tokens"),
                            reasoning_output_tokens: count_at(u, "reasoning_output_tokens"),
                            total_tokens: count_at(u, "total_tokens"),
                            rate_limits: None,
                        };
                        assert(usage_object(records@[i as int]) == Some(*u));
                        assert(usage_view(event) == event_of(*session, records@[i as int], *u, opt_view(model)));
                        let ghost before = out@;
                        out.push((i, event));
                        assert(events_view(out@) =~= events_view(before).push((i as int, usage_view(event))));
                    },
                    None => {},
                }
            }
        }
        i += 1;
    }
    out
}

// ---------------------------------------------------------------------------
// What the events add up to
// ---------------------------------------------------------------------------

/// The totals with `u` added, or unchanged where a count would leave `i64`.
pub open spec fn checked_plus(t: UsageTotals, u: TokenUsageRecord) -> UsageTotals {
    if t.can_add(u) {
        t.plus(u)
    } else {
        t
    }
}

/// The totals of the first `n` events at or after `cutoff` (of all of them for
/// `None`); an event whose counts would leave `i64` is left out.
pub open spec fn window_total(us: Seq<TokenUsageRecord>, n: int, cutoff: Option<i64>) -> UsageTotals
    decreases n,
{
    if n <= 0 {
        UsageTotals::new_spec()
    } else {
        let prev = window_total(us, n - 1, cutoff);
        match cutoff {
            Some(c) => if us[n - 1].timestamp >= c {
                checked_plus(prev, us[n - 1])
            } else {
                prev
            },
            None => checked_plus(prev, us[n - 1]),
        }
    }
}

/// The name an event is counted under: its model, or `unknown`.
pub open spec fn key_of(u: TokenUsageRecord) -> Seq<char> {
    match u.model {
        Some(m) => m@,
        None => "unknown"@,
    }
}

/// Whether the event's model has a price.
pub open spec fn priced(u: TokenUsageRecord) -> bool {
    match u.model {
        Some(m) => pricing_model_of(m@) is Some,
        None => false,
    }
}

/// The tokens of the unpriced events among the first `n`, summed with saturation.
pub open spec fn unpriced_sum(us: Seq<TokenUsageRecord>, n: int) -> i64
    decreases n,
{
    if n <= 0 {
        0
    } else if priced(us[n - 1]) {
        unpriced_sum(us, n - 1)
    } else {
        saturating(unpriced_sum(us, n - 1) + us[n - 1].total_tokens)
    }
}

/// The names of the unpriced events among the first `n`, each once, in the order
/// they first occur.
pub open spec fn unpriced_names(us: Seq<TokenUsageRecord>, n: int) -> Seq<Seq<char>>
    decreases n,
{
    if n <= 0 {
        Seq::empty()
    } else {
        let prev = unpriced_names(us, n - 1);
        if !priced(us[n - 1]) && !prev.contains(key_of(us[n - 1])) {
            prev.push(key_of(us[n - 1]))
        } else {
            prev
        }
    }
}

/// Token totals by window, the unpriced events' tokens and model names, and the
/// position of the latest event.
pub struct TokenCounts {
    pub totals: crate::stats::WindowedUsage,
    pub unpriced_tokens: i64,
    pub unpriced_models: Vec<String>,
    pub latest: Option<usize>,
}

fn fits(a: i64, b: i64) -> (r: bool)
    ensures
        r == (i64::MIN <= a + b <= i64::MAX),
{
    if b >= 0 {
        a <= i64::MAX - b
    } else {
        a >= i64::MIN - b
    }
}

/// Add `u` to `t` where every count stays within `i64`.
pub fn add_checked(t: &mut UsageTotals, u: &TokenUsageRecord)
    ensures
        *final(t) == checked_plus(*old(t), *u),
{
    if fits(t.input, u.input_tokens) && fits(t.cached_input, u.cached_input_tokens) && fits(t.output, u.output_tokens)
        && fits(t.reasoning_output, u.reasoning_output_tokens) && fits(t.total, u.total_tokens) {
        t.add(u);
    }
}

/// The name an event is counted under: its model, or `unknown`.
pub fn model_key(u: &TokenUsageRecord) -> (r: String)
    ensures
        r@ == key_of(*u),
{
    match &u.model {
        Some(m) => m.clone(),
        None => "unknown".to_owned(),
    }
}

fn contains_string(v: &Vec<String>, s: &String) -> (r: bool)
    ensures
        r == string_views(v@).contains(s@),
{
    let mut i: usize = 0;
    while i < v.len()
        invariant
            i <= v.len(),
            forall|k: int| 0 <= k < i ==> v@[k]@ != s@,
        decreases v.len() - i,
    {
        if eq_str(&v[i], s.as_str()) {
            assert(string_views(v@)[i as int] == s@);
            return true;
        }
        i += 1;
    }
    assert forall|k: int| 0 <= k < string_views(v@).len() implies string_views(v@)[k] != s@ by {
        assert(string_views(v@)[k] == v@[k]@);
    }
    false
}

fn is_priced(u: &TokenUsageRecord) -> (r: bool)
    ensures
        r == priced(*u),
{
    match &u.model {
        Some(m) => pricing_model_for(m.as_str()).is_some(),
        None => false,
    }
}

/// The token statistics of a list of usage events, costs aside: token totals by window (an event
/// whose counts would leave `i64` is left out of a total), the tokens and model
/// names of events whose model has no price, and the latest event, the first of
/// the latest when several share its time.
pub fn token_counts(usages: &Vec<TokenUsageRecord>, cutoff_day: i64, cutoff_week: i64, cutoff_month: i64) -> (r: TokenCounts)
    ensures
        r.totals.all == window_total(usages@, usages@.len() as int, None),
        r.totals.last_24h == window_total(usages@, usages@.len() as int, Some(cutoff_day)),
        r.totals.last_7d == window_total(usages@, usages@.len() as int, Some(cutoff_week)),
        r.totals.last_30d == window_total(usages@, usages@.len() as int, Some(cutoff_month)),
        r.unpriced_tokens == unpriced_sum(usages@, usages@.len() as int),
        string_views(r.unpriced_models@) == unpriced_names(usages@, usages@.len() as int),
        r.latest is None <==> usages@.len() == 0,
        r.latest matches Some(i) ==> {
            &&& i < usages@.len()
            &&& forall|k: int| 0 <= k < usages@.len() ==> usages@[k].timestamp <= usages@[i as int].timestamp
            &&& forall|k: int| 0 <= k < i ==> usages@[k].timestamp < usages@[i as int].timestamp
        },
{
    let mut totals = crate::stats::WindowedUsage::new();
    let mut unpriced_tokens: i64 = 0;
    let mut unpriced_models: Vec<String> = Vec::new();
    let mut latest: Option<usize> = None;
    let mut i: usize = 0;
    while i < usages.len()
        invariant
            i <= usages.len(),
            totals.all == window_total(usages@, i as int, None),
            totals.last_24h == window_total(usages@, i as int, Some(cutoff_day)),
            totals.last_7d == window_total(usages@, i as int, Some(cutoff_week)),
            totals.last_30d == window_total(usages@, i as int, Some(cutoff_month)),
            unpriced_tokens == unpriced_sum(usages@, i as int),
            string_views(unpriced_models@) == unpriced_names(usages@, i as int),
            latest is None <==> i == 0,
            latest matches Some(j) ==> {
                &&& j < i
                &&& forall|k: int| 0 <= k < i ==> usages@[k].timestamp <= usages@[j as int].timestamp
                &&& forall|k: int| 0 <= k < j ==> usages@[k].timestamp < usages@[j as int].timestamp
            },
        decreases usages.len() - i,
    {
        let u = &usages[i];
        add_checked(&mut totals.all, u);
        if u.timestamp >= cutoff_day {
            add_checked(&mut totals.last_24h, u);
        }
        if u.timestamp >= cutoff_week {
            add_checked(&mut totals.last_7d, u);
        }
        if u.timestamp >= cutoff_month {
            add_checked(&mut totals.last_30d, u);
        }
        if !is_priced(u) {
            let sum: i128 = unpriced_tokens as i128 + u.total_tokens as i128;
            unpriced_tokens = if sum > 0x7fff_ffff_ffff_ffffi128 {
                0x7fff_ffff_ffff_ffffi64
            } else if sum < -0x8000_0000_0000_0000i128 {
                -0x8000_0000_0000_0000i64
            } else {
                sum as i64
            };
            let key = model_key(u);
            if !contains_string(&unpriced_models, &key) {
                let ghost before = unpriced_models@;
                unpriced_models.push(key);
                assert(string_views(unpriced_models@) =~= string_views(before).push(key_of(*u)));
            }
        }
        latest = match latest {
            Some(j) => if u.timestamp > usages[j].timestamp {
                Some(i)
            } else {
                Some(j)
            },
            None => Some(i),
        };
        i += 1;
    }
    TokenCounts { totals, unpriced_tokens, unpriced_models, latest }
}

// ---------------------------------------------------------------------------
// Totals by name
// ---------------------------------------------------------------------------

/// The first position at or after `i` whose name is `k`.
pub open spec fn group_pos(g: Seq<(Seq<char>, UsageTotals)>, k: Seq<char>, i: int) -> Option<int>
    decreases g.len() - i,
{
    if i < 0 || i >= g.len() {
        None
    } else if g[i].0 == k {
        Some(i)
    } else {
        group_pos(g, k, i + 1)
    }
}

pub(crate) proof fn lemma_group_pos(g: Seq<(Seq<char>, UsageTotals)>, k: Seq<char>, i: int)
    requires
        0 <= i,
    ensures
        match group_pos(g, k, i) {
            Some(j) => i <= j < g.len() && g[j].0 == k,
            None => forall|m: int| i <= m < g.len() ==> g[m].0 != k,
        },
    decreases g.len() - i,
{
    if i < g.len() && g[i].0 != k {
        lemma_group_pos(g, k, i + 1);
    }
}

/// The first `n` events' totals by the name each is filed under (`keys[i]` for
/// event `i`): one entry per name, in the order the names first occur; an event
/// whose counts would leave `i64` is left out of its entry's total.
pub open spec fn grouped(us: Seq<TokenUsageRecord>, keys: Seq<Seq<char>>, n: int) -> Seq<(Seq<char>, UsageTotals)>
    decreases n,
{
    if n <= 0 {
        Seq::empty()
    } else {
        let prev = grouped(us, keys, n - 1);
        match group_pos(prev, keys[n - 1], 0) {
            Some(j) => prev.update(j, (keys[n - 1], checked_plus(prev[j].1, us[n - 1]))),
            None => prev.push((keys[n - 1], checked_plus(UsageTotals::new_spec(), us[n - 1]))),
        }
    }
}

pub open spec fn group_views(v: Seq<(String, UsageTotals)>) -> Seq<(Seq<char>, UsageTotals)> {
    v.map_values(|e: (String, UsageTotals)| (e.0@, e.1))
}

/// Each name at most once.
pub open spec fn names_distinct(g: Seq<(Seq<char>, UsageTotals)>) -> bool {
    forall|i: int, j: int| 0 <= i < j < g.len() ==> g[i].0 != g[j].0
}

/// Token totals by name: `keys[i]` names event `i` (its model, or the day it
/// falls on).
pub fn group_totals(usages: &Vec<TokenUsageRecord>, keys: &Vec<String>) -> (r: Vec<(String, UsageTotals)>)
    requires
        keys.len() == usages.len(),
    ensures
        group_views(r@) == grouped(usages@, string_views(keys@), usages@.len() as int),
        names_distinct(group_views(r@)),
{
    let ghost ks = string_views(keys@);
    let mut out: Vec<(String, UsageTotals)> = Vec::new();
    let mut i: usize = 0;
    while i < usages.len()
        invariant
            i <= usages.len(),
            keys.len() == usages.len(),
            ks == string_views(keys@),
            group_views(out@) == grouped(usages@, ks, i as int),
            names_distinct(group_views(out@)),
        decreases usages.len() - i,
    {
        let ghost g = group_views(out@);
        assert(ks[i as int] == keys@[i as int]@);
        let mut pos: Option<usize> = None;
        let mut j: usize = 0;
        while j < out.len()
            invariant
                j <= out.len(),
                g == group_views(out@),
                i < keys.len(),
                ks == string_views(keys@),
                pos matches Some(p) ==> p < out.len() && group_pos(g, ks[i as int], 0) == Some(p as int),
                pos is None ==> group_pos(g, ks[i as int], 0) == group_pos(g, ks[i as int], j as int),
            decreases out.len() - j,
        {
            assert(g[j as int].0 == out@[j as int].0@);
            assert(ks[i as int] == keys@[i as int]@);
            if pos.is_none() && eq_str(&out[j].0, keys[i].as_str()) {
                pos = Some(j);
            }
            j += 1;
        }
        proof {
            lemma_group_pos(g, ks[i as int], 0);
        }
        match pos {
            Some(p) => {
                let mut t = out[p].1;
                add_checked(&mut t, &usages[i]);
                let name = out[p].0.clone();
                out.set(p, (name, t));
                assert(group_views(out@) =~= g.update(p as int, (ks[i as int], checked_plus(g[p as int].1, usages@[i as int]))));
            },
            None => {
                let mut t = UsageTotals::new();
                add_checked(&mut t, &usages[i]);
                out.push((keys[i].clone(), t));
                assert(group_views(out@) =~= g.push((ks[i as int], checked_plus(UsageTotals::new_spec(), usages@[i as int]))));
            },
        }
        i += 1;
    }
    out
}

} // verus!
