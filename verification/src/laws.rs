//! Properties of the library as a whole, each stated over the specifications
//! its functions are verified against.

use vstd::prelude::*;

use crate::config::maps::{has_key, lemma_key_index, lookup, profile_entries, provider_entries, snippet_entries, wrapper_entries};
use crate::config::model::{
    Config, DiagnosticLevel, ProfileConfig, Snippet, defaults_diags, lint_spec, missing_snippet_diags, profile_diags, profiles_diags,
    push_unique, roots_of,
};
use crate::indexer::{
    IngestView, MsgView, TAG_ENVIRONMENT_CONTEXT, TAG_USER_INSTRUCTIONS, TAG_USER_INSTRUCTIONS_END, absorb_all, absorb_message,
    clean_of, dedup_key, empty_view, find_key, ingest_all, ingest_record, record_header, with_source,
};
use crate::internal::{PROMPT_PLACEHOLDER, any_placeholder, resolved_args};
use crate::paths::same_path;
use crate::pipeline::{
    ErrView, InvView, PipelineRequest, PlanView, names_of, plan_of, profile_sel, provider_name_sel, provider_sel, shell_escaped,
    shell_safe, snippet_cmds, sv, wrap_name_sel, wrapper_sel,
};
use crate::text::string_views;
use crate::config::merge::{MergeFault, TomlView, ends_plus, merge_error_text, key_pos, key_pos_from, merge_entry, merge_upto, merged, nullish, trim_plus};
use crate::session::{MessageRecord, TokenUsageRecord, md_fold, message_block, renderable};
use crate::stats::{SessionActivityCounts, UsageTotals, lemma_rank_total_ordering, positive_items, rank_le, ranked};
use crate::usage::{group_pos, grouped, lemma_group_pos, window_total};
use crate::text::{contains, first_index, lemma_first_index, lower_seq, replace_all, starts_with, strip_cr, trim};
use crate::prompts::{PromptStatus, first_line, named_entries, virtual_profile_of};
use crate::json::{JsonValue, str_at};
use crate::commands::prompt_problem;
use crate::session::{SearchHit, SessionSummary};
use crate::launch::{collated, recent_enough, role_matches};
use crate::config::model::opt_view;

verus! {

// ---------------------------------------------------------------------------
// Configuration lint
// ---------------------------------------------------------------------------

/// Every snippet a profile names is defined.
pub open spec fn snippets_defined(table: Seq<(Seq<char>, crate::config::model::Snippet)>, names: Seq<String>) -> bool {
    forall|i: int| 0 <= i < names.len() ==> has_key(table, #[trigger] names[i]@)
}

/// Every reference of a profile resolves.
pub open spec fn profile_resolves(c: Config, p: ProfileConfig) -> bool {
    &&& has_key(provider_entries(c.providers), p.provider@)
    &&& snippets_defined(snippet_entries(c.snippets.pre), p.pre@)
    &&& snippets_defined(snippet_entries(c.snippets.post), p.post@)
    &&& (p.wrap matches Some(w) ==> has_key(wrapper_entries(c.wrappers), w@))
}

/// Every reference of the configuration resolves: the default provider and
/// profile, and each profile's provider, snippets and wrapper.
pub open spec fn references_resolve(c: Config) -> bool {
    &&& (c.defaults.provider matches Some(n) ==> has_key(provider_entries(c.providers), n@))
    &&& (c.defaults.profile matches Some(n) ==> has_key(profile_entries(c.profiles), n@))
    &&& forall|i: int| 0 <= i < profile_entries(c.profiles).len() ==> profile_resolves(c, #[trigger] profile_entries(c.profiles)[i].1)
}

proof fn lemma_missing_none(table: Seq<(Seq<char>, crate::config::model::Snippet)>, profile: Seq<char>, names: Seq<String>, kind: Seq<char>)
    requires
        snippets_defined(table, names),
    ensures
        missing_snippet_diags(table, profile, names, kind).len() == 0,
    decreases names.len(),
{
    if names.len() > 0 {
        assert(has_key(table, names[names.len() - 1]@));
        assert(snippets_defined(table, names.drop_last())) by {
            assert forall|i: int| 0 <= i < names.drop_last().len() implies has_key(table, #[trigger] names.drop_last()[i]@) by {
                assert(names.drop_last()[i] == names[i]);
            }
        }
        lemma_missing_none(table, profile, names.drop_last(), kind);
    }
}

proof fn lemma_profiles_clean(c: Config, ps: Seq<(Seq<char>, ProfileConfig)>)
    requires
        forall|i: int| 0 <= i < ps.len() ==> profile_resolves(c, #[trigger] ps[i].1),
    ensures
        profiles_diags(c, ps).len() == 0,
    decreases ps.len(),
{
    if ps.len() > 0 {
        let p = ps[ps.len() - 1].1;
        assert(profile_resolves(c, p));
        lemma_missing_none(snippet_entries(c.snippets.pre), p.name@, p.pre@, "pre"@);
        lemma_missing_none(snippet_entries(c.snippets.post), p.name@, p.post@, "post"@);
        assert forall|i: int| 0 <= i < ps.drop_last().len() implies profile_resolves(c, #[trigger] ps.drop_last()[i].1) by {
            assert(ps.drop_last()[i] == ps[i]);
        }
        lemma_profiles_clean(c, ps.drop_last());
    }
}

/// A configuration whose references all resolve lints clean: `Config::lint`
/// reports nothing for it.
pub proof fn law_lint_clean_when_references_resolve(c: Config)
    requires
        references_resolve(c),
    ensures
        lint_spec(c).len() == 0,
{
    lemma_profiles_clean(c, profile_entries(c.profiles));
}

proof fn lemma_profiles_diags_has(c: Config, ps: Seq<(Seq<char>, ProfileConfig)>, i: int, d: (DiagnosticLevel, Seq<char>))
    requires
        0 <= i < ps.len(),
        profile_diags(c, ps[i].1).contains(d),
    ensures
        profiles_diags(c, ps).contains(d),
    decreases ps.len(),
{
    let prev = profiles_diags(c, ps.drop_last());
    let last = profile_diags(c, ps.last().1);
    if i == ps.len() - 1 {
        let j = choose|j: int| 0 <= j < last.len() && last[j] == d;
        assert((prev + last)[prev.len() + j] == d);
    } else {
        assert(ps.drop_last()[i] == ps[i]);
        lemma_profiles_diags_has(c, ps.drop_last(), i, d);
        let j = choose|j: int| 0 <= j < prev.len() && prev[j] == d;
        assert((prev + last)[j] == d);
    }
}

proof fn lemma_missing_has(table: Seq<(Seq<char>, Snippet)>, profile: Seq<char>, names: Seq<String>, kind: Seq<char>, i: int)
    requires
        0 <= i < names.len(),
        !has_key(table, names[i]@),
    ensures
        missing_snippet_diags(table, profile, names, kind).contains(
            (DiagnosticLevel::Warning, "profile '"@ + profile + "' references unknown "@ + kind + " snippet '"@ + names[i]@ + "'"@),
        ),
    decreases names.len(),
{
    let d = (DiagnosticLevel::Warning, "profile '"@ + profile + "' references unknown "@ + kind + " snippet '"@ + names[i]@ + "'"@);
    let rest = missing_snippet_diags(table, profile, names.drop_last(), kind);
    if i == names.len() - 1 {
        assert(missing_snippet_diags(table, profile, names, kind) == rest.push(d));
        assert(rest.push(d)[rest.len() as int] == d);
    } else {
        assert(names.drop_last()[i] == names[i]);
        lemma_missing_has(table, profile, names.drop_last(), kind, i);
        let j = choose|j: int| 0 <= j < rest.len() && rest[j] == d;
        let all = missing_snippet_diags(table, profile, names, kind);
        assert(all == rest || all == rest.push(all.last()));
        assert(all[j] == d);
    }
}

/// A profile naming a provider that `[providers]` lacks gets an error from
/// `Config::lint`: `profile '<name>' references unknown provider '<provider>'`.
pub proof fn law_lint_reports_unknown_provider(c: Config, i: int)
    requires
        0 <= i < profile_entries(c.profiles).len(),
        !has_key(provider_entries(c.providers), profile_entries(c.profiles)[i].1.provider@),
    ensures
        lint_spec(c).contains(
            (
                DiagnosticLevel::Error,
                "profile '"@ + profile_entries(c.profiles)[i].1.name@ + "' references unknown provider '"@
                    + profile_entries(c.profiles)[i].1.provider@ + "'"@,
            ),
        ),
{
    let p = profile_entries(c.profiles)[i].1;
    let d = (DiagnosticLevel::Error, "profile '"@ + p.name@ + "' references unknown provider '"@ + p.provider@ + "'"@);
    assert(profile_diags(c, p)[0] == d);
    lemma_profiles_diags_has(c, profile_entries(c.profiles), i, d);
    let ds = defaults_diags(c);
    let ps = profiles_diags(c, profile_entries(c.profiles));
    let j = choose|j: int| 0 <= j < ps.len() && ps[j] == d;
    assert((ds + ps)[ds.len() + j] == d);
}

/// A profile naming a pre snippet that `[snippets.pre]` lacks gets a warning from
/// `Config::lint`: `profile '<name>' references unknown pre snippet '<snippet>'`.
pub proof fn law_lint_reports_unknown_pre_snippet(c: Config, i: int, k: int)
    requires
        0 <= i < profile_entries(c.profiles).len(),
        0 <= k < profile_entries(c.profiles)[i].1.pre@.len(),
        !has_key(snippet_entries(c.snippets.pre), profile_entries(c.profiles)[i].1.pre@[k]@),
    ensures
        lint_spec(c).contains(
            (
                DiagnosticLevel::Warning,
                "profile '"@ + profile_entries(c.profiles)[i].1.name@ + "' references unknown "@ + "pre"@
                    + " snippet '"@ + profile_entries(c.profiles)[i].1.pre@[k]@ + "'"@,
            ),
        ),
{
    let p = profile_entries(c.profiles)[i].1;
    let d = (DiagnosticLevel::Warning, "profile '"@ + p.name@ + "' references unknown "@ + "pre"@ + " snippet '"@ + p.pre@[k]@ + "'"@);
    lemma_missing_has(snippet_entries(c.snippets.pre), p.name@, p.pre@, "pre"@, k);
    let provider = if has_key(provider_entries(c.providers), p.provider@) {
        Seq::<(DiagnosticLevel, Seq<char>)>::empty()
    } else {
        seq![(DiagnosticLevel::Error, "profile '"@ + p.name@ + "' references unknown provider '"@ + p.provider@ + "'"@)]
    };
    let pre = missing_snippet_diags(snippet_entries(c.snippets.pre), p.name@, p.pre@, "pre"@);
    let j = choose|j: int| 0 <= j < pre.len() && pre[j] == d;
    assert(profile_diags(c, p)[provider.len() + j] == d);
    lemma_profiles_diags_has(c, profile_entries(c.profiles), i, d);
    let ds = defaults_diags(c);
    let ps = profiles_diags(c, profile_entries(c.profiles));
    let m = choose|m: int| 0 <= m < ps.len() && ps[m] == d;
    assert((ds + ps)[ds.len() + m] == d);
}

/// A profile naming a post snippet that `[snippets.post]` lacks gets a warning from
/// `Config::lint`: `profile '<name>' references unknown post snippet '<snippet>'`.
pub proof fn law_lint_reports_unknown_post_snippet(c: Config, i: int, k: int)
    requires
        0 <= i < profile_entries(c.profiles).len(),
        0 <= k < profile_entries(c.profiles)[i].1.post@.len(),
        !has_key(snippet_entries(c.snippets.post), profile_entries(c.profiles)[i].1.post@[k]@),
    ensures
        lint_spec(c).contains(
            (
                DiagnosticLevel::Warning,
                "profile '"@ + profile_entries(c.profiles)[i].1.name@ + "' references unknown "@ + "post"@
                    + " snippet '"@ + profile_entries(c.profiles)[i].1.post@[k]@ + "'"@,
            ),
        ),
{
    let p = profile_entries(c.profiles)[i].1;
    let d = (DiagnosticLevel::Warning, "profile '"@ + p.name@ + "' references unknown "@ + "post"@ + " snippet '"@ + p.post@[k]@ + "'"@);
    lemma_missing_has(snippet_entries(c.snippets.post), p.name@, p.post@, "post"@, k);
    let provider = if has_key(provider_entries(c.providers), p.provider@) {
        Seq::<(DiagnosticLevel, Seq<char>)>::empty()
    } else {
        seq![(DiagnosticLevel::Error, "profile '"@ + p.name@ + "' references unknown provider '"@ + p.provider@ + "'"@)]
    };
    let pre = missing_snippet_diags(snippet_entries(c.snippets.pre), p.name@, p.pre@, "pre"@);
    let post = missing_snippet_diags(snippet_entries(c.snippets.post), p.name@, p.post@, "post"@);
    let j = choose|j: int| 0 <= j < post.len() && post[j] == d;
    assert(profile_diags(c, p)[provider.len() + pre.len() + j] == d);
    lemma_profiles_diags_has(c, profile_entries(c.profiles), i, d);
    let ds = defaults_diags(c);
    let ps = profiles_diags(c, profile_entries(c.profiles));
    let m = choose|m: int| 0 <= m < ps.len() && ps[m] == d;
    assert((ds + ps)[ds.len() + m] == d);
}

proof fn lemma_missing_empty(table: Seq<(Seq<char>, Snippet)>, profile: Seq<char>, names: Seq<String>, kind: Seq<char>)
    requires
        missing_snippet_diags(table, profile, names, kind).len() == 0,
    ensures
        snippets_defined(table, names),
    decreases names.len(),
{
    if names.len() > 0 {
        let rest = missing_snippet_diags(table, profile, names.drop_last(), kind);
        assert(has_key(table, names.last()@));
        lemma_missing_empty(table, profile, names.drop_last(), kind);
        assert forall|i: int| 0 <= i < names.len() implies has_key(table, #[trigger] names[i]@) by {
            if i < names.len() - 1 {
                assert(names.drop_last()[i] == names[i]);
            }
        }
    }
}

proof fn lemma_profiles_empty(c: Config, ps: Seq<(Seq<char>, ProfileConfig)>)
    requires
        profiles_diags(c, ps).len() == 0,
    ensures
        forall|i: int| 0 <= i < ps.len() ==> profile_resolves(c, #[trigger] ps[i].1),
    decreases ps.len(),
{
    if ps.len() > 0 {
        let p = ps.last().1;
        lemma_profiles_empty(c, ps.drop_last());
        let pre = missing_snippet_diags(snippet_entries(c.snippets.pre), p.name@, p.pre@, "pre"@);
        let post = missing_snippet_diags(snippet_entries(c.snippets.post), p.name@, p.post@, "post"@);
        assert(profile_diags(c, p).len() == 0);
        assert(has_key(provider_entries(c.providers), p.provider@));
        assert(pre.len() == 0 && post.len() == 0);
        lemma_missing_empty(snippet_entries(c.snippets.pre), p.name@, p.pre@, "pre"@);
        lemma_missing_empty(snippet_entries(c.snippets.post), p.name@, p.post@, "post"@);
        assert(profile_resolves(c, p));
        assert forall|i: int| 0 <= i < ps.len() implies profile_resolves(c, #[trigger] ps[i].1) by {
            if i < ps.len() - 1 {
                assert(ps.drop_last()[i] == ps[i]);
            }
        }
    }
}

/// `Config::lint` reports nothing exactly when every reference resolves: the
/// default provider and profile, and each profile's provider, pre and post
/// snippets and wrapper.
pub proof fn law_lint_clean_iff_references_resolve(c: Config)
    ensures
        lint_spec(c).len() == 0 <==> references_resolve(c),
{
    if references_resolve(c) {
        law_lint_clean_when_references_resolve(c);
    }
    if lint_spec(c).len() == 0 {
        lemma_profiles_empty(c, profile_entries(c.profiles));
    }
}

/// A profile naming a wrapper that `[wrappers]` lacks gets a warning from
/// `Config::lint`: `profile '<name>' references unknown wrapper '<wrapper>'`.
pub proof fn law_lint_reports_unknown_wrapper(c: Config, i: int)
    requires
        0 <= i < profile_entries(c.profiles).len(),
        profile_entries(c.profiles)[i].1.wrap is Some,
        !has_key(wrapper_entries(c.wrappers), profile_entries(c.profiles)[i].1.wrap.unwrap()@),
    ensures
        lint_spec(c).contains(
            (
                DiagnosticLevel::Warning,
                "profile '"@ + profile_entries(c.profiles)[i].1.name@ + "' references unknown wrapper '"@
                    + profile_entries(c.profiles)[i].1.wrap.unwrap()@ + "'"@,
            ),
        ),
{
    let p = profile_entries(c.profiles)[i].1;
    let w = p.wrap.unwrap();
    let d = (DiagnosticLevel::Warning, "profile '"@ + p.name@ + "' references unknown wrapper '"@ + w@ + "'"@);
    let pd = profile_diags(c, p);
    assert(pd[pd.len() - 1] == d);
    lemma_profiles_diags_has(c, profile_entries(c.profiles), i, d);
    let ds = defaults_diags(c);
    let ps = profiles_diags(c, profile_entries(c.profiles));
    let m = choose|m: int| 0 <= m < ps.len() && ps[m] == d;
    assert((ds + ps)[ds.len() + m] == d);
}

/// A default provider or default profile that the configuration does not
/// define gets an error from `Config::lint`, first of all diagnostics.
pub proof fn law_lint_reports_unknown_defaults(c: Config)
    ensures
        c.defaults.provider is Some && !has_key(provider_entries(c.providers), c.defaults.provider.unwrap()@) ==> lint_spec(
            c,
        )[0] == (
            DiagnosticLevel::Error,
            "default provider '"@ + c.defaults.provider.unwrap()@ + "' is not defined in [providers]"@,
        ),
        c.defaults.profile is Some && !has_key(profile_entries(c.profiles), c.defaults.profile.unwrap()@) ==> lint_spec(
            c,
        ).contains(
            (DiagnosticLevel::Error, "default profile '"@ + c.defaults.profile.unwrap()@ + "' is not defined in [profiles]"@),
        ),
{
    let ds = defaults_diags(c);
    let ps = profiles_diags(c, profile_entries(c.profiles));
    if c.defaults.profile is Some && !has_key(profile_entries(c.profiles), c.defaults.profile.unwrap()@) {
        assert((ds + ps)[ds.len() - 1] == ds[ds.len() - 1]);
    }
}

// ---------------------------------------------------------------------------
// Session roots
// ---------------------------------------------------------------------------

/// No listed path is the same path as another listed before it.
pub open spec fn no_same_paths(l: Seq<Seq<char>>) -> bool {
    forall|i: int, j: int| 0 <= i < j < l.len() ==> !same_path(#[trigger] l[i], #[trigger] l[j])
}

proof fn lemma_push_unique_keeps(l: Seq<Seq<char>>, c: Seq<char>)
    requires
        no_same_paths(l),
    ensures
        no_same_paths(push_unique(l, c)),
{
    if !(exists|i: int| 0 <= i < l.len() && same_path(#[trigger] l[i], c)) {
        let r = l.push(c);
        assert forall|i: int, j: int| 0 <= i < j < r.len() implies !same_path(#[trigger] r[i], #[trigger] r[j]) by {
            if j == l.len() {
                assert(r[j] == c);
                assert(r[i] == l[i]);
            } else {
                assert(r[i] == l[i] && r[j] == l[j]);
            }
        }
    }
}

/// The session roots listed for Codex never hold the same path twice.
pub proof fn law_session_roots_distinct(homes: Seq<Seq<char>>)
    ensures
        no_same_paths(roots_of(homes)),
    decreases homes.len(),
{
    if homes.len() > 0 {
        law_session_roots_distinct(homes.drop_last());
        let h = homes.last();
        let a = push_unique(roots_of(homes.drop_last()), crate::config::env::joined_path(h, "session"@));
        lemma_push_unique_keeps(roots_of(homes.drop_last()), crate::config::env::joined_path(h, "session"@));
        lemma_push_unique_keeps(a, crate::config::env::joined_path(h, "sessions"@));
    }
}

// ---------------------------------------------------------------------------
// Reading session logs
// ---------------------------------------------------------------------------

/// No two stored messages share role (ignoring case), text and timestamp.
pub open spec fn keys_distinct(ms: Seq<MsgView>) -> bool {
    forall|i: int, j: int| 0 <= i < j < ms.len() ==> dedup_key(#[trigger] ms[i]) != dedup_key(#[trigger] ms[j])
}

proof fn lemma_find_key_none(ms: Seq<MsgView>, key: (Seq<char>, Seq<char>, Option<i64>), i: int)
    requires
        0 <= i,
        find_key(ms, key, i) is None,
    ensures
        forall|j: int| i <= j < ms.len() ==> dedup_key(#[trigger] ms[j]) != key,
    decreases ms.len() - i,
{
    if i < ms.len() {
        lemma_find_key_none(ms, key, i + 1);
    }
}

proof fn lemma_find_key_some(ms: Seq<MsgView>, key: (Seq<char>, Seq<char>, Option<i64>), i: int)
    requires
        0 <= i,
    ensures
        find_key(ms, key, i) matches Some(j) ==> i <= j < ms.len() && dedup_key(ms[j]) == key,
    decreases ms.len() - i,
{
    if i < ms.len() && dedup_key(ms[i]) != key {
        lemma_find_key_some(ms, key, i + 1);
    }
}

proof fn lemma_absorb_keeps(st: IngestView, role: Seq<char>, content: Seq<char>, source: Option<Seq<char>>, ts: Option<i64>)
    requires
        keys_distinct(st.messages),
    ensures
        keys_distinct(absorb_message(st, role, content, source, ts).messages),
{
    let r = absorb_message(st, role, content, source, ts);
    match crate::indexer::clean_of(content) {
        None => {},
        Some(clean) => {
            let key = (crate::text::lower_seq(role), clean, ts);
            lemma_find_key_some(st.messages, key, 0);
            match find_key(st.messages, key, 0) {
                Some(j) => {
                    let ms = st.messages;
                    let nm = ms.update(j, with_source(ms[j], source));
                    assert(dedup_key(with_source(ms[j], source)) == dedup_key(ms[j]));
                    assert forall|a: int, b: int| 0 <= a < b < nm.len() implies dedup_key(#[trigger] nm[a]) != dedup_key(#[trigger] nm[b]) by {
                        assert(dedup_key(nm[a]) == dedup_key(ms[a]));
                        assert(dedup_key(nm[b]) == dedup_key(ms[b]));
                    }
                },
                None => {
                    lemma_find_key_none(st.messages, key, 0);
                    let ms = st.messages;
                    let m = MsgView { role, content: clean, source, timestamp: ts };
                    let nm = ms.push(m);
                    assert(dedup_key(m) == key);
                    assert forall|a: int, b: int| 0 <= a < b < nm.len() implies dedup_key(#[trigger] nm[a]) != dedup_key(#[trigger] nm[b]) by {
                        if b == ms.len() {
                            assert(nm[a] == ms[a]);
                        } else {
                            assert(nm[a] == ms[a] && nm[b] == ms[b]);
                        }
                    }
                },
            }
        },
    }
}

proof fn lemma_absorb_all_keeps(st: IngestView, msgs: Seq<(Seq<char>, Seq<char>)>, n: int, source: Option<Seq<char>>, ts: Option<i64>)
    requires
        keys_distinct(st.messages),
    ensures
        keys_distinct(absorb_all(st, msgs, n, source, ts).messages),
    decreases n,
{
    if n > 0 && n <= msgs.len() {
        lemma_absorb_all_keeps(st, msgs, n - 1, source, ts);
        lemma_absorb_keeps(absorb_all(st, msgs, n - 1, source, ts), msgs[n - 1].0, msgs[n - 1].1, source, ts);
    }
}

/// Reading a log never stores the same message twice: no two stored messages
/// share role (ignoring case), text and timestamp.
pub proof fn law_ingest_messages_distinct(records: Seq<crate::json::JsonValue>, n: int)
    ensures
        keys_distinct(ingest_all(records, n).messages),
    decreases n,
{
    if n > 0 && n <= records.len() {
        law_ingest_messages_distinct(records, n - 1);
        let st = ingest_all(records, n - 1);
        let h = record_header(st, records[n - 1]);
        assert(h.messages == st.messages);
        let msgs = crate::indexer::messages_of(records[n - 1]);
        lemma_absorb_all_keeps(h, msgs, msgs.len() as int, crate::json::str_at(records[n - 1], "type"@), crate::indexer::timestamp_of(records[n - 1]));
    }
}

/// Text as reading a log stores it: the trimmed form of some input, not empty,
/// and not a user-instructions or environment-context block.
pub open spec fn stored_text(t: Seq<char>) -> bool {
    &&& t.len() > 0
    &&& exists|raw: Seq<char>| #[trigger] trim(raw) == t
    &&& !starts_with(t, TAG_USER_INSTRUCTIONS@)
    &&& !starts_with(t, TAG_USER_INSTRUCTIONS_END@)
    &&& !starts_with(t, TAG_ENVIRONMENT_CONTEXT@)
}

/// The text of the first message at or after `i` whose role is `user` in any
/// case.
pub open spec fn first_user_from(ms: Seq<MsgView>, i: int) -> Option<Seq<char>>
    decreases ms.len() - i,
{
    if i < 0 || i >= ms.len() {
        None
    } else if lower_seq(ms[i].role) == "user"@ {
        Some(ms[i].content)
    } else {
        first_user_from(ms, i + 1)
    }
}

/// What reading a log keeps true of its state: every stored text is clean and
/// the first prompt is the first user message's text.
pub open spec fn ingest_sound(st: IngestView) -> bool {
    &&& forall|i: int| 0 <= i < st.messages.len() ==> stored_text(#[trigger] st.messages[i].content)
    &&& st.first_prompt == first_user_from(st.messages, 0)
}

proof fn lemma_first_user_push(ms: Seq<MsgView>, m: MsgView, i: int)
    requires
        0 <= i <= ms.len(),
    ensures
        first_user_from(ms.push(m), i) == match first_user_from(ms, i) {
            Some(c) => Some(c),
            None => if lower_seq(m.role) == "user"@ {
                Some(m.content)
            } else {
                None
            },
        },
    decreases ms.len() - i,
{
    if i < ms.len() {
        assert(ms.push(m)[i] == ms[i]);
        lemma_first_user_push(ms, m, i + 1);
    } else {
        assert(ms.push(m)[i] == m);
        assert(first_user_from(ms.push(m), i + 1) is None);
    }
}

proof fn lemma_first_user_update(ms: Seq<MsgView>, j: int, m: MsgView, i: int)
    requires
        0 <= i,
        0 <= j < ms.len(),
        m.role == ms[j].role,
        m.content == ms[j].content,
    ensures
        first_user_from(ms.update(j, m), i) == first_user_from(ms, i),
    decreases ms.len() - i,
{
    if i < ms.len() {
        lemma_first_user_update(ms, j, m, i + 1);
    }
}

proof fn lemma_absorb_sound(st: IngestView, role: Seq<char>, content: Seq<char>, source: Option<Seq<char>>, ts: Option<i64>)
    requires
        ingest_sound(st),
    ensures
        ingest_sound(absorb_message(st, role, content, source, ts)),
{
    match clean_of(content) {
        None => {},
        Some(clean) => {
            let key = (lower_seq(role), clean, ts);
            assert(trim(content) == clean);
            match find_key(st.messages, key, 0) {
                Some(j) => {
                    lemma_find_key_some(st.messages, key, 0);
                    let ms = st.messages;
                    let x = with_source(ms[j], source);
                    lemma_first_user_update(ms, j, x, 0);
                    let nm = ms.update(j, x);
                    assert forall|i: int| 0 <= i < nm.len() implies stored_text(#[trigger] nm[i].content) by {
                        assert(nm[i].content == ms[i].content);
                    }
                },
                None => {
                    let ms = st.messages;
                    let m = MsgView { role, content: clean, source, timestamp: ts };
                    lemma_first_user_push(ms, m, 0);
                    let nm = ms.push(m);
                    assert(stored_text(clean));
                    assert forall|i: int| 0 <= i < nm.len() implies stored_text(#[trigger] nm[i].content) by {
                        if i < ms.len() {
                            assert(nm[i] == ms[i]);
                        }
                    }
                },
            }
        },
    }
}

proof fn lemma_absorb_all_sound(st: IngestView, msgs: Seq<(Seq<char>, Seq<char>)>, n: int, source: Option<Seq<char>>, ts: Option<i64>)
    requires
        ingest_sound(st),
    ensures
        ingest_sound(absorb_all(st, msgs, n, source, ts)),
    decreases n,
{
    if n > 0 && n <= msgs.len() {
        lemma_absorb_all_sound(st, msgs, n - 1, source, ts);
        lemma_absorb_sound(absorb_all(st, msgs, n - 1, source, ts), msgs[n - 1].0, msgs[n - 1].1, source, ts);
    }
}

/// Reading a log stores only clean text (trimmed, not empty, and not a
/// user-instructions or environment-context block), and the session's first
/// prompt is the text of the first stored message whose role is `user` in any
/// case (none if there is none).
pub proof fn law_ingest_clean_and_first_prompt(records: Seq<crate::json::JsonValue>, n: int)
    ensures
        ingest_sound(ingest_all(records, n)),
    decreases n,
{
    if n > 0 && n <= records.len() {
        law_ingest_clean_and_first_prompt(records, n - 1);
        let st = ingest_all(records, n - 1);
        let h = record_header(st, records[n - 1]);
        assert(h.messages == st.messages && h.first_prompt == st.first_prompt);
        let msgs = crate::indexer::messages_of(records[n - 1]);
        lemma_absorb_all_sound(h, msgs, msgs.len() as int, crate::json::str_at(records[n - 1], "type"@), crate::indexer::timestamp_of(records[n - 1]));
    }
}

// ---------------------------------------------------------------------------
// Pipelines
// ---------------------------------------------------------------------------

/// Without a wrapper, a planned pipeline runs as the shell command it shows:
/// the invocation is the pipeline itself, and so is the display.
pub proof fn law_plan_without_wrapper_runs_pipeline(req: PipelineRequest)
    requires
        plan_of(req) is Ok,
        plan_of(req)->Ok_0.wrapper is None,
    ensures
        plan_of(req)->Ok_0.invocation == InvView::Shell(plan_of(req)->Ok_0.pipeline),
        plan_of(req)->Ok_0.display == plan_of(req)->Ok_0.pipeline,
{
}

proof fn lemma_snippet_cmds(entries: Seq<(Seq<char>, Snippet)>, names: Seq<Seq<char>>, n: int, kind: Seq<char>)
    requires
        0 <= n <= names.len(),
    ensures
        snippet_cmds(entries, names, n, kind) is Ok <==> forall|i: int| 0 <= i < n ==> has_key(entries, #[trigger] names[i]),
        snippet_cmds(entries, names, n, kind) matches Err(e) ==> e matches ErrView::UnknownSnippet(k, _) && k == kind,
    decreases n,
{
    if n > 0 {
        lemma_snippet_cmds(entries, names, n - 1, kind);
        lemma_key_index(entries, names[n - 1]);
    }
}

/// The profile named by the request resolves, giving `p`.
pub open spec fn profile_resolved(req: PipelineRequest, p: Option<ProfileConfig>) -> bool {
    profile_sel(*req.config, sv(req.profile)) == Ok::<Option<ProfileConfig>, ErrView>(p)
}

/// The snippet names the plan uses: the profile's, then the request's own.
pub open spec fn pre_names(req: PipelineRequest, p: Option<ProfileConfig>) -> Seq<Seq<char>> {
    names_of(
        match p {
            Some(q) => Some(string_views(q.pre@)),
            None => None,
        },
        string_views(req.additional_pre@),
    )
}

pub open spec fn post_names(req: PipelineRequest, p: Option<ProfileConfig>) -> Seq<Seq<char>> {
    names_of(
        match p {
            Some(q) => Some(string_views(q.post@)),
            None => None,
        },
        string_views(req.additional_post@),
    )
}

/// Planning refuses names the configuration does not define, checking in this
/// order: the profile asked for, the provider (the profile's, else the hint,
/// else the default; none at all is refused too), the wrapper (the one asked
/// for, else the profile's), then each pre and each post snippet.
pub proof fn law_plan_refuses_unknown_names(req: PipelineRequest, p: Option<ProfileConfig>)
    ensures
        req.profile is Some && !has_key(profile_entries(req.config.profiles), req.profile.unwrap()@) ==> plan_of(req)
            == Err::<PlanView, ErrView>(ErrView::ProfileNotFound(req.profile.unwrap()@)),
        profile_resolved(req, p) && provider_name_sel(*req.config, p, sv(req.provider_hint)) is None ==> plan_of(req)
            == Err::<PlanView, ErrView>(ErrView::NoProvider),
        profile_resolved(req, p) && provider_name_sel(*req.config, p, sv(req.provider_hint)) is Some && !has_key(
            provider_entries(req.config.providers),
            provider_name_sel(*req.config, p, sv(req.provider_hint)).unwrap(),
        ) ==> plan_of(req) == Err::<PlanView, ErrView>(
            ErrView::ProviderNotDefined(provider_name_sel(*req.config, p, sv(req.provider_hint)).unwrap()),
        ),
        profile_resolved(req, p) && provider_sel(*req.config, p, sv(req.provider_hint)) is Ok && wrap_name_sel(
            sv(req.wrap),
            p,
        ) is Some && !has_key(wrapper_entries(req.config.wrappers), wrap_name_sel(sv(req.wrap), p).unwrap())
            ==> plan_of(req) == Err::<PlanView, ErrView>(ErrView::WrapperNotFound(wrap_name_sel(sv(req.wrap), p).unwrap())),
        profile_resolved(req, p) && provider_sel(*req.config, p, sv(req.provider_hint)) is Ok && wrapper_sel(
            *req.config,
            wrap_name_sel(sv(req.wrap), p),
        ) is Ok && (exists|i: int|
            0 <= i < pre_names(req, p).len() && !has_key(snippet_entries(req.config.snippets.pre), #[trigger] pre_names(req, p)[i]))
            ==> plan_of(req) is Err && plan_of(req)->Err_0 == ErrView::UnknownSnippet(
            "pre"@,
            plan_of(req)->Err_0->UnknownSnippet_1,
        ),
        profile_resolved(req, p) && provider_sel(*req.config, p, sv(req.provider_hint)) is Ok && wrapper_sel(
            *req.config,
            wrap_name_sel(sv(req.wrap), p),
        ) is Ok && (forall|i: int|
            0 <= i < pre_names(req, p).len() ==> has_key(snippet_entries(req.config.snippets.pre), #[trigger] pre_names(req, p)[i]))
            && (exists|i: int|
            0 <= i < post_names(req, p).len() && !has_key(snippet_entries(req.config.snippets.post), #[trigger] post_names(req, p)[i]))
            ==> plan_of(req) is Err && plan_of(req)->Err_0 == ErrView::UnknownSnippet(
            "post"@,
            plan_of(req)->Err_0->UnknownSnippet_1,
        ),
{
    let c = *req.config;
    if req.profile is Some {
        lemma_key_index(profile_entries(c.profiles), req.profile.unwrap()@);
    }
    let pre = pre_names(req, p);
    let post = post_names(req, p);
    lemma_snippet_cmds(snippet_entries(c.snippets.pre), pre, pre.len() as int, "pre"@);
    lemma_snippet_cmds(snippet_entries(c.snippets.post), post, post.len() as int, "post"@);
    match provider_name_sel(c, p, sv(req.provider_hint)) {
        Some(n) => lemma_key_index(provider_entries(c.providers), n),
        None => {},
    }
    match wrap_name_sel(sv(req.wrap), p) {
        Some(w) => lemma_key_index(wrapper_entries(c.wrappers), w),
        None => {},
    }
}

/// Each provider is stored under its own name.
pub open spec fn providers_named_by_key(c: Config) -> bool {
    forall|i: int|
        0 <= i < provider_entries(c.providers).len() ==> (#[trigger] provider_entries(c.providers)[i]).1.name@
            == provider_entries(c.providers)[i].0
}

/// What a plan records of the choices made.
pub open spec fn records_selection(req: PipelineRequest, plan: PlanView) -> bool {
    exists|p: Option<ProfileConfig>|
        #![trigger pre_names(req, p)]
        {
            &&& profile_resolved(req, p)
            &&& provider_name_sel(*req.config, p, sv(req.provider_hint)) == Some(plan.provider)
            &&& plan.pre_snippets == pre_names(req, p)
            &&& plan.post_snippets == post_names(req, p)
            &&& plan.wrapper == wrap_name_sel(sv(req.wrap), p)
            &&& plan.cwd == req.cwd@
        }
}

/// Where each provider is stored under its own name (as loading the
/// configuration does), a plan records what was chosen: the provider (the
/// profile's, else the hint, else the default), the profile's pre and post
/// snippets followed by the request's, the wrapper (the one asked for, else the
/// profile's) and the working directory.
pub proof fn law_plan_records_selection(req: PipelineRequest)
    requires
        providers_named_by_key(*req.config),
    ensures
        plan_of(req) is Ok ==> records_selection(req, plan_of(req)->Ok_0),
{
    let c = *req.config;
    if plan_of(req) is Ok {
        let p = profile_sel(c, sv(req.profile))->Ok_0;
        let n = provider_name_sel(c, p, sv(req.provider_hint)).unwrap();
        let es = provider_entries(c.providers);
        lemma_key_index(es, n);
        let k = crate::config::maps::key_index(es, n).unwrap();
        assert(es[k].1.name@ == es[k].0);
        assert(lookup(es, n) == Some(es[k].1));
        let plan = plan_of(req)->Ok_0;
        assert(profile_resolved(req, p));
        assert(plan.provider == es[k].1.name@);
        assert(provider_name_sel(c, p, sv(req.provider_hint)) == Some(plan.provider));
        assert(plan.pre_snippets == pre_names(req, p));
        assert(plan.post_snippets == post_names(req, p));
        assert(plan.wrapper == wrap_name_sel(sv(req.wrap), p));
        assert(plan.cwd == req.cwd@);
    }
}

/// A word of safe characters is passed to the shell as it is; anything else is
/// single-quoted.
pub proof fn law_shell_escape_quotes_unsafe(s: Seq<char>)
    ensures
        (s.len() > 0 && forall|i: int| 0 <= i < s.len() ==> shell_safe(#[trigger] s[i])) ==> shell_escaped(s) == s,
        !(s.len() > 0 && forall|i: int| 0 <= i < s.len() ==> shell_safe(#[trigger] s[i])) ==> {
            &&& shell_escaped(s).len() >= 2
            &&& shell_escaped(s)[0] == '\''
            &&& shell_escaped(s).last() == '\''
        },
{
}

/// When no provider argument holds `{prompt}`, the captured prompt is passed as
/// one more argument after the others, which are unchanged.
pub proof fn law_prompt_appended_without_placeholder(args: Seq<Seq<char>>, prompt: Seq<char>)
    requires
        !any_placeholder(args),
    ensures
        resolved_args(args, prompt) == args.push(prompt),
{
    reveal_strlit("{prompt}");
    assert forall|i: int| 0 <= i < args.len() implies replace_all(args[i], PROMPT_PLACEHOLDER@, prompt) == args[i] by {
        assert(!contains(args[i], PROMPT_PLACEHOLDER@));
        crate::internal::lemma_replace_absent(args[i], PROMPT_PLACEHOLDER@, prompt);
    }
    assert(resolved_args(args, prompt) =~= args.push(prompt));
}


// ---------------------------------------------------------------------------
// Normalized text
// ---------------------------------------------------------------------------

/// Text in normal form: its only whitespace is single spaces between words.
pub open spec fn normal_form(t: Seq<char>) -> bool {
    forall|i: int|
        0 <= i < t.len() && crate::text::is_ws(#[trigger] t[i]) ==> t[i] == ' ' && 0 < i < t.len() - 1
            && !crate::text::is_ws(t[i - 1]) && !crate::text::is_ws(t[i + 1])
}

proof fn lemma_squeeze_normal(s: Seq<char>)
    ensures
        normal_form(crate::text::squeeze_state(s).0),
        crate::text::squeeze_state(s).0.len() > 0 ==> !crate::text::is_ws(crate::text::squeeze_state(s).0.last()),
        crate::text::squeeze_state(s).1 ==> crate::text::squeeze_state(s).0.len() > 0,
    decreases s.len(),
{
    if s.len() > 0 {
        lemma_squeeze_normal(s.drop_last());
        let (out, pending) = crate::text::squeeze_state(s.drop_last());
        let c = s.last();
        if !crate::text::is_ws(c) {
            if pending {
                let r = out.push(' ').push(c);
                assert forall|i: int| 0 <= i < r.len() && crate::text::is_ws(#[trigger] r[i]) implies r[i] == ' ' && 0 < i < r.len() - 1
                    && !crate::text::is_ws(r[i - 1]) && !crate::text::is_ws(r[i + 1]) by {
                    if i < out.len() {
                        assert(r[i] == out[i]);
                        if i + 1 < out.len() {
                            assert(r[i + 1] == out[i + 1]);
                        }
                        assert(r[i - 1] == out[i - 1]);
                    } else if i == out.len() {
                        assert(r[i - 1] == out.last());
                    }
                }
            } else {
                let r = out.push(c);
                assert forall|i: int| 0 <= i < r.len() && crate::text::is_ws(#[trigger] r[i]) implies r[i] == ' ' && 0 < i < r.len() - 1
                    && !crate::text::is_ws(r[i - 1]) && !crate::text::is_ws(r[i + 1]) by {
                    assert(r[i] == out[i]);
                    assert(r[i - 1] == out[i - 1]);
                    if i + 1 < out.len() {
                        assert(r[i + 1] == out[i + 1]);
                    }
                }
            }
        }
    }
}

proof fn lemma_squeeze_fixed(t: Seq<char>, k: int)
    requires
        normal_form(t),
        0 <= k <= t.len(),
    ensures
        crate::text::squeeze_state(t.take(k)) == (if k > 0 && t[k - 1] == ' ' {
            (t.take(k - 1), true)
        } else {
            (t.take(k), false)
        }),
    decreases k,
{
    if k > 0 {
        lemma_squeeze_fixed(t, k - 1);
        assert(t.take(k).drop_last() =~= t.take(k - 1));
        let c = t[k - 1];
        assert(t.take(k).last() == c);
        if crate::text::is_ws(c) {
            assert(c == ' ' && k - 1 > 0 && !crate::text::is_ws(t[k - 2]));
            assert(t[k - 2] != ' ');
        } else {
            assert(c != ' ');
            if k >= 2 && t[k - 2] == ' ' {
                assert(t.take(k - 2).push(' ').push(c) =~= t.take(k));
            } else {
                assert(t.take(k - 1).push(c) =~= t.take(k));
            }
        }
    }
}

/// Normalizing text twice gives what normalizing once gives (`normalize_text`
/// is idempotent).
pub proof fn law_normalize_idempotent(s: Seq<char>)
    ensures
        crate::text::squeeze_ws(crate::text::squeeze_ws(s)) == crate::text::squeeze_ws(s),
{
    lemma_squeeze_normal(s);
    let t = crate::text::squeeze_ws(s);
    lemma_squeeze_fixed(t, t.len() as int);
    assert(t.take(t.len() as int) =~= t);
    if t.len() > 0 {
        assert(!crate::text::is_ws(t.last()));
        assert(t[t.len() - 1] != ' ');
    }
}

// ---------------------------------------------------------------------------
// Configuration layering
// ---------------------------------------------------------------------------

proof fn lemma_key_pos_scan(t: Seq<(Seq<char>, TomlView)>, k: Seq<char>, j: int, i: int)
    requires
        0 <= j <= i < t.len(),
        t[i].0 == k,
        forall|m: int| j <= m < i ==> t[m].0 != k,
    ensures
        key_pos_from(t, k, j) == Some(i),
    decreases i - j,
{
    if j < i {
        lemma_key_pos_scan(t, k, j + 1, i);
    }
}

proof fn lemma_key_pos_first(t: Seq<(Seq<char>, TomlView)>, k: Seq<char>, j: int)
    requires
        0 <= j,
    ensures
        match key_pos_from(t, k, j) {
            Some(i) => j <= i < t.len() && t[i].0 == k && forall|m: int| j <= m < i ==> t[m].0 != k,
            None => forall|m: int| j <= m < t.len() ==> t[m].0 != k,
        },
    decreases t.len() - j,
{
    if j < t.len() && t[j].0 != k {
        lemma_key_pos_first(t, k, j + 1);
    }
}

/// Where an entry for `k` was written, looking `k` up finds that entry.
proof fn lemma_written_found(t: Seq<(Seq<char>, TomlView)>, k: Seq<char>, x: TomlView)
    ensures
        ({
            let p = match key_pos(t, k) {
                Some(i) => i,
                None => t.len() as int,
            };
            let r = match key_pos(t, k) {
                Some(i) => t.update(i, (k, x)),
                None => t.push((k, x)),
            };
            key_pos(r, k) == Some(p) && r[p] == (k, x)
        }),
{
    lemma_key_pos_first(t, k, 0);
    match key_pos(t, k) {
        Some(i) => {
            let r = t.update(i, (k, x));
            lemma_key_pos_scan(r, k, 0, i);
        },
        None => {
            let r = t.push((k, x));
            lemma_key_pos_scan(r, k, 0, t.len() as int);
        },
    }
}

/// A later file that sets a key to a plain value (not a table, not null-like,
/// and not an append) replaces what the earlier files gave it: looking the key
/// up in the merged table finds the new value.
pub proof fn law_merge_sets_value(t: Seq<(Seq<char>, TomlView)>, k: Seq<char>, v: TomlView, src: Option<Seq<char>>)
    requires
        !ends_plus(k),
        !(v is Table),
        !nullish(v),
    ensures
        merged(t, seq![(k, v)], src) matches Ok(r) && key_pos(r, k) matches Some(i) && r[i] == (k, v),
{
    let add = seq![(k, v)];
    assert(merge_upto(t, add, 0, src) == Ok::<Seq<(Seq<char>, TomlView)>, crate::config::merge::MergeFault>(t));
    assert(merged(t, add, src) == merge_entry(t, k, v, src));
    lemma_written_found(t, k, v);
}

/// No key occurs twice in the table.
pub open spec fn keys_unique(t: Seq<(Seq<char>, TomlView)>) -> bool {
    forall|i: int, j: int| 0 <= i < j < t.len() ==> (#[trigger] t[i]).0 != (#[trigger] t[j]).0
}

/// A later file that sets a key to a null-like value (`"null"` in any case, or
/// an empty array) removes the key: looking it up in the merged table finds
/// nothing, and the other entries stay, in order.
pub proof fn law_merge_null_removes(t: Seq<(Seq<char>, TomlView)>, k: Seq<char>, v: TomlView, src: Option<Seq<char>>)
    requires
        keys_unique(t),
        !ends_plus(k),
        !(v is Table),
        nullish(v),
    ensures
        merged(t, seq![(k, v)], src) matches Ok(r) && key_pos(r, k) is None && r == t.filter(
            |e: (Seq<char>, TomlView)| e.0 != k,
        ),
{
    let add = seq![(k, v)];
    assert(merge_upto(t, add, 0, src) == Ok::<Seq<(Seq<char>, TomlView)>, crate::config::merge::MergeFault>(t));
    assert(merged(t, add, src) == merge_entry(t, k, v, src));
    lemma_key_pos_first(t, k, 0);
    let f = |e: (Seq<char>, TomlView)| e.0 != k;
    match key_pos(t, k) {
        Some(i) => {
            let r = t.remove(i);
            assert forall|m: int| 0 <= m < r.len() implies r[m].0 != k by {
                if m < i {
                    assert(r[m] == t[m]);
                } else {
                    assert(r[m] == t[m + 1]);
                }
            }
            lemma_key_pos_first(r, k, 0);
            lemma_filter_drops_one(t, k, i);
        },
        None => {
            lemma_filter_keeps_all(t, k);
        },
    }
}

proof fn lemma_filter_keeps_all(t: Seq<(Seq<char>, TomlView)>, k: Seq<char>)
    requires
        forall|m: int| 0 <= m < t.len() ==> t[m].0 != k,
    ensures
        t.filter(|e: (Seq<char>, TomlView)| e.0 != k) == t,
    decreases t.len(),
{
    let f = |e: (Seq<char>, TomlView)| e.0 != k;
    reveal_with_fuel(Seq::filter, 1);
    if t.len() > 0 {
        lemma_filter_keeps_all(t.drop_last(), k);
        assert(t.drop_last().push(t.last()) =~= t);
    } else {
        assert(t.filter(f) =~= t);
    }
}

proof fn lemma_filter_drops_one(t: Seq<(Seq<char>, TomlView)>, k: Seq<char>, i: int)
    requires
        0 <= i < t.len(),
        t[i].0 == k,
        forall|m: int| 0 <= m < t.len() && m != i ==> t[m].0 != k,
    ensures
        t.filter(|e: (Seq<char>, TomlView)| e.0 != k) == t.remove(i),
    decreases t.len(),
{
    let f = |e: (Seq<char>, TomlView)| e.0 != k;
    reveal_with_fuel(Seq::filter, 1);
    if i == t.len() - 1 {
        lemma_filter_keeps_all(t.drop_last(), k);
        assert(t.remove(i) =~= t.drop_last());
    } else {
        lemma_filter_drops_one(t.drop_last(), k, i);
        assert(t.drop_last().remove(i).push(t.last()) =~= t.remove(i));
    }
}

/// A later file that gives a plain key a table merges it into an earlier table
/// under that key, entry by entry and recursively; over any other earlier value
/// the table replaces it as it is; a new key is added at the end. An empty
/// table is merged like any other and removes nothing.
pub proof fn law_merge_tables_nest(
    t: Seq<(Seq<char>, TomlView)>,
    k: Seq<char>,
    tbl: Seq<(Seq<char>, TomlView)>,
    src: Option<Seq<char>>,
)
    requires
        !ends_plus(k),
    ensures
        merged(t, seq![(k, TomlView::Table(tbl))], src) == match key_pos(t, k) {
            Some(i) => match t[i].1 {
                TomlView::Table(ex) => match merged(ex, tbl, src) {
                    Ok(m) => Ok(t.update(i, (k, TomlView::Table(m)))),
                    Err(e) => Err(e),
                },
                _ => Ok(t.update(i, (k, TomlView::Table(tbl)))),
            },
            None => Ok(t.push((k, TomlView::Table(tbl)))),
        },
{
    let add = seq![(k, TomlView::Table(tbl))];
    assert(merge_upto(t, add, 0, src) == Ok::<Seq<(Seq<char>, TomlView)>, MergeFault>(t));
    assert(merged(t, add, src) == merge_entry(t, k, TomlView::Table(tbl), src));
    lemma_key_pos_first(t, k, 0);
}

/// A later file that appends (`key+`) something other than an array is refused
/// with `value for 'key+' must be an array (while merging <file>)`, naming the
/// file (or `configuration` when there is none).
pub proof fn law_merge_append_needs_array(t: Seq<(Seq<char>, TomlView)>, k: Seq<char>, v: TomlView, src: Option<Seq<char>>)
    requires
        ends_plus(k),
        !(v is Array),
    ensures
        merged(t, seq![(k, v)], src) == Err::<Seq<(Seq<char>, TomlView)>, MergeFault>(MergeFault::NotAnArray(trim_plus(k), src)),
        merge_error_text(MergeFault::NotAnArray(trim_plus(k), src)) == "value for '"@ + trim_plus(k)
            + "+' must be an array (while merging "@ + match src {
            Some(p) => p,
            None => "configuration"@,
        } + ")"@,
{
    let add = seq![(k, v)];
    assert(merge_upto(t, add, 0, src) == Ok::<Seq<(Seq<char>, TomlView)>, MergeFault>(t));
    assert(merged(t, add, src) == merge_entry(t, k, v, src));
}

/// The value looking up `x` in the table finds, if any.
pub open spec fn value_at(t: Seq<(Seq<char>, TomlView)>, x: Seq<char>) -> Option<TomlView> {
    match key_pos(t, x) {
        Some(i) => Some(t[i].1),
        None => None,
    }
}

/// `x` is first found at `i` in `t`.
spec fn first_at(t: Seq<(Seq<char>, TomlView)>, x: Seq<char>, i: int) -> bool {
    0 <= i < t.len() && t[i].0 == x && forall|m: int| 0 <= m < i ==> t[m].0 != x
}

proof fn lemma_value_at(t: Seq<(Seq<char>, TomlView)>, x: Seq<char>)
    ensures
        match key_pos(t, x) {
            Some(i) => first_at(t, x, i),
            None => forall|m: int| 0 <= m < t.len() ==> t[m].0 != x,
        },
{
    lemma_key_pos_first(t, x, 0);
}

proof fn lemma_first_at_unique(t: Seq<(Seq<char>, TomlView)>, x: Seq<char>, i: int, j: int)
    requires
        first_at(t, x, i),
        first_at(t, x, j),
    ensures
        i == j,
{
}

proof fn lemma_value_update(t: Seq<(Seq<char>, TomlView)>, i: int, e: (Seq<char>, TomlView), x: Seq<char>)
    requires
        0 <= i < t.len(),
        t[i].0 != x,
        e.0 != x,
    ensures
        value_at(t.update(i, e), x) == value_at(t, x),
{
    let r = t.update(i, e);
    lemma_value_at(t, x);
    lemma_value_at(r, x);
    match key_pos(t, x) {
        Some(a) => {
            assert(first_at(r, x, a));
            lemma_first_at_unique(r, x, a, key_pos(r, x).unwrap());
        },
        None => {
            if key_pos(r, x) is Some {
                let b = key_pos(r, x).unwrap();
                assert(t[b].0 == x);
            }
        },
    }
}

proof fn lemma_value_push(t: Seq<(Seq<char>, TomlView)>, e: (Seq<char>, TomlView), x: Seq<char>)
    requires
        e.0 != x,
    ensures
        value_at(t.push(e), x) == value_at(t, x),
{
    let r = t.push(e);
    lemma_value_at(t, x);
    lemma_value_at(r, x);
    match key_pos(t, x) {
        Some(a) => {
            assert(first_at(r, x, a));
            lemma_first_at_unique(r, x, a, key_pos(r, x).unwrap());
        },
        None => {
            if key_pos(r, x) is Some {
                let b = key_pos(r, x).unwrap();
                assert(r[b].0 == x);
                if b < t.len() {
                    assert(t[b].0 == x);
                }
            }
        },
    }
}

proof fn lemma_value_remove(t: Seq<(Seq<char>, TomlView)>, i: int, x: Seq<char>)
    requires
        0 <= i < t.len(),
        t[i].0 != x,
    ensures
        value_at(t.remove(i), x) == value_at(t, x),
{
    let r = t.remove(i);
    lemma_value_at(t, x);
    lemma_value_at(r, x);
    match key_pos(t, x) {
        Some(a) => {
            let b = if a < i { a } else { a - 1 };
            assert(r[b] == t[a]);
            assert forall|m: int| 0 <= m < b implies r[m].0 != x by {
                if m < i {
                    assert(r[m] == t[m]);
                } else {
                    assert(r[m] == t[m + 1]);
                }
            }
            assert(first_at(r, x, b));
            lemma_first_at_unique(r, x, b, key_pos(r, x).unwrap());
        },
        None => {
            if key_pos(r, x) is Some {
                let b = key_pos(r, x).unwrap();
                if b < i {
                    assert(r[b] == t[b]);
                } else {
                    assert(r[b] == t[b + 1]);
                }
            }
        },
    }
}

/// Merging one entry leaves every other key's value as it was: keys other
/// than the entry's key (and, for `key+`, than `key`).
proof fn lemma_merge_entry_frame(
    t: Seq<(Seq<char>, TomlView)>,
    k: Seq<char>,
    v: TomlView,
    src: Option<Seq<char>>,
    x: Seq<char>,
)
    requires
        x != k,
        x != trim_plus(k),
        merge_entry(t, k, v, src) is Ok,
    ensures
        value_at(merge_entry(t, k, v, src)->Ok_0, x) == value_at(t, x),
{
    let key = if ends_plus(k) { trim_plus(k) } else { k };
    lemma_value_at(t, key);
    match key_pos(t, key) {
        Some(i) => {
            assert(t[i].0 == key);
            let r = merge_entry(t, k, v, src)->Ok_0;
            if ends_plus(k) {
                lemma_value_update(t, i, r[i], x);
                assert(r == t.update(i, r[i]));
            } else {
                match v {
                    TomlView::Table(_) => {
                        lemma_value_update(t, i, r[i], x);
                        assert(r == t.update(i, r[i]));
                    },
                    _ => if nullish(v) {
                        lemma_value_remove(t, i, x);
                    } else {
                        lemma_value_update(t, i, (k, v), x);
                    },
                }
            }
        },
        None => {
            let r = merge_entry(t, k, v, src)->Ok_0;
            if ends_plus(k) {
                lemma_value_push(t, r.last(), x);
                assert(r == t.push(r.last()));
            } else {
                match v {
                    TomlView::Table(_) => {
                        lemma_value_push(t, r.last(), x);
                        assert(r == t.push(r.last()));
                    },
                    _ => if !nullish(v) {
                        lemma_value_push(t, (k, v), x);
                    },
                }
            }
        },
    }
}

/// `x` is neither a key of `add` nor the array that a `key+` entry of it names.
pub open spec fn untouched(add: Seq<(Seq<char>, TomlView)>, x: Seq<char>) -> bool {
    forall|j: int| 0 <= j < add.len() ==> (#[trigger] add[j]).0 != x && trim_plus(add[j].0) != x
}

/// A key that the later file does not mention keeps the value the earlier
/// files gave it (or stays absent) when the merge succeeds.
pub proof fn law_merge_keeps_other_keys(
    t: Seq<(Seq<char>, TomlView)>,
    add: Seq<(Seq<char>, TomlView)>,
    n: int,
    src: Option<Seq<char>>,
    x: Seq<char>,
)
    requires
        0 <= n <= add.len(),
        untouched(add, x),
        merge_upto(t, add, n, src) is Ok,
    ensures
        value_at(merge_upto(t, add, n, src)->Ok_0, x) == value_at(t, x),
    decreases n,
{
    if n > 0 {
        law_merge_keeps_other_keys(t, add, n - 1, src, x);
        let prev = merge_upto(t, add, n - 1, src)->Ok_0;
        assert(add[n - 1].0 != x && trim_plus(add[n - 1].0) != x);
        lemma_merge_entry_frame(prev, add[n - 1].0, add[n - 1].1, src, x);
    }
}

/// A later file that appends to an array (`key+ = [...]`) gives the key the
/// earlier items followed by the new ones.
pub proof fn law_merge_appends(
    t: Seq<(Seq<char>, TomlView)>,
    k: Seq<char>,
    items: Seq<TomlView>,
    src: Option<Seq<char>>,
)
    requires
        ends_plus(k),
    ensures
        match key_pos(t, trim_plus(k)) {
            Some(i) => match t[i].1 {
                TomlView::Array(ex) => merged(t, seq![(k, TomlView::Array(items))], src) matches Ok(r)
                    && key_pos(r, trim_plus(k)) == Some(i) && r[i] == (trim_plus(k), TomlView::Array(ex + items)),
                _ => merged(t, seq![(k, TomlView::Array(items))], src) is Err,
            },
            None => merged(t, seq![(k, TomlView::Array(items))], src) matches Ok(r) && key_pos(r, trim_plus(k))
                == Some(t.len() as int) && r[t.len() as int] == (trim_plus(k), TomlView::Array(items)),
        },
{
    let key = trim_plus(k);
    let add = seq![(k, TomlView::Array(items))];
    assert(merge_upto(t, add, 0, src) == Ok::<Seq<(Seq<char>, TomlView)>, crate::config::merge::MergeFault>(t));
    assert(merged(t, add, src) == merge_entry(t, k, TomlView::Array(items), src));
    lemma_key_pos_first(t, key, 0);
    match key_pos(t, key) {
        Some(i) => {
            if let TomlView::Array(ex) = t[i].1 {
                lemma_written_found(t, key, TomlView::Array(ex + items));
            }
        },
        None => {
            lemma_written_found(t, key, TomlView::Array(items));
        },
    }
}

// ---------------------------------------------------------------------------
// Session rankings
// ---------------------------------------------------------------------------

proof fn lemma_positive_items(rows: Seq<(String, SessionActivityCounts)>, turns: bool)
    ensures
        forall|i: int| 0 <= i < positive_items(rows, turns).len() ==> (#[trigger] positive_items(rows, turns)[i]).1 > 0,
    decreases rows.len(),
{
    if rows.len() > 0 {
        lemma_positive_items(rows.drop_last(), turns);
        let prev = positive_items(rows.drop_last(), turns);
        assert forall|i: int| 0 <= i < positive_items(rows, turns).len() implies (#[trigger] positive_items(
            rows,
            turns,
        )[i]).1 > 0 by {
            if i < prev.len() {
                assert(positive_items(rows, turns)[i] == prev[i]);
            }
        }
    }
}

/// The sessions ranked by turns (`top_sessions_by_turns`) come most turns first,
/// ties by session id, and each had at least one turn.
pub proof fn law_top_sessions_sorted(rows: Seq<(String, SessionActivityCounts)>, n: int)
    requires
        0 <= n,
    ensures
        ({
            let out = ranked(positive_items(rows, true)).take(
                if n < positive_items(rows, true).len() { n } else { positive_items(rows, true).len() as int },
            );
            &&& forall|i: int, j: int| 0 <= i < j < out.len() ==> rank_le(out[i], out[j])
            &&& forall|i: int| 0 <= i < out.len() ==> out[i].1 > 0
        }),
{
    broadcast use vstd::seq_lib::group_to_multiset_ensures;

    let items = positive_items(rows, true);
    let le = |x: (Seq<char>, i64), y: (Seq<char>, i64)| rank_le(x, y);
    lemma_rank_total_ordering();
    items.lemma_sort_by_ensures(le);
    let witness = items.sort_by(le);
    assert(vstd::relations::sorted_by(witness, le) && witness.to_multiset() == items.to_multiset());
    let s = ranked(items);
    assert(vstd::relations::sorted_by(s, le) && s.to_multiset() == items.to_multiset());
    vstd::seq_lib::to_multiset_len(s);
    vstd::seq_lib::to_multiset_len(items);
    lemma_positive_items(rows, true);
    let m = if n < items.len() { n } else { items.len() as int };
    let out = s.take(m);
    assert forall|i: int, j: int| 0 <= i < j < out.len() implies rank_le(out[i], out[j]) by {
        assert(le(s[i], s[j]));
    }
    assert forall|i: int| 0 <= i < out.len() implies out[i].1 > 0 by {
        assert(s.contains(s[i]));
        assert(s.to_multiset().count(s[i]) > 0);
        assert(items.contains(s[i]));
        let j = choose|j: int| 0 <= j < items.len() && items[j] == s[i];
        assert(items[j].1 > 0);
    }
}

// ---------------------------------------------------------------------------
// Token statistics
// ---------------------------------------------------------------------------

/// Count `f` of a totals record: input, cached input, output, reasoning output
/// and total for `f` from 0 to 4.
pub open spec fn totals_count(t: UsageTotals, f: int) -> int {
    if f == 0 {
        t.input as int
    } else if f == 1 {
        t.cached_input as int
    } else if f == 2 {
        t.output as int
    } else if f == 3 {
        t.reasoning_output as int
    } else {
        t.total as int
    }
}

/// Count `f` of a usage event, in the order of `totals_count`.
pub open spec fn event_count(u: TokenUsageRecord, f: int) -> int {
    if f == 0 {
        u.input_tokens as int
    } else if f == 1 {
        u.cached_input_tokens as int
    } else if f == 2 {
        u.output_tokens as int
    } else if f == 3 {
        u.reasoning_output_tokens as int
    } else {
        u.total_tokens as int
    }
}

/// No event has a negative count.
pub open spec fn counts_nonneg(us: Seq<TokenUsageRecord>) -> bool {
    forall|k: int, f: int| 0 <= k < us.len() && 0 <= f < 5 ==> #[trigger] event_count(us[k], f) >= 0
}

/// Count `f` summed over the first `n` events.
pub open spec fn count_sum(us: Seq<TokenUsageRecord>, n: int, f: int) -> int
    decreases n,
{
    if n <= 0 {
        0
    } else {
        count_sum(us, n - 1, f) + event_count(us[n - 1], f)
    }
}

/// Each count summed over the first `n` events stays within `i64`.
pub open spec fn sums_fit(us: Seq<TokenUsageRecord>, n: int) -> bool {
    forall|f: int| 0 <= f < 5 ==> #[trigger] count_sum(us, n, f) <= i64::MAX
}

/// Each count of `a` is at most that of `b`.
pub open spec fn totals_le(a: UsageTotals, b: UsageTotals) -> bool {
    forall|f: int| 0 <= f < 5 ==> #[trigger] totals_count(a, f) <= totals_count(b, f)
}

/// Whether window `c` (events at or after its cutoff; all of them for `None`)
/// counts `u`.
pub open spec fn in_window(u: TokenUsageRecord, c: Option<i64>) -> bool {
    match c {
        Some(x) => u.timestamp >= x,
        None => true,
    }
}

proof fn lemma_sum_step(us: Seq<TokenUsageRecord>, n: int)
    requires
        0 < n <= us.len(),
        counts_nonneg(us),
        sums_fit(us, n),
    ensures
        sums_fit(us, n - 1),
        forall|f: int| 0 <= f < 5 ==> #[trigger] count_sum(us, n - 1, f) <= count_sum(us, n, f),
{
    assert forall|f: int| 0 <= f < 5 implies #[trigger] count_sum(us, n - 1, f) <= count_sum(us, n, f) by {
        assert(event_count(us[n - 1], f) >= 0);
    }
    assert forall|f: int| 0 <= f < 5 implies #[trigger] count_sum(us, n - 1, f) <= i64::MAX by {
        assert(count_sum(us, n - 1, f) <= count_sum(us, n, f));
    }
}

/// Within the sums' bounds every event of a window is added: each count of a
/// window's total lies between 0 and the plain sum, and grows by the event's
/// count exactly when the window counts it.
proof fn lemma_window_counts(us: Seq<TokenUsageRecord>, n: int, c: Option<i64>)
    requires
        0 <= n <= us.len(),
        counts_nonneg(us),
        sums_fit(us, n),
    ensures
        forall|f: int|
            0 <= f < 5 ==> 0 <= #[trigger] totals_count(window_total(us, n, c), f) <= count_sum(us, n, f),
        n > 0 ==> forall|f: int|
            0 <= f < 5 ==> #[trigger] totals_count(window_total(us, n, c), f) == totals_count(
                window_total(us, n - 1, c),
                f,
            ) + if in_window(us[n - 1], c) {
                event_count(us[n - 1], f)
            } else {
                0
            },
    decreases n,
{
    if n > 0 {
        lemma_sum_step(us, n);
        lemma_window_counts(us, n - 1, c);
        let prev = window_total(us, n - 1, c);
        let u = us[n - 1];
        assert forall|f: int| 0 <= f < 5 implies 0 <= #[trigger] totals_count(prev, f) + event_count(u, f)
            <= count_sum(us, n, f) by {
            assert(event_count(us[n - 1], f) >= 0);
        }
        if in_window(u, c) {
            assert(totals_count(prev, 0) + event_count(u, 0) <= count_sum(us, n, 0));
            assert(totals_count(prev, 1) + event_count(u, 1) <= count_sum(us, n, 1));
            assert(totals_count(prev, 2) + event_count(u, 2) <= count_sum(us, n, 2));
            assert(totals_count(prev, 3) + event_count(u, 3) <= count_sum(us, n, 3));
            assert(totals_count(prev, 4) + event_count(u, 4) <= count_sum(us, n, 4));
            assert(count_sum(us, n, 0) <= i64::MAX && count_sum(us, n, 1) <= i64::MAX && count_sum(us, n, 2)
                <= i64::MAX && count_sum(us, n, 3) <= i64::MAX && count_sum(us, n, 4) <= i64::MAX);
            assert(prev.can_add(u));
            assert(window_total(us, n, c) == prev.plus(u));
        } else {
            assert(window_total(us, n, c) == prev);
        }
        assert forall|f: int| 0 <= f < 5 implies 0 <= #[trigger] totals_count(window_total(us, n, c), f)
            <= count_sum(us, n, f) by {
            assert(event_count(us[n - 1], f) >= 0);
            assert(count_sum(us, n - 1, f) <= count_sum(us, n, f));
        }
    }
}

proof fn lemma_windows_ordered(us: Seq<TokenUsageRecord>, n: int, narrow: Option<i64>, wide: Option<i64>)
    requires
        0 <= n <= us.len(),
        counts_nonneg(us),
        sums_fit(us, n),
        forall|k: int| 0 <= k < us.len() && in_window(#[trigger] us[k], narrow) ==> in_window(us[k], wide),
    ensures
        totals_le(window_total(us, n, narrow), window_total(us, n, wide)),
    decreases n,
{
    if n > 0 {
        lemma_sum_step(us, n);
        lemma_windows_ordered(us, n - 1, narrow, wide);
        lemma_window_counts(us, n, narrow);
        lemma_window_counts(us, n, wide);
        let u = us[n - 1];
        assert(in_window(u, narrow) ==> in_window(u, wide));
        assert forall|f: int| 0 <= f < 5 implies #[trigger] totals_count(window_total(us, n, narrow), f)
            <= totals_count(window_total(us, n, wide), f) by {
            assert(event_count(us[n - 1], f) >= 0);
            assert(totals_count(window_total(us, n - 1, narrow), f) <= totals_count(window_total(us, n - 1, wide), f));
        }
    }
}

proof fn lemma_window_all(us: Seq<TokenUsageRecord>, n: int)
    requires
        0 <= n <= us.len(),
        counts_nonneg(us),
        sums_fit(us, n),
    ensures
        forall|f: int| 0 <= f < 5 ==> #[trigger] totals_count(window_total(us, n, None), f) == count_sum(us, n, f),
    decreases n,
{
    if n > 0 {
        lemma_sum_step(us, n);
        lemma_window_all(us, n - 1);
        lemma_window_counts(us, n, None);
        assert forall|f: int| 0 <= f < 5 implies #[trigger] totals_count(window_total(us, n, None), f) == count_sum(
            us,
            n,
            f,
        ) by {
            assert(totals_count(window_total(us, n - 1, None), f) == count_sum(us, n - 1, f));
        }
    }
}

/// Every running sum of every count, over the first `k` events for each
/// `k <= n`, stays within `i64`.
pub open spec fn running_sums_fit(us: Seq<TokenUsageRecord>, n: int) -> bool {
    forall|k: int, f: int| 0 <= k <= n && 0 <= f < 5 ==> i64::MIN <= #[trigger] count_sum(us, k, f) <= i64::MAX
}

/// Whenever no running sum leaves `i64` (counts may be negative), the
/// all-time totals of `token_counts` are the sums of every event's counts.
pub proof fn law_usage_all_time_is_sum(us: Seq<TokenUsageRecord>, n: int)
    requires
        0 <= n <= us.len(),
        running_sums_fit(us, n),
    ensures
        forall|f: int| 0 <= f < 5 ==> #[trigger] totals_count(window_total(us, n, None), f) == count_sum(us, n, f),
    decreases n,
{
    if n > 0 {
        law_usage_all_time_is_sum(us, n - 1);
        let prev = window_total(us, n - 1, None);
        let u = us[n - 1];
        assert(totals_count(prev, 0) == count_sum(us, n - 1, 0) && count_sum(us, n, 0) <= i64::MAX && count_sum(us, n, 0) >= i64::MIN);
        assert(totals_count(prev, 1) == count_sum(us, n - 1, 1) && count_sum(us, n, 1) <= i64::MAX && count_sum(us, n, 1) >= i64::MIN);
        assert(totals_count(prev, 2) == count_sum(us, n - 1, 2) && count_sum(us, n, 2) <= i64::MAX && count_sum(us, n, 2) >= i64::MIN);
        assert(totals_count(prev, 3) == count_sum(us, n - 1, 3) && count_sum(us, n, 3) <= i64::MAX && count_sum(us, n, 3) >= i64::MIN);
        assert(totals_count(prev, 4) == count_sum(us, n - 1, 4) && count_sum(us, n, 4) <= i64::MAX && count_sum(us, n, 4) >= i64::MIN);
        assert(prev.can_add(u));
        assert(window_total(us, n, None) == prev.plus(u));
    }
}

/// With no negative count and each sum within `i64`, the windows that
/// `token_counts` totals nest: the last day's counts are at most the last
/// week's, those at most the last month's, and those at most all time's,
/// count by count (for cutoffs `day >= week >= month`); all time's counts are
/// the sums over every event.
pub proof fn law_usage_windows_nested(us: Seq<TokenUsageRecord>, day: i64, week: i64, month: i64)
    requires
        counts_nonneg(us),
        sums_fit(us, us.len() as int),
        week <= day,
        month <= week,
    ensures
        totals_le(window_total(us, us.len() as int, Some(day)), window_total(us, us.len() as int, Some(week))),
        totals_le(window_total(us, us.len() as int, Some(week)), window_total(us, us.len() as int, Some(month))),
        totals_le(window_total(us, us.len() as int, Some(month)), window_total(us, us.len() as int, None)),
        forall|f: int|
            0 <= f < 5 ==> #[trigger] totals_count(window_total(us, us.len() as int, None), f) == count_sum(
                us,
                us.len() as int,
                f,
            ),
{
    let n = us.len() as int;
    lemma_windows_ordered(us, n, Some(day), Some(week));
    lemma_windows_ordered(us, n, Some(week), Some(month));
    lemma_windows_ordered(us, n, Some(month), None);
    lemma_window_all(us, n);
}

proof fn lemma_sum_nonneg(us: Seq<TokenUsageRecord>, n: int, f: int)
    requires
        0 <= n <= us.len(),
        0 <= f < 5,
        counts_nonneg(us),
    ensures
        count_sum(us, n, f) >= 0,
    decreases n,
{
    if n > 0 {
        lemma_sum_nonneg(us, n - 1, f);
        assert(event_count(us[n - 1], f) >= 0);
    }
}

/// Count `f` summed over the first `m` groups.
pub open spec fn group_count_sum(g: Seq<(Seq<char>, UsageTotals)>, m: int, f: int) -> int
    decreases m,
{
    if m <= 0 {
        0
    } else {
        group_count_sum(g, m - 1, f) + totals_count(g[m - 1].1, f)
    }
}

proof fn lemma_gsum_update(g: Seq<(Seq<char>, UsageTotals)>, j: int, x: (Seq<char>, UsageTotals), m: int, f: int)
    requires
        0 <= j < g.len(),
        0 <= m <= g.len(),
    ensures
        group_count_sum(g.update(j, x), m, f) == group_count_sum(g, m, f) + if j < m {
            totals_count(x.1, f) - totals_count(g[j].1, f)
        } else {
            0
        },
    decreases m,
{
    if m > 0 {
        lemma_gsum_update(g, j, x, m - 1, f);
    }
}

proof fn lemma_gsum_push(g: Seq<(Seq<char>, UsageTotals)>, x: (Seq<char>, UsageTotals), m: int, f: int)
    requires
        0 <= m <= g.len(),
    ensures
        group_count_sum(g.push(x), m, f) == group_count_sum(g, m, f),
    decreases m,
{
    if m > 0 {
        lemma_gsum_push(g, x, m - 1, f);
    }
}

proof fn lemma_gsum_elem(g: Seq<(Seq<char>, UsageTotals)>, j: int, m: int, f: int)
    requires
        0 <= j < m <= g.len(),
        forall|i: int| 0 <= i < g.len() ==> #[trigger] totals_count(g[i].1, f) >= 0,
    ensures
        0 <= totals_count(g[j].1, f) <= group_count_sum(g, m, f),
    decreases m,
{
    if m - 1 > j {
        lemma_gsum_elem(g, j, m - 1, f);
    } else {
        lemma_gsum_nonneg(g, m - 1, f);
    }
}

proof fn lemma_gsum_nonneg(g: Seq<(Seq<char>, UsageTotals)>, m: int, f: int)
    requires
        0 <= m <= g.len(),
        forall|i: int| 0 <= i < g.len() ==> #[trigger] totals_count(g[i].1, f) >= 0,
    ensures
        group_count_sum(g, m, f) >= 0,
    decreases m,
{
    if m > 0 {
        lemma_gsum_nonneg(g, m - 1, f);
    }
}

proof fn lemma_grouped_sums(us: Seq<TokenUsageRecord>, keys: Seq<Seq<char>>, n: int)
    requires
        0 <= n <= us.len(),
        n <= keys.len(),
        counts_nonneg(us),
        sums_fit(us, n),
    ensures
        forall|f: int|
            0 <= f < 5 ==> #[trigger] group_count_sum(grouped(us, keys, n), grouped(us, keys, n).len() as int, f)
                == count_sum(us, n, f),
        forall|i: int, f: int|
            0 <= i < grouped(us, keys, n).len() && 0 <= f < 5 ==> #[trigger] totals_count(
                grouped(us, keys, n)[i].1,
                f,
            ) >= 0,
    decreases n,
{
    if n > 0 {
        lemma_sum_step(us, n);
        lemma_grouped_sums(us, keys, n - 1);
        let prev = grouped(us, keys, n - 1);
        let u = us[n - 1];
        let k = keys[n - 1];
        let len = prev.len() as int;
        lemma_group_pos(prev, k, 0);
        match group_pos(prev, k, 0) {
            Some(j) => {
                let t = prev[j].1;
                assert forall|f: int| 0 <= f < 5 implies totals_count(t, f) + event_count(u, f) <= count_sum(us, n, f)
                    && 0 <= totals_count(t, f) + event_count(u, f) by {
                    assert(forall|i: int| 0 <= i < prev.len() ==> #[trigger] totals_count(prev[i].1, f) >= 0);
                    lemma_gsum_elem(prev, j, len, f);
                    assert(event_count(us[n - 1], f) >= 0);
                }
                assert(totals_count(t, 0) + event_count(u, 0) <= count_sum(us, n, 0));
                assert(totals_count(t, 1) + event_count(u, 1) <= count_sum(us, n, 1));
                assert(totals_count(t, 2) + event_count(u, 2) <= count_sum(us, n, 2));
                assert(totals_count(t, 3) + event_count(u, 3) <= count_sum(us, n, 3));
                assert(totals_count(t, 4) + event_count(u, 4) <= count_sum(us, n, 4));
                assert(t.can_add(u));
                let x = (k, t.plus(u));
                assert(grouped(us, keys, n) == prev.update(j, x));
                assert forall|f: int| 0 <= f < 5 implies #[trigger] group_count_sum(
                    grouped(us, keys, n),
                    grouped(us, keys, n).len() as int,
                    f,
                ) == count_sum(us, n, f) by {
                    lemma_gsum_update(prev, j, x, len, f);
                }
            },
            None => {
                let z = UsageTotals::new_spec();
                assert forall|f: int| 0 <= f < 5 implies 0 <= #[trigger] event_count(u, f) <= count_sum(us, n, f) by {
                    lemma_sum_nonneg(us, n - 1, f);
                    assert(event_count(us[n - 1], f) >= 0);
                }
                assert(event_count(u, 0) <= count_sum(us, n, 0));
                assert(event_count(u, 1) <= count_sum(us, n, 1));
                assert(event_count(u, 2) <= count_sum(us, n, 2));
                assert(event_count(u, 3) <= count_sum(us, n, 3));
                assert(event_count(u, 4) <= count_sum(us, n, 4));
                assert(z.can_add(u));
                let x = (k, z.plus(u));
                assert(grouped(us, keys, n) == prev.push(x));
                assert forall|f: int| 0 <= f < 5 implies #[trigger] group_count_sum(
                    grouped(us, keys, n),
                    grouped(us, keys, n).len() as int,
                    f,
                ) == count_sum(us, n, f) by {
                    lemma_gsum_push(prev, x, len, f);
                }
            },
        }
        assert forall|i: int, f: int|
            0 <= i < grouped(us, keys, n).len() && 0 <= f < 5 implies #[trigger] totals_count(
                grouped(us, keys, n)[i].1,
                f,
            ) >= 0 by {
            assert(event_count(us[n - 1], f) >= 0);
            if i < len {
                assert(totals_count(prev[i].1, f) >= 0);
            }
        }
    }
}

/// With no negative count and each sum within `i64`, the totals that
/// `group_totals` files by name (an event's model, or the day it falls on)
/// add up, count by count, to the all-time totals of `token_counts`: every
/// event is counted in exactly one group.
pub proof fn law_usage_groups_sum_to_totals(us: Seq<TokenUsageRecord>, keys: Seq<Seq<char>>)
    requires
        counts_nonneg(us),
        sums_fit(us, us.len() as int),
        keys.len() == us.len(),
    ensures
        forall|f: int|
            0 <= f < 5 ==> #[trigger] group_count_sum(
                grouped(us, keys, us.len() as int),
                grouped(us, keys, us.len() as int).len() as int,
                f,
            ) == totals_count(window_total(us, us.len() as int, None), f),
{
    lemma_grouped_sums(us, keys, us.len() as int);
    lemma_window_all(us, us.len() as int);
}

// ---------------------------------------------------------------------------
// Transcripts
// ---------------------------------------------------------------------------

/// The rendered blocks of the messages, one after another.
pub open spec fn blocks(ms: Seq<MessageRecord>) -> Seq<Seq<char>>
    decreases ms.len(),
{
    if ms.len() == 0 {
        Seq::empty()
    } else {
        blocks(ms.drop_last()) + message_block(ms.last())
    }
}

/// How many of `total` renderable messages are shown under `limit`.
pub open spec fn shown_count(total: nat, limit: Option<usize>) -> nat {
    match limit {
        Some(l) => if l < total {
            l as nat
        } else {
            total
        },
        None => total,
    }
}

/// A transcript's markdown body holds the blocks of its renderable messages
/// (user or assistant, with text that is not blank or a bootstrap block), in
/// order: all of them without a limit, else the first `limit`; it counts them
/// all, which is what the footer's "… and N more messages" is taken from.
pub proof fn law_markdown_shows_first_renderable(msgs: Seq<MessageRecord>, limit: Option<usize>)
    ensures
        ({
            let rs = msgs.filter(|m: MessageRecord| renderable(m));
            let n = shown_count(rs.len(), limit);
            md_fold(msgs, limit) == (blocks(rs.take(n as int)), n, rs.len())
        }),
    decreases msgs.len(),
{
    let f = |m: MessageRecord| renderable(m);
    reveal_with_fuel(Seq::filter, 1);
    if msgs.len() == 0 {
        assert(msgs.filter(f).len() == 0);
        assert(msgs.filter(f).take(0) =~= Seq::<MessageRecord>::empty());
    } else {
        let init = msgs.drop_last();
        let m = msgs.last();
        law_markdown_shows_first_renderable(init, limit);
        let r0 = init.filter(f);
        let n0 = shown_count(r0.len(), limit);
        if renderable(m) {
            let rs = r0.push(m);
            assert(msgs.filter(f) == rs);
            if limit is Some && n0 >= limit->0 {
                assert(rs.take(n0 as int) =~= r0.take(n0 as int));
            } else {
                assert(n0 == r0.len());
                assert(r0.take(n0 as int) =~= r0);
                let t = rs.take((n0 + 1) as int);
                assert(t =~= rs);
                assert(t.drop_last() =~= r0);
                assert(t.last() == m);
                assert(blocks(t) == blocks(r0) + message_block(m));
            }
        } else {
            assert(msgs.filter(f) == r0);
        }
    }
}

// ---------------------------------------------------------------------------
// Search
// ---------------------------------------------------------------------------

/// Every hit that search keeps passes the role filter, its session was found,
/// and the session is recent enough; the kept hits come in the order found.
pub proof fn law_search_keeps_matching_recent_hits(
    hits: Seq<SearchHit>,
    summaries: Seq<Option<SessionSummary>>,
    since: Option<i64>,
    filter: Option<Seq<char>>,
    n: int,
)
    ensures
        forall|i: int|
            0 <= i < collated(hits, summaries, since, filter, n).len() ==> {
                let (h, s) = #[trigger] collated(hits, summaries, since, filter, n)[i];
                &&& role_matches(opt_view(h.role), filter)
                &&& recent_enough(s, since)
                &&& exists|j: int| 0 <= j < n && j < hits.len() && hits[j] == h && summaries[j] == Some(s)
            },
    decreases n,
{
    if n > 0 && n <= hits.len() {
        law_search_keeps_matching_recent_hits(hits, summaries, since, filter, n - 1);
        let prev = collated(hits, summaries, since, filter, n - 1);
        let cur = collated(hits, summaries, since, filter, n);
        assert forall|i: int| 0 <= i < cur.len() implies {
            let (h, s) = #[trigger] cur[i];
            &&& role_matches(opt_view(h.role), filter)
            &&& recent_enough(s, since)
            &&& exists|j: int| 0 <= j < n && j < hits.len() && hits[j] == h && summaries[j] == Some(s)
        } by {
            if i < prev.len() {
                assert(cur[i] == prev[i]);
                let (h, s) = prev[i];
                let j = choose|j: int| 0 <= j < n - 1 && j < hits.len() && hits[j] == h && summaries[j] == Some(s);
                assert(0 <= j < n && j < hits.len() && hits[j] == h && summaries[j] == Some(s));
            } else {
                let (h, s) = cur[i];
                assert(hits[n - 1] == h && summaries[n - 1] == Some(s));
            }
        }
    }
}

/// Hit `j` passes: its role matches, its session was found, and the session
/// is recent enough.
pub open spec fn hit_kept(
    hits: Seq<SearchHit>,
    summaries: Seq<Option<SessionSummary>>,
    since: Option<i64>,
    filter: Option<Seq<char>>,
    j: int,
) -> bool {
    &&& 0 <= j < hits.len()
    &&& j < summaries.len()
    &&& role_matches(opt_view(hits[j].role), filter)
    &&& summaries[j] is Some
    &&& recent_enough(summaries[j].unwrap(), since)
}

/// The hits search keeps among the first `n` are exactly those that pass, in
/// order: one kept entry for each passing hit, paired with its session.
pub proof fn law_search_keeps_exactly_passing_hits(
    hits: Seq<SearchHit>,
    summaries: Seq<Option<SessionSummary>>,
    since: Option<i64>,
    filter: Option<Seq<char>>,
    n: int,
)
    requires
        0 <= n <= hits.len(),
    ensures
        collated(hits, summaries, since, filter, n) == Seq::new(n as nat, |j: int| j).filter(
            |j: int| hit_kept(hits, summaries, since, filter, j),
        ).map_values(|j: int| (hits[j], summaries[j].unwrap())),
    decreases n,
{
    let f = |j: int| hit_kept(hits, summaries, since, filter, j);
    let g = |j: int| (hits[j], summaries[j].unwrap());
    let idx = Seq::new(n as nat, |j: int| j);
    reveal_with_fuel(Seq::filter, 1);
    if n == 0 {
        assert(idx.filter(f) =~= Seq::<int>::empty());
        assert(idx.filter(f).map_values(g) =~= Seq::empty());
    } else {
        law_search_keeps_exactly_passing_hits(hits, summaries, since, filter, n - 1);
        let prev_idx = Seq::new((n - 1) as nat, |j: int| j);
        assert(idx.drop_last() =~= prev_idx);
        assert(idx.last() == n - 1);
        let pf = prev_idx.filter(f);
        if f(n - 1) {
            assert(idx.filter(f) == pf.push(n - 1));
            assert(pf.push(n - 1).map_values(g) =~= pf.map_values(g).push(g(n - 1)));
        } else {
            assert(idx.filter(f) == pf);
        }
    }
}

// ---------------------------------------------------------------------------
// Prompts
// ---------------------------------------------------------------------------

/// A profile's prompt can be used exactly when the prompt assembler is enabled
/// and its refreshed listing holds a prompt of that name.
pub proof fn law_prompt_available_iff_listed(enabled: bool, status: PromptStatus, name: Seq<char>)
    ensures
        prompt_problem(enabled, status, name) is None <==> enabled && status is Ready && exists|i: int|
            0 <= i < status->Ready_profiles@.len() && (#[trigger] status->Ready_profiles@[i]).name@ == name,
{
}

/// When fetching the prompts fails, the assembler's message is a single line
/// starting with `prompt assembler unavailable: `.
pub proof fn law_refresh_failure_is_one_line(e: Seq<char>)
    ensures
        !first_line("prompt assembler unavailable: "@ + e).contains('\n'),
        starts_with(first_line("prompt assembler unavailable: "@ + e), "prompt assembler unavailable: "@),
{
    reveal_strlit("prompt assembler unavailable: ");
    let p = "prompt assembler unavailable: "@;
    let s = p + e;
    assert(s.len() > 0);
    lemma_first_index(s, '\n');
    assert(forall|k: int| 0 <= k < p.len() ==> s[k] == p[k] && p[k] != '\n');
    match first_index(s, '\n') {
        Some(i) => {
            assert(i >= p.len());
            let l = strip_cr(s.subrange(0, i));
            assert(first_line(s) == l);
            assert(l.len() >= p.len());
            assert(l.subrange(0, p.len() as int) =~= p);
            assert forall|k: int| 0 <= k < l.len() implies l[k] != '\n' by {
                assert(l[k] == s[k]);
            }
        },
        None => {
            let l = strip_cr(s);
            assert(first_line(s) == l);
            assert(l.subrange(0, p.len() as int) =~= p);
            assert forall|k: int| 0 <= k < l.len() implies l[k] != '\n' by {
                assert(l[k] == s[k]);
            }
        },
    }
}

/// The prompts a listing yields are its entries with a string `name`, all of
/// them and in the listing's order; each becomes a profile keyed
/// `<namespace>/<name>` under that name.
pub proof fn law_prompt_listing_in_order(entries: Seq<JsonValue>, n: int, namespace: Seq<char>, details: Seq<JsonValue>)
    requires
        0 <= n <= entries.len(),
    ensures
        forall|i: int, j: int|
            0 <= i < j < named_entries(entries, n).len() ==> (#[trigger] named_entries(entries, n)[i]).0
                < (#[trigger] named_entries(entries, n)[j]).0,
        forall|i: int|
            0 <= i < named_entries(entries, n).len() ==> {
                let (pos, name) = #[trigger] named_entries(entries, n)[i];
                &&& 0 <= pos < n
                &&& str_at(entries[pos], "name"@) == Some(name)
                &&& virtual_profile_of(namespace, name, entries[pos], details[i]).key == namespace + "/"@ + name
                &&& virtual_profile_of(namespace, name, entries[pos], details[i]).name == name
            },
        forall|pos: int|
            0 <= pos < n && (#[trigger] str_at(entries[pos], "name"@)) is Some ==> exists|i: int|
                0 <= i < named_entries(entries, n).len() && named_entries(entries, n)[i].0 == pos,
    decreases n,
{
    if n > 0 {
        law_prompt_listing_in_order(entries, n - 1, namespace, details);
        let prev = named_entries(entries, n - 1);
        let cur = named_entries(entries, n);
        assert forall|pos: int| 0 <= pos < n && (#[trigger] str_at(entries[pos], "name"@)) is Some implies exists|i: int|
            0 <= i < cur.len() && cur[i].0 == pos by {
            if pos < n - 1 {
                let i = choose|i: int| 0 <= i < prev.len() && prev[i].0 == pos;
                assert(cur[i] == prev[i]);
            } else {
                assert(cur[prev.len() as int].0 == pos);
            }
        }
    }
}

// ---------------------------------------------------------------------------
// Environment entries
// ---------------------------------------------------------------------------

/// An environment entry `KEY=VALUE` splits at the `=` after the key, whatever
/// the value holds (more `=` signs included): for a key without `=` that is not
/// blank, the parsed key is the trimmed key and the value the trimmed rest.
pub proof fn law_env_entry_splits_after_key(k: Seq<char>, v: Seq<char>)
    requires
        !k.contains('='),
        trim(k).len() > 0,
    ensures
        crate::config::model::env_var_of(k + seq!['='] + v) == Ok::<(Seq<char>, Seq<char>), Seq<char>>((trim(k), trim(v))),
{
    let raw = k + seq!['='] + v;
    assert forall|j: int| 0 <= j < k.len() implies raw[j] != '=' by {
        assert(raw[j] == k[j]);
        if k[j] == '=' {
            assert(k.contains('='));
        }
    }
    assert(raw[k.len() as int] == '=');
    crate::text::lemma_first_index_at(raw, '=', k.len() as int);
    assert(raw.subrange(0, k.len() as int) =~= k);
    assert(raw.subrange(k.len() as int + 1, raw.len() as int) =~= v);
}

// ---------------------------------------------------------------------------
// Session time span
// ---------------------------------------------------------------------------

/// Reading a log keeps as its earliest timestamp the smallest record time and
/// as its latest the largest: each is the time of some record read, no record
/// is earlier than the first or later than the second, and both are unset
/// exactly when no record has a time.
pub proof fn law_ingest_time_span(records: Seq<JsonValue>, n: int)
    requires
        0 <= n <= records.len(),
    ensures
        ({
            let st = ingest_all(records, n);
            &&& st.earliest_timestamp is None <==> forall|k: int|
                0 <= k < n ==> (#[trigger] crate::indexer::timestamp_of(records[k])) is None
            &&& st.latest_timestamp is None <==> st.earliest_timestamp is None
            &&& forall|k: int|
                0 <= k < n && (#[trigger] crate::indexer::timestamp_of(records[k])) is Some ==> st.earliest_timestamp->0
                    <= crate::indexer::timestamp_of(records[k])->0 <= st.latest_timestamp->0
            &&& st.earliest_timestamp is Some ==> exists|k: int|
                0 <= k < n && crate::indexer::timestamp_of(records[k]) == st.earliest_timestamp
            &&& st.latest_timestamp is Some ==> exists|k: int|
                0 <= k < n && crate::indexer::timestamp_of(records[k]) == st.latest_timestamp
        }),
    decreases n,
{
    if n > 0 {
        law_ingest_time_span(records, n - 1);
        let st0 = ingest_all(records, n - 1);
        let h = record_header(st0, records[n - 1]);
        let msgs = crate::indexer::messages_of(records[n - 1]);
        lemma_absorb_all_times(h, msgs, msgs.len() as int, crate::json::str_at(records[n - 1], "type"@), crate::indexer::timestamp_of(records[n - 1]));
        let st = ingest_all(records, n);
        assert(st.earliest_timestamp == h.earliest_timestamp && st.latest_timestamp == h.latest_timestamp);
        let t = crate::indexer::timestamp_of(records[n - 1]);
        if st0.earliest_timestamp is Some {
            let k0 = choose|k: int| 0 <= k < n - 1 && crate::indexer::timestamp_of(records[k]) == st0.earliest_timestamp;
            let k1 = choose|k: int| 0 <= k < n - 1 && crate::indexer::timestamp_of(records[k]) == st0.latest_timestamp;
            assert(0 <= k0 < n && 0 <= k1 < n);
        }
        assert forall|k: int|
            0 <= k < n && (#[trigger] crate::indexer::timestamp_of(records[k])) is Some implies st.earliest_timestamp->0
                <= crate::indexer::timestamp_of(records[k])->0 <= st.latest_timestamp->0 by {
            if k < n - 1 {
                assert(st0.earliest_timestamp is Some);
            }
        }
        if st.earliest_timestamp is None {
            assert forall|k: int| 0 <= k < n implies (#[trigger] crate::indexer::timestamp_of(records[k])) is None by {
                if k < n - 1 {
                    assert(st0.earliest_timestamp is None);
                }
            }
        }
    }
}

proof fn lemma_absorb_all_times(st: IngestView, msgs: Seq<(Seq<char>, Seq<char>)>, n: int, source: Option<Seq<char>>, ts: Option<i64>)
    ensures
        absorb_all(st, msgs, n, source, ts).earliest_timestamp == st.earliest_timestamp,
        absorb_all(st, msgs, n, source, ts).latest_timestamp == st.latest_timestamp,
    decreases n,
{
    if n > 0 && n <= msgs.len() {
        lemma_absorb_all_times(st, msgs, n - 1, source, ts);
    }
}

// ---------------------------------------------------------------------------
// Short flags
// ---------------------------------------------------------------------------

/// How many times `c` occurs among the first `n` characters of `s`.
pub open spec fn char_count(s: Seq<char>, c: char, n: int) -> nat
    decreases n,
{
    if n <= 0 || n > s.len() {
        0
    } else {
        char_count(s, c, n - 1) + if s[n - 1] == c {
            1nat
        } else {
            0nat
        }
    }
}

/// A cluster of short flags (the letters after `-`) stands for one flag per
/// letter, in order: `v` for `verbose` and `q` for `quiet`, so `-vv` counts as
/// two `verbose` flags, the same as `-v -v`. A cluster with any other letter is
/// refused.
pub proof fn law_short_cluster_one_flag_per_letter(s: Seq<char>)
    ensures
        crate::cli::shorts_of(s) is Some <==> forall|i: int| 0 <= i < s.len() ==> (#[trigger] s[i]) == 'v' || s[i] == 'q',
        crate::cli::shorts_of(s) is Some ==> {
            let names = crate::cli::shorts_of(s)->0;
            &&& names.len() == s.len()
            &&& forall|i: int| 0 <= i < s.len() ==> #[trigger] names[i] == if s[i] == 'v' {
                "verbose"@
            } else {
                "quiet"@
            }
            &&& crate::cli::count_name(names, "verbose"@) == char_count(s, 'v', s.len() as int)
            &&& crate::cli::count_name(names, "quiet"@) == char_count(s, 'q', s.len() as int)
        },
    decreases s.len(),
{
    reveal_strlit("verbose");
    reveal_strlit("quiet");
    if s.len() > 0 {
        let p = s.drop_last();
        law_short_cluster_one_flag_per_letter(p);
        assert forall|i: int| 0 <= i < p.len() implies p[i] == s[i] by {}
        assert(char_count(s, 'v', p.len() as int) == char_count(p, 'v', p.len() as int)) by {
            lemma_char_count_prefix(s, p, 'v', p.len() as int);
        }
        assert(char_count(s, 'q', p.len() as int) == char_count(p, 'q', p.len() as int)) by {
            lemma_char_count_prefix(s, p, 'q', p.len() as int);
        }
        if crate::cli::shorts_of(s) is Some {
            let names = crate::cli::shorts_of(s)->0;
            let pn = crate::cli::shorts_of(p)->0;
            assert(names.drop_last() =~= pn);
            assert(forall|i: int| 0 <= i < p.len() ==> names[i] == pn[i]);
            assert("verbose"@ != "quiet"@) by {
                assert("verbose"@[0] != "quiet"@[0]);
            }
            let x = names.last();
            assert(names == pn.push(x));
            assert(x == if s.last() == 'v' { "verbose"@ } else { "quiet"@ });
            assert(crate::cli::count_name(names, "verbose"@) == crate::cli::count_name(pn, "verbose"@) + if x == "verbose"@ { 1nat } else { 0nat });
            assert(crate::cli::count_name(names, "quiet"@) == crate::cli::count_name(pn, "quiet"@) + if x == "quiet"@ { 1nat } else { 0nat });
            assert(names[s.len() - 1] == x);
            assert forall|i: int| 0 <= i < s.len() implies #[trigger] names[i] == if s[i] == 'v' {
                "verbose"@
            } else {
                "quiet"@
            } by {
                if i < p.len() {
                    assert(names[i] == pn[i] && p[i] == s[i]);
                }
            }
        }
        if forall|i: int| 0 <= i < s.len() ==> (#[trigger] s[i]) == 'v' || s[i] == 'q' {
            assert(s[s.len() - 1] == 'v' || s[s.len() - 1] == 'q');
        }
    }
}

proof fn lemma_char_count_prefix(s: Seq<char>, p: Seq<char>, c: char, n: int)
    requires
        0 <= n <= p.len() <= s.len(),
        forall|i: int| 0 <= i < p.len() ==> p[i] == s[i],
    ensures
        char_count(s, c, n) == char_count(p, c, n),
    decreases n,
{
    if n > 0 {
        lemma_char_count_prefix(s, p, c, n - 1);
    }
}

/// Arguments `i` to `j` are clusters of short flags: `-` followed by one or
/// more of the letters `v` and `q`.
pub open spec fn short_clusters(toks: Seq<Seq<char>>, i: int, j: int) -> bool {
    forall|k: int|
        i <= k < j ==> (#[trigger] toks[k]).len() > 1 && toks[k][0] == '-' && forall|m: int|
            1 <= m < toks[k].len() ==> toks[k][m] == 'v' || toks[k][m] == 'q'
}

/// The `v` letters in arguments `i` to `j`.
pub open spec fn v_letters(toks: Seq<Seq<char>>, i: int, j: int) -> nat
    decreases j - i,
{
    if i >= j {
        0
    } else {
        char_count(toks[i], 'v', toks[i].len() as int) + v_letters(toks, i + 1, j)
    }
}

proof fn lemma_count_name_concat(a: Seq<Seq<char>>, b: Seq<Seq<char>>, x: Seq<char>)
    ensures
        crate::cli::count_name(a + b, x) == crate::cli::count_name(a, x) + crate::cli::count_name(b, x),
    decreases b.len(),
{
    if b.len() > 0 {
        lemma_count_name_concat(a, b.drop_last(), x);
        assert((a + b).drop_last() =~= a + b.drop_last());
    }
}

proof fn lemma_char_count_tail(t: Seq<char>, c: char, n: int)
    requires
        1 <= n <= t.len(),
        t[0] != c,
    ensures
        char_count(t, c, n) == char_count(t.drop_first(), c, n - 1),
    decreases n,
{
    if n > 1 {
        lemma_char_count_tail(t, c, n - 1);
        assert(t.drop_first()[n - 2] == t[n - 1]);
    } else {
        assert(char_count(t, c, 0) == 0);
        assert(char_count(t.drop_first(), c, 0) == 0);
    }
}

/// Reading the options before a command, every `v` letter of the short-flag
/// clusters counts as one `verbose` flag: `-vv` adds two, as `-v -v` does, and
/// the scan stops at the command.
pub proof fn law_short_clusters_count_each_v(
    toks: Seq<Seq<char>>,
    i: int,
    j: int,
    acc: crate::cli::ScanView,
    defs: Seq<(Seq<char>, bool)>,
    trailing_ok: bool,
)
    requires
        0 <= i <= j < toks.len(),
        short_clusters(toks, i, j),
        toks[j].len() > 0,
        toks[j][0] != '-',
    ensures
        crate::cli::scan_from(toks, i, acc, defs, trailing_ok, true) matches Ok((sv, k)) && k == j
            && crate::cli::count_name(sv.flags, "verbose"@) == crate::cli::count_name(acc.flags, "verbose"@) + v_letters(
            toks,
            i,
            j,
        ),
    decreases j - i,
{
    reveal_strlit("--");
    if i < j {
        let t = toks[i];
        assert(t.len() > 1 && t[0] == '-');
        assert(t != "--"@) by {
            assert(t[1] == 'v' || t[1] == 'q');
            if t == "--"@ {
                assert(t[1] == '-');
            }
        }
        assert(!starts_with(t, "--"@)) by {
            assert(t[1] == 'v' || t[1] == 'q');
            if starts_with(t, "--"@) {
                assert(t.subrange(0, 2)[1] == t[1]);
            }
        }
        let body = t.drop_first();
        assert forall|m: int| 0 <= m < body.len() implies (#[trigger] body[m]) == 'v' || body[m] == 'q' by {
            assert(body[m] == t[m + 1]);
        }
        law_short_cluster_one_flag_per_letter(body);
        let names = crate::cli::shorts_of(body)->0;
        let acc2 = crate::cli::ScanView { flags: acc.flags + names, ..acc };
        law_short_clusters_count_each_v(toks, i + 1, j, acc2, defs, trailing_ok);
        lemma_count_name_concat(acc.flags, names, "verbose"@);
        lemma_char_count_tail(t, 'v', t.len() as int);
    } else {
        reveal_strlit("--");
        assert(toks[j] != "--"@) by {
            if toks[j] == "--"@ {
                assert(toks[j][0] == '-');
            }
        }
        assert(!(toks[j].len() > 2 && starts_with(toks[j], "--"@))) by {
            if toks[j].len() > 2 && starts_with(toks[j], "--"@) {
                assert(toks[j].subrange(0, 2)[0] == toks[j][0]);
            }
        }
    }
}

// ---------------------------------------------------------------------------
// Rendered message blocks
// ---------------------------------------------------------------------------

/// Text with no carriage return that does not end with a line break.
pub open spec fn plain_text(s: Seq<char>) -> bool {
    !s.contains('\r') && (s.len() == 0 || s.last() != '\n')
}

proof fn lemma_join_front(a: Seq<char>, rest: Seq<Seq<char>>, sep: Seq<char>)
    ensures
        crate::text::join(seq![a] + rest, sep) == if rest.len() == 0 {
            a
        } else {
            a + sep + crate::text::join(rest, sep)
        },
    decreases rest.len(),
{
    let all = seq![a] + rest;
    if rest.len() > 1 {
        lemma_join_front(a, rest.drop_last(), sep);
        assert(all.drop_last() =~= seq![a] + rest.drop_last());
        assert(all.last() == rest.last());
        let j0 = crate::text::join(rest.drop_last(), sep);
        assert(crate::text::join(all, sep) == crate::text::join(all.drop_last(), sep) + sep + all.last());
        assert(crate::text::join(rest, sep) == j0 + sep + rest.last());
        assert(a + sep + j0 + sep + rest.last() =~= a + sep + (j0 + sep + rest.last()));
    } else if rest.len() == 1 {
        assert(all.drop_last() =~= seq![a]);
        assert(crate::text::join(seq![a], sep) == a);
        assert(crate::text::join(all, sep) == crate::text::join(all.drop_last(), sep) + sep + all.last());
        assert(crate::text::join(rest, sep) == rest[0]);
        assert(all.last() == rest[0]);
    } else {
        assert(seq![a] + rest =~= seq![a]);
    }
}

/// Splitting plain text into lines and joining them back with line breaks
/// gives the text again.
proof fn lemma_lines_join(s: Seq<char>)
    requires
        plain_text(s),
    ensures
        crate::text::join(crate::text::lines(s), "\n"@) == s,
    decreases s.len(),
{
    reveal_strlit("\n");
    if s.len() > 0 {
        lemma_first_index(s, '\n');
        match first_index(s, '\n') {
            Some(i) => {
                let a = s.subrange(0, i);
                let rest = s.subrange(i + 1, s.len() as int);
                assert(i < s.len() - 1);
                assert(!a.contains('\r')) by {
                    if a.contains('\r') {
                        let j = choose|j: int| 0 <= j < a.len() && a[j] == '\r';
                        assert(s[j] == '\r');
                    }
                }
                assert(strip_cr(a) == a) by {
                    if a.len() > 0 {
                        assert(a[a.len() - 1] != '\r');
                    }
                }
                assert(!rest.contains('\r')) by {
                    if rest.contains('\r') {
                        let j = choose|j: int| 0 <= j < rest.len() && rest[j] == '\r';
                        assert(s[i + 1 + j] == '\r');
                    }
                }
                assert(rest.last() == s.last());
                lemma_lines_join(rest);
                assert(crate::text::lines(rest).len() > 0);
                lemma_join_front(a, crate::text::lines(rest), "\n"@);
                assert(a + "\n"@ + rest =~= s);
            },
            None => {
                assert(s.last() != '\r');
                assert(strip_cr(s) == s);
                lemma_join_front(s, Seq::empty(), "\n"@);
                assert(seq![s] + Seq::<Seq<char>>::empty() =~= seq![s]);
            },
        }
    }
}

/// A rendered message block is its heading, a blank line, then every line of
/// the message text in order, then a blank line: joined back with line breaks,
/// the lines between the blank lines give the (left-trimmed) text again.
pub proof fn law_message_block_keeps_every_line(m: MessageRecord)
    requires
        plain_text(crate::text::trim_start(m.content@)),
    ensures
        ({
            let b = message_block(m);
            &&& b.len() >= 3
            &&& starts_with(b[0], "## "@)
            &&& b[1].len() == 0
            &&& b[b.len() - 1].len() == 0
            &&& crate::text::join(b.subrange(2, b.len() - 1), "\n"@) == crate::text::trim_start(m.content@)
        }),
{
    reveal_strlit("## ");
    let c = crate::text::trim_start(m.content@);
    let ls = crate::text::lines(c);
    let b = message_block(m);
    lemma_lines_join(c);
    assert(b.subrange(2, b.len() - 1) =~= ls);
    let h = b[0];
    assert(h.subrange(0, 3) =~= "## "@);
}

// ---------------------------------------------------------------------------
// The command placeholder
// ---------------------------------------------------------------------------

/// How the shell reads the inside of a single-quoted word: each character
/// stands for itself, and a quote can appear only as `'\''` (close the word,
/// an escaped quote, reopen it). `None` when the text cannot stand there.
pub open spec fn sq_decode(b: Seq<char>) -> Option<Seq<char>>
    decreases b.len(),
{
    if b.len() == 0 {
        Some(Seq::empty())
    } else if b[0] == '\'' {
        if b.len() >= 4 && b[1] == '\\' && b[2] == '\'' && b[3] == '\'' {
            match sq_decode(b.subrange(4, b.len() as int)) {
                Some(r) => Some(seq!['\''] + r),
                None => None,
            }
        } else {
            None
        }
    } else {
        match sq_decode(b.subrange(1, b.len() as int)) {
            Some(r) => Some(seq![b[0]] + r),
            None => None,
        }
    }
}

/// `w` is one single-quoted shell word that the shell reads as `s`.
pub open spec fn quoted_word_of(w: Seq<char>, s: Seq<char>) -> bool {
    &&& w.len() >= 2
    &&& w[0] == '\''
    &&& w[w.len() - 1] == '\''
    &&& sq_decode(w.subrange(1, w.len() - 1)) == Some(s)
}

proof fn lemma_decode_quoted(s: Seq<char>, rest: Seq<char>)
    ensures
        sq_decode(crate::pipeline::quote_body(s) + rest) == match sq_decode(rest) {
            Some(r) => Some(s + r),
            None => None::<Seq<char>>,
        },
    decreases s.len(),
{
    if s.len() == 0 {
        assert(crate::pipeline::quote_body(s) + rest =~= rest);
        match sq_decode(rest) {
            Some(r) => assert(s + r =~= r),
            None => {},
        }
    } else {
        let c = s.last();
        let q = if c == '\'' { seq!['\'', '\\', '\'', '\''] } else { seq![c] };
        let rest2 = q + rest;
        lemma_decode_quoted(s.drop_last(), rest2);
        assert(crate::pipeline::quote_body(s) + rest =~= crate::pipeline::quote_body(s.drop_last()) + rest2);
        if c == '\'' {
            assert(rest2.subrange(4, rest2.len() as int) =~= rest);
        } else {
            assert(rest2.subrange(1, rest2.len() as int) =~= rest);
        }
        match sq_decode(rest) {
            Some(r) => {
                assert(sq_decode(rest2) == Some(seq![c] + r));
                assert(s.drop_last() + (seq![c] + r) =~= s + r);
            },
            None => {},
        }
    }
}

/// `single_quote` gives one word that the shell reads back as the text.
pub proof fn law_single_quote_reads_back(s: Seq<char>)
    ensures
        quoted_word_of(crate::pipeline::single_quoted(s), s),
{
    let w = crate::pipeline::single_quoted(s);
    lemma_decode_quoted(s, Seq::empty());
    assert(crate::pipeline::quote_body(s) + Seq::<char>::empty() =~= crate::pipeline::quote_body(s));
    assert(w.subrange(1, w.len() - 1) =~= crate::pipeline::quote_body(s));
    assert(s + Seq::<char>::empty() =~= s);
}

/// In a shell wrapper's command `{{CMD}}` stands for the pipeline as one
/// single-quoted word, which the shell reads back as exactly the pipeline; in
/// an argument vector it stands for the pipeline as it is.
pub proof fn law_cmd_placeholder_is_one_word(ctx: crate::pipeline::CtxView)
    ensures
        crate::pipeline::placeholder_of("CMD"@, ctx, crate::pipeline::CmdMode::Shell) is Ok,
        quoted_word_of(crate::pipeline::placeholder_of("CMD"@, ctx, crate::pipeline::CmdMode::Shell)->Ok_0, ctx.pipeline),
        crate::pipeline::placeholder_of("CMD"@, ctx, crate::pipeline::CmdMode::Raw) == Ok::<Seq<char>, ErrView>(ctx.pipeline),
{
    law_single_quote_reads_back(ctx.pipeline);
}

/// The text that the first `n` pieces of a template render to, given the value
/// each placeholder was filled with.
pub open spec fn filled(pieces: Seq<(Seq<char>, Seq<char>)>, vals: Seq<Seq<char>>, n: int) -> Seq<char>
    decreases n,
{
    if n <= 0 {
        Seq::empty()
    } else {
        filled(pieces, vals, n - 1) + pieces[n - 1].0 + vals[n - 1]
    }
}

/// Rendering a shell wrapper's command keeps the text between placeholders
/// and puts, where the template had `{{CMD}}`, one single-quoted word that the
/// shell reads back as exactly the pipeline.
pub proof fn law_shell_render_quotes_cmd(
    pieces: Seq<(Seq<char>, Seq<char>)>,
    n: int,
    ctx: crate::pipeline::CtxView,
)
    requires
        0 <= n <= pieces.len(),
        crate::pipeline::render_pieces(pieces, n, ctx, crate::pipeline::CmdMode::Shell) is Ok,
    ensures
        exists|vals: Seq<Seq<char>>|
            #![trigger filled(pieces, vals, n)]
            {
                &&& vals.len() == n
                &&& crate::pipeline::render_pieces(pieces, n, ctx, crate::pipeline::CmdMode::Shell)->Ok_0 == filled(pieces, vals, n)
                &&& forall|i: int| 0 <= i < n && pieces[i].1 == "CMD"@ ==> quoted_word_of(#[trigger] vals[i], ctx.pipeline)
            },
    decreases n,
{
    if n > 0 {
        law_shell_render_quotes_cmd(pieces, n - 1, ctx);
        let vals0 = choose|vals: Seq<Seq<char>>|
            #![trigger filled(pieces, vals, n - 1)]
            {
                &&& vals.len() == n - 1
                &&& crate::pipeline::render_pieces(pieces, n - 1, ctx, crate::pipeline::CmdMode::Shell)->Ok_0 == filled(pieces, vals, n - 1)
                &&& forall|i: int| 0 <= i < n - 1 && pieces[i].1 == "CMD"@ ==> quoted_word_of(#[trigger] vals[i], ctx.pipeline)
            };
        let v = crate::pipeline::placeholder_of(pieces[n - 1].1, ctx, crate::pipeline::CmdMode::Shell)->Ok_0;
        let vals = vals0.push(v);
        assert(filled(pieces, vals, n - 1) == filled(pieces, vals0, n - 1)) by {
            lemma_filled_prefix(pieces, vals0, vals, n - 1);
        }
        law_cmd_placeholder_is_one_word(ctx);
        assert forall|i: int| 0 <= i < n && pieces[i].1 == "CMD"@ implies quoted_word_of(#[trigger] vals[i], ctx.pipeline) by {
            if i < n - 1 {
                assert(vals[i] == vals0[i]);
            }
        }
        assert(filled(pieces, vals, n) == filled(pieces, vals, n - 1) + pieces[n - 1].0 + vals[n - 1]);
        assert(crate::pipeline::render_pieces(pieces, n, ctx, crate::pipeline::CmdMode::Shell)->Ok_0 == filled(pieces, vals, n));
        assert(vals.len() == n);
    } else {
        let vals = Seq::<Seq<char>>::empty();
        assert(filled(pieces, vals, 0) == Seq::<char>::empty());
        assert(crate::pipeline::render_pieces(pieces, 0, ctx, crate::pipeline::CmdMode::Shell)->Ok_0 == filled(pieces, vals, 0));
    }
}

proof fn lemma_filled_prefix(pieces: Seq<(Seq<char>, Seq<char>)>, a: Seq<Seq<char>>, b: Seq<Seq<char>>, n: int)
    requires
        n <= a.len(),
        n <= b.len(),
        forall|i: int| 0 <= i < n ==> a[i] == b[i],
    ensures
        filled(pieces, a, n) == filled(pieces, b, n),
    decreases n,
{
    if n > 0 {
        lemma_filled_prefix(pieces, a, b, n - 1);
    }
}

} // verus!
