//! Ordered maps keyed by name (`indexmap::IndexMap`), as the configuration holds them.
//!
//! Each map's contents are named as the sequence of its entries in order, a key
//! taken by its text. The wrappers below state what `IndexMap` documents for each
//! method over those names.

use indexmap::IndexMap;
use vstd::prelude::*;

use crate::config::model::{
    ProfileConfig, ProviderConfig, RawProfile, RawProvider, RawWrapper, Snippet, WrapperConfig,
};

verus! {

/// `indexmap::IndexMap`, declared so that the configuration can hold it; its
/// contents are seen only through the names below.
#[verifier::external_type_specification]
#[verifier::external_body]
#[verifier::reject_recursive_types(K)]
#[verifier::reject_recursive_types(V)]
#[verifier::reject_recursive_types(S)]
pub struct ExIndexMap<K, V, S>(IndexMap<K, V, S>);

/// The index of the entry whose key is `k`, if any (the first such entry).
pub open spec fn key_index<V>(es: Seq<(Seq<char>, V)>, k: Seq<char>) -> Option<int>
    decreases es.len(),
{
    if es.len() == 0 {
        None
    } else if es[0].0 == k {
        Some(0)
    } else {
        match key_index(es.drop_first(), k) {
            Some(i) => Some(i + 1),
            None => None,
        }
    }
}

pub proof fn lemma_key_index<V>(es: Seq<(Seq<char>, V)>, k: Seq<char>)
    ensures
        match key_index(es, k) {
            Some(i) => 0 <= i < es.len() && es[i].0 == k && forall|j: int| 0 <= j < i ==> es[j].0 != k,
            None => forall|j: int| 0 <= j < es.len() ==> es[j].0 != k,
        },
    decreases es.len(),
{
    if es.len() > 0 && es[0].0 != k {
        lemma_key_index(es.drop_first(), k);
        assert forall|j: int| 1 <= j < es.len() implies es[j] == es.drop_first()[j - 1] by {}
    }
}

/// Whether some entry has key `k`.
pub open spec fn has_key<V>(es: Seq<(Seq<char>, V)>, k: Seq<char>) -> bool {
    key_index(es, k) is Some
}

/// The value stored under `k`, if any.
pub open spec fn lookup<V>(es: Seq<(Seq<char>, V)>, k: Seq<char>) -> Option<V> {
    match key_index(es, k) {
        Some(i) => Some(es[i].1),
        None => None,
    }
}

/// `IndexMap::insert`: an existing key keeps its place and takes the new value; a
/// new key is appended.
pub open spec fn with_entry<V>(es: Seq<(Seq<char>, V)>, k: Seq<char>, v: V) -> Seq<(Seq<char>, V)> {
    match key_index(es, k) {
        Some(i) => es.update(i, (k, v)),
        None => es.push((k, v)),
    }
}

/// The entries with each value replaced by `f` of it.
pub open spec fn map_values<V, W>(es: Seq<(Seq<char>, V)>, f: spec_fn(V) -> W) -> Seq<(Seq<char>, W)> {
    Seq::new(es.len(), |i: int| (es[i].0, f(es[i].1)))
}

pub proof fn lemma_key_index_map<V, W>(es: Seq<(Seq<char>, V)>, f: spec_fn(V) -> W, k: Seq<char>)
    ensures
        key_index(map_values(es, f), k) == key_index(es, k),
    decreases es.len(),
{
    if es.len() > 0 {
        assert(map_values(es, f).drop_first() =~= map_values(es.drop_first(), f));
        lemma_key_index_map(es.drop_first(), f, k);
    }
}

pub proof fn lemma_map_with_entry<V, W>(es: Seq<(Seq<char>, V)>, f: spec_fn(V) -> W, k: Seq<char>, v: V)
    ensures
        map_values(with_entry(es, k, v), f) == with_entry(map_values(es, f), k, f(v)),
{
    lemma_key_index_map(es, f, k);
    lemma_key_index(es, k);
    assert(map_values(with_entry(es, k, v), f) =~= with_entry(map_values(es, f), k, f(v)));
}

/// Keys present after inserting `k`: `k` and the old keys.
pub proof fn lemma_with_entry_keys<V>(es: Seq<(Seq<char>, V)>, k: Seq<char>, v: V, q: Seq<char>)
    ensures
        has_key(with_entry(es, k, v), q) <==> (q == k || has_key(es, q)),
{
    lemma_key_index(es, k);
    lemma_key_index(es, q);
    let r = with_entry(es, k, v);
    lemma_key_index(r, q);
    if has_key(es, q) {
        let i = key_index(es, q)->0;
        if key_index(es, k) is Some {
            let j = key_index(es, k)->0;
            assert(r[i].0 == q);
        } else {
            assert(r[i].0 == q);
        }
    }
    if q == k {
        if key_index(es, k) is Some {
            let j = key_index(es, k)->0;
            assert(r[j].0 == k);
        } else {
            assert(r[es.len() as int].0 == k);
        }
    }
}

pub type ProviderMap = IndexMap<String, ProviderConfig>;

/// The entries of a map of ProviderConfig values, in order.
pub uninterp spec fn provider_entries(m: ProviderMap) -> Seq<(Seq<char>, ProviderConfig)>;

/// `IndexMap::new`: an empty map.
#[verifier::external_body]
pub(crate) fn providers_new() -> (r: ProviderMap)
    ensures
        provider_entries(r) == Seq::<(Seq<char>, ProviderConfig)>::empty(),
{
    IndexMap::new()
}

/// `IndexMap::insert`: replaces the value of an existing key in place, or appends.
#[verifier::external_body]
pub(crate) fn providers_insert(m: &mut ProviderMap, k: String, v: ProviderConfig)
    ensures
        provider_entries(*final(m)) == with_entry(provider_entries(*old(m)), k@, v),
{
    m.insert(k, v);
}

/// `IndexMap::get`: the value stored under `k`.
#[verifier::external_body]
pub(crate) fn providers_get<'a>(m: &'a ProviderMap, k: &str) -> (r: Option<&'a ProviderConfig>)
    ensures
        match r {
            Some(x) => lookup(provider_entries(*m), k@) == Some(*x),
            None => lookup(provider_entries(*m), k@) is None,
        },
{
    m.get(k)
}

pub type SnippetMap = IndexMap<String, Snippet>;

/// The entries of a map of Snippet values, in order.
pub uninterp spec fn snippet_entries(m: SnippetMap) -> Seq<(Seq<char>, Snippet)>;

/// `IndexMap::new`: an empty map.
#[verifier::external_body]
pub(crate) fn snippets_new() -> (r: SnippetMap)
    ensures
        snippet_entries(r) == Seq::<(Seq<char>, Snippet)>::empty(),
{
    IndexMap::new()
}

/// `IndexMap::insert`: replaces the value of an existing key in place, or appends.
#[verifier::external_body]
pub(crate) fn snippets_insert(m: &mut SnippetMap, k: String, v: Snippet)
    ensures
        snippet_entries(*final(m)) == with_entry(snippet_entries(*old(m)), k@, v),
{
    m.insert(k, v);
}

/// `IndexMap::get`: the value stored under `k`.
#[verifier::external_body]
pub(crate) fn snippets_get<'a>(m: &'a SnippetMap, k: &str) -> (r: Option<&'a Snippet>)
    ensures
        match r {
            Some(x) => lookup(snippet_entries(*m), k@) == Some(*x),
            None => lookup(snippet_entries(*m), k@) is None,
        },
{
    m.get(k)
}

pub type WrapperMap = IndexMap<String, WrapperConfig>;

/// The entries of a map of WrapperConfig values, in order.
pub uninterp spec fn wrapper_entries(m: WrapperMap) -> Seq<(Seq<char>, WrapperConfig)>;

/// `IndexMap::new`: an empty map.
#[verifier::external_body]
pub(crate) fn wrappers_new() -> (r: WrapperMap)
    ensures
        wrapper_entries(r) == Seq::<(Seq<char>, WrapperConfig)>::empty(),
{
    IndexMap::new()
}

/// `IndexMap::insert`: replaces the value of an existing key in place, or appends.
#[verifier::external_body]
pub(crate) fn wrappers_insert(m: &mut WrapperMap, k: String, v: WrapperConfig)
    ensures
        wrapper_entries(*final(m)) == with_entry(wrapper_entries(*old(m)), k@, v),
{
    m.insert(k, v);
}

/// `IndexMap::get`: the value stored under `k`.
#[verifier::external_body]
pub(crate) fn wrappers_get<'a>(m: &'a WrapperMap, k: &str) -> (r: Option<&'a WrapperConfig>)
    ensures
        match r {
            Some(x) => lookup(wrapper_entries(*m), k@) == Some(*x),
            None => lookup(wrapper_entries(*m), k@) is None,
        },
{
    m.get(k)
}

pub type ProfileMap = IndexMap<String, ProfileConfig>;

/// The entries of a map of ProfileConfig values, in order.
pub uninterp spec fn profile_entries(m: ProfileMap) -> Seq<(Seq<char>, ProfileConfig)>;

/// `IndexMap::new`: an empty map.
#[verifier::external_body]
pub(crate) fn profiles_new() -> (r: ProfileMap)
    ensures
        profile_entries(r) == Seq::<(Seq<char>, ProfileConfig)>::empty(),
{
    IndexMap::new()
}

/// `IndexMap::insert`: replaces the value of an existing key in place, or appends.
#[verifier::external_body]
pub(crate) fn profiles_insert(m: &mut ProfileMap, k: String, v: ProfileConfig)
    ensures
        profile_entries(*final(m)) == with_entry(profile_entries(*old(m)), k@, v),
{
    m.insert(k, v);
}

/// `IndexMap::get`: the value stored under `k`.
#[verifier::external_body]
pub(crate) fn profiles_get<'a>(m: &'a ProfileMap, k: &str) -> (r: Option<&'a ProfileConfig>)
    ensures
        match r {
            Some(x) => lookup(profile_entries(*m), k@) == Some(*x),
            None => lookup(profile_entries(*m), k@) is None,
        },
{
    m.get(k)
}

/// `IndexMap::len`: the number of entries.
#[verifier::external_body]
pub(crate) fn profiles_len(m: &ProfileMap) -> (r: usize)
    ensures
        r == profile_entries(*m).len(),
{
    m.len()
}

/// `IndexMap::get_index`: the entry at position `i`.
#[verifier::external_body]
pub(crate) fn profiles_at<'a>(m: &'a ProfileMap, i: usize) -> (r: (&'a String, &'a ProfileConfig))
    requires
        i < profile_entries(*m).len(),
    ensures
        (r.0@, *r.1) == profile_entries(*m)[i as int],
{
    m.get_index(i).unwrap()
}

pub type RawProviderMap = IndexMap<String, RawProvider>;

/// The entries of a map of RawProvider values, in order.
pub uninterp spec fn raw_provider_entries(m: RawProviderMap) -> Seq<(Seq<char>, RawProvider)>;

/// `IndexMap::len`: the number of entries.
#[verifier::external_body]
pub(crate) fn raw_providers_len(m: &RawProviderMap) -> (r: usize)
    ensures
        r == raw_provider_entries(*m).len(),
{
    m.len()
}

/// `IndexMap::get_index`: the entry at position `i`.
#[verifier::external_body]
pub(crate) fn raw_providers_at<'a>(m: &'a RawProviderMap, i: usize) -> (r: (&'a String, &'a RawProvider))
    requires
        i < raw_provider_entries(*m).len(),
    ensures
        (r.0@, *r.1) == raw_provider_entries(*m)[i as int],
{
    m.get_index(i).unwrap()
}

pub type RawSnippetMap = IndexMap<String, String>;

/// The entries of a map of String values, in order.
pub uninterp spec fn raw_snippet_entries(m: RawSnippetMap) -> Seq<(Seq<char>, String)>;

/// `IndexMap::len`: the number of entries.
#[verifier::external_body]
pub(crate) fn raw_snippets_len(m: &RawSnippetMap) -> (r: usize)
    ensures
        r == raw_snippet_entries(*m).len(),
{
    m.len()
}

/// `IndexMap::get_index`: the entry at position `i`.
#[verifier::external_body]
pub(crate) fn raw_snippets_at<'a>(m: &'a RawSnippetMap, i: usize) -> (r: (&'a String, &'a String))
    requires
        i < raw_snippet_entries(*m).len(),
    ensures
        (r.0@, *r.1) == raw_snippet_entries(*m)[i as int],
{
    m.get_index(i).unwrap()
}

pub type RawWrapperMap = IndexMap<String, RawWrapper>;

/// The entries of a map of RawWrapper values, in order.
pub uninterp spec fn raw_wrapper_entries(m: RawWrapperMap) -> Seq<(Seq<char>, RawWrapper)>;

/// `IndexMap::len`: the number of entries.
#[verifier::external_body]
pub(crate) fn raw_wrappers_len(m: &RawWrapperMap) -> (r: usize)
    ensures
        r == raw_wrapper_entries(*m).len(),
{
    m.len()
}

/// `IndexMap::get_index`: the entry at position `i`.
#[verifier::external_body]
pub(crate) fn raw_wrappers_at<'a>(m: &'a RawWrapperMap, i: usize) -> (r: (&'a String, &'a RawWrapper))
    requires
        i < raw_wrapper_entries(*m).len(),
    ensures
        (r.0@, *r.1) == raw_wrapper_entries(*m)[i as int],
{
    m.get_index(i).unwrap()
}

pub type RawProfileMap = IndexMap<String, RawProfile>;

/// The entries of a map of RawProfile values, in order.
pub uninterp spec fn raw_profile_entries(m: RawProfileMap) -> Seq<(Seq<char>, RawProfile)>;

/// `IndexMap::len`: the number of entries.
#[verifier::external_body]
pub(crate) fn raw_profiles_len(m: &RawProfileMap) -> (r: usize)
    ensures
        r == raw_profile_entries(*m).len(),
{
    m.len()
}

/// `IndexMap::get_index`: the entry at position `i`.
#[verifier::external_body]
pub(crate) fn raw_profiles_at<'a>(m: &'a RawProfileMap, i: usize) -> (r: (&'a String, &'a RawProfile))
    requires
        i < raw_profile_entries(*m).len(),
    ensures
        (r.0@, *r.1) == raw_profile_entries(*m)[i as int],
{
    m.get_index(i).unwrap()
}

} // verus!
