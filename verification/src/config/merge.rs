//! Layering configuration files: each later table is merged into the earlier
//! ones. A key ending in `+` appends to an array; a table merges into a table;
//! a null-like value (`"null"`, `[]`, `{}`) removes the key; anything else
//! replaces it.

use vstd::prelude::*;

use crate::config::model::{ConfigDiagnostic, DiagnosticLevel};
use crate::text::{append_chars, append_str, chars_of, eq_chars, lower_seq, str_chars, string_of, to_ascii_lowercase};

verus! {

/// A TOML value, as read from a configuration file. Table entries keep their
/// order and have distinct keys; dates and floats are kept as their text.
#[derive(Debug)]
pub enum TomlValue {
    String(String),
    Integer(i64),
    Float(String),
    Boolean(bool),
    Datetime(String),
    Array(Vec<TomlValue>),
    Table(Vec<(String, TomlValue)>),
}

/// The mathematical form of a `TomlValue`.
pub enum TomlView {
    Text(Seq<char>),
    Integer(i64),
    Float(Seq<char>),
    Boolean(bool),
    Datetime(Seq<char>),
    Array(Seq<TomlView>),
    Table(Seq<(Seq<char>, TomlView)>),
}

pub open spec fn toml_view(v: TomlValue) -> TomlView
    decreases v, 0int,
{
    match v {
        TomlValue::String(s) => TomlView::Text(s@),
        TomlValue::Integer(i) => TomlView::Integer(i),
        TomlValue::Float(s) => TomlView::Float(s@),
        TomlValue::Boolean(b) => TomlView::Boolean(b),
        TomlValue::Datetime(s) => TomlView::Datetime(s@),
        TomlValue::Array(items) => TomlView::Array(items_view(items@, items@.len() as int)),
        TomlValue::Table(ms) => TomlView::Table(entries_view(ms@, ms@.len() as int)),
    }
}

/// The views of the first `n` items.
pub open spec fn items_view(items: Seq<TomlValue>, n: int) -> Seq<TomlView>
    decreases items, n,
{
    if n <= 0 || n > items.len() {
        Seq::empty()
    } else {
        items_view(items, n - 1).push(toml_view(items[n - 1]))
    }
}

/// The views of the first `n` table entries.
pub open spec fn entries_view(ms: Seq<(String, TomlValue)>, n: int) -> Seq<(Seq<char>, TomlView)>
    decreases ms, n,
{
    if n <= 0 || n > ms.len() {
        Seq::empty()
    } else {
        entries_view(ms, n - 1).push((ms[n - 1].0@, toml_view(ms[n - 1].1)))
    }
}

/// The view of a whole table.
pub open spec fn table_view(ms: Seq<(String, TomlValue)>) -> Seq<(Seq<char>, TomlView)> {
    entries_view(ms, ms.len() as int)
}

proof fn lemma_entries_view(ms: Seq<(String, TomlValue)>, n: int)
    requires
        0 <= n <= ms.len(),
    ensures
        entries_view(ms, n) =~= Seq::new(n as nat, |i: int| (ms[i].0@, toml_view(ms[i].1))),
    decreases n,
{
    if n > 0 {
        lemma_entries_view(ms, n - 1);
    }
}

proof fn lemma_table_view(ms: Seq<(String, TomlValue)>)
    ensures
        table_view(ms) =~= Seq::new(ms.len(), |i: int| (ms[i].0@, toml_view(ms[i].1))),
{
    lemma_entries_view(ms, ms.len() as int);
}

proof fn lemma_items_view(items: Seq<TomlValue>, n: int)
    requires
        0 <= n <= items.len(),
    ensures
        items_view(items, n) =~= Seq::new(n as nat, |i: int| toml_view(items[i])),
    decreases n,
{
    if n > 0 {
        lemma_items_view(items, n - 1);
    }
}

proof fn lemma_items_concat(a: Seq<TomlValue>, b: Seq<TomlValue>)
    ensures
        items_view(a + b, (a + b).len() as int) =~= items_view(a, a.len() as int) + items_view(b, b.len() as int),
{
    lemma_items_view(a + b, (a + b).len() as int);
    lemma_items_view(a, a.len() as int);
    lemma_items_view(b, b.len() as int);
}

/// A key that appends to an array: it ends with `+`.
pub open spec fn ends_plus(k: Seq<char>) -> bool {
    k.len() > 0 && k.last() == '+'
}

/// The key with all its trailing `+` characters removed.
pub open spec fn trim_plus(k: Seq<char>) -> Seq<char>
    decreases k.len(),
{
    if ends_plus(k) {
        trim_plus(k.drop_last())
    } else {
        k
    }
}

/// The position of the first entry at or after `i` with key `k`.
pub open spec fn key_pos_from(t: Seq<(Seq<char>, TomlView)>, k: Seq<char>, i: int) -> Option<int>
    decreases t.len() - i,
{
    if i < 0 || i >= t.len() {
        None
    } else if t[i].0 == k {
        Some(i)
    } else {
        key_pos_from(t, k, i + 1)
    }
}

pub open spec fn key_pos(t: Seq<(Seq<char>, TomlView)>, k: Seq<char>) -> Option<int> {
    key_pos_from(t, k, 0)
}

proof fn lemma_key_pos_from(t: Seq<(Seq<char>, TomlView)>, k: Seq<char>, i: int)
    requires
        0 <= i,
    ensures
        key_pos_from(t, k, i) matches Some(j) ==> i <= j < t.len() && t[j].0 == k,
    decreases t.len() - i,
{
    if i < t.len() && t[i].0 != k {
        lemma_key_pos_from(t, k, i + 1);
    }
}

/// `insert`: replace the value of an existing key, else add the entry.
pub open spec fn upsert(t: Seq<(Seq<char>, TomlView)>, k: Seq<char>, v: TomlView) -> Seq<(Seq<char>, TomlView)> {
    match key_pos(t, k) {
        Some(i) => t.update(i, (k, v)),
        None => t.push((k, v)),
    }
}

/// `remove`: drop the entry with the key, if there is one.
pub open spec fn remove_key(t: Seq<(Seq<char>, TomlView)>, k: Seq<char>) -> Seq<(Seq<char>, TomlView)> {
    match key_pos(t, k) {
        Some(i) => t.remove(i),
        None => t,
    }
}

/// `matches_null`: the text `null` in any case, an empty array or an empty table.
pub open spec fn nullish(v: TomlView) -> bool {
    match v {
        TomlView::Text(s) => lower_seq(s) == "null"@,
        TomlView::Array(items) => items.len() == 0,
        TomlView::Table(ms) => ms.len() == 0,
        _ => false,
    }
}

/// Why two tables could not be merged.
#[derive(Debug)]
pub enum MergeError {
    /// A `key+` entry whose value is not an array; `source` is the file merged.
    NotAnArray { key: String, source: Option<String> },
    /// A `key+` entry for a key whose earlier value is not an array.
    AppendToNonArray { key: String },
}

/// A `MergeError` as text fields.
pub enum MergeFault {
    NotAnArray(Seq<char>, Option<Seq<char>>),
    AppendToNonArray(Seq<char>),
}

pub open spec fn fault_view(e: MergeError) -> MergeFault {
    match e {
        MergeError::NotAnArray { key, source } => MergeFault::NotAnArray(
            key@,
            match source {
                Some(s) => Some(s@),
                None => None,
            },
        ),
        MergeError::AppendToNonArray { key } => MergeFault::AppendToNonArray(key@),
    }
}

/// The text of each error, with the context it was raised in.
pub open spec fn merge_error_text(e: MergeFault) -> Seq<char> {
    match e {
        MergeFault::NotAnArray(key, source) => "value for '"@ + key + "+' must be an array (while merging "@
            + match source {
            Some(p) => p,
            None => "configuration"@,
        } + ")"@,
        MergeFault::AppendToNonArray(key) => "cannot append to non-array key '"@ + key
            + "' (the key is defined earlier in "@ + key + ")"@,
    }
}

impl MergeError {
    pub fn message(&self) -> (r: String)
        ensures
            r@ == merge_error_text(fault_view(*self)),
    {
        let mut m: Vec<char> = Vec::new();
        match self {
            MergeError::NotAnArray { key, source } => {
                append_str(&mut m, "value for '");
                append_chars(&mut m, &str_chars(key));
                append_str(&mut m, "+' must be an array (while merging ");
                match source {
                    Some(p) => append_chars(&mut m, &str_chars(p)),
                    None => append_str(&mut m, "configuration"),
                }
                append_str(&mut m, ")");
            },
            MergeError::AppendToNonArray { key } => {
                append_str(&mut m, "cannot append to non-array key '");
                append_chars(&mut m, &str_chars(key));
                append_str(&mut m, "' (the key is defined earlier in ");
                append_chars(&mut m, &str_chars(key));
                append_str(&mut m, ")");
            },
        }
        string_of(&m)
    }
}

/// Merge the first `n` entries of `add` into `t`, in order.
pub open spec fn merge_upto(
    t: Seq<(Seq<char>, TomlView)>,
    add: Seq<(Seq<char>, TomlView)>,
    n: int,
    src: Option<Seq<char>>,
) -> Result<Seq<(Seq<char>, TomlView)>, MergeFault>
    decreases add, n,
{
    if n <= 0 || n > add.len() {
        Ok(t)
    } else {
        match merge_upto(t, add, n - 1, src) {
            Err(e) => Err(e),
            Ok(t2) => merge_entry(t2, add[n - 1].0, add[n - 1].1, src),
        }
    }
}

/// Merge one entry of the added table into `t`.
pub open spec fn merge_entry(
    t: Seq<(Seq<char>, TomlView)>,
    k: Seq<char>,
    v: TomlView,
    src: Option<Seq<char>>,
) -> Result<Seq<(Seq<char>, TomlView)>, MergeFault>
    decreases v, 0int,
{
    if ends_plus(k) {
        let key = trim_plus(k);
        match v {
            TomlView::Array(items) => match key_pos(t, key) {
                Some(i) => if 0 <= i < t.len() {
                    match t[i].1 {
                        TomlView::Array(ex) => Ok(t.update(i, (t[i].0, TomlView::Array(ex + items)))),
                        _ => Err(MergeFault::AppendToNonArray(key)),
                    }
                } else {
                    Ok(t)
                },
                None => Ok(t.push((key, TomlView::Array(items)))),
            },
            _ => Err(MergeFault::NotAnArray(key, src)),
        }
    } else {
        match v {
            TomlView::Table(tbl) => match key_pos(t, k) {
                Some(i) => if 0 <= i < t.len() {
                    match t[i].1 {
                        TomlView::Table(ex) => match merge_upto(ex, tbl, tbl.len() as int, src) {
                            Ok(m) => Ok(t.update(i, (k, TomlView::Table(m)))),
                            Err(e) => Err(e),
                        },
                        _ => Ok(t.update(i, (k, TomlView::Table(tbl)))),
                    }
                } else {
                    Ok(t)
                },
                None => Ok(t.push((k, TomlView::Table(tbl)))),
            },
            _ => if nullish(v) {
                Ok(remove_key(t, k))
            } else {
                Ok(upsert(t, k, v))
            },
        }
    }
}

/// `merge_tables` of a whole added table.
pub open spec fn merged(
    t: Seq<(Seq<char>, TomlView)>,
    add: Seq<(Seq<char>, TomlView)>,
    src: Option<Seq<char>>,
) -> Result<Seq<(Seq<char>, TomlView)>, MergeFault> {
    merge_upto(t, add, add.len() as int, src)
}

proof fn lemma_merge_err_stays(
    t: Seq<(Seq<char>, TomlView)>,
    add: Seq<(Seq<char>, TomlView)>,
    n: int,
    m: int,
    src: Option<Seq<char>>,
)
    requires
        0 <= n <= m <= add.len(),
        merge_upto(t, add, n, src) is Err,
    ensures
        merge_upto(t, add, m, src) == merge_upto(t, add, n, src),
    decreases m - n,
{
    if m > n {
        lemma_merge_err_stays(t, add, n, m - 1, src);
    }
}

/// `after` has the entries of `before`, each in its place under its key, with
/// its value kept unless its key is `k`.
pub open spec fn kept_but(
    before: Seq<(Seq<char>, TomlView)>,
    after: Seq<(Seq<char>, TomlView)>,
    k: Seq<char>,
) -> bool {
    &&& after.len() == before.len()
    &&& forall|j: int|
        0 <= j < before.len() ==> (#[trigger] after[j]).0 == before[j].0 && (after[j].0 == k || after[j].1
            == before[j].1)
}

/// The merge of `add` into `t` fails at entry `j` with `e`: the entries before
/// it merge, entry `j` fails on their result, and `after` holds that result
/// but for the value under entry `j`'s key.
pub open spec fn failed_at(
    t: Seq<(Seq<char>, TomlView)>,
    add: Seq<(Seq<char>, TomlView)>,
    j: int,
    src: Option<Seq<char>>,
    e: MergeFault,
    after: Seq<(Seq<char>, TomlView)>,
) -> bool {
    &&& 0 <= j < add.len()
    &&& merge_upto(t, add, j, src) matches Ok(p)
    &&& merge_entry(p, add[j].0, add[j].1, src) == Err::<Seq<(Seq<char>, TomlView)>, MergeFault>(e)
    &&& kept_but(p, after, add[j].0)
}

pub open spec fn src_view(s: Option<&str>) -> Option<Seq<char>> {
    match s {
        Some(p) => Some(p@),
        None => None,
    }
}

fn ends_with_plus(k: &String) -> (r: bool)
    ensures
        r == ends_plus(k@),
{
    let cs = str_chars(k);
    cs.len() > 0 && cs[cs.len() - 1] == '+'
}

fn trim_plus_exec(k: &String) -> (r: String)
    ensures
        r@ == trim_plus(k@),
{
    let mut cs = str_chars(k);
    while cs.len() > 0 && cs[cs.len() - 1] == '+'
        invariant
            trim_plus(k@) == trim_plus(cs@),
        decreases cs.len(),
    {
        cs.pop();
    }
    string_of(&cs)
}

fn find_key(t: &Vec<(String, TomlValue)>, k: &String) -> (r: Option<usize>)
    ensures
        match r {
            Some(i) => key_pos(table_view(t@), k@) == Some(i as int) && i < t@.len(),
            None => key_pos(table_view(t@), k@) is None,
        },
{
    let ghost tv = table_view(t@);
    proof {
        lemma_table_view(t@);
    }
    let kc = str_chars(k);
    let mut i: usize = 0;
    while i < t.len()
        invariant
            i <= t@.len(),
            tv == table_view(t@),
            tv.len() == t@.len(),
            kc@ == k@,
            key_pos(tv, k@) == key_pos_from(tv, k@, i as int),
            forall|j: int| 0 <= j < t@.len() ==> #[trigger] tv[j].0 == t@[j].0@,
        decreases t.len() - i,
    {
        if eq_chars(&str_chars(&t[i].0), &kc) {
            return Some(i);
        }
        i += 1;
    }
    None
}

/// `matches_null`.
pub fn matches_null(value: &TomlValue) -> (r: bool)
    ensures
        r == nullish(toml_view(*value)),
{
    match value {
        TomlValue::String(s) => {
            let lowered = to_ascii_lowercase(&str_chars(s));
            proof {
                reveal_strlit("null");
            }
            eq_chars(&lowered, &chars_of("null"))
        },
        TomlValue::Array(items) => items.len() == 0,
        TomlValue::Table(ms) => {
            proof {
                lemma_table_view(ms@);
            }
            ms.len() == 0
        },
        _ => false,
    }
}

/// `expect_array`: the items of an array, or the error for `key+`.
pub fn expect_array(value: TomlValue, key: &str, source: Option<&str>) -> (r: Result<Vec<TomlValue>, MergeError>)
    ensures
        match toml_view(value) {
            TomlView::Array(items) => r matches Ok(v) && items_view(v@, v@.len() as int) == items,
            _ => r matches Err(e) && fault_view(e) == MergeFault::NotAnArray(key@, src_view(source)),
        },
{
    match value {
        TomlValue::Array(items) => Ok(items),
        _ => Err(MergeError::NotAnArray { key: key.to_owned(), source: owned_source(source) }),
    }
}

fn owned_source(source: Option<&str>) -> (r: Option<String>)
    ensures
        match r {
            Some(s) => source matches Some(p) && s@ == p@,
            None => source is None,
        },
{
    match source {
        Some(p) => Some(p.to_owned()),
        None => None,
    }
}

fn merge_entry_exec(
    target: &mut Vec<(String, TomlValue)>,
    k: String,
    value: TomlValue,
    source_path: Option<&str>,
) -> (r: Result<(), MergeError>)
    ensures
        match r {
            Ok(()) => merge_entry(table_view(old(target)@), k@, toml_view(value), src_view(source_path)) == Ok::<
                Seq<(Seq<char>, TomlView)>,
                MergeFault,
            >(table_view(final(target)@)),
            Err(e) => merge_entry(table_view(old(target)@), k@, toml_view(value), src_view(source_path)) == Err::<
                Seq<(Seq<char>, TomlView)>,
                MergeFault,
            >(fault_view(e)) && kept_but(table_view(old(target)@), table_view(final(target)@), k@),
        },
    decreases value,
{
    let ghost t0 = table_view(target@);
    let ghost v0 = target@;
    let ghost src = src_view(source_path);
    proof {
        lemma_table_view(target@);
    }
    if ends_with_plus(&k) {
        let key = trim_plus_exec(&k);
        match value {
            TomlValue::Array(mut items) => {
                let ghost iv = items_view(items@, items@.len() as int);
                match find_key(target, &key) {
                    Some(i) => {
                        proof {
                            lemma_key_pos_from(t0, key@, 0);
                        }
                        let (ek, ev) = target.remove(i);
                        match ev {
                            TomlValue::Array(mut ex) => {
                                let ghost exv = items_view(ex@, ex@.len() as int);
                                let ghost ex0 = ex@;
                                let ghost items0 = items@;
                                ex.append(&mut items);
                                proof {
                                    lemma_items_concat(ex0, items0);
                                    assert(ex@ == ex0 + items0);
                                }
                                target.insert(i, (ek, TomlValue::Array(ex)));
                                proof {
                                    lemma_table_view(target@);
                                    assert(table_view(target@) =~= t0.update(
                                        i as int,
                                        (t0[i as int].0, TomlView::Array(exv + iv)),
                                    ));
                                }
                                Ok(())
                            },
                            other => {
                                target.insert(i, (ek, other));
                                proof {
                                    assert(target@ =~= v0);
                                }
                                Err(MergeError::AppendToNonArray { key })
                            },
                        }
                    },
                    None => {
                        target.push((key, TomlValue::Array(items)));
                        proof {
                            lemma_table_view(target@);
                            assert(table_view(target@) =~= t0.push((key@, TomlView::Array(iv))));
                        }
                        Ok(())
                    },
                }
            },
            _ => Err(MergeError::NotAnArray { key, source: owned_source(source_path) }),
        }
    } else {
        match value {
            TomlValue::Table(tbl) => {
                let ghost tblv = table_view(tbl@);
                match find_key(target, &k) {
                    Some(i) => {
                        proof {
                            lemma_key_pos_from(t0, k@, 0);
                        }
                        let (ek, ev) = target.remove(i);
                        match ev {
                            TomlValue::Table(mut ex) => {
                                let ghost exv = table_view(ex@);
                                proof {
                                    assert(decreases_to!(value => tbl));
                                    assert(decreases_to!(tbl => tbl@));
                                    assert(decreases_to!(value => tbl@));
                                }
                                let res = merge_tables(&mut ex, tbl, source_path);
                                match res {
                                    Ok(()) => {
                                        let ghost mv = table_view(ex@);
                                        target.insert(i, (k, TomlValue::Table(ex)));
                                        proof {
                                            lemma_table_view(target@);
                                            assert(table_view(target@) =~= t0.update(
                                                i as int,
                                                (k@, TomlView::Table(mv)),
                                            ));
                                        }
                                        Ok(())
                                    },
                                    Err(e) => {
                                        let ghost ent = (ek, TomlValue::Table(ex));
                                        target.insert(i, (ek, TomlValue::Table(ex)));
                                        proof {
                                            assert(target@ =~= v0.update(i as int, ent));
                                            lemma_table_view(target@);
                                            lemma_table_view(v0);
                                        }
                                        Err(e)
                                    },
                                }
                            },
                            _ => {
                                target.insert(i, (k, TomlValue::Table(tbl)));
                                proof {
                                    lemma_table_view(target@);
                                    assert(table_view(target@) =~= t0.update(i as int, (k@, TomlView::Table(tblv))));
                                }
                                Ok(())
                            },
                        }
                    },
                    None => {
                        target.push((k, TomlValue::Table(tbl)));
                        proof {
                            lemma_table_view(target@);
                            assert(table_view(target@) =~= t0.push((k@, TomlView::Table(tblv))));
                        }
                        Ok(())
                    },
                }
            },
            other => {
                let ghost ov = toml_view(other);
                if matches_null(&other) {
                    match find_key(target, &k) {
                        Some(i) => {
                            proof {
                                lemma_key_pos_from(t0, k@, 0);
                            }
                            target.remove(i);
                            proof {
                                lemma_table_view(target@);
                                assert(table_view(target@) =~= t0.remove(i as int));
                            }
                        },
                        None => {},
                    }
                    Ok(())
                } else {
                    match find_key(target, &k) {
                        Some(i) => {
                            proof {
                                lemma_key_pos_from(t0, k@, 0);
                            }
                            target.remove(i);
                            target.insert(i, (k, other));
                            proof {
                                lemma_table_view(target@);
                                assert(table_view(target@) =~= t0.update(i as int, (k@, ov)));
                            }
                        },
                        None => {
                            target.push((k, other));
                            proof {
                                lemma_table_view(target@);
                                assert(table_view(target@) =~= t0.push((k@, ov)));
                            }
                        },
                    }
                    Ok(())
                }
            },
        }
    }
}

/// `merge_tables`: merge each entry of `addition` into `target`, in order. On
/// an error the merge stops there: the entries merged before the failing one
/// stay in `target`, and only the value under the failing entry's key may
/// differ from that partial result.
pub fn merge_tables(
    target: &mut Vec<(String, TomlValue)>,
    addition: Vec<(String, TomlValue)>,
    source_path: Option<&str>,
) -> (r: Result<(), MergeError>)
    ensures
        match r {
            Ok(()) => merged(table_view(old(target)@), table_view(addition@), src_view(source_path)) == Ok::<
                Seq<(Seq<char>, TomlView)>,
                MergeFault,
            >(table_view(final(target)@)),
            Err(e) => merged(table_view(old(target)@), table_view(addition@), src_view(source_path)) == Err::<
                Seq<(Seq<char>, TomlView)>,
                MergeFault,
            >(fault_view(e)) && exists|j: int|
                failed_at(
                    table_view(old(target)@),
                    table_view(addition@),
                    j,
                    src_view(source_path),
                    fault_view(e),
                    table_view(final(target)@),
                ),
        },
    decreases addition,
{
    let ghost t0 = table_view(target@);
    let ghost add = table_view(addition@);
    let ghost src = src_view(source_path);
    let ghost a0 = addition@;
    proof {
        lemma_table_view(addition@);
    }
    let total = addition.len();
    let mut rest = addition;
    let mut i: usize = 0;
    while rest.len() > 0
        invariant
            i <= a0.len(),
            addition@ == a0,
            a0.len() == total,
            t0 == table_view(old(target)@),
            rest@ == a0.subrange(i as int, a0.len() as int),
            add == table_view(a0),
            add =~= Seq::new(a0.len(), |j: int| (a0[j].0@, toml_view(a0[j].1))),
            src == src_view(source_path),
            merge_upto(t0, add, i as int, src) == Ok::<Seq<(Seq<char>, TomlView)>, MergeFault>(table_view(target@)),
        decreases rest.len(),
    {
        let (k, v) = rest.remove(0);
        proof {
            assert(k == a0[i as int].0 && v == a0[i as int].1);
            assert(add[i as int] == (k@, toml_view(v)));
            assert(decreases_to!(a0 => a0[i as int]));
            assert(decreases_to!(a0[i as int] => a0[i as int].1));
            assert(decreases_to!(addition => addition@));
            assert(addition@ == a0);
            assert(decreases_to!(addition@ => addition@[i as int]));
            assert(decreases_to!(addition@[i as int] => addition@[i as int].1));
            assert(decreases_to!(addition => v));
        }
        let ghost before = table_view(target@);
        match merge_entry_exec(target, k, v, source_path) {
            Ok(()) => {},
            Err(e) => {
                proof {
                    assert(failed_at(t0, add, i as int, src, fault_view(e), table_view(target@)));
                    assert(merge_upto(t0, add, i + 1, src) == Err::<Seq<(Seq<char>, TomlView)>, MergeFault>(fault_view(e)));
                    lemma_merge_err_stays(t0, add, i + 1, a0.len() as int, src);
                    assert(add.len() == a0.len());
                    assert(merged(t0, add, src) == Err::<Seq<(Seq<char>, TomlView)>, MergeFault>(fault_view(e)));
                }
                return Err(e);
            },
        }
        i += 1;
        proof {
            assert(rest@ =~= a0.subrange(i as int, a0.len() as int));
        }
    }
    Ok(())
}

/// The key of the removed preview filter feature.
pub const PREVIEW_FILTER_KEY: &'static str = "preview_filter";

/// The warning given when a file still sets `preview_filter`.
pub const PREVIEW_FILTER_WARNING: &'static str = "Ignoring configuration key `preview_filter`; remove this key from your config.";

/// Whether a file's top-level table sets `preview_filter`.
pub fn sets_preview_filter(table: &Vec<(String, TomlValue)>) -> (r: bool)
    ensures
        r == (key_pos(table_view(table@), PREVIEW_FILTER_KEY@) is Some),
{
    find_key(table, &PREVIEW_FILTER_KEY.to_owned()).is_some()
}

/// Once all files are merged: when one of them set `preview_filter`, the key is
/// dropped and a warning is returned.
pub fn drop_preview_filter(merged: &mut Vec<(String, TomlValue)>, saw: bool) -> (r: Option<ConfigDiagnostic>)
    ensures
        saw ==> table_view(final(merged)@) == remove_key(table_view(old(merged)@), PREVIEW_FILTER_KEY@) && (r matches Some(
            d,
        ) && d.level == DiagnosticLevel::Warning && d.message@ == PREVIEW_FILTER_WARNING@),
        !saw ==> final(merged)@ == old(merged)@ && r is None,
{
    if !saw {
        return None;
    }
    let ghost t0 = table_view(merged@);
    match find_key(merged, &PREVIEW_FILTER_KEY.to_owned()) {
        Some(i) => {
            merged.remove(i);
            proof {
                lemma_table_view(old(merged)@);
                lemma_table_view(merged@);
                assert(table_view(merged@) =~= t0.remove(i as int));
            }
        },
        None => {},
    }
    Some(ConfigDiagnostic { level: DiagnosticLevel::Warning, message: PREVIEW_FILTER_WARNING.to_owned() })
}

} // verus!
