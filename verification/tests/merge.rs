use tool_executor::config::merge::{
    drop_preview_filter, expect_array, matches_null, merge_tables, sets_preview_filter, TomlValue,
};

type Table = Vec<(String, TomlValue)>;

fn table(pairs: Vec<(&str, TomlValue)>) -> Table {
    pairs.into_iter().map(|(k, v)| (k.to_string(), v)).collect()
}

fn get<'a>(t: &'a Table, key: &str) -> Option<&'a TomlValue> {
    t.iter().find(|(k, _)| k == key).map(|(_, v)| v)
}

fn int_of(v: &TomlValue) -> Option<i64> {
    match v {
        TomlValue::Integer(i) => Some(*i),
        _ => None,
    }
}

fn ints(v: &TomlValue) -> Vec<i64> {
    match v {
        TomlValue::Array(items) => items.iter().filter_map(int_of).collect(),
        _ => panic!("expected array"),
    }
}

#[test]
fn merge_tables_appends_arrays_with_plus_suffix() {
    let mut target = table(vec![("list", TomlValue::Array(vec![TomlValue::Integer(1)]))]);
    let addition = table(vec![("list+", TomlValue::Array(vec![TomlValue::Integer(2)]))]);
    merge_tables(&mut target, addition, None).expect("merge");
    assert_eq!(ints(get(&target, "list").unwrap()), vec![1, 2]);
}

#[test]
fn merge_tables_overwrites_with_null_like_values() {
    let mut target = table(vec![("key", TomlValue::Integer(42))]);
    let addition = table(vec![("key", TomlValue::String("null".into()))]);
    merge_tables(&mut target, addition, None).expect("merge");
    assert!(get(&target, "key").is_none());
}

#[test]
fn merge_tables_merges_nested_tables() {
    let mut target = table(vec![(
        "outer",
        TomlValue::Table(table(vec![("inner", TomlValue::Integer(1))])),
    )]);
    let addition = table(vec![(
        "outer",
        TomlValue::Table(table(vec![("extra", TomlValue::Integer(2))])),
    )]);
    merge_tables(&mut target, addition, None).expect("merge");
    let Some(TomlValue::Table(inner)) = get(&target, "outer") else {
        panic!("expected table");
    };
    assert_eq!(get(inner, "inner").and_then(int_of), Some(1));
    assert_eq!(get(inner, "extra").and_then(int_of), Some(2));
}

#[test]
fn merge_tables_replaces_non_table_with_table() {
    let mut target = table(vec![("outer", TomlValue::Integer(5))]);
    let addition = table(vec![(
        "outer",
        TomlValue::Table(table(vec![("inner", TomlValue::Integer(1))])),
    )]);
    merge_tables(&mut target, addition, None).expect("merge");
    let Some(TomlValue::Table(updated)) = get(&target, "outer") else {
        panic!("expected table");
    };
    assert_eq!(get(updated, "inner").and_then(int_of), Some(1));
}

#[test]
fn merge_tables_creates_array_when_target_missing() {
    let mut target = table(Vec::new());
    let addition = table(vec![("items+", TomlValue::Array(vec![TomlValue::Integer(5)]))]);
    merge_tables(&mut target, addition, None).expect("merge");
    assert_eq!(ints(get(&target, "items").expect("array present")), vec![5]);
}

#[test]
fn merge_tables_errors_when_appending_non_array_value() {
    let mut target = table(vec![("items", TomlValue::Array(vec![TomlValue::Integer(1)]))]);
    let addition = table(vec![("items+", TomlValue::Integer(2))]);
    let err = merge_tables(&mut target, addition, Some("extra.toml")).unwrap_err();
    let message = err.message();
    assert!(
        message.contains("value for 'items+' must be an array"),
        "unexpected error: {message}"
    );
    assert!(
        message.contains("extra.toml"),
        "expected path context in error message: {message}"
    );
}

#[test]
fn merge_tables_errors_when_existing_value_not_array() {
    let mut target = table(vec![("items", TomlValue::String("nope".into()))]);
    let addition = table(vec![("items+", TomlValue::Array(vec![TomlValue::Integer(2)]))]);
    let err = merge_tables(&mut target, addition, None).unwrap_err();
    let message = err.message();
    assert!(
        message.contains("cannot append to non-array key 'items'"),
        "unexpected error: {message}"
    );
}

#[test]
fn expect_array_errors_on_non_array() {
    let err = expect_array(TomlValue::Integer(5), "items", None).unwrap_err();
    assert!(err.message().contains("must be an array"));
    assert!(err.message().contains("while merging configuration"));
}

#[test]
fn matches_null_detects_empty_table_and_array() {
    assert!(matches_null(&TomlValue::Table(Vec::new())));
    assert!(matches_null(&TomlValue::Array(Vec::new())));
    assert!(!matches_null(&TomlValue::Integer(1)));
    assert!(matches_null(&TomlValue::String("NULL".into())));
}

#[test]
fn merge_tables_replaces_scalars_and_keeps_others() {
    let mut target = table(vec![
        ("a", TomlValue::Integer(1)),
        ("b", TomlValue::Boolean(true)),
    ]);
    let addition = table(vec![
        ("a", TomlValue::Integer(7)),
        ("c", TomlValue::String("new".into())),
    ]);
    merge_tables(&mut target, addition, None).expect("merge");
    assert_eq!(get(&target, "a").and_then(int_of), Some(7));
    assert!(matches!(get(&target, "b"), Some(TomlValue::Boolean(true))));
    assert!(matches!(get(&target, "c"), Some(TomlValue::String(s)) if s == "new"));
    assert_eq!(target.len(), 3);
}

#[test]
fn merge_tables_stops_at_first_error() {
    let mut target = table(vec![]);
    let addition = table(vec![
        ("bad+", TomlValue::Integer(1)),
        ("later", TomlValue::Integer(2)),
    ]);
    assert!(merge_tables(&mut target, addition, None).is_err());
    assert!(get(&target, "later").is_none());
}

#[test]
fn preview_filter_is_dropped_with_warning() {
    let file = table(vec![("preview_filter", TomlValue::String("x".into()))]);
    assert!(sets_preview_filter(&file));
    let mut merged = table(vec![
        ("preview_filter", TomlValue::String("x".into())),
        ("provider", TomlValue::String("codex".into())),
    ]);
    let warning = drop_preview_filter(&mut merged, true).expect("warning");
    assert!(warning.message.contains("preview_filter"));
    assert!(get(&merged, "preview_filter").is_none());
    assert!(get(&merged, "provider").is_some());

    let mut untouched = table(vec![("provider", TomlValue::String("codex".into()))]);
    assert!(drop_preview_filter(&mut untouched, false).is_none());
    assert_eq!(untouched.len(), 1);
}

#[test]
fn merge_tables_error_keeps_entries_merged_before() {
    let mut target = table(vec![("items", TomlValue::Array(vec![TomlValue::Integer(1)]))]);
    let addition = table(vec![
        ("a", TomlValue::Integer(3)),
        ("items+", TomlValue::Integer(2)),
        ("b", TomlValue::Integer(4)),
    ]);
    assert!(merge_tables(&mut target, addition, None).is_err());
    assert_eq!(target.len(), 2);
    assert_eq!(get(&target, "a").and_then(int_of), Some(3));
    assert!(get(&target, "b").is_none());
    assert!(matches!(get(&target, "items"), Some(TomlValue::Array(v)) if v.len() == 1));
}

#[test]
fn merge_tables_null_removes_key_and_keeps_others() {
    let mut target = table(vec![
        ("a", TomlValue::Integer(1)),
        ("gone", TomlValue::Integer(2)),
        ("b", TomlValue::Integer(3)),
    ]);
    let addition = table(vec![("gone", TomlValue::Array(Vec::new()))]);
    merge_tables(&mut target, addition, None).expect("merge");
    assert_eq!(target.len(), 2);
    assert_eq!(target[0].0, "a");
    assert_eq!(target[1].0, "b");
    assert!(get(&target, "gone").is_none());
}
