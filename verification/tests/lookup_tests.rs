//! Behaviour of dot-path splitting and tree traversal.

use config_loader::ConfigValue;
use config_loader::lookup::get_value_by_key;
use config_loader::lookup::split_key;

fn map_of(entries: Vec<(&str, ConfigValue)>) -> ConfigValue {
    let mut v: Vec<(String, ConfigValue)> = Vec::new();
    for (k, val) in entries {
        v.push((k.to_string(), val));
    }
    ConfigValue::Mapping(v)
}

#[test]
fn split_key_on_plain_path() {
    let segs = split_key("a.b.c");
    assert_eq!(segs, vec!["a".to_string(), "b".to_string(), "c".to_string()]);
}

#[test]
fn split_key_without_dots() {
    assert_eq!(split_key("alpha"), vec!["alpha".to_string()]);
}

#[test]
fn split_key_of_empty_path_is_one_empty_segment() {
    assert_eq!(split_key(""), vec![String::new()]);
}

#[test]
fn split_key_keeps_empty_segments() {
    assert_eq!(
        split_key("a..b"),
        vec!["a".to_string(), String::new(), "b".to_string()]
    );
    assert_eq!(split_key("a."), vec!["a".to_string(), String::new()]);
}

#[test]
fn lookup_finds_nested_value() {
    let root = map_of(vec![(
        "a",
        map_of(vec![("b", map_of(vec![("c", ConfigValue::Integer(42))]))]),
    )]);
    match get_value_by_key(&root, "a.b.c") {
        Some(ConfigValue::Integer(i)) => assert_eq!(*i, 42),
        _ => panic!("expected to find the nested integer"),
    }
}

#[test]
fn lookup_returns_mapping_values_too() {
    let root = map_of(vec![("a", map_of(vec![("b", ConfigValue::Null)]))]);
    match get_value_by_key(&root, "a") {
        Some(ConfigValue::Mapping(e)) => assert_eq!(e.len(), 1),
        _ => panic!("expected the inner mapping"),
    }
}

#[test]
fn lookup_missing_segment_fails() {
    let root = map_of(vec![("a", map_of(vec![("b", ConfigValue::Integer(1))]))]);
    assert!(get_value_by_key(&root, "a.x").is_none());
    assert!(get_value_by_key(&root, "x.b").is_none());
}

#[test]
fn lookup_through_non_mapping_fails() {
    let root = map_of(vec![("a", ConfigValue::Integer(1))]);
    assert!(get_value_by_key(&root, "a.b").is_none());
}

#[test]
fn lookup_on_non_mapping_root_fails() {
    let root = ConfigValue::Integer(3);
    assert!(get_value_by_key(&root, "a").is_none());
}

#[test]
fn lookup_empty_path_names_the_empty_key() {
    let root = map_of(vec![("", ConfigValue::Integer(7))]);
    match get_value_by_key(&root, "") {
        Some(ConfigValue::Integer(i)) => assert_eq!(*i, 7),
        _ => panic!("expected the value under the empty key"),
    }
    let other = map_of(vec![("a", ConfigValue::Integer(1))]);
    assert!(get_value_by_key(&other, "").is_none());
}
