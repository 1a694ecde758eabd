//! Behaviour of the handle boundary: typed accessors, status codes, null
//! handling, string lifetime, and the three-layer scenario.

use config_loader::ConfigValue;
use config_loader::ViaConfig;
use config_loader::ViaConfigStatus;
use config_loader::free;
use config_loader::get_boolean;
use config_loader::get_float;
use config_loader::get_integer;
use config_loader::get_string;
use config_loader::status_to_string;

fn map_of(entries: Vec<(&str, ConfigValue)>) -> ConfigValue {
    let mut v: Vec<(String, ConfigValue)> = Vec::new();
    for (k, val) in entries {
        v.push((k.to_string(), val));
    }
    ConfigValue::Mapping(v)
}

fn empty_map() -> ConfigValue {
    ConfigValue::Mapping(Vec::new())
}

#[test]
fn typed_get_returns_exact_values() {
    let system = map_of(vec![
        ("name", ConfigValue::Text("unit".to_string())),
        ("count", ConfigValue::Integer(-3)),
        ("ratio", ConfigValue::Float(2.5f64.to_bits())),
        ("enabled", ConfigValue::Boolean(true)),
    ]);
    let cfg = ViaConfig::from_trees(system, empty_map(), empty_map());

    let mut s: Option<&String> = None;
    assert_eq!(get_string(Some(&cfg), Some("name"), &mut s), ViaConfigStatus::Success);
    assert_eq!(s.unwrap(), "unit");

    let mut i: i64 = 0;
    assert_eq!(get_integer(Some(&cfg), Some("count"), &mut i), ViaConfigStatus::Success);
    assert_eq!(i, -3);

    let mut f: u64 = 0;
    assert_eq!(get_float(Some(&cfg), Some("ratio"), &mut f), ViaConfigStatus::Success);
    assert_eq!(f64::from_bits(f), 2.5);

    let mut b: bool = false;
    assert_eq!(get_boolean(Some(&cfg), Some("enabled"), &mut b), ViaConfigStatus::Success);
    assert!(b);
}

#[test]
fn typed_get_type_mismatch_leaves_slot_unwritten() {
    let system = map_of(vec![("name", ConfigValue::Text("unit".to_string()))]);
    let cfg = ViaConfig::from_trees(system, empty_map(), empty_map());

    let mut i: i64 = 123;
    assert_eq!(get_integer(Some(&cfg), Some("name"), &mut i), ViaConfigStatus::TypeError);
    assert_eq!(i, 123);

    let mut f: u64 = 77;
    assert_eq!(get_float(Some(&cfg), Some("name"), &mut f), ViaConfigStatus::TypeError);
    assert_eq!(f, 77);

    let mut b: bool = true;
    assert_eq!(get_boolean(Some(&cfg), Some("name"), &mut b), ViaConfigStatus::TypeError);
    assert!(b);

    let cfg2 = ViaConfig::from_trees(
        map_of(vec![("count", ConfigValue::Integer(1))]),
        empty_map(),
        empty_map(),
    );
    let mut s: Option<&String> = None;
    assert_eq!(get_string(Some(&cfg2), Some("count"), &mut s), ViaConfigStatus::TypeError);
    assert!(s.is_none());
}

#[test]
fn typed_get_missing_key_is_key_not_found() {
    let cfg = ViaConfig::from_trees(empty_map(), empty_map(), empty_map());
    let mut i: i64 = 5;
    assert_eq!(get_integer(Some(&cfg), Some("missing.key"), &mut i), ViaConfigStatus::KeyNotFound);
    assert_eq!(i, 5);
}

#[test]
fn null_arguments_are_rejected_first() {
    let cfg = ViaConfig::from_trees(empty_map(), empty_map(), empty_map());

    let mut i: i64 = 9;
    assert_eq!(get_integer(None, Some("a"), &mut i), ViaConfigStatus::NullArgument);
    assert_eq!(get_integer(Some(&cfg), None, &mut i), ViaConfigStatus::NullArgument);
    assert_eq!(get_integer(None, None, &mut i), ViaConfigStatus::NullArgument);
    assert_eq!(i, 9);

    let mut s: Option<&String> = None;
    assert_eq!(get_string(None, Some("a"), &mut s), ViaConfigStatus::NullArgument);
    assert!(s.is_none());

    let mut f: u64 = 4;
    assert_eq!(get_float(None, Some("a"), &mut f), ViaConfigStatus::NullArgument);
    assert_eq!(f, 4);

    let mut b: bool = false;
    assert_eq!(get_boolean(Some(&cfg), None, &mut b), ViaConfigStatus::NullArgument);
    assert!(!b);
}

#[test]
fn string_can_be_copied_before_free() {
    let system = map_of(vec![("greeting", ConfigValue::Text("hello".to_string()))]);
    let cfg = ViaConfig::from_trees(system, empty_map(), empty_map());

    let mut s: Option<&String> = None;
    assert_eq!(get_string(Some(&cfg), Some("greeting"), &mut s), ViaConfigStatus::Success);
    let copied: String = s.unwrap().clone();
    free(cfg);
    assert_eq!(copied, "hello");
}

#[test]
fn layered_scenario_with_three_documents() {
    // system: {log-level: "info"}; hardware: {camera: {device-id: 0}};
    // profile: {log-level: "debug"}.
    let system = map_of(vec![("log-level", ConfigValue::Text("info".to_string()))]);
    let hardware = map_of(vec![("camera", map_of(vec![("device-id", ConfigValue::Integer(0))]))]);
    let profile = map_of(vec![("log-level", ConfigValue::Text("debug".to_string()))]);
    let cfg = ViaConfig::from_trees(system, hardware, profile);

    // The merge policy never lets a later layer override an existing
    // non-mapping value, so the system's scalar survives.
    let mut s: Option<&String> = None;
    assert_eq!(get_string(Some(&cfg), Some("log-level"), &mut s), ViaConfigStatus::Success);
    assert_eq!(s.unwrap(), "info");

    let mut i: i64 = -1;
    assert_eq!(get_integer(Some(&cfg), Some("camera.device-id"), &mut i), ViaConfigStatus::Success);
    assert_eq!(i, 0);

    assert_eq!(get_string(Some(&cfg), Some("missing.key"), &mut s), ViaConfigStatus::KeyNotFound);
}

#[test]
fn hardware_only_key_survives_merge_untouched() {
    let system = map_of(vec![("log-level", ConfigValue::Text("info".to_string()))]);
    let hardware = map_of(vec![("camera", map_of(vec![("device-id", ConfigValue::Integer(0))]))]);
    let profile = map_of(vec![("user", ConfigValue::Text("joao".to_string()))]);
    let cfg = ViaConfig::from_trees(system, hardware, profile);

    let mut i: i64 = -1;
    assert_eq!(get_integer(Some(&cfg), Some("camera.device-id"), &mut i), ViaConfigStatus::Success);
    assert_eq!(i, 0);
}

#[test]
fn profile_extends_nested_mapping_of_earlier_layers() {
    let system = map_of(vec![(
        "threads",
        map_of(vec![("perception", ConfigValue::Integer(2))]),
    )]);
    let profile = map_of(vec![(
        "threads",
        map_of(vec![("reasoning", ConfigValue::Integer(4))]),
    )]);
    let cfg = ViaConfig::from_trees(system, empty_map(), profile);

    let mut i: i64 = 0;
    assert_eq!(get_integer(Some(&cfg), Some("threads.perception"), &mut i), ViaConfigStatus::Success);
    assert_eq!(i, 2);
    assert_eq!(get_integer(Some(&cfg), Some("threads.reasoning"), &mut i), ViaConfigStatus::Success);
    assert_eq!(i, 4);
}

#[test]
fn getting_a_mapping_through_a_typed_accessor_is_a_type_error() {
    let system = map_of(vec![("camera", map_of(vec![("device-id", ConfigValue::Integer(0))]))]);
    let cfg = ViaConfig::from_trees(system, empty_map(), empty_map());
    let mut i: i64 = 11;
    assert_eq!(get_integer(Some(&cfg), Some("camera"), &mut i), ViaConfigStatus::TypeError);
    assert_eq!(i, 11);
}

#[test]
fn status_texts_match_their_codes() {
    assert_eq!(status_to_string(ViaConfigStatus::Success), "Ok");
    assert_eq!(status_to_string(ViaConfigStatus::FileNotFound), "Error: File not found");
    assert_eq!(
        status_to_string(ViaConfigStatus::ParseError),
        "Error: Could not parse YAML file"
    );
    assert_eq!(
        status_to_string(ViaConfigStatus::KeyNotFound),
        "Error: The requested key was not found"
    );
    assert_eq!(
        status_to_string(ViaConfigStatus::TypeError),
        "Error: Value has an unexpected type"
    );
    assert_eq!(
        status_to_string(ViaConfigStatus::NullArgument),
        "Error: A null argument was provided"
    );
    assert_eq!(
        status_to_string(ViaConfigStatus::InternalError),
        "Error: An internal error occurred in the Rust library"
    );
}
