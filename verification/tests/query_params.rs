use rsts::json::{JsonNumber, JsonValue};
use rsts::query::{classify_query_key, merge_query_values};

fn n(v: u64) -> JsonValue {
    JsonValue::Number(JsonNumber::PosInt(v))
}

fn s(v: &str) -> JsonValue {
    JsonValue::Str(v.to_string())
}

#[test]
fn json_keys_are_recognised_and_trimmed() {
    assert_eq!(classify_query_key("markers.json"), ("markers".to_string(), true));
    assert_eq!(classify_query_key("polygons_json"), ("polygons".to_string(), true));
    assert_eq!(classify_query_key("a.json.json"), ("a".to_string(), true));
    assert_eq!(classify_query_key("a.json_json"), ("a.json".to_string(), true));
    assert_eq!(classify_query_key("a_json.json"), ("a".to_string(), true));
    assert_eq!(classify_query_key("zoom"), ("zoom".to_string(), false));
    assert_eq!(classify_query_key(".json"), ("".to_string(), true));
}

#[test]
fn repeated_names_become_arrays() {
    let merged = merge_query_values(vec![
        ("a".to_string(), n(1)),
        ("b".to_string(), s("x")),
        ("a".to_string(), n(3)),
        ("a".to_string(), n(4)),
    ]);
    assert_eq!(
        merged,
        vec![
            ("a".to_string(), JsonValue::Array(vec![n(1), n(3), n(4)])),
            ("b".to_string(), s("x")),
        ]
    );
}

#[test]
fn repeated_name_extends_existing_array() {
    let merged = merge_query_values(vec![
        ("a".to_string(), JsonValue::Array(vec![n(1)])),
        ("a".to_string(), n(2)),
    ]);
    assert_eq!(merged, vec![("a".to_string(), JsonValue::Array(vec![n(1), n(2)]))]);
}

#[test]
fn distinct_names_are_unchanged() {
    let params = vec![("x".to_string(), n(1)), ("y".to_string(), JsonValue::Null), ("z".to_string(), JsonValue::Bool(true))];
    let expected = vec![("x".to_string(), n(1)), ("y".to_string(), JsonValue::Null), ("z".to_string(), JsonValue::Bool(true))];
    assert_eq!(merge_query_values(params), expected);
    assert_eq!(merge_query_values(vec![]), vec![]);
}

fn as_map(entries: &[(String, JsonValue)]) -> std::collections::BTreeMap<String, String> {
    entries.iter().map(|(k, v)| (k.clone(), format!("{:?}", v))).collect()
}

#[test]
fn reordering_parameters_keeps_the_context() {
    let params = vec![
        ("a".to_string(), n(1)),
        ("b".to_string(), s("x")),
        ("a".to_string(), n(2)),
        ("c".to_string(), JsonValue::Bool(false)),
    ];
    let reordered = vec![
        ("c".to_string(), JsonValue::Bool(false)),
        ("a".to_string(), n(1)),
        ("a".to_string(), n(2)),
        ("b".to_string(), s("x")),
    ];
    let first = merge_query_values(params);
    let second = merge_query_values(reordered);
    assert_ne!(first, second);
    assert_eq!(as_map(&first), as_map(&second));
    let names: Vec<&str> = first.iter().map(|(k, _)| k.as_str()).collect();
    assert_eq!(names, vec!["a", "b", "c"]);
    assert_eq!(first[1].1, s("x"));
}

#[test]
fn swapping_values_of_one_name_changes_the_context() {
    let one = merge_query_values(vec![("a".to_string(), n(1)), ("a".to_string(), n(2))]);
    let other = merge_query_values(vec![("a".to_string(), n(2)), ("a".to_string(), n(1))]);
    assert_ne!(as_map(&one), as_map(&other));
}
