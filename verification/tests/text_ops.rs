use rsts::templates::{is_missing_templates_error, template_file_name};
use rsts::text::{contains_text, decimal_string, has_suffix, owned, replace_all, trim_end_matches};

#[test]
fn replace_fills_every_occurrence() {
    assert_eq!(replace_all("a{z}b{z}", "{z}", "7"), "a7b7");
}

#[test]
fn replace_scans_left_to_right_without_overlap() {
    assert_eq!(replace_all("aaa", "aa", "b"), "ba");
    assert_eq!(replace_all("abab", "ab", "ab!"), "ab!ab!");
}

#[test]
fn replace_without_occurrence_keeps_text() {
    assert_eq!(replace_all("no placeholders", "{x}", "1"), "no placeholders");
    assert_eq!(replace_all("", "{x}", "1"), "");
}

#[test]
fn replace_handles_multibyte_text() {
    assert_eq!(replace_all("über/straße", "/", "_"), "über_straße");
}

#[test]
fn trim_removes_repeated_suffixes() {
    assert_eq!(trim_end_matches("x.json.json", ".json"), "x");
    assert_eq!(trim_end_matches("http://host//", "/"), "http://host");
    assert_eq!(trim_end_matches("plain", "/"), "plain");
    assert_eq!(trim_end_matches("aaa", "aa"), "a");
}

#[test]
fn suffix_test() {
    assert!(has_suffix("markers.json", ".json"));
    assert!(!has_suffix("json", ".json"));
    assert!(has_suffix("x", ""));
}

#[test]
fn decimal_rendering() {
    assert_eq!(decimal_string(0), "0");
    assert_eq!(decimal_string(7), "7");
    assert_eq!(decimal_string(1024), "1024");
    assert_eq!(decimal_string(u32::MAX as u64), "4294967295");
    assert_eq!(decimal_string(u64::MAX), u64::MAX.to_string());
}

#[test]
fn owned_copies() {
    assert_eq!(owned("abc"), "abc".to_string());
}

#[test]
fn contains_finds_occurrences() {
    assert!(contains_text("abc", "bc"));
    assert!(contains_text("abc", ""));
    assert!(!contains_text("abc", "cd"));
    assert!(!contains_text("", "a"));
}

#[test]
fn template_files_and_missing_templates() {
    assert_eq!(template_file_name("grid"), "grid.json");
    assert!(is_missing_templates_error("Failed to parse: no templates found in dir"));
    assert!(is_missing_templates_error("glob did not match any files"));
    assert!(!is_missing_templates_error("Failed to parse 'a.json': unexpected token"));
}
