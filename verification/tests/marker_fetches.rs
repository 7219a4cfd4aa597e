use rsts::markers::MarkerFetches;

fn urls(v: &[&str]) -> Vec<String> {
    v.iter().map(|s| s.to_string()).collect()
}

#[test]
fn each_loaded_image_is_fetched_once() {
    let mut f = MarkerFetches::new(urls(&["a", "b", "a", "c", "b"]));
    assert_eq!(f.next_url().as_deref(), Some("a"));
    f.loaded("a".to_string());
    assert_eq!(f.next_url().as_deref(), Some("b"));
    f.loaded("b".to_string());
    assert_eq!(f.next_url().as_deref(), Some("c"));
    f.loaded("c".to_string());
    assert_eq!(f.next_url(), None);
    assert_eq!(f.next_url(), None);
}

#[test]
fn failed_image_is_tried_again() {
    let mut f = MarkerFetches::new(urls(&["a", "a"]));
    assert_eq!(f.next_url().as_deref(), Some("a"));
    assert_eq!(f.next_url().as_deref(), Some("a"));
    assert_eq!(f.next_url(), None);
}

#[test]
fn no_markers_nothing_to_fetch() {
    let mut f = MarkerFetches::new(vec![]);
    assert_eq!(f.next_url(), None);
}
