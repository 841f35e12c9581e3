use snippet_store::store::Snippet;

#[test]
fn create_then_retrieve_returns_value() {
    let mut s = Snippet::default();
    assert_eq!(s.create("alpha".to_string(), "one".to_string()), None);
    assert_eq!(s.retrieve("alpha".to_string()), Some(&"one".to_string()));
}

#[test]
fn retrieve_missing_is_absent() {
    let s = Snippet::default();
    assert_eq!(s.retrieve("alpha".to_string()), None);
}

#[test]
fn create_on_existing_returns_prior_and_replaces() {
    let mut s = Snippet::default();
    assert_eq!(s.create("k".to_string(), "v1".to_string()), None);
    assert_eq!(s.create("k".to_string(), "v2".to_string()), Some("v1".to_string()));
    assert_eq!(s.retrieve("k".to_string()), Some(&"v2".to_string()));
    assert_eq!(s.len(), 1);
}

#[test]
fn delete_then_retrieve_is_absent() {
    let mut s = Snippet::default();
    s.create("a".to_string(), "1".to_string());
    assert_eq!(s.delete("a".to_string()), Some(("a".to_string(), "1".to_string())));
    assert_eq!(s.retrieve("a".to_string()), None);
    assert_eq!(s.len(), 0);
}

#[test]
fn delete_absent_key_reports_absence() {
    let mut s = Snippet::default();
    assert_eq!(s.delete("a".to_string()), None);
    assert_eq!(s.retrieve("a".to_string()), None);
}

#[test]
fn update_existing_changes_value() {
    let mut s = Snippet::default();
    s.create("k".to_string(), "v1".to_string());
    assert_eq!(s.update("k".to_string(), "v2".to_string()), Ok(()));
    assert_eq!(s.retrieve("k".to_string()), Some(&"v2".to_string()));
}

#[test]
fn update_absent_reports_not_found_and_leaves_store_unchanged() {
    let mut s = Snippet::default();
    s.create("a".to_string(), "1".to_string());
    let r = s.update("missing".to_string(), "x".to_string());
    assert_eq!(r, Err("Item 'missing' not found".to_string()));
    assert_eq!(s.len(), 1);
    assert_eq!(s.retrieve("a".to_string()), Some(&"1".to_string()));
    assert_eq!(s.retrieve("missing".to_string()), None);
}
