use snippet_store::loader::input_to_snippet;
use snippet_store::loader::LoadError;
use snippet_store::store::Snippet;

#[test]
fn load_mixed_lines_last_write_wins() {
    let bytes = b"a:1\nb:2\nbadline\na:3".to_vec();
    let s = input_to_snippet(bytes, Snippet::default()).unwrap();
    assert_eq!(s.len(), 2);
    assert_eq!(s.retrieve("a".to_string()), Some(&"3".to_string()));
    assert_eq!(s.retrieve("b".to_string()), Some(&"2".to_string()));
    assert_eq!(s.retrieve("badline".to_string()), None);
}

#[test]
fn load_empty_bytes_yields_empty_store() {
    let s = input_to_snippet(Vec::new(), Snippet::default()).unwrap();
    assert_eq!(s.len(), 0);
    assert_eq!(s.retrieve(String::new()), None);
}

#[test]
fn load_invalid_text_is_an_error() {
    let r = input_to_snippet(vec![0xff, 0xfe], Snippet::default());
    assert!(matches!(r, Err(LoadError::InvalidText)));
}

#[test]
fn value_keeps_text_after_first_colon() {
    let s = input_to_snippet(b"a:b:c".to_vec(), Snippet::default()).unwrap();
    assert_eq!(s.retrieve("a".to_string()), Some(&"b:c".to_string()));
    assert_eq!(s.len(), 1);
}

#[test]
fn empty_key_and_empty_value_are_kept() {
    let s = input_to_snippet(b":v\nk:".to_vec(), Snippet::default()).unwrap();
    assert_eq!(s.retrieve(String::new()), Some(&"v".to_string()));
    assert_eq!(s.retrieve("k".to_string()), Some(&String::new()));
    assert_eq!(s.len(), 2);
}

#[test]
fn trailing_newline_adds_no_entry() {
    let s = input_to_snippet(b"a:1\n".to_vec(), Snippet::default()).unwrap();
    assert_eq!(s.len(), 1);
    assert_eq!(s.retrieve("a".to_string()), Some(&"1".to_string()));
}

#[test]
fn multibyte_text_survives_decoding() {
    let bytes = "\u{e9}:caf\u{e9}\u{1F600}".as_bytes().to_vec();
    let s = input_to_snippet(bytes, Snippet::default()).unwrap();
    assert_eq!(s.retrieve("\u{e9}".to_string()), Some(&"caf\u{e9}\u{1F600}".to_string()));
}

#[test]
fn load_overwrites_existing_entries() {
    let mut start = Snippet::default();
    start.create("a".to_string(), "0".to_string());
    start.create("z".to_string(), "9".to_string());
    let s = input_to_snippet(b"a:1".to_vec(), start).unwrap();
    assert_eq!(s.len(), 2);
    assert_eq!(s.retrieve("a".to_string()), Some(&"1".to_string()));
    assert_eq!(s.retrieve("z".to_string()), Some(&"9".to_string()));
}
