use snippet_store::menu::handle_menu_choice;
use snippet_store::menu::parse_choice;
use snippet_store::menu::Menu;
use snippet_store::menu::MenuOutcome;
use snippet_store::store::Snippet;

#[test]
fn parse_choice_accepts_both_cases() {
    assert_eq!(parse_choice("c"), Some(Menu::Create));
    assert_eq!(parse_choice("C"), Some(Menu::Create));
    assert_eq!(parse_choice("R"), Some(Menu::Retrieve));
    assert_eq!(parse_choice("u"), Some(Menu::Update));
    assert_eq!(parse_choice("D"), Some(Menu::Delete));
    assert_eq!(parse_choice("e"), Some(Menu::Exit));
}

#[test]
fn parse_choice_rejects_other_input() {
    assert_eq!(parse_choice(""), None);
    assert_eq!(parse_choice("x"), None);
    assert_eq!(parse_choice("CC"), None);
    assert_eq!(parse_choice("1"), None);
}

#[test]
fn menu_create_then_retrieve() {
    let mut s = Snippet::default();
    let out = handle_menu_choice(Menu::Create, &mut s, "k".to_string(), "v".to_string());
    assert_eq!(out, MenuOutcome::Created(None));
    let out = handle_menu_choice(Menu::Retrieve, &mut s, "k".to_string(), String::new());
    assert_eq!(out, MenuOutcome::Retrieved("v".to_string()));
}

#[test]
fn menu_retrieve_missing_reports_no_match() {
    let mut s = Snippet::default();
    let out = handle_menu_choice(Menu::Retrieve, &mut s, "k".to_string(), String::new());
    assert_eq!(out, MenuOutcome::NoMatch);
}

#[test]
fn menu_update_present_and_absent() {
    let mut s = Snippet::default();
    handle_menu_choice(Menu::Create, &mut s, "k".to_string(), "v1".to_string());
    let out = handle_menu_choice(Menu::Update, &mut s, "k".to_string(), "v2".to_string());
    assert_eq!(out, MenuOutcome::Updated);
    assert_eq!(s.retrieve("k".to_string()), Some(&"v2".to_string()));
    let out = handle_menu_choice(Menu::Update, &mut s, "nope".to_string(), "v".to_string());
    assert_eq!(out, MenuOutcome::UpdateFailed("Item 'nope' not found".to_string()));
    assert_eq!(s.len(), 1);
}

#[test]
fn menu_delete_present_and_absent() {
    let mut s = Snippet::default();
    handle_menu_choice(Menu::Create, &mut s, "k".to_string(), "v".to_string());
    let out = handle_menu_choice(Menu::Delete, &mut s, "k".to_string(), String::new());
    assert_eq!(out, MenuOutcome::Deleted("k".to_string(), "v".to_string()));
    let out = handle_menu_choice(Menu::Delete, &mut s, "k".to_string(), String::new());
    assert_eq!(out, MenuOutcome::NothingDeleted);
    assert_eq!(s.len(), 0);
}

#[test]
fn menu_exit_changes_nothing() {
    let mut s = Snippet::default();
    handle_menu_choice(Menu::Create, &mut s, "k".to_string(), "v".to_string());
    let out = handle_menu_choice(Menu::Exit, &mut s, String::new(), String::new());
    assert_eq!(out, MenuOutcome::Exited);
    assert_eq!(s.len(), 1);
    assert_eq!(s.retrieve("k".to_string()), Some(&"v".to_string()));
}
