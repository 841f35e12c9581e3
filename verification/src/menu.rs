//! The menu layer: the single-letter commands of the interactive session,
//! and the carrying-out of one chosen command against the store. Prompting
//! and printing stay with the caller; this module only decides and acts.

use vstd::prelude::*;

verus! {

use crate::store::Snippet;

/// A user's menu choice.
#[derive(Clone, Copy, Debug, PartialEq, Eq)]
pub enum Menu {
    Create,
    Retrieve,
    Update,
    Delete,
    Exit,
}

/// What one carried-out menu choice did, for the caller to report.
#[derive(Debug, PartialEq, Eq)]
pub enum MenuOutcome {
    /// A pair was stored; holds the value the key had before, if any.
    Created(Option<String>),
    /// The key was present; holds a copy of its value.
    Retrieved(String),
    /// The key was absent, so there was nothing to retrieve.
    NoMatch,
    /// The value under the key was replaced.
    Updated,
    /// The key was absent; holds the not-found message.
    UpdateFailed(String),
    /// The entry was removed; holds the removed key and value.
    Deleted(String, String),
    /// The key was absent, so nothing was removed.
    NothingDeleted,
    /// The session is over.
    Exited,
}

/// The menu choice that a line of user input selects: one of the letters
/// `C`, `R`, `U`, `D`, `E`, in either case; anything else is invalid.
pub open spec fn choice_of(s: Seq<char>) -> Option<Menu> {
    if s.len() != 1 {
        None
    } else if s[0] == 'C' || s[0] == 'c' {
        Some(Menu::Create)
    } else if s[0] == 'R' || s[0] == 'r' {
        Some(Menu::Retrieve)
    } else if s[0] == 'U' || s[0] == 'u' {
        Some(Menu::Update)
    } else if s[0] == 'D' || s[0] == 'd' {
        Some(Menu::Delete)
    } else if s[0] == 'E' || s[0] == 'e' {
        Some(Menu::Exit)
    } else {
        None
    }
}

/// Reads a line of user input as a menu choice, case-insensitively;
/// `None` stands for an invalid choice.
pub fn parse_choice(input: &str) -> (r: Option<Menu>)
    ensures
        r == choice_of(input@),
{
    let n = input.unicode_len();
    if n != 1 {
        return None;
    }
    let c = input.get_char(0);
    if c == 'C' || c == 'c' {
        Some(Menu::Create)
    } else if c == 'R' || c == 'r' {
        Some(Menu::Retrieve)
    } else if c == 'U' || c == 'u' {
        Some(Menu::Update)
    } else if c == 'D' || c == 'd' {
        Some(Menu::Delete)
    } else if c == 'E' || c == 'e' {
        Some(Menu::Exit)
    } else {
        None
    }
}

/// Carries out one menu choice against the store, using the key and value
/// the user supplied, and says what happened. `key` is ignored for `Exit`,
/// and `value` matters only for `Create` and `Update`.
pub fn handle_menu_choice(choice: Menu, snippet: &mut Snippet, key: String, value: String) -> (outcome:
    MenuOutcome)
    requires
        old(snippet).wf(),
    ensures
        final(snippet).wf(),
        match choice {
            Menu::Create => {
                &&& final(snippet)@ == old(snippet)@.insert(key@, value@)
                &&& match outcome {
                    MenuOutcome::Created(prior) => match prior {
                        Some(p) => old(snippet)@.contains_key(key@) && p@ == old(snippet)@[key@],
                        None => !old(snippet)@.contains_key(key@),
                    },
                    _ => false,
                }
            },
            Menu::Retrieve => {
                &&& final(snippet)@ == old(snippet)@
                &&& match outcome {
                    MenuOutcome::Retrieved(v) => old(snippet)@.contains_key(key@)
                        && v@ == old(snippet)@[key@],
                    MenuOutcome::NoMatch => !old(snippet)@.contains_key(key@),
                    _ => false,
                }
            },
            Menu::Update => {
                match outcome {
                    MenuOutcome::Updated => old(snippet)@.contains_key(key@) && final(snippet)@
                        == old(snippet)@.insert(key@, value@),
                    MenuOutcome::UpdateFailed(msg) => !old(snippet)@.contains_key(key@)
                        && final(snippet)@ == old(snippet)@
                        && msg@ == "Item '"@ + key@ + "' not found"@,
                    _ => false,
                }
            },
            Menu::Delete => {
                &&& final(snippet)@ == old(snippet)@.remove(key@)
                &&& match outcome {
                    MenuOutcome::Deleted(k, v) => old(snippet)@.contains_key(key@) && k@ == key@
                        && v@ == old(snippet)@[key@],
                    MenuOutcome::NothingDeleted => !old(snippet)@.contains_key(key@),
                    _ => false,
                }
            },
            Menu::Exit => final(snippet)@ == old(snippet)@ && outcome == MenuOutcome::Exited,
        },
{
    match choice {
        Menu::Create => {
            let prior = snippet.create(key, value);
            MenuOutcome::Created(prior)
        },
        Menu::Retrieve => {
            match snippet.retrieve(key) {
                Some(v) => MenuOutcome::Retrieved(v.clone()),
                None => MenuOutcome::NoMatch,
            }
        },
        Menu::Update => {
            match snippet.update(key, value) {
                Ok(()) => MenuOutcome::Updated,
                Err(msg) => MenuOutcome::UpdateFailed(msg),
            }
        },
        Menu::Delete => {
            match snippet.delete(key) {
                Some(pair) => MenuOutcome::Deleted(pair.0, pair.1),
                None => MenuOutcome::NothingDeleted,
            }
        },
        Menu::Exit => MenuOutcome::Exited,
    }
}

} // verus!
