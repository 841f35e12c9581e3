//! The loader: turns the raw bytes of a saved `key:value` file into store
//! contents. Lines are split on `'\n'`; each line is split on its first
//! colon; lines without a colon are dropped silently; a later line with a
//! repeated key overwrites the earlier one.

use vstd::prelude::*;
use vstd::string::StrSliceExecFns;

verus! {

use crate::store::Snippet;
use vstd::utf8::decode_utf8;
use vstd::utf8::valid_utf8;

/// Why loading failed: the raw bytes were not valid text.
#[derive(Debug)]
pub enum LoadError {
    InvalidText,
}

/// The index of the first occurrence of `c` in `s`, if there is one.
pub open spec fn find_first(s: Seq<char>, c: char) -> Option<int>
    decreases s.len(),
{
    if s.len() == 0 {
        None
    } else if s[0] == c {
        Some(0int)
    } else {
        match find_first(s.subrange(1, s.len() as int), c) {
            None => None,
            Some(i) => Some(i + 1),
        }
    }
}

/// `find_first` yields an in-range index of the first occurrence, or reports
/// that the character does not occur at all.
pub proof fn lemma_find_first(s: Seq<char>, c: char)
    ensures
        match find_first(s, c) {
            Some(i) => 0 <= i < s.len() && s[i] == c && forall|j: int| 0 <= j < i ==> s[j] != c,
            None => forall|j: int| 0 <= j < s.len() ==> s[j] != c,
        },
    decreases s.len(),
{
    if s.len() == 0 {
    } else if s[0] == c {
    } else {
        let t = s.subrange(1, s.len() as int);
        lemma_find_first(t, c);
        match find_first(t, c) {
            None => {
                assert forall|j: int| 0 <= j < s.len() implies s[j] != c by {
                    if j > 0 {
                        assert(t[j - 1] == s[j]);
                    }
                }
            },
            Some(i) => {
                assert(t[i] == s[i + 1]);
                assert forall|j: int| 0 <= j < i + 1 implies s[j] != c by {
                    if j > 0 {
                        assert(t[j - 1] == s[j]);
                    }
                }
            },
        }
    }
}

proof fn lemma_first_occurrence(s: Seq<char>, c: char, i: int)
    requires
        0 <= i < s.len(),
        s[i] == c,
        forall|j: int| 0 <= j < i ==> s[j] != c,
    ensures
        find_first(s, c) == Some(i),
{
    lemma_find_first(s, c);
    match find_first(s, c) {
        None => {
            assert(s[i] != c);
        },
        Some(i2) => {
            if i2 < i {
                assert(s[i2] != c);
            } else if i < i2 {
                assert(s[i] != c);
            }
        },
    }
}

proof fn lemma_no_occurrence(s: Seq<char>, c: char)
    requires
        forall|j: int| 0 <= j < s.len() ==> s[j] != c,
    ensures
        find_first(s, c) is None,
{
    lemma_find_first(s, c);
    match find_first(s, c) {
        None => {},
        Some(i) => {
            assert(s[i] != c);
        },
    }
}

/// The index of the first occurrence of `c` in `s`, found by a scan.
fn find_char(s: &str, c: char) -> (r: Option<usize>)
    ensures
        match r {
            Some(i) => i < s@.len() && find_first(s@, c) == Some(i as int),
            None => find_first(s@, c) is None,
        },
{
    let n = s.unicode_len();
    let mut idx: usize = 0;
    while idx < n
        invariant
            n == s@.len(),
            idx <= n,
            forall|j: int| 0 <= j < idx ==> s@[j] != c,
        decreases n - idx,
    {
        if s.get_char(idx) == c {
            proof {
                lemma_first_occurrence(s@, c, idx as int);
            }
            return Some(idx);
        }
        idx += 1;
    }
    proof {
        lemma_no_occurrence(s@, c);
    }
    None
}

/// The key and value of one line: the text before and after its first colon;
/// nothing for a line without a colon.
pub open spec fn split_line(line: Seq<char>) -> Option<(Seq<char>, Seq<char>)> {
    match find_first(line, ':') {
        None => None,
        Some(i) => Some((line.subrange(0, i), line.subrange(i + 1, line.len() as int))),
    }
}

/// The store contents after reading one line: the line's pair is inserted,
/// or the contents stay as they were for a line without a colon.
pub open spec fn line_applied(line: Seq<char>, m: Map<Seq<char>, Seq<char>>) -> Map<
    Seq<char>,
    Seq<char>,
> {
    match split_line(line) {
        None => m,
        Some(p) => m.insert(p.0, p.1),
    }
}

/// The store contents after reading every line of `text` in order, starting
/// from contents `m`: a later line with a repeated key wins.
pub open spec fn load(text: Seq<char>, m: Map<Seq<char>, Seq<char>>) -> Map<Seq<char>, Seq<char>>
    decreases text.len(),
{
    match find_first(text, '\n') {
        None => line_applied(text, m),
        Some(i) => {
            proof {
                lemma_find_first(text, '\n');
            }
            load(text.subrange(i + 1, text.len() as int), line_applied(text.subrange(0, i), m))
        },
    }
}

/// Applies one line to the store: inserts its `key:value` pair, or leaves
/// the store alone for a line without a colon.
fn apply_line(line: &str, snippet: &mut Snippet)
    requires
        old(snippet).wf(),
    ensures
        final(snippet).wf(),
        final(snippet)@ == line_applied(line@, old(snippet)@),
{
    match find_char(line, ':') {
        Some(i) => {
            let key = line.substring_char(0, i).to_owned();
            let n = line.unicode_len();
            let value = line.substring_char(i + 1, n).to_owned();
            let _ = snippet.create(key, value);
        },
        None => {},
    }
}

/// Reads `text` into `snippet`, one line at a time, in order.
fn load_text(text: &str, snippet: &mut Snippet)
    requires
        old(snippet).wf(),
    ensures
        final(snippet).wf(),
        final(snippet)@ == load(text@, old(snippet)@),
    decreases text@.len(),
{
    match find_char(text, '\n') {
        None => apply_line(text, snippet),
        Some(i) => {
            let line = text.substring_char(0, i);
            apply_line(line, snippet);
            let n = text.unicode_len();
            let rest = text.substring_char(i + 1, n);
            load_text(rest, snippet);
        },
    }
}

/// Relies on `String::from_utf8`: it returns `Ok` exactly when the bytes are
/// a valid UTF-8 encoding, and the returned string then holds the characters
/// those bytes encode.
#[verifier::external_body]
fn bytes_to_string(raw: Vec<u8>) -> (r: Option<String>)
    ensures
        r is Some <==> valid_utf8(raw@),
        r is Some ==> r->Some_0@ == decode_utf8(raw@),
{
    String::from_utf8(raw).ok()
}

/// Builds store contents from the raw bytes of a saved file. Every
/// `key:value` line of the decoded text is inserted in order, so a later
/// line with a repeated key overwrites the earlier one; lines without a
/// colon are dropped silently; bytes that are not valid text are reported as
/// an error, and only then.
pub fn input_to_snippet(raw_data: Vec<u8>, snippet: Snippet) -> (r: Result<Snippet, LoadError>)
    requires
        snippet.wf(),
    ensures
        r is Ok <==> valid_utf8(raw_data@),
        r is Ok ==> r->Ok_0.wf() && r->Ok_0@ == load(decode_utf8(raw_data@), snippet@),
        r is Err ==> r->Err_0 == LoadError::InvalidText,
{
    match bytes_to_string(raw_data) {
        Some(text) => {
            let mut result = snippet;
            load_text(text.as_str(), &mut result);
            Ok(result)
        },
        None => Err(LoadError::InvalidText),
    }
}

/// Loading empty text changes nothing: from any starting contents `m` the
/// result is `m` again, so loading an empty byte sequence into an empty
/// store yields an empty store.
pub proof fn lemma_load_empty(m: Map<Seq<char>, Seq<char>>)
    ensures
        load(Seq::<char>::empty(), m) == m,
{
    assert(find_first(Seq::<char>::empty(), '\n') is None);
    assert(split_line(Seq::<char>::empty()) is None);
}

} // verus!
