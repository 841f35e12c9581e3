//! The store: an associative container from text keys to text values,
//! implemented as a vector of entries with pairwise-distinct keys and
//! modelled as a `Map<Seq<char>, Seq<char>>`.

use vstd::prelude::*;
use vstd::string::StringExecFns;

verus! {

/// Result of an update: `Ok(())` on success, `Err` with a message when the
/// key was absent.
pub type UpdateResult = Result<(), String>;

/// No two entries of the sequence share a key.
pub open spec fn distinct_keys(s: Seq<(String, String)>) -> bool {
    forall|i: int, j: int|
        0 <= i < s.len() && 0 <= j < s.len() && i != j ==> (#[trigger] s[i]).0@ != (#[trigger] s[j]).0@
}

/// Some entry of the sequence has key `k`.
pub open spec fn has_key(s: Seq<(String, String)>, k: Seq<char>) -> bool {
    exists|i: int| 0 <= i < s.len() && (#[trigger] s[i]).0@ == k
}

/// The index of the entry with key `k` (meaningful only when `has_key` holds
/// and the keys are distinct).
pub open spec fn key_index(s: Seq<(String, String)>, k: Seq<char>) -> int {
    choose|i: int| 0 <= i < s.len() && (#[trigger] s[i]).0@ == k
}

/// The value stored beside key `k` (meaningful only when `has_key` holds).
pub open spec fn value_of(s: Seq<(String, String)>, k: Seq<char>) -> Seq<char> {
    s[key_index(s, k)].1@
}

/// The mapping that a sequence of entries represents.
pub open spec fn map_of(s: Seq<(String, String)>) -> Map<Seq<char>, Seq<char>> {
    Map::new(|k: Seq<char>| has_key(s, k), |k: Seq<char>| value_of(s, k))
}

/// An in-memory store of key-value text entries; keys are unique.
pub struct Snippet {
    items: Vec<(String, String)>,
}

impl View for Snippet {
    type V = Map<Seq<char>, Seq<char>>;

    closed spec fn view(&self) -> Map<Seq<char>, Seq<char>> {
        map_of(self.items@)
    }
}

proof fn lemma_key_index_unique(s: Seq<(String, String)>, k: Seq<char>, i: int)
    requires
        distinct_keys(s),
        0 <= i < s.len(),
        s[i].0@ == k,
    ensures
        key_index(s, k) == i,
{
    assert(has_key(s, k));
    let j = key_index(s, k);
    assert(0 <= j < s.len() && s[j].0@ == k);
}

proof fn lemma_found(s: Seq<(String, String)>, k: Seq<char>, i: int)
    requires
        distinct_keys(s),
        0 <= i < s.len(),
        s[i].0@ == k,
    ensures
        map_of(s).contains_key(k),
        map_of(s)[k] == s[i].1@,
{
    assert(has_key(s, k));
    lemma_key_index_unique(s, k, i);
}

proof fn lemma_absent(s: Seq<(String, String)>, k: Seq<char>)
    requires
        forall|j: int| 0 <= j < s.len() ==> (#[trigger] s[j]).0@ != k,
    ensures
        !map_of(s).contains_key(k),
{
}

proof fn lemma_set_at(
    s: Seq<(String, String)>,
    s2: Seq<(String, String)>,
    i: int,
    k: Seq<char>,
    v: Seq<char>,
)
    requires
        distinct_keys(s),
        0 <= i < s.len(),
        s[i].0@ == k,
        s2.len() == s.len(),
        forall|j: int| 0 <= j < s.len() && j != i ==> s2[j] == s[j],
        s2[i].0@ == k,
        s2[i].1@ == v,
    ensures
        distinct_keys(s2),
        map_of(s2) == map_of(s).insert(k, v),
{
    assert forall|j: int| 0 <= j < s2.len() implies (#[trigger] s2[j]).0@ == s[j].0@ by {
        if j != i {
            assert(s2[j] == s[j]);
        }
    }
    assert(distinct_keys(s2));
    assert forall|k2: Seq<char>| #[trigger]
        map_of(s).insert(k, v).contains_key(k2) implies map_of(s2).contains_key(k2) && map_of(s2)[k2]
        == map_of(s).insert(k, v)[k2] by {
        if k2 == k {
            lemma_key_index_unique(s2, k, i);
            assert(map_of(s2)[k] == v);
        } else {
            let j = choose|j: int| 0 <= j < s.len() && (#[trigger] s[j]).0@ == k2;
            assert(j != i);
            assert(s2[j] == s[j]);
            lemma_key_index_unique(s, k2, j);
            lemma_key_index_unique(s2, k2, j);
            assert(map_of(s2)[k2] == s2[j].1@);
        }
    }
    assert forall|k2: Seq<char>| #[trigger]
        map_of(s2).contains_key(k2) implies map_of(s).insert(k, v).contains_key(k2) by {
        let j = choose|j: int| 0 <= j < s2.len() && (#[trigger] s2[j]).0@ == k2;
        assert(s[j].0@ == k2);
    }
    assert(map_of(s2) =~= map_of(s).insert(k, v));
}

proof fn lemma_push(
    s: Seq<(String, String)>,
    s2: Seq<(String, String)>,
    k: Seq<char>,
    v: Seq<char>,
)
    requires
        distinct_keys(s),
        !has_key(s, k),
        s2.len() == s.len() + 1,
        forall|j: int| 0 <= j < s.len() ==> s2[j] == s[j],
        s2[s.len() as int].0@ == k,
        s2[s.len() as int].1@ == v,
    ensures
        distinct_keys(s2),
        map_of(s2) == map_of(s).insert(k, v),
{
    let n = s.len() as int;
    assert forall|i: int, j: int|
        0 <= i < s2.len() && 0 <= j < s2.len() && i != j implies (#[trigger] s2[i]).0@ != (
    #[trigger] s2[j]).0@ by {
        if i < n && j < n {
            assert(s2[i] == s[i] && s2[j] == s[j]);
        } else if i == n {
            assert(s2[j] == s[j]);
            assert(!(s[j].0@ == k));
        } else {
            assert(s2[i] == s[i]);
            assert(!(s[i].0@ == k));
        }
    }
    assert forall|k2: Seq<char>| #[trigger]
        map_of(s).insert(k, v).contains_key(k2) implies map_of(s2).contains_key(k2) && map_of(s2)[k2]
        == map_of(s).insert(k, v)[k2] by {
        if k2 == k {
            lemma_key_index_unique(s2, k, n);
            assert(map_of(s2)[k] == v);
        } else {
            let j = choose|j: int| 0 <= j < s.len() && (#[trigger] s[j]).0@ == k2;
            assert(s2[j] == s[j]);
            lemma_key_index_unique(s, k2, j);
            lemma_key_index_unique(s2, k2, j);
            assert(map_of(s2)[k2] == s2[j].1@);
        }
    }
    assert forall|k2: Seq<char>| #[trigger]
        map_of(s2).contains_key(k2) implies map_of(s).insert(k, v).contains_key(k2) by {
        let j = choose|j: int| 0 <= j < s2.len() && (#[trigger] s2[j]).0@ == k2;
        if j < n {
            assert(s[j].0@ == k2);
        } else {
            assert(k2 == k);
        }
    }
    assert(map_of(s2) =~= map_of(s).insert(k, v));
}

proof fn lemma_replaced_entry(s: Seq<(String, String)>, i: int, p: (String, String))
    requires
        0 <= i < s.len(),
    ensures
        ({
            let s2 = s.remove(i).insert(i, p);
            &&& s2.len() == s.len()
            &&& s2[i] == p
            &&& forall|j: int| 0 <= j < s.len() && j != i ==> s2[j] == s[j]
        }),
{
    let sm = s.remove(i);
    s.remove_ensures(i);
    sm.insert_ensures(i, p);
    let s2 = sm.insert(i, p);
    assert forall|j: int| 0 <= j < s.len() && j != i implies s2[j] == s[j] by {
        if j > i {
            assert(s2[j] == sm[j - 1]);
            assert(sm[j - 1] == s[j]);
        }
    }
}

proof fn lemma_remove_at(s: Seq<(String, String)>, i: int, k: Seq<char>)
    requires
        distinct_keys(s),
        0 <= i < s.len(),
        s[i].0@ == k,
    ensures
        distinct_keys(s.remove(i)),
        map_of(s.remove(i)) == map_of(s).remove(k),
{
    let s2 = s.remove(i);
    assert forall|a: int, b: int|
        0 <= a < s2.len() && 0 <= b < s2.len() && a != b implies (#[trigger] s2[a]).0@ != (
    #[trigger] s2[b]).0@ by {
        let a0: int = if a < i { a } else { a + 1 };
        let b0: int = if b < i { b } else { b + 1 };
        assert(s2[a] == s[a0] && s2[b] == s[b0]);
    }
    assert forall|k2: Seq<char>| #[trigger]
        map_of(s).remove(k).contains_key(k2) implies map_of(s2).contains_key(k2) && map_of(s2)[k2]
        == map_of(s).remove(k)[k2] by {
        let j = choose|j: int| 0 <= j < s.len() && (#[trigger] s[j]).0@ == k2;
        assert(j != i);
        let j2: int = if j < i { j } else { j - 1 };
        assert(s2[j2] == s[j]);
        lemma_key_index_unique(s, k2, j);
        lemma_key_index_unique(s2, k2, j2);
        assert(map_of(s2)[k2] == s2[j2].1@);
        assert(map_of(s)[k2] == s[j].1@);
    }
    assert forall|k2: Seq<char>| #[trigger]
        map_of(s2).contains_key(k2) implies map_of(s).remove(k).contains_key(k2) by {
        let j = choose|j: int| 0 <= j < s2.len() && (#[trigger] s2[j]).0@ == k2;
        let j0: int = if j < i { j } else { j + 1 };
        assert(s2[j] == s[j0]);
        assert(s[j0].0@ == k2);
        assert(j0 != i ==> k2 != k) by {
            if j0 != i && k2 == k {
                assert(s[j0].0@ == s[i].0@);
            }
        }
    }
    assert(map_of(s2) =~= map_of(s).remove(k));
}

impl Snippet {
    /// The store's internal invariant: entry keys are pairwise distinct.
    pub closed spec fn wf(&self) -> bool {
        distinct_keys(self.items@)
    }

    /// The index of the entry whose key reads as `key`, if there is one.
    fn find_index(&self, key: &String) -> (r: Option<usize>)
        ensures
            match r {
                Some(i) => i < self.items@.len() && self.items@[i as int].0@ == key@,
                None => forall|j: int| 0 <= j < self.items@.len() ==> (#[trigger] self.items@[j]).0@ != key@,
            },
    {
        let n = self.items.len();
        let mut idx: usize = 0;
        while idx < n
            invariant
                n == self.items@.len(),
                idx <= n,
                forall|j: int| 0 <= j < idx ==> (#[trigger] self.items@[j]).0@ != key@,
            decreases n - idx,
        {
            if self.items[idx].0 == *key {
                return Some(idx);
            }
            idx += 1;
        }
        None
    }

    /// Retrieves the value stored under `key`, or reports its absence.
    pub fn retrieve(&self, key: String) -> (r: Option<&String>)
        requires
            self.wf(),
        ensures
            match r {
                Some(v) => self@.contains_key(key@) && v@ == self@[key@],
                None => !self@.contains_key(key@),
            },
    {
        match self.find_index(&key) {
            Some(i) => {
                proof {
                    lemma_found(self.items@, key@, i as int);
                }
                Some(&self.items[i].1)
            },
            None => {
                proof {
                    lemma_absent(self.items@, key@);
                }
                None
            },
        }
    }

    /// Inserts `value` under `key`, silently replacing any entry already
    /// there, and returns the replaced value if one existed.
    pub fn create(&mut self, key: String, value: String) -> (prior: Option<String>)
        requires
            old(self).wf(),
        ensures
            final(self).wf(),
            final(self)@ == old(self)@.insert(key@, value@),
            match prior {
                Some(p) => old(self)@.contains_key(key@) && p@ == old(self)@[key@],
                None => !old(self)@.contains_key(key@),
            },
    {
        match self.find_index(&key) {
            Some(i) => {
                proof {
                    lemma_found(self.items@, key@, i as int);
                }
                let ghost p = (key, value);
                let pair = self.items.remove(i);
                self.items.insert(i, (key, value));
                proof {
                    lemma_replaced_entry(old(self).items@, i as int, p);
                    lemma_set_at(old(self).items@, self.items@, i as int, key@, value@);
                }
                Some(pair.1)
            },
            None => {
                proof {
                    lemma_absent(self.items@, key@);
                }
                self.items.push((key, value));
                proof {
                    lemma_push(old(self).items@, self.items@, key@, value@);
                }
                None
            },
        }
    }

    /// Replaces the value under an existing `key`; reports a not-found
    /// condition, and changes nothing, when the key is absent.
    pub fn update(&mut self, key: String, updated_value: String) -> (r: UpdateResult)
        requires
            old(self).wf(),
        ensures
            final(self).wf(),
            r is Ok ==> old(self)@.contains_key(key@) && final(self)@ == old(self)@.insert(
                key@,
                updated_value@,
            ),
            r is Err ==> !old(self)@.contains_key(key@) && final(self)@ == old(self)@ && r->Err_0@
                == "Item '"@ + key@ + "' not found"@,
    {
        match self.find_index(&key) {
            Some(i) => {
                proof {
                    lemma_found(self.items@, key@, i as int);
                }
                let ghost p = (key, updated_value);
                let _pair = self.items.remove(i);
                self.items.insert(i, (key, updated_value));
                proof {
                    lemma_replaced_entry(old(self).items@, i as int, p);
                    lemma_set_at(old(self).items@, self.items@, i as int, key@, updated_value@);
                }
                Ok(())
            },
            None => {
                proof {
                    lemma_absent(self.items@, key@);
                }
                let msg = "Item '".to_owned().concat(key.as_str()).concat("' not found");
                Err(msg)
            },
        }
    }

    /// Removes the entry under `key` and returns the removed pair, or
    /// reports its absence.
    pub fn delete(&mut self, key: String) -> (removed: Option<(String, String)>)
        requires
            old(self).wf(),
        ensures
            final(self).wf(),
            final(self)@ == old(self)@.remove(key@),
            match removed {
                Some(p) => old(self)@.contains_key(key@) && p.0@ == key@ && p.1@ == old(self)@[key@],
                None => !old(self)@.contains_key(key@),
            },
    {
        match self.find_index(&key) {
            Some(i) => {
                proof {
                    lemma_found(self.items@, key@, i as int);
                    lemma_remove_at(self.items@, i as int, key@);
                }
                let pair = self.items.remove(i);
                Some(pair)
            },
            None => {
                proof {
                    lemma_absent(self.items@, key@);
                    assert(self@ =~= self@.remove(key@));
                }
                None
            },
        }
    }

    /// The number of entries in the store.
    pub fn len(&self) -> (n: usize)
        requires
            self.wf(),
        ensures
            n == self@.dom().len(),
    {
        proof {
            lemma_dom_len(self.items@);
        }
        self.items.len()
    }
}

proof fn lemma_dom_len(s: Seq<(String, String)>)
    requires
        distinct_keys(s),
    ensures
        map_of(s).dom().finite(),
        map_of(s).dom().len() == s.len(),
    decreases s.len(),
{
    if s.len() == 0 {
        assert(map_of(s).dom() =~= Set::<Seq<char>>::empty());
    } else {
        let s0 = s.drop_last();
        let last = s.last();
        assert(forall|j: int| 0 <= j < s0.len() ==> s0[j] == s[j]);
        assert(distinct_keys(s0));
        lemma_dom_len(s0);
        assert(!has_key(s0, last.0@)) by {
            if has_key(s0, last.0@) {
                let j = choose|j: int| 0 <= j < s0.len() && (#[trigger] s0[j]).0@ == last.0@;
                assert(s[j].0@ == s[s.len() - 1].0@);
            }
        }
        lemma_push(s0, s, last.0@, last.1@);
        assert(map_of(s).dom() =~= map_of(s0).dom().insert(last.0@));
    }
}

impl Default for Snippet {
    /// An empty store.
    fn default() -> (s: Snippet)
        ensures
            s.wf(),
            s@ == Map::<Seq<char>, Seq<char>>::empty(),
    {
        let s = Snippet { items: Vec::new() };
        proof {
            assert(s@ =~= Map::<Seq<char>, Seq<char>>::empty());
        }
        s
    }
}

/// Storing a value and then retrieving its key yields that value: for every
/// store contents `m`, after an insertion of `v` under `k` the key is present
/// and reads back as `v`.
pub proof fn lemma_create_then_retrieve(m: Map<Seq<char>, Seq<char>>, k: Seq<char>, v: Seq<char>)
    ensures
        m.insert(k, v).contains_key(k),
        m.insert(k, v)[k] == v,
{
}

/// Deleting a key and then retrieving it reports absence, whether or not the
/// key was present before.
pub proof fn lemma_delete_then_retrieve(m: Map<Seq<char>, Seq<char>>, k: Seq<char>)
    ensures
        !m.remove(k).contains_key(k),
{
}

/// Storing under an already-present key replaces the value: retrieval
/// afterward reflects the new value, not the old one. (That the replaced
/// value is handed back is part of the contract of `Snippet::create`.)
pub proof fn lemma_create_overwrites(m: Map<Seq<char>, Seq<char>>, k: Seq<char>, v: Seq<char>)
    requires
        m.contains_key(k),
    ensures
        m.insert(k, v).contains_key(k),
        m.insert(k, v)[k] == v,
{
}

} // verus!
