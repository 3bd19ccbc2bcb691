//! JSON values as the setup helper edits them.
//!
//! A configuration file is read and written by the application; the library
//! holds its value, looks keys up in objects and replaces or adds entries.
//! Numbers are kept as their text, since the helper never computes with them.

use vstd::prelude::*;

use crate::text::str_equal;

verus! {

/// A JSON value; an object lists its entries in order.
#[derive(Debug, PartialEq)]
pub enum Json {
    Null,
    Bool(bool),
    Number(String),
    Str(String),
    Array(Vec<Json>),
    Object(Vec<(String, Json)>),
}

/// The position of the first entry of an object that has the given key.
pub open spec fn key_index(entries: Seq<(String, Json)>, key: Seq<char>) -> Option<int>
    decreases entries.len(),
{
    if entries.len() == 0 {
        None
    } else {
        match key_index(entries.drop_last(), key) {
            Some(i) => Some(i),
            None => if entries.last().0@ == key {
                Some(entries.len() - 1)
            } else {
                None
            },
        }
    }
}

/// `key_index` finds the first entry with the key, and `None` means that no
/// entry has it.
pub proof fn lemma_key_index(entries: Seq<(String, Json)>, key: Seq<char>)
    ensures
        match key_index(entries, key) {
            Some(i) => 0 <= i < entries.len() && entries[i].0@ == key && forall|j: int|
                0 <= j < i ==> (#[trigger] entries[j]).0@ != key,
            None => forall|j: int| 0 <= j < entries.len() ==> (#[trigger] entries[j]).0@ != key,
        },
    decreases entries.len(),
{
    if entries.len() > 0 {
        let t = entries.drop_last();
        lemma_key_index(t, key);
        assert forall|j: int| 0 <= j < t.len() implies #[trigger] t[j] == entries[j] by {}
        match key_index(t, key) {
            Some(i) => {
                assert(entries[i] == t[i]);
                assert forall|j: int| 0 <= j < i implies (#[trigger] entries[j]).0@ != key by {
                    assert(entries[j] == t[j]);
                }
            },
            None => {
                assert forall|j: int| 0 <= j < t.len() implies (#[trigger] entries[j]).0@ != key by {
                    assert(entries[j] == t[j]);
                }
                assert(entries.last() == entries[entries.len() - 1]);
            },
        }
    }
}

/// The entries of an object, and none for any other value.
pub open spec fn object_entries(j: Json) -> Seq<(String, Json)> {
    match j {
        Json::Object(e) => e@,
        _ => Seq::empty(),
    }
}

/// Whether `new` is `old` with the value of `key` replaced by one that
/// satisfies `p`, at the key's first entry, or with an entry for `key`
/// appended when there was none; every other entry stays as it was.
pub open spec fn entry_set(
    old: Seq<(String, Json)>,
    new: Seq<(String, Json)>,
    key: Seq<char>,
    p: spec_fn(Json) -> bool,
) -> bool {
    match key_index(old, key) {
        Some(i) => {
            &&& new.len() == old.len()
            &&& new[i].0 == old[i].0
            &&& p(new[i].1)
            &&& forall|j: int| 0 <= j < old.len() && j != i ==> new[j] == old[j]
        },
        None => {
            &&& new.len() == old.len() + 1
            &&& new.last().0@ == key
            &&& p(new.last().1)
            &&& forall|j: int| 0 <= j < old.len() ==> new[j] == old[j]
        },
    }
}

/// Finds the first entry of an object with the given key.
pub fn find_key(entries: &Vec<(String, Json)>, key: &str) -> (r: Option<usize>)
    ensures
        r matches Some(i) ==> key_index(entries@, key@) == Some(i as int),
        r is None ==> key_index(entries@, key@) is None,
{
    proof {
        lemma_key_index(entries@, key@);
    }
    let mut i: usize = 0;
    while i < entries.len()
        invariant
            i <= entries.len(),
            forall|j: int| 0 <= j < i ==> (#[trigger] entries@[j]).0@ != key@,
            match key_index(entries@, key@) {
                Some(k) => 0 <= k < entries.len() && entries@[k].0@ == key@ && forall|j: int|
                    0 <= j < k ==> (#[trigger] entries@[j]).0@ != key@,
                None => forall|j: int| 0 <= j < entries.len() ==> (#[trigger] entries@[j]).0@ != key@,
            },
        decreases entries.len() - i,
    {
        if str_equal(entries[i].0.as_str(), key) {
            return Some(i);
        }
        i = i + 1;
    }
    None
}

/// Sets the value of `key` in the entries of an object: the first entry with
/// the key gets the value, or an entry is appended when there is none.
pub fn set_entry(entries: Vec<(String, Json)>, key: &str, value: Json) -> (r: Vec<(String, Json)>)
    ensures
        entry_set(entries@, r@, key@, |v: Json| v == value),
{
    let mut entries = entries;
    let ghost old = entries@;
    proof {
        lemma_key_index(old, key@);
    }
    match find_key(&entries, key) {
        Some(i) => {
            let (k, _) = entries.remove(i);
            entries.insert(i, (k, value));
            assert forall|j: int| 0 <= j < old.len() && j != i implies entries@[j] == old[j] by {
                if j < i {
                } else {
                }
            }
        },
        None => {
            entries.push((key.to_owned(), value));
        },
    }
    entries
}

} // verus!
