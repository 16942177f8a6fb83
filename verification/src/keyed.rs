//! Lookup in lists of `(key, value)` entries, where a key stands for its
//! first occurrence.
use vstd::prelude::*;
use crate::text::str_eq;

verus! {

/// Index of the first entry whose key is `key`, if any.
pub open spec fn first_key_index<V>(entries: Seq<(String, V)>, key: Seq<char>) -> Option<int>
    decreases entries.len(),
{
    if entries.len() == 0 {
        None
    } else if entries[0].0@ == key {
        Some(0)
    } else {
        match first_key_index(entries.drop_first(), key) {
            Some(i) => Some(i + 1),
            None => None,
        }
    }
}

/// An index moved `d` places on.
pub open spec fn offset_index(o: Option<int>, d: int) -> Option<int> {
    match o {
        Some(k) => Some(k + d),
        None => None,
    }
}

/// The value of the first entry whose key is `key`.
pub open spec fn keyed_value<V>(entries: Seq<(String, V)>, key: Seq<char>) -> Option<V> {
    match first_key_index(entries, key) {
        Some(i) => Some(entries[i].1),
        None => None,
    }
}

/// The first index found is an entry with that key, and no earlier entry has it.
pub proof fn lemma_first_key_index<V>(entries: Seq<(String, V)>, key: Seq<char>)
    ensures
        match first_key_index(entries, key) {
            Some(i) => 0 <= i < entries.len() && entries[i].0@ == key
                && forall|j: int| 0 <= j < i ==> entries[j].0@ != key,
            None => forall|j: int| 0 <= j < entries.len() ==> entries[j].0@ != key,
        },
    decreases entries.len(),
{
    if entries.len() > 0 {
        lemma_first_key_index(entries.drop_first(), key);
        assert forall|j: int| 1 <= j < entries.len() implies entries[j] == entries.drop_first()[j - 1] by {}
    }
}

/// Entries whose keys stand at the same places give the same first index.
pub proof fn lemma_same_keys<V>(a: Seq<(String, V)>, b: Seq<(String, V)>, key: Seq<char>)
    requires
        a.len() == b.len(),
        forall|j: int| 0 <= j < a.len() ==> a[j].0@ == b[j].0@,
    ensures
        first_key_index(a, key) == first_key_index(b, key),
    decreases a.len(),
{
    if a.len() > 0 {
        lemma_same_keys(a.drop_first(), b.drop_first(), key);
    }
}

/// The first index after one more entry is appended.
pub proof fn lemma_push_key<V>(a: Seq<(String, V)>, e: (String, V), key: Seq<char>)
    ensures
        first_key_index(a.push(e), key) == match first_key_index(a, key) {
            Some(i) => Some(i),
            None => if e.0@ == key { Some(a.len() as int) } else { None },
        },
    decreases a.len(),
{
    let b = a.push(e);
    if a.len() > 0 {
        assert(b[0] == a[0]);
        assert(b.drop_first() =~= a.drop_first().push(e));
        lemma_push_key(a.drop_first(), e, key);
        if a[0].0@ != key {
            match first_key_index(a.drop_first(), key) {
                Some(i) => {
                    assert(first_key_index(b, key) == Some(i + 1));
                },
                None => {
                    assert(first_key_index(a, key) is None);
                    if e.0@ == key {
                        assert(first_key_index(b.drop_first(), key) == Some(a.len() - 1));
                    }
                },
            }
        }
    } else {
        assert(b[0] == e);
        assert(b.drop_first().len() == 0);
    }
}

/// The index of the first entry whose key is `key`.
pub fn find_key<V>(entries: &Vec<(String, V)>, key: &str) -> (r: Option<usize>)
    ensures
        match r {
            Some(i) => i < entries.len() && first_key_index(entries@, key@) == Some(i as int),
            None => first_key_index(entries@, key@) is None,
        },
{
    let mut i: usize = 0;
    assert(entries@.skip(0) =~= entries@);
    while i < entries.len()
        invariant
            i <= entries.len(),
            first_key_index(entries@, key@) == offset_index(first_key_index(entries@.skip(i as int), key@), i as int),
        decreases entries.len() - i,
    {
        assert(entries@.skip(i as int).drop_first() =~= entries@.skip(i + 1));
        assert(entries@.skip(i as int)[0] == entries@[i as int]);
        if str_eq(entries[i].0.as_str(), key) {
            assert(first_key_index(entries@.skip(i as int), key@) == Some(0int));
            return Some(i);
        }
        i = i + 1;
    }
    assert(entries@.skip(i as int).len() == 0);
    None
}

} // verus!
