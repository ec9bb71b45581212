//! Association lists keyed by strings: the entries of a map kept in a
//! vector, in insertion order, with no key twice.
use vstd::prelude::*;

use crate::text::str_eq;

verus! {

/// The entries of a vector of string-keyed pairs, keys taken by their
/// characters.
pub open spec fn entries_view<T>(v: Seq<(String, T)>) -> Seq<(Seq<char>, T)> {
    Seq::new(v.len(), |i: int| (v[i].0@, v[i].1))
}

/// The entry for `key` in an ordered list of entries.
pub open spec fn find_entry<T>(es: Seq<(Seq<char>, T)>, key: Seq<char>) -> Option<int>
    decreases es.len(),
{
    if es.len() == 0 {
        None
    } else if es.last().0 == key {
        Some(es.len() - 1)
    } else {
        find_entry(es.drop_last(), key)
    }
}

/// The value cached for `key`, if any.
pub open spec fn lookup<T>(es: Seq<(Seq<char>, T)>, key: Seq<char>) -> Option<T> {
    match find_entry(es, key) {
        Some(i) => Some(es[i].1),
        None => None,
    }
}

/// No key occurs twice.
pub open spec fn distinct_keys<T>(es: Seq<(Seq<char>, T)>) -> bool {
    forall|i: int, j: int| 0 <= i < j < es.len() ==> #[trigger] es[i].0 != #[trigger] es[j].0
}

/// The entries without the one for `key`.
pub open spec fn removed<T>(es: Seq<(Seq<char>, T)>, key: Seq<char>) -> Seq<(Seq<char>, T)> {
    match find_entry(es, key) {
        Some(i) => es.remove(i),
        None => es,
    }
}

/// The position of `key` among the entries, if present.
pub fn position<T>(entries: &Vec<(String, T)>, key: &str) -> (r: Option<usize>)
    ensures
        match r {
            Some(i) => find_entry(entries_view(entries@), key@) == Some(i as int),
            None => find_entry(entries_view(entries@), key@) is None,
        },
{
    let ghost es = entries_view(entries@);
    let mut i: usize = entries.len();
    assert(es.take(i as int) =~= es);
    while i > 0
        invariant
            0 <= i <= entries.len(),
            es == entries_view(entries@),
            find_entry(es, key@) == find_entry(es.take(i as int), key@),
        decreases i,
    {
        let ghost pre = es.take(i as int);
        assert(pre.drop_last() =~= es.take(i - 1));
        if str_eq(entries[i - 1].0.as_str(), key) {
            assert(pre.last().0 == key@);
            return Some(i - 1);
        }
        i -= 1;
    }
    None
}

/// The entries after storing `key -> value`: a present key keeps its place
/// and gets the new value; a new key goes last.
pub open spec fn stored<T>(es: Seq<(Seq<char>, T)>, key: Seq<char>, value: T) -> Seq<(Seq<char>, T)> {
    match find_entry(es, key) {
        Some(i) => es.update(i, (key, value)),
        None => es.push((key, value)),
    }
}

/// A found entry is in bounds and carries the key.
pub proof fn lemma_find_entry_bounds<T>(es: Seq<(Seq<char>, T)>, key: Seq<char>)
    ensures
        match find_entry(es, key) {
            Some(i) => 0 <= i < es.len() && es[i].0 == key,
            None => forall|j: int| 0 <= j < es.len() ==> #[trigger] es[j].0 != key,
        },
    decreases es.len(),
{
    if es.len() > 0 && es.last().0 != key {
        lemma_find_entry_bounds(es.drop_last(), key);
        if find_entry(es, key) is None {
            assert forall|j: int| 0 <= j < es.len() implies #[trigger] es[j].0 != key by {
                if j < es.len() - 1 {
                    assert(es.drop_last()[j] == es[j]);
                }
            }
        }
    }
}

/// Replacing the value of a present key keeps the keys distinct.
pub proof fn lemma_find_entry_is_key<T>(es: Seq<(Seq<char>, T)>, key: Seq<char>)
    ensures
        find_entry(es, key) matches Some(i) ==> es[i].0 == key,
{
    lemma_find_entry_bounds(es, key);
}

/// An absent key is distinct from every present key.
pub proof fn lemma_absent_key<T>(es: Seq<(Seq<char>, T)>, key: Seq<char>)
    requires
        find_entry(es, key) is None,
    ensures
        forall|j: int| 0 <= j < es.len() ==> #[trigger] es[j].0 != key,
{
    lemma_find_entry_bounds(es, key);
}

/// With distinct keys, the entry found for a key is its only entry.
pub proof fn lemma_find_unique<T>(es: Seq<(Seq<char>, T)>, key: Seq<char>, i: int)
    requires
        distinct_keys(es),
        0 <= i < es.len(),
        es[i].0 == key,
    ensures
        find_entry(es, key) == Some(i),
{
    lemma_find_entry_bounds(es, key);
    if let Some(j) = find_entry(es, key) {
        if i < j {
            assert(es[i].0 != es[j].0);
        } else if j < i {
            assert(es[j].0 != es[i].0);
        }
    }
}

/// After a remove, the key is gone and the other keys keep their values.
pub proof fn lookup_after_remove<T>(es: Seq<(Seq<char>, T)>, key: Seq<char>, other: Seq<char>)
    requires
        distinct_keys(es),
    ensures
        lookup(removed(es, key), key) is None,
        other != key ==> lookup(removed(es, key), other) == lookup(es, other),
        distinct_keys(removed(es, key)),
{
    lemma_find_entry_bounds(es, key);
    lemma_find_entry_bounds(es, other);
    let after = removed(es, key);
    lemma_find_entry_bounds(after, key);
    lemma_find_entry_bounds(after, other);
    if let Some(i) = find_entry(es, key) {
        assert forall|a: int, b: int| 0 <= a < b < after.len() implies #[trigger] after[a].0 != #[trigger] after[b].0 by {
            let oa = if a < i { a } else { a + 1 };
            let ob = if b < i { b } else { b + 1 };
            assert(after[a] == es[oa]);
            assert(after[b] == es[ob]);
            assert(es[oa].0 != es[ob].0);
        }
        if let Some(j) = find_entry(after, key) {
            let oj = if j < i { j } else { j + 1 };
            assert(after[j] == es[oj]);
            assert(es[oj].0 != es[i].0);
        }
        if other != key {
            match find_entry(es, other) {
                Some(o) => {
                    let no = if o < i { o } else { o - 1 };
                    assert(after[no] == es[o]);
                    lemma_find_unique(after, other, no);
                },
                None => {
                    if let Some(j) = find_entry(after, other) {
                        let oj = if j < i { j } else { j + 1 };
                        assert(after[j] == es[oj]);
                    }
                },
            }
        }
    }
}

/// After storing, the key maps to the stored value, every other key keeps
/// its value, and no key occurs twice.
pub proof fn lookup_after_store<T>(es: Seq<(Seq<char>, T)>, key: Seq<char>, value: T, other: Seq<char>)
    requires
        distinct_keys(es),
    ensures
        distinct_keys(stored(es, key, value)),
        lookup(stored(es, key, value), key) == Some(value),
        other != key ==> lookup(stored(es, key, value), other) == lookup(es, other),
{
    lemma_find_entry_bounds(es, key);
    lemma_find_entry_bounds(es, other);
    let after = stored(es, key, value);
    match find_entry(es, key) {
        Some(i) => {
            assert forall|a: int, b: int| 0 <= a < b < after.len() implies #[trigger] after[a].0 != #[trigger] after[b].0 by {
                assert(es[a].0 != es[b].0);
            }
            lemma_find_unique(after, key, i);
        },
        None => {
            assert forall|a: int, b: int| 0 <= a < b < after.len() implies #[trigger] after[a].0 != #[trigger] after[b].0 by {
                if b < es.len() {
                    assert(es[a].0 != es[b].0);
                }
            }
            lemma_find_unique(after, key, es.len() as int);
        },
    }
    if other != key {
        lemma_find_entry_bounds(after, other);
        match find_entry(es, other) {
            Some(o) => {
                assert(after[o] == es[o]);
                lemma_find_unique(after, other, o);
            },
            None => {
                if let Some(j) = find_entry(after, other) {
                    if j < es.len() {
                        if let Some(i) = find_entry(es, key) {
                            if j != i {
                                assert(after[j] == es[j]);
                            }
                        } else {
                            assert(after[j] == es[j]);
                        }
                    }
                }
            },
        }
    }
}

} // verus!
