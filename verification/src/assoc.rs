//! Small tables keyed by text: a vector of entries in which no key occurs
//! twice, read as a map from the characters of a key to its value.

use crate::text::str_eq;
use vstd::prelude::*;

verus! {

/// Whether no key occurs twice among `entries`.
pub open spec fn distinct_keys<V>(entries: Seq<(String, V)>) -> bool {
    forall|i: int, j: int|
        0 <= i < j < entries.len() ==> (#[trigger] entries[i]).0@ != (#[trigger] entries[j]).0@
}

/// Whether one of `entries` has the key `key`.
pub open spec fn has_key<V>(entries: Seq<(String, V)>, key: Seq<char>) -> bool {
    exists|i: int| 0 <= i < entries.len() && (#[trigger] entries[i]).0@ == key
}

/// The place of an entry with the key `key`.
pub open spec fn index_of<V>(entries: Seq<(String, V)>, key: Seq<char>) -> int {
    choose|i: int| 0 <= i < entries.len() && (#[trigger] entries[i]).0@ == key
}

/// The map that `entries` stand for.
pub open spec fn table<V>(entries: Seq<(String, V)>) -> Map<Seq<char>, V> {
    Map::new(|key: Seq<char>| has_key(entries, key), |key: Seq<char>| entries[index_of(entries, key)].1)
}

/// With distinct keys, each entry is what the table holds under its key.
pub proof fn lemma_table_entry<V>(entries: Seq<(String, V)>, i: int)
    requires
        distinct_keys(entries),
        0 <= i < entries.len(),
    ensures
        table(entries).contains_key(entries[i].0@),
        table(entries)[entries[i].0@] == entries[i].1,
        index_of(entries, entries[i].0@) == i,
{
    let key = entries[i].0@;
    let k = index_of(entries, key);
    assert(entries[i].0@ == key);
    if k < i {
        assert(entries[k].0@ != entries[i].0@);
    } else if i < k {
        assert(entries[i].0@ != entries[k].0@);
    }
}

/// A new entry under a key that the table lacks is an insertion.
pub proof fn lemma_table_push<V>(entries: Seq<(String, V)>, entry: (String, V))
    requires
        distinct_keys(entries),
        !has_key(entries, entry.0@),
    ensures
        distinct_keys(entries.push(entry)),
        table(entries.push(entry)) == table(entries).insert(entry.0@, entry.1),
{
    let after = entries.push(entry);
    assert forall|i: int, j: int| 0 <= i < j < after.len() implies (#[trigger] after[i]).0@ != (
    #[trigger] after[j]).0@ by {
        if j == entries.len() {
            assert(entries[i].0@ != entry.0@);
        } else {
            assert(entries[i].0@ != entries[j].0@);
        }
    }
    assert forall|key: Seq<char>| has_key(after, key) <==> (key == entry.0@ || has_key(
        entries,
        key,
    )) by {
        if has_key(after, key) {
            let i = index_of(after, key);
            if i < entries.len() {
                assert(entries[i].0@ == key);
            }
        }
        if has_key(entries, key) {
            let i = index_of(entries, key);
            assert(after[i].0@ == key);
        }
        if key == entry.0@ {
            assert(after[entries.len() as int].0@ == key);
        }
    }
    assert forall|key: Seq<char>| has_key(after, key) implies table(after)[key] == table(
        entries,
    ).insert(entry.0@, entry.1)[key] by {
        let i = index_of(after, key);
        lemma_table_entry(after, i);
        if i < entries.len() {
            assert(entries[i].0@ == key);
            lemma_table_entry(entries, i);
        }
    }
    assert(table(after) =~= table(entries).insert(entry.0@, entry.1));
}

/// A new value for the entry at `i`, under the same key, is an insertion.
pub proof fn lemma_table_update<V>(entries: Seq<(String, V)>, i: int, entry: (String, V))
    requires
        distinct_keys(entries),
        0 <= i < entries.len(),
        entry.0@ == entries[i].0@,
    ensures
        distinct_keys(entries.update(i, entry)),
        table(entries.update(i, entry)) == table(entries).insert(entry.0@, entry.1),
{
    let after = entries.update(i, entry);
    assert forall|a: int, b: int| 0 <= a < b < after.len() implies (#[trigger] after[a]).0@ != (
    #[trigger] after[b]).0@ by {
        assert(entries[a].0@ != entries[b].0@);
    }
    assert forall|key: Seq<char>| has_key(after, key) <==> has_key(entries, key) by {
        if has_key(after, key) {
            let k = index_of(after, key);
            assert(entries[k].0@ == key);
        }
        if has_key(entries, key) {
            let k = index_of(entries, key);
            assert(after[k].0@ == key);
        }
    }
    assert(has_key(entries, entry.0@)) by {
        assert(entries[i].0@ == entry.0@);
    }
    assert forall|key: Seq<char>| has_key(after, key) implies table(after)[key] == table(
        entries,
    ).insert(entry.0@, entry.1)[key] by {
        let k = index_of(after, key);
        lemma_table_entry(after, k);
        if k != i {
            assert(entries[k].0@ == key);
            lemma_table_entry(entries, k);
            if k < i {
                assert(entries[k].0@ != entries[i].0@);
            } else {
                assert(entries[i].0@ != entries[k].0@);
            }
        }
    }
    assert(table(after) =~= table(entries).insert(entry.0@, entry.1));
}

/// Taking out the entry at `i` removes its key.
pub proof fn lemma_table_remove<V>(entries: Seq<(String, V)>, i: int)
    requires
        distinct_keys(entries),
        0 <= i < entries.len(),
    ensures
        distinct_keys(entries.remove(i)),
        table(entries.remove(i)) == table(entries).remove(entries[i].0@),
{
    let after = entries.remove(i);
    let gone = entries[i].0@;
    assert forall|a: int, b: int| 0 <= a < b < after.len() implies (#[trigger] after[a]).0@ != (
    #[trigger] after[b]).0@ by {
        let a0 = if a < i { a } else { a + 1 };
        let b0 = if b < i { b } else { b + 1 };
        assert(after[a] == entries[a0] && after[b] == entries[b0]);
        assert(entries[a0].0@ != entries[b0].0@);
    }
    assert forall|key: Seq<char>| has_key(after, key) <==> (key != gone && has_key(
        entries,
        key,
    )) by {
        if has_key(after, key) {
            let k = index_of(after, key);
            let k0 = if k < i { k } else { k + 1 };
            assert(after[k] == entries[k0]);
            assert(entries[k0].0@ == key);
            if k0 < i {
                assert(entries[k0].0@ != entries[i].0@);
            } else {
                assert(entries[i].0@ != entries[k0].0@);
            }
        }
        if key != gone && has_key(entries, key) {
            let k0 = index_of(entries, key);
            let k = if k0 < i { k0 } else { k0 - 1 };
            assert(after[k] == entries[k0]);
            assert(after[k].0@ == key);
        }
    }
    assert forall|key: Seq<char>| has_key(after, key) implies table(after)[key] == table(
        entries,
    ).remove(gone)[key] by {
        let k = index_of(after, key);
        let k0 = if k < i { k } else { k + 1 };
        assert(after[k] == entries[k0]);
        lemma_table_entry(after, k);
        lemma_table_entry(entries, k0);
    }
    assert(table(after) =~= table(entries).remove(gone));
}

/// The place of the entry with the key `key`.
pub fn find_key<V>(entries: &Vec<(String, V)>, key: &str) -> (found: Option<usize>)
    ensures
        match found {
            Some(i) => i < entries.len() && entries[i as int].0@ == key@,
            None => !has_key(entries@, key@),
        },
{
    let mut i: usize = 0;
    while i < entries.len()
        invariant
            i <= entries.len(),
            forall|k: int| 0 <= k < i ==> (#[trigger] entries[k]).0@ != key@,
        decreases entries.len() - i,
    {
        if str_eq(entries[i].0.as_str(), key) {
            return Some(i);
        }
        i += 1;
    }
    None
}

} // verus!
