//! Sequences of keys with values in which a key is meant to occur once, and
//! the mapping that such a sequence stands for.

use vstd::prelude::*;

verus! {

/// Some entry of `entries` has the key `key`.
pub open spec fn has_key<K, V>(entries: Seq<(K, V)>, key: K) -> bool {
    exists|i: int| 0 <= i < entries.len() && #[trigger] entries[i].0 == key
}

/// The index of an entry with the key `key`. Where no key occurs twice it is
/// the only one.
pub open spec fn index_of_key<K, V>(entries: Seq<(K, V)>, key: K) -> int {
    choose|i: int| 0 <= i < entries.len() && #[trigger] entries[i].0 == key
}

/// No key occurs twice in `entries`.
pub open spec fn distinct_keys<K, V>(entries: Seq<(K, V)>) -> bool {
    forall|i: int, j: int|
        0 <= i < entries.len() && 0 <= j < entries.len() && i != j ==> #[trigger] entries[i].0
            != #[trigger] entries[j].0
}

/// The mapping from each key in `entries` to the value that stands with it.
pub open spec fn entries_map<K, V>(entries: Seq<(K, V)>) -> Map<K, V> {
    Map::new(|key: K| has_key(entries, key), |key: K| entries[index_of_key(entries, key)].1)
}

/// `entries` after `key` has been set to `value`: an entry with that key
/// keeps its place and takes the new value; otherwise the new entry goes to
/// the end.
pub open spec fn upsert<K, V>(entries: Seq<(K, V)>, key: K, value: V) -> Seq<(K, V)> {
    if has_key(entries, key) {
        entries.update(index_of_key(entries, key), (key, value))
    } else {
        entries.push((key, value))
    }
}

/// Where no key occurs twice, the place at which a key stands is its index.
pub proof fn lemma_index_of_key<K, V>(entries: Seq<(K, V)>, i: int)
    requires
        distinct_keys(entries),
        0 <= i < entries.len(),
    ensures
        has_key(entries, entries[i].0),
        index_of_key(entries, entries[i].0) == i,
        entries_map(entries)[entries[i].0] == entries[i].1,
{
    let k = index_of_key(entries, entries[i].0);
    assert(entries[k].0 == entries[i].0);
}

/// Setting a key keeps keys distinct, and acts on the mapping as `insert`.
pub proof fn lemma_upsert<K, V>(entries: Seq<(K, V)>, key: K, value: V)
    requires
        distinct_keys(entries),
    ensures
        distinct_keys(upsert(entries, key, value)),
        entries_map(upsert(entries, key, value)) == entries_map(entries).insert(key, value),
{
    let after = upsert(entries, key, value);
    if has_key(entries, key) {
        assert forall|i: int| 0 <= i < entries.len() implies #[trigger] after[i].0
            == entries[i].0 by {}
    }
    assert forall|k: K| has_key(after, k) <==> (k == key || has_key(entries, k)) by {
        if has_key(after, k) {
            let i = index_of_key(after, k);
            if i < entries.len() {
                assert(entries[i].0 == k || k == key);
            }
        }
        if k == key {
            if has_key(entries, key) {
                assert(after[index_of_key(entries, key)].0 == key);
            } else {
                assert(after[entries.len() as int].0 == key);
            }
        } else if has_key(entries, k) {
            assert(after[index_of_key(entries, k)].0 == k);
        }
    }
    assert forall|k: K| has_key(after, k) implies #[trigger] entries_map(after)[k]
        == entries_map(entries).insert(key, value)[k] by {
        let i = index_of_key(after, k);
        if k == key {
            if has_key(entries, key) {
                assert(after[index_of_key(entries, key)].0 == key);
            } else {
                assert(after[entries.len() as int].0 == key);
            }
        } else {
            let j = index_of_key(entries, k);
            assert(after[j].0 == k);
        }
    }
    assert(entries_map(after) =~= entries_map(entries).insert(key, value));
}

} // verus!
