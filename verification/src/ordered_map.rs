//! A map from text to text that keeps its entries in the order in which
//! their keys first came: `indexmap::IndexMap`, behind contracts.

use vstd::prelude::*;
use indexmap::IndexMap;
use crate::lookup::{first_position, lemma_first_position};

verus! {

#[verifier::external_type_specification]
#[verifier::external_body]
#[verifier::reject_recursive_types(K)]
#[verifier::reject_recursive_types(V)]
#[verifier::reject_recursive_types(S)]
pub struct ExIndexMap<K, V, S>(IndexMap<K, V, S>);

/// The entries of a list as plain values: pairs of a key and a value.
pub type Entries = Seq<(Seq<char>, Seq<char>)>;

/// What the map holds: its entries, in the map's order.
pub uninterp spec fn index_map_entries(map: IndexMap<String, String>) -> Entries;

/// The keys of a list of entries.
pub open spec fn entry_keys(entries: Entries) -> Seq<Seq<char>> {
    Seq::new(entries.len(), |i: int| entries[i].0)
}

/// The entries after `key` is set to `value`: where an entry has the key,
/// it keeps its place and gets the value; else a new entry comes last.
pub open spec fn with_entry(entries: Entries, key: Seq<char>, value: Seq<char>) -> Entries {
    let at = first_position(entry_keys(entries), key);
    if at >= 0 {
        entries.update(at, (key, value))
    } else {
        entries.push((key, value))
    }
}

/// The views of a list of pairs of strings.
pub open spec fn pair_views(pairs: Seq<(String, String)>) -> Entries {
    Seq::new(pairs.len(), |i: int| (pairs[i].0@, pairs[i].1@))
}

/// Calls `IndexMap::new`. Claimed of it: the new map holds no entry.
#[verifier::external_body]
pub(crate) fn index_map_new() -> (map: IndexMap<String, String>)
    ensures
        index_map_entries(map) == Seq::<(Seq<char>, Seq<char>)>::empty(),
{
    IndexMap::new()
}

/// Calls `IndexMap::insert`. Claimed of it, as its documentation says:
/// where the map has the key, the entry keeps its place in the order and
/// gets the new value; where it has not, the new entry is last in order.
#[verifier::external_body]
pub(crate) fn index_map_insert(map: &mut IndexMap<String, String>, key: String, value: String)
    ensures
        index_map_entries(*final(map)) == with_entry(index_map_entries(*old(map)), key@, value@),
{
    map.insert(key, value);
}

/// Calls `IndexMap::into_iter` and gathers what it yields. Claimed of it:
/// it yields the map's entries, in the map's order.
#[verifier::external_body]
pub(crate) fn index_map_into_entries(map: IndexMap<String, String>) -> (pairs: Vec<
    (String, String),
>)
    ensures
        pair_views(pairs@) == index_map_entries(map),
{
    map.into_iter().collect()
}

/// The value that the entries hold under a key: that of the first entry
/// with the key.
pub open spec fn value_of(entries: Entries, key: Seq<char>) -> Option<Seq<char>> {
    if first_position(entry_keys(entries), key) >= 0 {
        Some(entries[first_position(entry_keys(entries), key)].1)
    } else {
        None
    }
}

/// The value of the last of the entries with a key.
pub open spec fn last_value(entries: Entries, key: Seq<char>) -> Option<Seq<char>>
    decreases entries.len(),
{
    if entries.len() == 0 {
        None
    } else if entries.last().0 == key {
        Some(entries.last().1)
    } else {
        last_value(entries.drop_last(), key)
    }
}

/// Setting a key changes the value under that key and under no other, and
/// keeps the keys distinct.
pub proof fn lemma_with_entry(entries: Entries, key: Seq<char>, value: Seq<char>, other: Seq<char>)
    ensures
        value_of(with_entry(entries, key, value), other) == if other == key {
            Some(value)
        } else {
            value_of(entries, other)
        },
        entry_keys(entries).no_duplicates() ==> entry_keys(
            with_entry(entries, key, value),
        ).no_duplicates(),
{
    let keys = entry_keys(entries);
    let after = with_entry(entries, key, value);
    let keys2 = entry_keys(after);
    lemma_first_position(keys, key);
    lemma_first_position(keys, other);
    lemma_first_position(keys2, other);
    let at = first_position(keys, key);
    if at >= 0 {
        assert(keys2 =~= keys);
    } else {
        assert(keys2 =~= keys.push(key));
        let p = first_position(keys2, other);
        if other == key {
            assert(keys2[keys.len() as int] == key);
            if p < keys.len() {
                assert(keys2[p] == keys[p]);
            }
        } else {
            let q = first_position(keys, other);
            if q >= 0 {
                assert(keys2[q] == other);
                if p != q {
                    assert(keys2[p] == keys[p]);
                }
            } else if p >= 0 {
                if p < keys.len() {
                    assert(keys2[p] == keys[p]);
                }
            }
        }
        if keys.no_duplicates() {
            assert forall|i: int, j: int|
                0 <= i < keys2.len() && 0 <= j < keys2.len() && i != j implies keys2[i]
                != keys2[j] by {
                if i < keys.len() && j < keys.len() {
                    assert(keys2[i] == keys[i] && keys2[j] == keys[j]);
                } else if i < keys.len() {
                    assert(keys2[i] == keys[i]);
                } else {
                    assert(keys2[j] == keys[j]);
                }
            }
        }
    }
}

/// Setting a key to the value that it holds changes nothing.
pub proof fn lemma_with_entry_held(entries: Entries, key: Seq<char>, value: Seq<char>)
    requires
        value_of(entries, key) == Some(value),
    ensures
        with_entry(entries, key, value) == entries,
{
    lemma_first_position(entry_keys(entries), key);
    let at = first_position(entry_keys(entries), key);
    assert(entry_keys(entries)[at] == entries[at].0);
    assert(entries.update(at, (key, value)) =~= entries);
}

} // verus!
