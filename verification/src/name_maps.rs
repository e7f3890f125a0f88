//! Insertion-ordered maps from names to items, held in `indexmap::IndexMap`
//! with `smol_str::SmolStr` keys.
//!
//! What a map holds is named by its entries: the key-value pairs in
//! insertion order, each key taken as its characters. The wrappers below
//! state what each `IndexMap` method that the queries call does to the
//! entries.

use vstd::prelude::*;
use indexmap::IndexMap;
use smol_str::SmolStr;
use crate::items::{FunctionId, EventId, ContractFieldId};

verus! {

#[verifier::external_type_specification]
#[verifier::external_body]
pub struct ExSmolStr(SmolStr);

#[verifier::external_type_specification]
#[verifier::external_body]
#[verifier::reject_recursive_types(K)]
#[verifier::reject_recursive_types(V)]
#[verifier::reject_recursive_types(S)]
pub struct ExIndexMap<K, V, S>(IndexMap<K, V, S>);

/// The entries of a map of function names, in insertion order.
pub uninterp spec fn function_map_entries(m: IndexMap<SmolStr, FunctionId>) -> Seq<(Seq<char>, FunctionId)>;

/// The entries of a map of event names, in insertion order.
pub uninterp spec fn event_map_entries(m: IndexMap<SmolStr, EventId>) -> Seq<(Seq<char>, EventId)>;

/// The entries of a map of field names, in insertion order.
pub uninterp spec fn field_map_entries(m: IndexMap<SmolStr, ContractFieldId>) -> Seq<(Seq<char>, ContractFieldId)>;

/// `i` is the position of the entry with key `key`.
pub open spec fn is_key_at<V>(entries: Seq<(Seq<char>, V)>, key: Seq<char>, i: int) -> bool {
    0 <= i < entries.len() && entries[i].0 == key
}

/// Some entry has the key `key`.
pub open spec fn has_key<V>(entries: Seq<(Seq<char>, V)>, key: Seq<char>) -> bool {
    exists|i: int| is_key_at(entries, key, i)
}

/// No two entries have the same key.
pub open spec fn keys_distinct<V>(entries: Seq<(Seq<char>, V)>) -> bool {
    forall|i: int, j: int| 0 <= i < entries.len() && 0 <= j < entries.len() && i != j ==> entries[i].0 != entries[j].0
}

/// The position of the entry with key `key` (meaningful where it has one).
pub open spec fn key_index<V>(entries: Seq<(Seq<char>, V)>, key: Seq<char>) -> int {
    choose|i: int| is_key_at(entries, key, i)
}

/// The value stored under `key`, if any.
pub open spec fn entries_get<V>(entries: Seq<(Seq<char>, V)>, key: Seq<char>) -> Option<V> {
    if has_key(entries, key) {
        Some(entries[key_index(entries, key)].1)
    } else {
        None
    }
}

/// The entries after inserting `value` under `key`: an existing key keeps
/// its place and gets the new value; a new key goes last.
pub open spec fn entries_insert<V>(entries: Seq<(Seq<char>, V)>, key: Seq<char>, value: V) -> Seq<(Seq<char>, V)> {
    if has_key(entries, key) {
        entries.update(key_index(entries, key), (key, value))
    } else {
        entries.push((key, value))
    }
}

/// The entry at `index`, if the map has one there.
pub open spec fn entries_at<V>(entries: Seq<(Seq<char>, V)>, index: int) -> Option<(Seq<char>, V)> {
    if 0 <= index < entries.len() {
        Some(entries[index])
    } else {
        None
    }
}

/// Inserting a new key keeps the keys distinct.
pub proof fn lemma_insert_new_key<V>(entries: Seq<(Seq<char>, V)>, key: Seq<char>, value: V)
    requires
        keys_distinct(entries),
        !has_key(entries, key),
    ensures
        entries_insert(entries, key, value) == entries.push((key, value)),
        keys_distinct(entries.push((key, value))),
{
    let e2 = entries.push((key, value));
    assert forall|i: int, j: int| 0 <= i < e2.len() && 0 <= j < e2.len() && i != j implies e2[i].0 != e2[j].0 by {
        if i < entries.len() && j < entries.len() {
        } else if i < entries.len() {
            assert(!is_key_at(entries, key, i));
        } else {
            assert(!is_key_at(entries, key, j));
        }
    }
}

/// With distinct keys, the entry found for a key is the one at its position.
pub proof fn lemma_key_index<V>(entries: Seq<(Seq<char>, V)>, key: Seq<char>, i: int)
    requires
        keys_distinct(entries),
        is_key_at(entries, key, i),
    ensures
        has_key(entries, key),
        key_index(entries, key) == i,
        entries_get(entries, key) == Some(entries[i].1),
{
    assert(has_key(entries, key));
    let k = key_index(entries, key);
    assert(is_key_at(entries, key, k));
}

/// The entries with each value replaced by its image under `f`.
pub open spec fn map_vals<V, W>(entries: Seq<(Seq<char>, V)>, f: spec_fn(V) -> W) -> Seq<(Seq<char>, W)> {
    entries.map_values(|e: (Seq<char>, V)| (e.0, f(e.1)))
}

/// Replacing the values keeps the keys, so a lookup finds the image of the
/// value it found before.
pub proof fn lemma_map_vals_get<V, W>(entries: Seq<(Seq<char>, V)>, f: spec_fn(V) -> W, key: Seq<char>)
    requires
        keys_distinct(entries),
    ensures
        keys_distinct(map_vals(entries, f)),
        has_key(map_vals(entries, f), key) == has_key(entries, key),
        entries_get(map_vals(entries, f), key) == match entries_get(entries, key) {
            Some(v) => Some(f(v)),
            None => None,
        },
{
    let m = map_vals(entries, f);
    assert forall|i: int, j: int| 0 <= i < m.len() && 0 <= j < m.len() && i != j implies m[i].0 != m[j].0 by {
        assert(m[i].0 == entries[i].0);
        assert(m[j].0 == entries[j].0);
    }
    if has_key(entries, key) {
        let i = key_index(entries, key);
        assert(is_key_at(entries, key, i));
        lemma_key_index(entries, key, i);
        assert(is_key_at(m, key, i));
        lemma_key_index(m, key, i);
    } else {
        if has_key(m, key) {
            let i = key_index(m, key);
            assert(is_key_at(m, key, i));
            assert(is_key_at(entries, key, i));
        }
    }
}

// ----- maps of functions -----

/// `IndexMap::new`: an empty map.
#[verifier::external_body]
pub(crate) fn new_function_map() -> (m: IndexMap<SmolStr, FunctionId>)
    ensures
        function_map_entries(m) == Seq::<(Seq<char>, FunctionId)>::empty(),
{
    IndexMap::new()
}

/// `IndexMap::get` with a `&str` key: the value stored under `key`, if any.
#[verifier::external_body]
pub(crate) fn function_map_get(m: &IndexMap<SmolStr, FunctionId>, key: &str) -> (r: Option<FunctionId>)
    ensures
        r == entries_get(function_map_entries(*m), key@),
{
    m.get(key).copied()
}

/// `IndexMap::insert`: stores `value` under `key` (converted to a
/// `SmolStr`), keeping an existing key's place, and returns the value it
/// replaced.
#[verifier::external_body]
pub(crate) fn function_map_insert(m: &mut IndexMap<SmolStr, FunctionId>, key: &str, value: FunctionId) -> (r: Option<FunctionId>)
    ensures
        function_map_entries(*final(m)) == entries_insert(function_map_entries(*old(m)), key@, value),
        r == entries_get(function_map_entries(*old(m)), key@),
{
    m.insert(SmolStr::new(key), value)
}

/// `IndexMap::len`: the number of entries.
#[verifier::external_body]
pub(crate) fn function_map_len(m: &IndexMap<SmolStr, FunctionId>) -> (n: usize)
    ensures
        n == function_map_entries(*m).len(),
{
    m.len()
}

/// `IndexMap::get_index`: the entry at position `index`, its key as a
/// `String`.
#[verifier::external_body]
pub(crate) fn function_map_get_index(m: &IndexMap<SmolStr, FunctionId>, index: usize) -> (r: Option<(String, FunctionId)>)
    ensures
        match r {
            Some((k, v)) => entries_at(function_map_entries(*m), index as int) == Some((k@, v)),
            None => entries_at(function_map_entries(*m), index as int) is None,
        },
{
    match m.get_index(index) {
        Some((k, v)) => Some((k.to_string(), *v)),
        None => None,
    }
}

// ----- maps of events -----

/// `IndexMap::new`: an empty map.
#[verifier::external_body]
pub(crate) fn new_event_map() -> (m: IndexMap<SmolStr, EventId>)
    ensures
        event_map_entries(m) == Seq::<(Seq<char>, EventId)>::empty(),
{
    IndexMap::new()
}

/// `IndexMap::get` with a `&str` key: the value stored under `key`, if any.
#[verifier::external_body]
pub(crate) fn event_map_get(m: &IndexMap<SmolStr, EventId>, key: &str) -> (r: Option<EventId>)
    ensures
        r == entries_get(event_map_entries(*m), key@),
{
    m.get(key).copied()
}

/// `IndexMap::insert`: stores `value` under `key` (converted to a
/// `SmolStr`), keeping an existing key's place, and returns the value it
/// replaced.
#[verifier::external_body]
pub(crate) fn event_map_insert(m: &mut IndexMap<SmolStr, EventId>, key: &str, value: EventId) -> (r: Option<EventId>)
    ensures
        event_map_entries(*final(m)) == entries_insert(event_map_entries(*old(m)), key@, value),
        r == entries_get(event_map_entries(*old(m)), key@),
{
    m.insert(SmolStr::new(key), value)
}

// ----- maps of contract fields -----

/// `IndexMap::new`: an empty map.
#[verifier::external_body]
pub(crate) fn new_field_map() -> (m: IndexMap<SmolStr, ContractFieldId>)
    ensures
        field_map_entries(m) == Seq::<(Seq<char>, ContractFieldId)>::empty(),
{
    IndexMap::new()
}

/// `IndexMap::get` with a `&str` key: the value stored under `key`, if any.
#[verifier::external_body]
pub(crate) fn field_map_get(m: &IndexMap<SmolStr, ContractFieldId>, key: &str) -> (r: Option<ContractFieldId>)
    ensures
        r == entries_get(field_map_entries(*m), key@),
{
    m.get(key).copied()
}

/// `IndexMap::insert`: stores `value` under `key` (converted to a
/// `SmolStr`), keeping an existing key's place, and returns the value it
/// replaced.
#[verifier::external_body]
pub(crate) fn field_map_insert(m: &mut IndexMap<SmolStr, ContractFieldId>, key: &str, value: ContractFieldId) -> (r: Option<ContractFieldId>)
    ensures
        field_map_entries(*final(m)) == entries_insert(field_map_entries(*old(m)), key@, value),
        r == entries_get(field_map_entries(*old(m)), key@),
{
    m.insert(SmolStr::new(key), value)
}

/// `IndexMap::len`: the number of entries.
#[verifier::external_body]
pub(crate) fn field_map_len(m: &IndexMap<SmolStr, ContractFieldId>) -> (n: usize)
    ensures
        n == field_map_entries(*m).len(),
{
    m.len()
}

/// `IndexMap::get_index`: the entry at position `index`, its key as a
/// `String`.
#[verifier::external_body]
pub(crate) fn field_map_get_index(m: &IndexMap<SmolStr, ContractFieldId>, index: usize) -> (r: Option<(String, ContractFieldId)>)
    ensures
        match r {
            Some((k, v)) => entries_at(field_map_entries(*m), index as int) == Some((k@, v)),
            None => entries_at(field_map_entries(*m), index as int) is None,
        },
{
    match m.get_index(index) {
        Some((k, v)) => Some((k.to_string(), *v)),
        None => None,
    }
}

} // verus!
