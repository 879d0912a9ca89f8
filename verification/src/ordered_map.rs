//! The insertion-ordered maps (from the `indexmap` crate) that hold the
//! signature table and the builder registry, and what the library relies
//! on about them.
//!
//! An `IndexMap` is described by the sequence of its entries, in their
//! order: keys are pairwise distinct; `insert` of a new key appends it,
//! `insert` of a present key replaces its value in place.
use vstd::prelude::*;

use indexmap::IndexMap;

use crate::profile::FunctionBuilder;
use crate::signatures::FunctionSignature;

verus! {

#[verifier::external_type_specification]
#[verifier::external_body]
#[verifier::reject_recursive_types(K)]
#[verifier::reject_recursive_types(V)]
#[verifier::reject_recursive_types(S)]
pub struct ExIndexMap<K, V, S>(IndexMap<K, V, S>);

/// `<IndexMap as Clone>::clone`: a copy of the map. Nothing is claimed of
/// the copy's contents (its values are copies made by `V::clone`).
pub assume_specification<K, V, S>[<IndexMap<K, V, S> as Clone>::clone](m: &IndexMap<K, V, S>) -> IndexMap<K, V, S>
    where
        K: Clone,
        V: Clone,
        S: Clone,
;

/// Whether the keys of `e` are pairwise distinct.
pub open spec fn distinct_keys<K, V>(e: Seq<(K, V)>) -> bool {
    forall|i: int, j: int| 0 <= i < j < e.len() ==> e[i].0 != e[j].0
}

/// Position of `k` among the keys of `e`.
pub open spec fn key_index<K, V>(e: Seq<(K, V)>, k: K) -> Option<int> {
    if exists|i: int| 0 <= i < e.len() && e[i].0 == k {
        Some(choose|i: int| 0 <= i < e.len() && e[i].0 == k)
    } else {
        None
    }
}

/// The entries after inserting `(k, v)`: replaced in place when `k` is
/// present, appended otherwise.
pub open spec fn entries_insert<K, V>(e: Seq<(K, V)>, k: K, v: V) -> Seq<(K, V)> {
    match key_index(e, k) {
        Some(i) => e.update(i, (k, v)),
        None => e.push((k, v)),
    }
}

/// The value stored under `k`, if any.
pub open spec fn entries_get<K, V>(e: Seq<(K, V)>, k: K) -> Option<V> {
    match key_index(e, k) {
        Some(i) => Some(e[i].1),
        None => None,
    }
}

pub proof fn lemma_key_index<K, V>(e: Seq<(K, V)>, k: K)
    requires
        distinct_keys(e),
    ensures
        key_index(e, k) matches Some(i) ==> 0 <= i < e.len() && e[i].0 == k && forall|j: int|
            0 <= j < e.len() && e[j].0 == k ==> j == i,
        key_index(e, k) is None ==> forall|j: int| 0 <= j < e.len() ==> e[j].0 != k,
{
}

pub proof fn lemma_entries_insert<K, V>(e: Seq<(K, V)>, k: K, v: V)
    requires
        distinct_keys(e),
    ensures
        distinct_keys(entries_insert(e, k, v)),
        entries_get(entries_insert(e, k, v), k) == Some(v),
        forall|k2: K| k2 != k ==> entries_get(entries_insert(e, k, v), k2) == entries_get(e, k2),
{
    lemma_key_index(e, k);
    let e2 = entries_insert(e, k, v);
    assert(distinct_keys(e2));
    lemma_key_index(e2, k);
    match key_index(e, k) {
        Some(i) => {
            assert(e2[i].0 == k);
        },
        None => {
            assert(e2[e.len() as int].0 == k);
        },
    }
    assert forall|k2: K| k2 != k implies entries_get(e2, k2) == entries_get(e, k2) by {
        lemma_key_index(e, k2);
        lemma_key_index(e2, k2);
        if let Some(i) = key_index(e, k2) {
            assert(e2[i].0 == k2);
        }
    }
}

// ---------------------------------------------------------------------------
// The signature table's map
// ---------------------------------------------------------------------------

/// The entries of a signature map, in order, keyed by the characters of
/// each key.
pub uninterp spec fn signature_entries(m: IndexMap<String, FunctionSignature>) -> Seq<
    (Seq<char>, FunctionSignature),
>;

/// `IndexMap::new`: an empty map.
#[verifier::external_body]
pub(crate) fn sig_map_new() -> (m: IndexMap<String, FunctionSignature>)
    ensures
        signature_entries(m) == Seq::<(Seq<char>, FunctionSignature)>::empty(),
{
    IndexMap::new()
}

/// `IndexMap::insert`: a present key keeps its place and takes the new
/// value; a new key is appended last.
#[verifier::external_body]
pub(crate) fn sig_map_insert(m: &mut IndexMap<String, FunctionSignature>, k: String, v: FunctionSignature)
    requires
        distinct_keys(signature_entries(*old(m))),
    ensures
        signature_entries(*final(m)) == entries_insert(signature_entries(*old(m)), k@, v),
{
    m.insert(k, v);
}

/// `IndexMap::get`: the value stored under an equal key.
#[verifier::external_body]
pub(crate) fn sig_map_get<'a>(m: &'a IndexMap<String, FunctionSignature>, k: &str) -> (r: Option<&'a FunctionSignature>)
    requires
        distinct_keys(signature_entries(*m)),
    ensures
        r matches Some(v) ==> entries_get(signature_entries(*m), k@) == Some(*v),
        r is None ==> entries_get(signature_entries(*m), k@) is None,
{
    m.get(k)
}

/// `IndexMap::len`: the number of entries.
#[verifier::external_body]
pub(crate) fn sig_map_len(m: &IndexMap<String, FunctionSignature>) -> (r: usize)
    ensures
        r == signature_entries(*m).len(),
{
    m.len()
}

/// `IndexMap::get_index`: the entry at position `i`.
#[verifier::external_body]
pub(crate) fn sig_map_get_index<'a>(m: &'a IndexMap<String, FunctionSignature>, i: usize) -> (r: Option<(&'a String, &'a FunctionSignature)>)
    ensures
        i < signature_entries(*m).len() ==> r is Some && (r->0).0@ == signature_entries(*m)[i as int].0
            && *(r->0).1 == signature_entries(*m)[i as int].1,
        i >= signature_entries(*m).len() ==> r is None,
{
    m.get_index(i)
}

// ---------------------------------------------------------------------------
// The builder registry's map
// ---------------------------------------------------------------------------

/// The entries of a builder map, in order, keyed by the characters of
/// each key.
pub uninterp spec fn builder_entries(m: IndexMap<String, FunctionBuilder>) -> Seq<
    (Seq<char>, FunctionBuilder),
>;

/// `IndexMap::new`: an empty map.
#[verifier::external_body]
pub(crate) fn builder_map_new() -> (m: IndexMap<String, FunctionBuilder>)
    ensures
        builder_entries(m) == Seq::<(Seq<char>, FunctionBuilder)>::empty(),
{
    IndexMap::new()
}

/// `IndexMap::insert`: a present key keeps its place and takes the new
/// value; a new key is appended last.
#[verifier::external_body]
pub(crate) fn builder_map_insert(m: &mut IndexMap<String, FunctionBuilder>, k: String, v: FunctionBuilder)
    requires
        distinct_keys(builder_entries(*old(m))),
    ensures
        builder_entries(*final(m)) == entries_insert(builder_entries(*old(m)), k@, v),
{
    m.insert(k, v);
}

/// `IndexMap::get`: the value stored under an equal key.
#[verifier::external_body]
pub(crate) fn builder_map_get<'a>(m: &'a IndexMap<String, FunctionBuilder>, k: &str) -> (r: Option<&'a FunctionBuilder>)
    requires
        distinct_keys(builder_entries(*m)),
    ensures
        r matches Some(v) ==> entries_get(builder_entries(*m), k@) == Some(*v),
        r is None ==> entries_get(builder_entries(*m), k@) is None,
{
    m.get(k)
}

/// `IndexMap::contains_key`: whether an equal key is present.
#[verifier::external_body]
pub(crate) fn builder_map_contains_key(m: &IndexMap<String, FunctionBuilder>, k: &str) -> (r: bool)
    requires
        distinct_keys(builder_entries(*m)),
    ensures
        r == (entries_get(builder_entries(*m), k@) is Some),
{
    m.contains_key(k)
}

/// `IndexMap::len`: the number of entries.
#[verifier::external_body]
pub(crate) fn builder_map_len(m: &IndexMap<String, FunctionBuilder>) -> (r: usize)
    ensures
        r == builder_entries(*m).len(),
{
    m.len()
}

/// `IndexMap::get_index`: the entry at position `i`.
#[verifier::external_body]
pub(crate) fn builder_map_get_index<'a>(m: &'a IndexMap<String, FunctionBuilder>, i: usize) -> (r: Option<(&'a String, &'a FunctionBuilder)>)
    ensures
        i < builder_entries(*m).len() ==> r is Some && (r->0).0@ == builder_entries(*m)[i as int].0
            && *(r->0).1 == builder_entries(*m)[i as int].1,
        i >= builder_entries(*m).len() ==> r is None,
{
    m.get_index(i)
}

} // verus!
