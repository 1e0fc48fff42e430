//! Hash maps and hash sets keyed by artist identifier.
//!
//! The collections are `rustc_hash`'s `FxHashMap` and `FxHashSet`, that is the
//! standard `HashMap` and `HashSet` with the Fx hasher. Their contents are
//! described by the views that `vstd` gives the standard collections
//! (`Map<u128, V>` and `Set<u128>`). The functions below are the only places
//! where the collections are touched; their contracts are taken on trust and
//! say what the standard library documents for each method.

use rustc_hash::FxBuildHasher;
use rustc_hash::FxHashMap;
use rustc_hash::FxHashSet;
use vstd::prelude::*;

verus! {

#[verifier::external_type_specification]
#[verifier::external_body]
pub struct ExFxBuildHasher(FxBuildHasher);

/// `FxHashMap::default`: a new map holds no entry.
#[verifier::external_body]
pub(crate) fn id_map_new<V>() -> (r: FxHashMap<u128, V>)
    ensures
        r@.dom() == Set::<u128>::empty(),
{
    FxHashMap::default()
}

/// `HashMap::insert`: afterwards the map holds `v` under `k` and is otherwise
/// unchanged. A value held under `k` before is dropped.
#[verifier::external_body]
pub(crate) fn id_map_insert<V>(m: &mut FxHashMap<u128, V>, k: u128, v: V)
    ensures
        final(m)@ == old(m)@.insert(k, v),
{
    m.insert(k, v);
}

/// `HashMap::get`: a reference to the value held under `k`, if there is one.
#[verifier::external_body]
pub(crate) fn id_map_get<'a, V>(m: &'a FxHashMap<u128, V>, k: u128) -> (r: Option<&'a V>)
    ensures
        r == (if m@.contains_key(k) { Some(&m@[k]) } else { None }),
{
    m.get(&k)
}

/// `HashMap::len`: the number of entries.
#[verifier::external_body]
pub(crate) fn id_map_len<V>(m: &FxHashMap<u128, V>) -> (r: usize)
    ensures
        r == m@.len(),
{
    m.len()
}

/// `HashMap::keys`, collected: every key of the map exactly once, in an order
/// that is left open.
#[verifier::external_body]
pub(crate) fn id_map_keys<V>(m: &FxHashMap<u128, V>) -> (r: Vec<u128>)
    ensures
        r@.no_duplicates() && r@.to_set() == m@.dom(),
{
    m.keys().copied().collect()
}

/// `FxHashSet::default`: a new set holds no element.
#[verifier::external_body]
pub(crate) fn id_set_new() -> (r: FxHashSet<u128>)
    ensures
        r@ == Set::<u128>::empty(),
{
    FxHashSet::default()
}

/// `HashSet::insert`: afterwards the set holds `k` besides what it held.
#[verifier::external_body]
pub(crate) fn id_set_insert(s: &mut FxHashSet<u128>, k: u128)
    ensures
        final(s)@ == old(s)@.insert(k),
{
    s.insert(k);
}

/// `HashSet::remove`: afterwards the set holds what it held, without `k`.
#[verifier::external_body]
pub(crate) fn id_set_remove(s: &mut FxHashSet<u128>, k: u128)
    ensures
        final(s)@ == old(s)@.remove(k),
{
    s.remove(&k);
}

/// `HashSet::contains`: whether `k` is an element.
#[verifier::external_body]
pub(crate) fn id_set_contains(s: &FxHashSet<u128>, k: u128) -> (r: bool)
    ensures
        r == s@.contains(k),
{
    s.contains(&k)
}

/// `HashSet::len`: the number of elements.
#[verifier::external_body]
pub(crate) fn id_set_len(s: &FxHashSet<u128>) -> (r: usize)
    ensures
        r == s@.len(),
{
    s.len()
}

/// Whether the map holds an entry under `k`.
pub(crate) fn id_map_contains<V>(m: &FxHashMap<u128, V>, k: u128) -> (r: bool)
    ensures
        r == m@.contains_key(k),
{
    id_map_get(m, k).is_some()
}

} // verus!
