//! Hash maps with the hasher of the `rustc_hash` crate.
//!
//! `FxHashMap` is std's `HashMap` with another hasher. The functions below carry
//! its methods over to that hasher, for keys whose equality and hash are those
//! of the value.
use rustc_hash::FxHashMap;
use std::hash::Hash;
use vstd::prelude::*;
use vstd::std_specs::hash::obeys_key_model;

verus! {

/// The hasher: the same key always has the same hash.
#[verifier::external_type_specification]
#[verifier::external_body]
pub struct ExFxBuildHasher(rustc_hash::FxBuildHasher);

/// `FxHashMap::default` makes a map without entries.
#[verifier::external_body]
pub(crate) fn new_map<K, V>() -> (map: FxHashMap<K, V>)
    ensures
        map@.dom() == Set::<K>::empty(),
{
    FxHashMap::default()
}

/// `HashMap::get` finds the value under a key.
#[verifier::external_body]
pub(crate) fn get<'a, K: Eq + Hash, V>(map: &'a FxHashMap<K, V>, key: &K) -> (value: Option<&'a V>)
    ensures
        obeys_key_model::<K>() ==> value == (if map@.contains_key(*key) {
            Some(&map@[*key])
        } else {
            None
        }),
{
    map.get(key)
}

/// `HashMap::insert` puts a value under a key, in place of the one before.
#[verifier::external_body]
pub(crate) fn insert<K: Eq + Hash, V>(map: &mut FxHashMap<K, V>, key: K, value: V)
    ensures
        obeys_key_model::<K>() ==> final(map)@ == old(map)@.insert(key, value),
{
    map.insert(key, value);
}

/// `HashMap::remove` takes the value under a key out of the map.
#[verifier::external_body]
pub(crate) fn remove<K: Eq + Hash, V>(map: &mut FxHashMap<K, V>, key: &K) -> (value: Option<V>)
    ensures
        obeys_key_model::<K>() ==> final(map)@ == old(map)@.remove(*key),
        obeys_key_model::<K>() ==> value == (if old(map)@.contains_key(*key) {
            Some(old(map)@[*key])
        } else {
            None
        }),
{
    map.remove(key)
}

/// `HashMap::is_empty` tells whether there is no entry.
#[verifier::external_body]
pub(crate) fn is_empty<K, V>(map: &FxHashMap<K, V>) -> (empty: bool)
    ensures
        obeys_key_model::<K>() ==> empty == map@.dom().is_empty(),
{
    map.is_empty()
}

} // verus!
