//! Hash maps with the hasher of the fnv crate, keyed by tuples of integers.
//!
//! An `FnvHashMap` is std's `HashMap` with another hasher: FNV-1a, which gives
//! equal bytes equal hashes. Its view is the mathematical map that it holds.
use fnv::{FnvHashMap, FnvHasher};
use std::hash::{BuildHasherDefault, Hash};
use vstd::prelude::*;

use crate::types::{Address, SocketAddr};

verus! {

/// The hasher of the fnv crate.
#[verifier::external_type_specification]
#[verifier::external_body]
pub struct ExFnvHasher(FnvHasher);

/// std's builder of hashers that have a default.
#[verifier::external_type_specification]
#[verifier::external_body]
#[verifier::reject_recursive_types(H)]
pub struct ExBuildHasherDefault<H>(BuildHasherDefault<H>);

/// The keys: tuples of integers, which std compares and hashes by their
/// components.
pub(crate) trait IntegerKey {

}

impl IntegerKey for Address {

}

impl IntegerKey for SocketAddr {

}

/// `HashMap::get`, with the value copied out: the value under the key, if the
/// key is there.
#[verifier::external_body]
pub(crate) fn get<K: IntegerKey + Eq + Hash + Copy, V: Copy>(
    m: &FnvHashMap<K, V>,
    key: K,
) -> (r: Option<V>)
    ensures
        r == (if m@.contains_key(key) {
            Some(m@[key])
        } else {
            None
        }),
{
    m.get(&key).copied()
}

/// `HashMap::insert`: puts the value under the key, in place of what was
/// there.
#[verifier::external_body]
pub(crate) fn insert<K: IntegerKey + Eq + Hash + Copy, V>(
    m: &mut FnvHashMap<K, V>,
    key: K,
    value: V,
)
    ensures
        final(m)@ == old(m)@.insert(key, value),
{
    m.insert(key, value);
}

/// `HashMap::remove`: takes the key out and gives what was under it.
#[verifier::external_body]
pub(crate) fn remove<K: IntegerKey + Eq + Hash + Copy, V>(
    m: &mut FnvHashMap<K, V>,
    key: K,
) -> (r: Option<V>)
    ensures
        final(m)@ == old(m)@.remove(key),
        r == (if old(m)@.contains_key(key) {
            Some(old(m)@[key])
        } else {
            None
        }),
{
    m.remove(&key)
}

/// `HashMap::len`: the number of keys.
#[verifier::external_body]
pub(crate) fn len<K: IntegerKey + Eq + Hash + Copy, V>(m: &FnvHashMap<K, V>) -> (r: usize)
    ensures
        r == m@.len(),
{
    m.len()
}

/// `HashMap::keys`, copied into a vector: every key once, in an order that is
/// left open.
#[verifier::external_body]
pub(crate) fn keys<K: IntegerKey + Eq + Hash + Copy, V>(m: &FnvHashMap<K, V>) -> (r: Vec<K>)
    ensures
        r@.no_duplicates(),
        r@.to_set() == m@.dom(),
{
    m.keys().cloned().collect()
}

} // verus!
