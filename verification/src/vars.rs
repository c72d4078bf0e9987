//! The overrides of a prefab while they are folded, in a map that keeps them in order.
//!
//! A `LinkedHashMap` cannot stand inside a constant, a type that would then contain itself
//! through it. So a constant lists its overrides, and this map exists only while that list is
//! being made.
use crate::constant;
use crate::constant::{Constant, ConstantV};
use crate::semantics;
use linked_hash_map::LinkedHashMap;
use vstd::prelude::*;

verus! {

/// `linked_hash_map::LinkedHashMap`, of whose insides nothing is known.
#[verifier::external_type_specification]
#[verifier::external_body]
#[verifier::reject_recursive_types(K)]
#[verifier::reject_recursive_types(V)]
#[verifier::reject_recursive_types(S)]
pub struct ExLinkedHashMap<K, V, S>(linked_hash_map::LinkedHashMap<K, V, S>);

/// The entries of a map, in the order in which the map is iterated.
pub uninterp spec fn entries(map: LinkedHashMap<String, Constant>) -> Seq<(Seq<char>, ConstantV)>;

/// `LinkedHashMap::new`, which makes an empty map.
#[verifier::external_body]
pub(crate) fn new_map() -> (map: LinkedHashMap<String, Constant>)
    ensures
        entries(map) == Seq::<(Seq<char>, ConstantV)>::empty(),
{
    LinkedHashMap::new()
}

/// `LinkedHashMap::insert`, which puts the entry last; an entry of the same key gives way to it.
#[verifier::external_body]
pub(crate) fn insert(map: &mut LinkedHashMap<String, Constant>, key: String, value: Constant)
    ensures
        entries(*final(map)) == semantics::placed(entries(*old(map)), key@, value@),
{
    map.insert(key, value);
}

/// `<LinkedHashMap as IntoIterator>::into_iter`, which yields the entries from the first to the
/// last, collected into a vector.
#[verifier::external_body]
pub(crate) fn into_entries(map: LinkedHashMap<String, Constant>) -> (list: Vec<(String, Constant)>)
    ensures
        constant::vars_view(list@) == entries(map),
{
    map.into_iter().collect()
}

} // verus!
