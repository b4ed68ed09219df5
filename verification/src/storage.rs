//! The backing store for mappings: a fixed-capacity ordered map from the
//! `scapegoat` crate, keyed by start address, holding each mapping's length
//! and data-source id.
//!
//! Everything the rest of the library knows about the store it knows
//! through `sg_contents`, the name for what a store holds, and the
//! contracts of the small wrappers below; only those rest on the outside
//! crate.

use vstd::prelude::*;

use crate::address_space::entries_match;
use crate::address_space::MAX_MAPPINGS;

verus! {

#[verifier::external_type_specification]
#[verifier::external_body]
#[verifier::reject_recursive_types(K)]
#[verifier::reject_recursive_types(V)]
pub struct ExSgMap<K: Ord + Default, V: Default, const N: usize>(scapegoat::SgMap<K, V, N>);

/// The store of one address space: at most `MAX_MAPPINGS` pairs of
/// start address and `(length, source id)`.
pub type MappingStore = scapegoat::SgMap<usize, (usize, usize), MAX_MAPPINGS>;

/// What a store holds, as a map from start address to `(length, source id)`.
pub uninterp spec fn sg_contents(m: MappingStore) -> Map<usize, (usize, usize)>;

/// The contents of a store that holds nothing.
pub open spec fn empty_contents() -> Map<usize, (usize, usize)> {
    Map::empty()
}

/// Relies on `SgMap::new`: a fresh map holds nothing.
#[verifier::external_body]
pub(crate) fn store_new() -> (m: MappingStore)
    ensures
        sg_contents(m) == empty_contents(),
{
    scapegoat::SgMap::new()
}

/// Relies on `SgMap::try_insert`: adds or replaces the pair and answers
/// `Ok`, except when the map is at its fixed capacity `N` and the key is
/// absent, in which case it answers `Err` and changes nothing; it never
/// panics.
#[verifier::external_body]
pub(crate) fn store_try_insert(m: &mut MappingStore, key: usize, val: (usize, usize)) -> (ok: bool)
    ensures
        ok ==> sg_contents(*final(m)) == sg_contents(*old(m)).insert(key, val),
        !ok ==> sg_contents(*final(m)) == sg_contents(*old(m)),
        !ok ==> !sg_contents(*old(m)).dom().contains(key),
        !ok ==> sg_contents(*old(m)).dom().len() >= MAX_MAPPINGS,
        ok && !sg_contents(*old(m)).dom().contains(key)
            ==> sg_contents(*old(m)).dom().len() < MAX_MAPPINGS,
{
    m.try_insert(key, val).is_ok()
}

/// Relies on `SgMap::remove`: takes out the pair with the given key and
/// returns its value, or returns `None` and changes nothing.
#[verifier::external_body]
pub(crate) fn store_remove(m: &mut MappingStore, key: usize) -> (r: Option<(usize, usize)>)
    ensures
        match r {
            Some(v) => sg_contents(*old(m)).contains_pair(key, v)
                && sg_contents(*final(m)) == sg_contents(*old(m)).remove(key),
            None => !sg_contents(*old(m)).dom().contains(key)
                && sg_contents(*final(m)) == sg_contents(*old(m)),
        },
{
    m.remove(&key)
}

/// Relies on `SgMap::iter`: visits every stored pair exactly once, in
/// ascending key order.
#[verifier::external_body]
pub(crate) fn store_entries(m: &MappingStore) -> (es: Vec<(usize, usize, usize)>)
    ensures
        entries_match(sg_contents(*m), es@),
{
    m.iter().map(|(k, v)| (*k, v.0, v.1)).collect()
}

} // verus!
