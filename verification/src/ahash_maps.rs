//! The `ahash::AHashMap` instances the export registry keeps, with one name
//! for what each instance holds and one wrapper per method that the
//! registry calls. `AHashMap` is a newtype over std `HashMap` (its source
//! forwards every call below to it), so each wrapper states the std
//! `HashMap` behaviour over the held contents, keys taken by their view.

use vstd::prelude::*;
use ahash::{AHashMap, RandomState};

verus! {

#[verifier::external_type_specification]
#[verifier::external_body]
pub struct ExRandomState(RandomState);

#[verifier::external_type_specification]
#[verifier::external_body]
#[verifier::reject_recursive_types(K)]
#[verifier::reject_recursive_types(V)]
#[verifier::reject_recursive_types(S)]
pub struct ExAHashMap<K, V, S>(AHashMap<K, V, S>);

/// What a lower-cased export name table holds: name -> function index.
pub uninterp spec fn name_slots(m: AHashMap<String, u32>) -> Map<Seq<char>, u32>;

/// What an address-keyed name table holds: address -> name.
pub uninterp spec fn address_names(m: AHashMap<u64, String>) -> Map<u64, Seq<char>>;

/// The empty name table.
pub open spec fn no_names() -> Map<Seq<char>, u32> {
    Map::empty()
}

/// The empty address table.
pub open spec fn no_addresses() -> Map<u64, Seq<char>> {
    Map::empty()
}

/// `AHashMap::new` for the name table: an empty map.
#[verifier::external_body]
pub(crate) fn name_slots_new() -> (m: AHashMap<String, u32>)
    ensures
        name_slots(m) == no_names(),
{
    AHashMap::new()
}

/// `AHashMap::insert` for the name table: `k` now maps to `v`, every
/// other entry is unchanged.
#[verifier::external_body]
pub(crate) fn name_slots_insert(m: &mut AHashMap<String, u32>, k: String, v: u32)
    ensures
        name_slots(*final(m)) == name_slots(*old(m)).insert(k@, v),
{
    m.insert(k, v);
}

/// `AHashMap::get` for the name table.
#[verifier::external_body]
pub(crate) fn name_slots_get(m: &AHashMap<String, u32>, k: &str) -> (r: Option<u32>)
    ensures
        r == (if name_slots(*m).contains_key(k@) {
            Some(name_slots(*m)[k@])
        } else {
            None
        }),
{
    m.get(k).copied()
}

/// `AHashMap::new` for an address table: an empty map.
#[verifier::external_body]
pub(crate) fn address_names_new() -> (m: AHashMap<u64, String>)
    ensures
        address_names(m) == no_addresses(),
{
    AHashMap::new()
}

/// `AHashMap::insert` for an address table.
#[verifier::external_body]
pub(crate) fn address_names_insert(m: &mut AHashMap<u64, String>, k: u64, v: String)
    ensures
        address_names(*final(m)) == address_names(*old(m)).insert(k, v@),
{
    m.insert(k, v);
}

/// `AHashMap::get` for an address table.
#[verifier::external_body]
pub(crate) fn address_names_get(m: &AHashMap<u64, String>, k: u64) -> (r: Option<&String>)
    ensures
        match r {
            Some(s) => address_names(*m).contains_key(k) && s@ == address_names(*m)[k],
            None => !address_names(*m).contains_key(k),
        },
{
    m.get(&k)
}

/// `AHashMap::remove` for an address table: `k` no longer maps to anything.
#[verifier::external_body]
pub(crate) fn address_names_remove(m: &mut AHashMap<u64, String>, k: u64)
    ensures
        address_names(*final(m)) == address_names(*old(m)).remove(k),
{
    m.remove(&k);
}

/// `HashMap::clear` (through `AHashMap`'s `DerefMut`) for an address table.
#[verifier::external_body]
pub(crate) fn address_names_clear(m: &mut AHashMap<u64, String>)
    ensures
        address_names(*final(m)) == no_addresses(),
{
    m.clear();
}

} // verus!
