//! The concurrent map that records, for each actor type, the slot of its
//! manager.
//!
//! A map is owned by one book and never handed out, and it is changed only
//! through an exclusive borrow: what a shared borrow reads cannot change
//! under it, and no guard into the map is ever held across a call.

use vstd::prelude::*;
use dashmap::DashMap;

verus! {

#[verifier::external_type_specification]
#[verifier::external_body]
#[verifier::reject_recursive_types(K)]
#[verifier::reject_recursive_types(V)]
#[verifier::reject_recursive_types(S)]
pub struct ExDashMap<K, V, S>(DashMap<K, V, S>);

/// The entries a registry holds: actor type to manager slot.
pub uninterp spec fn registry_entries(registry: DashMap<u64, usize>) -> Map<u64, usize>;

/// The registry in which no actor type has a manager.
pub open spec fn no_entries() -> Map<u64, usize> {
    Map::empty()
}

/// `DashMap::new`: a map without entries.
#[verifier::external_body]
pub(crate) fn registry_new() -> (created: DashMap<u64, usize>)
    ensures
        registry_entries(created) == no_entries(),
{
    DashMap::new()
}

/// `DashMap::get`: the value stored under `kind`, copied out of the guard,
/// or `None` where the map has no such key. The map is left as it is.
#[verifier::external_body]
pub(crate) fn registry_get(registry: &DashMap<u64, usize>, kind: u64) -> (slot: Option<usize>)
    ensures
        slot == (if registry_entries(*registry).contains_key(kind) {
            Some(registry_entries(*registry)[kind])
        } else {
            None
        }),
{
    registry.get(&kind).map(|entry| *entry.value())
}

/// `DashMap::insert`: afterwards `kind` maps to `slot` and every other key is
/// as before; the value that `kind` had before is returned. The caller holds
/// the map exclusively, so no other party changes it meanwhile.
#[verifier::external_body]
pub(crate) fn registry_insert(
    registry: &mut DashMap<u64, usize>,
    kind: u64,
    slot: usize,
) -> (previous: Option<usize>)
    ensures
        registry_entries(*final(registry)) == registry_entries(*old(registry)).insert(kind, slot),
        previous == (if registry_entries(*old(registry)).contains_key(kind) {
            Some(registry_entries(*old(registry))[kind])
        } else {
            None
        }),
{
    registry.insert(kind, slot)
}

} // verus!
