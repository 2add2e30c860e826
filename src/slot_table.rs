//! The table from identifiers to slots of an item list, kept in bevy's `HashMap`.
use bevy::platform::collections::HashMap;
use bevy::platform::hash::FixedHasher;
use vstd::prelude::*;

verus! {

#[verifier::external_type_specification]
#[verifier::external_body]
#[verifier::reject_recursive_types(K)]
#[verifier::reject_recursive_types(V)]
#[verifier::reject_recursive_types(S)]
pub struct ExHashMap<K, V, S>(HashMap<K, V, S>);

#[verifier::external_type_specification]
#[verifier::external_body]
pub struct ExFixedHasher(FixedHasher);

/// What a slot table maps: identifier to slot.
pub uninterp spec fn slots_of(m: HashMap<u64, usize>) -> Map<u64, usize>;

/// Relies on bevy's `HashMap::new`: the map starts empty.
#[verifier::external_body]
pub(crate) fn slot_table_new() -> (r: HashMap<u64, usize>)
    ensures
        slots_of(r).is_empty(),
{
    HashMap::new()
}

/// Relies on bevy's `HashMap::insert`: afterwards `k` maps to `v`, every other key
/// as before.
#[verifier::external_body]
pub(crate) fn slot_table_insert(m: &mut HashMap<u64, usize>, k: u64, v: usize)
    ensures
        slots_of(*final(m)) == slots_of(*old(m)).insert(k, v),
{
    m.insert(k, v);
}

/// Relies on bevy's `HashMap::get`: the value stored under `k`, if any.
#[verifier::external_body]
pub(crate) fn slot_table_get(m: &HashMap<u64, usize>, k: u64) -> (r: Option<usize>)
    ensures
        r == (if slots_of(*m).contains_key(k) {
            Some(slots_of(*m)[k])
        } else {
            None::<usize>
        }),
{
    m.get(&k).copied()
}

} // verus!
