//! Finds an edge by the ports that it joins.

use bevy_platform::collections::HashMap;
use bevy_platform::hash::FixedHasher;
use vstd::prelude::*;

verus! {

/// A hash map of `bevy_platform`.
#[verifier::external_type_specification]
#[verifier::external_body]
#[verifier::reject_recursive_types(K)]
#[verifier::reject_recursive_types(V)]
#[verifier::reject_recursive_types(S)]
pub struct ExHashMap<K, V, S>(HashMap<K, V, S>);

/// The hasher of a hash map of `bevy_platform`.
#[verifier::external_type_specification]
#[verifier::external_body]
pub struct ExFixedHasher(FixedHasher);

/// What a map holds: the edge for source node, destination node, source port
/// and destination port.
pub uninterp spec fn edge_map_entries(map: HashMap<(u64, u64, u32, u32), u64>) -> Map<
    (u64, u64, u32, u32),
    u64,
>;

/// [`HashMap::with_capacity`]: a map that holds nothing. A capacity that overflows the
/// address space would panic.
#[verifier::external_body]
pub(crate) fn edge_map_with_capacity(capacity: usize) -> (map: HashMap<(u64, u64, u32, u32), u64>)
    requires
        capacity <= 0xFFFF_FFFF,
    ensures
        edge_map_entries(map).dom() == Set::<(u64, u64, u32, u32)>::empty(),
{
    HashMap::with_capacity(capacity)
}

/// [`HashMap::get`]: the value of a key.
#[verifier::external_body]
pub(crate) fn edge_map_get(
    map: &HashMap<(u64, u64, u32, u32), u64>,
    key: (u64, u64, u32, u32),
) -> (value: Option<u64>)
    ensures
        value == (if edge_map_entries(*map).contains_key(key) {
            Some(edge_map_entries(*map)[key])
        } else {
            None
        }),
{
    map.get(&key).copied()
}

/// [`HashMap::insert`]: sets the value of a key, and returns the value that it
/// had.
#[verifier::external_body]
pub(crate) fn edge_map_insert(
    map: &mut HashMap<(u64, u64, u32, u32), u64>,
    key: (u64, u64, u32, u32),
    value: u64,
) -> (replaced: Option<u64>)
    ensures
        edge_map_entries(*final(map)) == edge_map_entries(*old(map)).insert(key, value),
        replaced == (if edge_map_entries(*old(map)).contains_key(key) {
            Some(edge_map_entries(*old(map))[key])
        } else {
            None
        }),
{
    map.insert(key, value)
}

/// [`HashMap::remove`]: removes a key, and returns the value that it had.
#[verifier::external_body]
pub(crate) fn edge_map_remove(
    map: &mut HashMap<(u64, u64, u32, u32), u64>,
    key: (u64, u64, u32, u32),
) -> (removed: Option<u64>)
    ensures
        edge_map_entries(*final(map)) == edge_map_entries(*old(map)).remove(key),
        removed == (if edge_map_entries(*old(map)).contains_key(key) {
            Some(edge_map_entries(*old(map))[key])
        } else {
            None
        }),
{
    map.remove(&key)
}

} // verus!
