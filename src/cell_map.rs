//! The map from grid cells to their occupants: bevy's `HashMap`, keyed by a
//! cell's two coordinates.

use vstd::prelude::*;
use bevy::platform::collections::HashMap;
use bevy::platform::hash::FixedHasher;
use crate::grid::BlockComposite;

verus! {

#[verifier::external_type_specification]
#[verifier::external_body]
#[verifier::reject_recursive_types(K)]
#[verifier::reject_recursive_types(V)]
#[verifier::reject_recursive_types(S)]
pub struct ExHashMap<K, V, S>(HashMap<K, V, S>);

#[verifier::external_type_specification]
#[verifier::external_body]
pub struct ExFixedHasher(FixedHasher);

/// Cell coordinates to the block that occupies the cell.
pub type CellMap = HashMap<(i64, i64), BlockComposite, FixedHasher>;

/// What a cell map holds.
pub uninterp spec fn cell_map_contents(m: CellMap) -> Map<(i64, i64), BlockComposite>;

/// The contents of an empty cell map.
pub open spec fn no_cells() -> Map<(i64, i64), BlockComposite> {
    Map::empty()
}

/// Relies on `HashMap::new`: the map starts empty.
#[verifier::external_body]
pub(crate) fn cell_map_new() -> (r: CellMap)
    ensures
        cell_map_contents(r) == no_cells(),
{
    HashMap::new()
}

/// Relies on `HashMap::get`: the value stored under `key`, if any.
#[verifier::external_body]
pub(crate) fn cell_map_get(m: &CellMap, key: (i64, i64)) -> (r: Option<BlockComposite>)
    ensures
        r == (if cell_map_contents(*m).contains_key(key) {
            Some(cell_map_contents(*m)[key])
        } else {
            None::<BlockComposite>
        }),
{
    m.get(&key).copied()
}

/// Relies on `HashMap::insert`: afterwards `key` maps to `value` and every
/// other key is as it was.
#[verifier::external_body]
pub(crate) fn cell_map_insert(m: &mut CellMap, key: (i64, i64), value: BlockComposite)
    ensures
        cell_map_contents(*final(m)) == cell_map_contents(*old(m)).insert(key, value),
{
    m.insert(key, value);
}

/// Relies on `HashMap::iter`: every entry of the map once, in an order the
/// map does not specify.
#[verifier::external_body]
pub(crate) fn cell_map_entries(m: &CellMap) -> (r: Vec<((i64, i64), BlockComposite)>)
    ensures
        forall|i: int|
            0 <= i < r@.len() ==> {
                &&& #[trigger] cell_map_contents(*m).contains_key(r@[i].0)
                &&& cell_map_contents(*m)[r@[i].0] == r@[i].1
            },
        forall|key: (i64, i64)|
            #[trigger] cell_map_contents(*m).contains_key(key) ==> exists|i: int|
                0 <= i < r@.len() && r@[i].0 == key,
{
    m.iter().map(|(key, value)| (*key, *value)).collect()
}

} // verus!
