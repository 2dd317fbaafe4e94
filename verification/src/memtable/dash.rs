//! Trusted view of dashmap's concurrent map, as the catalog uses it:
//! string-keyed maps whose contents are modelled as spec `Map`s. Every
//! mutating wrapper takes the map by `&mut` so that contents before
//! and after the call can be told apart.

use vstd::prelude::*;

use dashmap::DashMap;

use crate::memtable::memory::MemTable;

verus! {

#[verifier::external_type_specification]
#[verifier::external_body]
#[verifier::reject_recursive_types(K)]
#[verifier::reject_recursive_types(V)]
#[verifier::reject_recursive_types(S)]
pub struct ExDashMap<K, V, S>(DashMap<K, V, S>);

/// What a string-keyed map of byte sizes holds.
pub uninterp spec fn size_map_of(m: DashMap<String, usize>) -> Map<Seq<char>, usize>;

/// Relies on dashmap::DashMap::new: a fresh map is empty.
#[verifier::external_body]
pub fn size_map_new() -> (r: DashMap<String, usize>)
    ensures
        size_map_of(r) =~= Map::empty(),
{
    DashMap::new()
}

/// Relies on dashmap::DashMap::insert: the value is stored under the
/// key and the previous value under it comes back.
#[verifier::external_body]
pub fn size_map_insert(m: &mut DashMap<String, usize>, key: String, value: usize) -> (r: Option<
    usize,
>)
    ensures
        size_map_of(*final(m)) =~= size_map_of(*old(m)).insert(key@, value),
        r == if size_map_of(*old(m)).dom().contains(key@) {
            Some(size_map_of(*old(m))[key@])
        } else {
            Option::<usize>::None
        },
{
    m.insert(key, value)
}

/// Relies on dashmap::DashMap::get: the value under the key, copied
/// out.
#[verifier::external_body]
pub fn size_map_get(m: &DashMap<String, usize>, key: &String) -> (r: Option<usize>)
    ensures
        r == if size_map_of(*m).dom().contains(key@) {
            Some(size_map_of(*m)[key@])
        } else {
            Option::<usize>::None
        },
{
    m.get(key.as_str()).map(|g| *g.value())
}

/// What a string-keyed map of table generations holds.
pub uninterp spec fn mem_map_of(m: DashMap<String, MemTable>) -> Map<Seq<char>, MemTable>;

/// Relies on dashmap::DashMap::new: a fresh map is empty.
#[verifier::external_body]
pub fn mem_map_new() -> (r: DashMap<String, MemTable>)
    ensures
        mem_map_of(r) =~= Map::empty(),
{
    DashMap::new()
}

/// Relies on dashmap::DashMap::insert: the value is stored under the
/// key and whether a previous value stood under it comes back.
#[verifier::external_body]
pub fn mem_map_insert(m: &mut DashMap<String, MemTable>, key: String, value: MemTable) -> (r:
    bool)
    ensures
        mem_map_of(*final(m)) =~= mem_map_of(*old(m)).insert(key@, value),
        r == mem_map_of(*old(m)).dom().contains(key@),
{
    m.insert(key, value).is_some()
}

/// Relies on dashmap::DashMap::get: a copy of the value under the
/// key.
#[verifier::external_body]
pub fn mem_map_get(m: &DashMap<String, MemTable>, key: &String) -> (r: Option<MemTable>)
    ensures
        r == if mem_map_of(*m).dom().contains(key@) {
            Some(mem_map_of(*m)[key@])
        } else {
            Option::<MemTable>::None
        },
{
    m.get(key.as_str()).map(|g| g.value().clone())
}

/// What a string-keyed map of sealed-generation lists holds.
pub uninterp spec fn list_map_of(m: DashMap<String, Vec<MemTable>>) -> Map<
    Seq<char>,
    Vec<MemTable>,
>;

/// Relies on dashmap::DashMap::new: a fresh map is empty.
#[verifier::external_body]
pub fn list_map_new() -> (r: DashMap<String, Vec<MemTable>>)
    ensures
        list_map_of(r) =~= Map::empty(),
{
    DashMap::new()
}

/// Relies on dashmap::DashMap::insert: the list is stored under the
/// key.
#[verifier::external_body]
pub fn list_map_insert(m: &mut DashMap<String, Vec<MemTable>>, key: String, value: Vec<MemTable>)
    ensures
        list_map_of(*final(m)) =~= list_map_of(*old(m)).insert(key@, value),
{
    m.insert(key, value);
}

/// Relies on dashmap::DashMap::remove: the list under the key leaves
/// the map and comes back.
#[verifier::external_body]
pub fn list_map_remove(m: &mut DashMap<String, Vec<MemTable>>, key: &String) -> (r: Option<
    Vec<MemTable>,
>)
    ensures
        list_map_of(*final(m)) =~= list_map_of(*old(m)).remove(key@),
        r == if list_map_of(*old(m)).dom().contains(key@) {
            Some(list_map_of(*old(m))[key@])
        } else {
            Option::<Vec<MemTable>>::None
        },
{
    m.remove(key.as_str()).map(|kv| kv.1)
}

/// Relies on dashmap::DashMap::get: a copy of the list under the key.
#[verifier::external_body]
pub fn list_map_get(m: &DashMap<String, Vec<MemTable>>, key: &String) -> (r: Option<
    Vec<MemTable>,
>)
    ensures
        r == if list_map_of(*m).dom().contains(key@) {
            Some(list_map_of(*m)[key@])
        } else {
            Option::<Vec<MemTable>>::None
        },
{
    m.get(key.as_str()).map(|g| g.value().clone())
}

} // verus!
