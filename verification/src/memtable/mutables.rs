//! The writable side of the catalog: at most one generation per
//! prefix accepts merges at any time.

use vstd::prelude::*;

use dashmap::DashMap;

use crate::memtable::dash::{mem_map_get, mem_map_insert, mem_map_new, mem_map_of};
use crate::memtable::memory::MemTable;
use crate::utils::table_name::TableName;

verus! {

/// The prefix-keyed index of writable generations. It holds metadata
/// only; the generations' data lives in the registered-table store.
pub struct Mutables {
    pub tables: DashMap<String, MemTable>,
}

impl Mutables {
    /// The writable generation per prefix.
    pub open spec fn view_map(self) -> Map<Seq<char>, MemTable> {
        mem_map_of(self.tables)
    }

    /// An empty index.
    pub fn new() -> (r: Self)
        ensures
            r.view_map() =~= Map::empty(),
    {
        Mutables { tables: mem_map_new() }
    }

    /// Whether a prefix currently has a writable generation.
    pub fn contains_key(&self, prefix: &String) -> (r: bool)
        ensures
            r == self.view_map().dom().contains(prefix@),
    {
        mem_map_get(&self.tables, prefix).is_some()
    }

    /// Install a generation as its prefix's writable one, replacing
    /// whatever stood there. Returns whether something stood there.
    pub fn insert(&mut self, memtable: MemTable) -> (r: bool)
        ensures
            final(self).view_map() == old(self).view_map().insert(
                memtable.name.prefix@,
                memtable,
            ),
            r == old(self).view_map().dom().contains(memtable.name.prefix@),
    {
        let prefix = memtable.name.get_prefix_name();
        mem_map_insert(&mut self.tables, prefix, memtable)
    }

    /// The writable generation of a prefix, if any.
    pub fn get_table(&self, prefix: &String) -> (r: Option<MemTable>)
        ensures
            r == if self.view_map().dom().contains(prefix@) {
                Some(self.view_map()[prefix@])
            } else {
                Option::<MemTable>::None
            },
    {
        mem_map_get(&self.tables, prefix)
    }

    /// The identifier of a prefix's writable generation, if any.
    pub fn get_table_name(&self, prefix: &String) -> (r: Option<TableName>)
        ensures
            r == if self.view_map().dom().contains(prefix@) {
                Some(self.view_map()[prefix@].name)
            } else {
                Option::<TableName>::None
            },
    {
        match mem_map_get(&self.tables, prefix) {
            Some(m) => Some(m.name),
            None => None,
        }
    }
}

} // verus!
