//! Accumulated byte counts per table, for bookkeeping across inserts.

use vstd::prelude::*;

use dashmap::DashMap;

use crate::memtable::dash::{size_map_get, size_map_insert, size_map_new, size_map_of};

verus! {

/// A running byte count per table name.
pub struct TableSize {
    pub table: DashMap<String, usize>,
}

impl TableSize {
    /// The accumulated count per table.
    pub open spec fn view_map(self) -> Map<Seq<char>, usize> {
        size_map_of(self.table)
    }

    /// An empty record.
    pub fn new() -> (r: Self)
        ensures
            r.view_map() =~= Map::empty(),
    {
        TableSize { table: size_map_new() }
    }

    /// Add to a table's count, saturating at `usize::MAX`, and return
    /// the new total.
    pub fn insert(&mut self, key: &String, value: usize) -> (r: usize)
        ensures
            ({
                let prev = if old(self).view_map().dom().contains(key@) {
                    old(self).view_map()[key@] as int
                } else {
                    0
                };
                &&& (prev + value <= usize::MAX ==> r == prev + value)
                &&& (prev + value > usize::MAX ==> r == usize::MAX)
                &&& final(self).view_map() == old(self).view_map().insert(key@, r)
            }),
    {
        let prev = match size_map_get(&self.table, key) {
            Some(s) => s,
            None => 0,
        };
        let size = prev.saturating_add(value);
        size_map_insert(&mut self.table, key.clone(), size);
        size
    }

    /// A table's accumulated count, if any was recorded.
    pub fn get(&self, key: &String) -> (r: Option<usize>)
        ensures
            r == if self.view_map().dom().contains(key@) {
                Some(self.view_map()[key@])
            } else {
                Option::<usize>::None
            },
    {
        size_map_get(&self.table, key)
    }
}

} // verus!
