//! The sealed side of the catalog: for each prefix, every generation
//! that stopped taking merges, kept for query and an eventual flush.

use vstd::prelude::*;

use dashmap::DashMap;

use crate::memtable::dash::{list_map_get, list_map_insert, list_map_new, list_map_of, list_map_remove};
use crate::memtable::memory::MemTable;
use crate::utils::table_name::TableName;

verus! {

/// Whether one of the sealed generations carries this identifier.
pub open spec fn contains_name(s: Seq<MemTable>, n: TableName) -> bool {
    exists|i: int| 0 <= i < s.len() && (#[trigger] s[i]).name.eq_spec(n)
}

/// The prefix-keyed index of sealed generations.
pub struct Immutables {
    pub tables: DashMap<String, Vec<MemTable>>,
}

impl Immutables {
    /// The sealed generations per prefix, oldest first.
    pub open spec fn view_map(self) -> Map<Seq<char>, Vec<MemTable>> {
        list_map_of(self.tables)
    }

    /// What stands sealed under a prefix, as a sequence.
    pub open spec fn sealed(self, prefix: Seq<char>) -> Seq<MemTable> {
        if self.view_map().dom().contains(prefix) {
            self.view_map()[prefix]@
        } else {
            Seq::empty()
        }
    }

    /// The index's key discipline: every generation sealed under a
    /// prefix carries that prefix in its own name.
    pub open spec fn wf_keys(self) -> bool {
        forall|p: Seq<char>, i: int|
            0 <= i < self.sealed(p).len() ==> (#[trigger] self.sealed(p)[i]).name.prefix@ == p
    }

    /// An empty index.
    pub fn new() -> (r: Self)
        ensures
            r.view_map() =~= Map::empty(),
            r.wf_keys(),
    {
        let r = Immutables { tables: list_map_new() };
        proof {
            assert forall|p: Seq<char>, i: int|
                0 <= i < r.sealed(p).len() implies (#[trigger] r.sealed(p)[i]).name.prefix@
                == p by {
                assert(!r.view_map().dom().contains(p));
            };
        }
        r
    }

    /// Seal a generation: append it to its prefix's list.
    pub fn insert(&mut self, memtable: MemTable) -> (r: bool)
        ensures
            r == true,
            final(self).sealed(memtable.name.prefix@) == old(self).sealed(
                memtable.name.prefix@,
            ).push(memtable),
            forall|p: Seq<char>|
                p != memtable.name.prefix@ ==> final(self).sealed(p) == old(self).sealed(p),
            old(self).wf_keys() ==> final(self).wf_keys(),
    {
        let prefix = memtable.name.get_prefix_name();
        let mut vs = match list_map_remove(&mut self.tables, &prefix) {
            Some(vs) => vs,
            None => Vec::new(),
        };
        let ghost prev = vs@;
        vs.push(memtable);
        list_map_insert(&mut self.tables, prefix, vs);
        proof {
            assert(final(self).sealed(memtable.name.prefix@) =~= old(self).sealed(
                memtable.name.prefix@,
            ).push(memtable));
            if old(self).wf_keys() {
                assert forall|p: Seq<char>, i: int|
                    0 <= i < final(self).sealed(p).len() implies (#[trigger] final(self).sealed(
                    p,
                )[i]).name.prefix@ == p by {
                    if p == memtable.name.prefix@ {
                        if i < old(self).sealed(p).len() {
                            assert(final(self).sealed(p)[i] == old(self).sealed(p)[i]);
                        } else {
                            assert(final(self).sealed(p)[i] == memtable);
                        }
                    } else {
                        assert(final(self).sealed(p) == old(self).sealed(p));
                    }
                };
            }
        }
        true
    }

    /// Whether a generation may still take merges as far as this index
    /// knows: it may unless it stands sealed under its prefix.
    pub fn mutable(&self, table_name: &TableName) -> (r: Result<bool, crate::memtable::EngineError>)
        ensures
            r == Ok::<bool, crate::memtable::EngineError>(
                !contains_name(self.sealed(table_name.prefix@), *table_name),
            ),
    {
        let prefix = table_name.get_prefix_name();
        match list_map_get(&self.tables, &prefix) {
            Some(vs) => {
                proof {
                    vstd::std_specs::vec::axiom_spec_len(&vs);
                }
                let mut i: usize = 0;
                while i < vs.len()
                    invariant
                        i <= vs@.len(),
                        vs@.len() <= usize::MAX,
                        vs@ == self.sealed(table_name.prefix@),
                        forall|k: int|
                            0 <= k < i ==> !(#[trigger] vs@[k]).name.eq_spec(*table_name),
                    decreases vs@.len() - i,
                {
                    if vs[i].name.eq_name(table_name) {
                        return Ok(false);
                    }
                    i = i + 1;
                }
                Ok(true)
            },
            None => Ok(true),
        }
    }

    /// The identifiers sealed under a prefix, oldest first.
    pub fn get_tables(&self, prefix: &String) -> (r: Vec<TableName>)
        ensures
            r@.len() == self.sealed(prefix@).len(),
            forall|i: int| 0 <= i < r@.len() ==> r@[i] == self.sealed(prefix@)[i].name,
    {
        match list_map_get(&self.tables, prefix) {
            Some(vs) => {
                proof {
                    vstd::std_specs::vec::axiom_spec_len(&vs);
                }
                let mut r: Vec<TableName> = Vec::new();
                let mut i: usize = 0;
                while i < vs.len()
                    invariant
                        i <= vs@.len(),
                        vs@.len() <= usize::MAX,
                        vs@ == self.sealed(prefix@),
                        r@.len() == i,
                        forall|k: int| 0 <= k < i ==> r@[k] == vs@[k].name,
                    decreases vs@.len() - i,
                {
                    r.push(vs[i].name.duplicate());
                    i = i + 1;
                }
                r
            },
            None => Vec::new(),
        }
    }
}

} // verus!
