//! The catalog proper: per prefix, exactly one writable generation
//! and a list of sealed ones, with the rollover rule that moves a
//! sealed-off writable generation aside instead of dropping it.

use vstd::prelude::*;

use crate::memtable::immtables::{contains_name, Immutables};
use crate::memtable::memory::MemTable;
use crate::memtable::mutables::Mutables;
use crate::memtable::EngineError;
use crate::utils::table_name::TableName;

verus! {

/// The two-sided catalog index.
pub struct TableIndexs {
    pub mutables: Mutables,
    pub immutables: Immutables,
}

impl TableIndexs {
    /// The writable generation per prefix.
    pub open spec fn writable(self) -> Map<Seq<char>, MemTable> {
        self.mutables.view_map()
    }

    /// The sealed generations of a prefix, oldest first.
    pub open spec fn sealed(self, prefix: Seq<char>) -> Seq<MemTable> {
        self.immutables.sealed(prefix)
    }

    /// The catalog's key discipline: every writable generation stands
    /// under its own prefix, and every sealed generation under its.
    pub open spec fn wf_keys(self) -> bool {
        &&& forall|p: Seq<char>|
            self.writable().dom().contains(p) ==> (#[trigger] self.writable()[p]).name.prefix@
                == p
        &&& self.immutables.wf_keys()
    }

    /// An empty catalog.
    pub fn new() -> (r: Self)
        ensures
            r.writable() =~= Map::empty(),
            forall|p: Seq<char>| (#[trigger] r.sealed(p)).len() == 0,
            r.wf_keys(),
    {
        TableIndexs { mutables: Mutables::new(), immutables: Immutables::new() }
    }

    /// Install a freshly produced generation as its prefix's writable
    /// one. When the previous writable generation had already been
    /// sealed by its size, it moves into the sealed list rather than
    /// being replaced silently: its data was not merged into the new
    /// generation. A still-mutable predecessor is simply replaced,
    /// since its data has been merged into the newcomer.
    pub fn insert(&mut self, memtable: MemTable) -> (r: bool)
        requires
            old(self).wf_keys(),
        ensures
            final(self).wf_keys(),
            final(self).writable() == old(self).writable().insert(
                memtable.name.prefix@,
                memtable,
            ),
            ({
                let p = memtable.name.prefix@;
                if old(self).writable().dom().contains(p) && !old(self).writable()[p].mutable {
                    &&& final(self).sealed(p) == old(self).sealed(p).push(
                        old(self).writable()[p],
                    )
                    &&& forall|q: Seq<char>|
                        q != p ==> final(self).sealed(q) == old(self).sealed(q)
                } else {
                    forall|q: Seq<char>| (#[trigger] final(self).sealed(q)) == old(self).sealed(q)
                }
            }),
            r == old(self).writable().dom().contains(memtable.name.prefix@),
    {
        let prefix = memtable.name.get_prefix_name();
        match self.mutables.get_table(&prefix) {
            Some(old_memtable) => {
                if old_memtable.mutable {
                    self.mutables.insert(memtable);
                } else {
                    proof {
                        assert(old_memtable.name.prefix@ == memtable.name.prefix@);
                    }
                    self.immutables.insert(old_memtable);
                    self.mutables.insert(memtable);
                }
                true
            },
            None => self.mutables.insert(memtable),
        }
    }

    /// Whether a prefix currently has a writable generation.
    pub fn contains_key(&self, prefix: &String) -> (r: bool)
        ensures
            r == self.writable().dom().contains(prefix@),
    {
        self.mutables.contains_key(prefix)
    }

    /// The writable side of the catalog.
    pub fn get_mutables(&self) -> (r: &Mutables)
        ensures
            r == &self.mutables,
    {
        &self.mutables
    }

    /// The sealed side of the catalog.
    pub fn get_immutables(&self) -> (r: &Immutables)
        ensures
            r == &self.immutables,
    {
        &self.immutables
    }

    /// Every identifier known for a prefix: the sealed generations,
    /// oldest first, then the writable one when present.
    pub fn get_tables_with_prefix(&self, prefix: &String) -> (r: Vec<TableName>)
        ensures
            ({
                let sealed_names = Seq::new(
                    self.sealed(prefix@).len(),
                    |i: int| self.sealed(prefix@)[i].name,
                );
                if self.writable().dom().contains(prefix@) {
                    r@ == sealed_names.push(self.writable()[prefix@].name)
                } else {
                    r@ == sealed_names
                }
            }),
    {
        let mut ts = self.immutables.get_tables(prefix);
        let ghost sealed_names = Seq::new(
            self.sealed(prefix@).len(),
            |i: int| self.sealed(prefix@)[i].name,
        );
        proof {
            assert(ts@ =~= sealed_names);
        }
        match self.mutables.get_table_name(prefix) {
            Some(t) => {
                ts.push(t);
                ts
            },
            None => ts,
        }
    }

    /// Whether the generation this identifier addresses may take
    /// merges. The chosen reading: true exactly when the identifier
    /// names the generation currently writable for its prefix and
    /// that generation is still marked mutable — an identifier naming
    /// a superseded or sealed generation answers false, since only
    /// the current writable generation ever accepts a merge. Fails
    /// with `NotFound` when the prefix has no writable generation at
    /// all.
    pub fn mutable(&self, table_name: &TableName) -> (r: Result<bool, EngineError>)
        ensures
            match r {
                Ok(b) => self.writable().dom().contains(table_name.prefix@) && b == (
                self.writable()[table_name.prefix@].name.eq_spec(*table_name)
                    && self.writable()[table_name.prefix@].mutable),
                Err(e) => e == EngineError::NotFound && !self.writable().dom().contains(
                    table_name.prefix@,
                ),
            },
    {
        let prefix = table_name.get_prefix_name();
        match self.mutables.get_table(&prefix) {
            Some(v) => Ok(v.name.eq_name(table_name) && v.mutable),
            None => Err(EngineError::NotFound),
        }
    }
}

} // verus!
