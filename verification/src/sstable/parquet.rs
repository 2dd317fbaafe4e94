//! Metadata of one persisted columnar file: its name, level, fields,
//! size, and the time range it covers.

use vstd::prelude::*;

use crate::utils::file_utils::Level;
use crate::utils::table_name::TableName;

verus! {

/// One persisted columnar file's metadata.
pub struct ParquetSsTable {
    pub name: TableName,
    pub fields: Vec<String>,
    pub level: Level,
    pub size: usize,
    pub start: u64,
    pub end: u64,
}

impl ParquetSsTable {
    /// Metadata for a fresh file of a table: named by the clock, at
    /// the first level, empty otherwise.
    pub fn new_with_table(name: &str) -> (r: Self)
        ensures
            r.name.prefix@ == name@,
            r.name.time is Some,
            r.name.suffix is Some,
            r.name.suffix.unwrap()@ == crate::utils::file_utils::SSTABLE_FILE_SUFFIX@,
            r.level == Level::L0,
            r.size == 0,
            r.start == 0,
            r.end == 0,
            r.fields@.len() == 0,
    {
        let sstable_name = TableName::new_ss_name(name);
        Self { name: sstable_name, fields: Vec::new(), level: Level::L0, size: 0, start: 0, end: 0 }
    }

    /// The rendered file name.
    pub fn get_sstable_name(&self) -> (r: String)
        ensures
            r@ == self.name.ss_name_spec(),
    {
        self.name.get_sstable_name()
    }

    /// The structured name.
    pub fn get_table_name(&self) -> (r: TableName)
        ensures
            r == self.name,
    {
        self.name.duplicate()
    }

    /// Metadata with every detail chosen by the caller; the name is
    /// stamped by the clock.
    pub fn new_with_opts(
        name: &str,
        level: Level,
        fields: &Vec<String>,
        size: usize,
        start: u64,
        end: u64,
    ) -> (r: Self)
        ensures
            r.name.prefix@ == name@,
            r.name.time is Some,
            r.name.suffix is Some,
            r.level == level,
            r.size == size,
            r.start == start,
            r.end == end,
            r.fields@.len() == fields@.len(),
            forall|i: int| 0 <= i < fields@.len() ==> r.fields@[i]@ == (#[trigger] fields@[i])@,
    {
        proof {
            vstd::std_specs::vec::axiom_spec_len(fields);
        }
        let sstable_name = TableName::new_ss_name(name);
        let mut fs: Vec<String> = Vec::new();
        let mut i: usize = 0;
        while i < fields.len()
            invariant
                i <= fields@.len(),
                fields@.len() <= usize::MAX,
                fs@.len() == i,
                forall|k: int| 0 <= k < i ==> fs@[k]@ == (#[trigger] fields@[k])@,
            decreases fields@.len() - i,
        {
            fs.push(fields[i].clone());
            i = i + 1;
        }
        Self { name: sstable_name, fields: fs, level, size, start, end }
    }
}

} // verus!
