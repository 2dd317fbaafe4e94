//! One materialized table generation: its identifier, whether it may
//! still take merges, its byte footprint, and the time range its rows
//! cover.

use vstd::prelude::*;
use vstd::string::*;

use crate::memtable::batch::{
    batch_size, batch_size_spec, find_by_name, find_by_name_exec, Batch, DataType, Value,
};
use crate::utils::table_name::TableName;

verus! {

/// Size threshold, in charged bytes, above which a freshly produced
/// generation is sealed at once.
pub const MAX_BATCH_SIZE: usize = 1024 * 2;

/// One table generation's metadata. `mutable` is computed once from
/// the generation's size and never flips afterwards.
#[derive(Debug, Clone, PartialEq)]
pub struct MemTable {
    pub name: TableName,
    pub mutable: bool,
    pub size: usize,
    pub start: u64,
    pub end: u64,
}

/// The smallest timestamp in a column, over its `UInt64` cells.
pub open spec fn col_min(col: Seq<Value>) -> Option<u64>
    decreases col.len(),
{
    if col.len() == 0 {
        None
    } else {
        let rest = col_min(col.drop_last());
        match col.last() {
            Value::UInt64(v) => match rest {
                None => Some(v),
                Some(m) => if v < m {
                    Some(v)
                } else {
                    Some(m)
                },
            },
            _ => rest,
        }
    }
}

/// The largest timestamp in a column, over its `UInt64` cells.
pub open spec fn col_max(col: Seq<Value>) -> Option<u64>
    decreases col.len(),
{
    if col.len() == 0 {
        None
    } else {
        let rest = col_max(col.drop_last());
        match col.last() {
            Value::UInt64(v) => match rest {
                None => Some(v),
                Some(m) => if v > m {
                    Some(v)
                } else {
                    Some(m)
                },
            },
            _ => rest,
        }
    }
}

/// The column a batch keeps its row timestamps in: the first field
/// named `timestamp`, when it holds unsigned 64-bit values.
pub open spec fn ts_col(b: Batch) -> Option<Seq<Value>> {
    let i = find_by_name(b.fields@, "timestamp"@);
    if i < b.fields@.len() && b.fields@[i].dtype == DataType::UInt64 {
        Some(b.columns@[i]@)
    } else {
        None
    }
}

/// The time range a batch covers: the smallest and largest timestamp
/// in its timestamp column, or zeroes without one.
pub open spec fn time_range(b: Batch) -> (u64, u64) {
    match ts_col(b) {
        Some(col) => match (col_min(col), col_max(col)) {
            (Some(lo), Some(hi)) => (lo, hi),
            _ => (0u64, 0u64),
        },
        None => (0u64, 0u64),
    }
}

pub proof fn lemma_col_min_take_step(col: Seq<Value>, i: int)
    requires
        0 <= i < col.len(),
    ensures
        col_min(col.take(i + 1)) == ({
            let rest = col_min(col.take(i));
            match col[i] {
                Value::UInt64(v) => match rest {
                    None => Some(v),
                    Some(m) => if v < m {
                        Some(v)
                    } else {
                        Some(m)
                    },
                },
                _ => rest,
            }
        }),
        col_max(col.take(i + 1)) == ({
            let rest = col_max(col.take(i));
            match col[i] {
                Value::UInt64(v) => match rest {
                    None => Some(v),
                    Some(m) => if v > m {
                        Some(v)
                    } else {
                        Some(m)
                    },
                },
                _ => rest,
            }
        }),
{
    assert(col.take(i + 1).drop_last() =~= col.take(i));
    assert(col.take(i + 1).last() == col[i]);
}

impl MemTable {
    /// Build the metadata of a freshly produced generation: its
    /// charged size, the sealed-at-once decision against the size
    /// threshold, and the time range of its rows.
    pub fn new_with_batch(name: &TableName, batch: &Batch) -> (r: Result<Self, crate::memtable::EngineError>)
        requires
            batch.wf(),
        ensures
            match r {
                Ok(m) => {
                    &&& m.name == *name
                    &&& (batch_size_spec(*batch) <= usize::MAX ==> m.size == batch_size_spec(
                        *batch,
                    ))
                    &&& (batch_size_spec(*batch) > usize::MAX ==> m.size == usize::MAX)
                    &&& m.mutable == (m.size <= MAX_BATCH_SIZE)
                    &&& m.start == time_range(*batch).0
                    &&& m.end == time_range(*batch).1
                },
                Err(_) => false,
            },
    {
        let size = batch_size(batch);
        let mutable = !(size > MAX_BATCH_SIZE);
        let ts_name = String::from_str("timestamp");
        proof {
            reveal_strlit("timestamp");
        }
        let idx = find_by_name_exec(&batch.fields, &ts_name);
        proof {
            vstd::std_specs::vec::axiom_spec_len(&batch.fields);
            crate::memtable::batch::lemma_find_by_name_props(batch.fields@, "timestamp"@);
        }
        let mut start: u64 = 0;
        let mut end: u64 = 0;
        if idx < batch.fields.len() {
            let is_u64 = match batch.fields[idx].dtype {
                DataType::UInt64 => true,
                _ => false,
            };
            if is_u64 {
                let col = &batch.columns[idx];
                proof {
                    vstd::std_specs::vec::axiom_spec_len(col);
                    assert(col@.take(0) =~= Seq::<Value>::empty());
                }
                let mut lo: Option<u64> = None;
                let mut hi: Option<u64> = None;
                let mut k: usize = 0;
                while k < col.len()
                    invariant
                        k <= col@.len(),
                        col@.len() <= usize::MAX,
                        col == &batch.columns@[idx as int],
                        idx < batch.columns@.len(),
                        lo == col_min(col@.take(k as int)),
                        hi == col_max(col@.take(k as int)),
                    decreases col@.len() - k,
                {
                    proof {
                        lemma_col_min_take_step(col@, k as int);
                    }
                    match &col[k] {
                        Value::UInt64(v) => {
                            lo = match lo {
                                None => Some(*v),
                                Some(m) => if *v < m {
                                    Some(*v)
                                } else {
                                    Some(m)
                                },
                            };
                            hi = match hi {
                                None => Some(*v),
                                Some(m) => if *v > m {
                                    Some(*v)
                                } else {
                                    Some(m)
                                },
                            };
                        },
                        _ => {},
                    }
                    k = k + 1;
                }
                proof {
                    assert(col@.take(col@.len() as int) =~= col@);
                }
                match (lo, hi) {
                    (Some(l), Some(h)) => {
                        start = l;
                        end = h;
                    },
                    _ => {},
                }
            }
        }
        Ok(Self { name: name.duplicate(), mutable, size, start, end })
    }

    /// A fresh, empty, writable generation.
    pub fn new(name: TableName, start: u64, end: u64) -> (r: Self)
        ensures
            r.name == name,
            r.mutable == true,
            r.size == 0,
            r.start == start,
            r.end == end,
    {
        Self { name, mutable: true, size: 0, start, end }
    }

    /// This generation's identifier.
    pub fn name(&self) -> (r: &TableName)
        ensures
            r == &self.name,
    {
        &self.name
    }

    /// An exact copy of this generation's metadata.
    pub fn duplicate(&self) -> (r: Self)
        ensures
            r == *self,
    {
        Self {
            name: self.name.duplicate(),
            mutable: self.mutable,
            size: self.size,
            start: self.start,
            end: self.end,
        }
    }
}

} // verus!
