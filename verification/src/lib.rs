//! An embeddable storage engine for time-partitioned columnar tables:
//! an append-only log (write-ahead log segments with binary framing and
//! a recovery scan) in front of an in-memory table catalog that tracks
//! one writable generation and many sealed generations per table prefix.
//! All mutation is meant to be serialized through one owner; the
//! command core here is that owner's state and decision logic.

pub mod flights;
pub mod memtable;
pub mod sstable;
pub mod utils;
pub mod wal;

use vstd::prelude::*;

use crate::memtable::batch::Batch;
use crate::memtable::MemTableService;
use crate::utils::table_name::TableName;
use crate::wal::offset::Offset;
use crate::wal::wal_msg::{entry_enc, flat};
use crate::wal::WalService;

verus! {

/// Metadata key under which a batch carries the name of its table.
pub const TABLE_NAME: &'static str = "table";

/// The single owner's state: the log manager and the table engine.
/// Every mutating command is applied here, strictly one at a time, so
/// durability order and visibility order coincide by construction.
pub struct LsmState {
    pub wal_service: WalService,
    pub memtable: MemTableService,
}

impl LsmState {
    /// Both halves are sound.
    pub open spec fn wf(self) -> bool {
        &&& self.wal_service.wf()
        &&& self.memtable.wf()
    }

    /// A fresh engine over an empty log directory.
    pub fn new(path: String, wal_size: usize) -> (r: Self)
        ensures
            r.wf(),
            r.wal_service.wal.entries() == Seq::<Seq<u8>>::empty(),
    {
        LsmState { wal_service: WalService::init(path, wal_size), memtable: MemTableService::new() }
    }

    /// An engine recovered from the newest existing segment file: the
    /// segment is replayed into the offset index and the table engine
    /// starts empty. Fails with `CorruptLog` exactly when the replay
    /// does: a frame overruns the bytes or holds a malformed entry.
    pub fn with_segment(
        path: String,
        file_name: String,
        data: Vec<u8>,
        wal_size: usize,
    ) -> (r: Result<Self, crate::wal::WalError>)
        ensures
            match r {
                Ok(s) => {
                    &&& s.wf()
                    &&& crate::wal::wal_msg::scan_frames(data@) is Some
                    &&& crate::wal::wal_msg::frames_all_ok(
                        crate::wal::wal_msg::scan_frames(data@).unwrap(),
                    )
                    &&& s.wal_service.wal.entries() == crate::wal::wal_msg::scan_frames(
                        data@,
                    ).unwrap()
                    &&& crate::wal::wal_msg::offs_match(
                        s.wal_service.indexs@,
                        crate::wal::wal_msg::offsets_model(
                            crate::wal::wal_msg::scan_frames(data@).unwrap(),
                            0,
                        ),
                    )
                    &&& s.wal_service.indexs_map@.len() == 0
                    &&& s.wal_service.wal_max_size == wal_size
                    &&& s.wal_service.path@ == path@
                    &&& s.memtable.store@.len() == 0
                    &&& s.memtable.table_indexs.writable() =~= Map::empty()
                    &&& s.memtable.prefixes@.len() == 0
                },
                Err(e) => {
                    &&& e == crate::wal::WalError::CorruptLog
                    &&& (crate::wal::wal_msg::scan_frames(data@) is None
                        || !crate::wal::wal_msg::frames_all_ok(
                        crate::wal::wal_msg::scan_frames(data@).unwrap(),
                    ))
                },
            },
    {
        let wal_service = match WalService::init_with_segment(path, file_name, data, wal_size) {
            Ok(w) => w,
            Err(e) => {
                return Err(e);
            },
        };
        Ok(LsmState { wal_service, memtable: MemTableService::new() })
    }

    /// Apply one append command: write the records' entry to the log
    /// first — rotating to a fresh segment when the active one is
    /// sealed or full — and only then make the decoded batches
    /// visible in the table engine. The reply is true exactly when
    /// the log write and every batch insert were accepted: in this
    /// in-memory model the log write cannot fail, so the reply
    /// reflects the insert outcomes, and no rejection is swallowed
    /// before it.
    pub fn handle_append(&mut self, records: &Vec<Vec<u8>>, batches: &Vec<Batch>) -> (b: bool)
        requires
            old(self).wf(),
            records@.len() <= u16::MAX,
            forall|i: int|
                0 <= i < records@.len() ==> (#[trigger] records@[i])@.len() <= u32::MAX,
            2 + 4 * records@.len() + flat(records.deep_view()).len() <= u32::MAX,
            old(self).wal_service.wal.size + 6 + 4 * records@.len() + flat(
                records.deep_view(),
            ).len() <= usize::MAX,
            forall|i: int| 0 <= i < batches@.len() ==> (#[trigger] batches@[i]).wf(),
        ensures
            final(self).wf(),
            // The reply collects the per-batch outcomes of a
            // step-by-step insert run applied after the log write.
            exists|sts: Seq<crate::memtable::MemTableService>, ts: Seq<u64>, oks: Seq<bool>|
                #![trigger crate::memtable::run_steps(
                    old(self).memtable,
                    batches@,
                    sts,
                    ts,
                    oks,
                    final(self).memtable,
                )]
                {
                    &&& crate::memtable::run_steps(
                        old(self).memtable,
                        batches@,
                        sts,
                        ts,
                        oks,
                        final(self).memtable,
                    )
                    &&& b == (forall|k: int| 0 <= k < oks.len() ==> oks[k] == true)
                },
            // Durability: the entry stands last in the active segment,
            // which stays writable.
            final(self).wal_service.wal.entries().last() == entry_enc(records.deep_view()),
            final(self).wal_service.wal.entries().len() > 0,
            final(self).wal_service.wal.write_enable,
            final(self).wal_service.path@ == old(self).wal_service.path@,
            final(self).wal_service.wal_max_size == old(self).wal_service.wal_max_size,
            if old(self).wal_service.wal.write_enable && old(self).wal_service.wal.size <= old(
                self,
            ).wal_service.wal.max_size {
                // The entry went down in the active segment.
                &&& final(self).wal_service.wal.entries() == old(
                    self,
                ).wal_service.wal.entries().push(entry_enc(records.deep_view()))
                &&& final(self).wal_service.wal.name@ == old(self).wal_service.wal.name@
                &&& final(self).wal_service.indexs@.len() == old(
                    self,
                ).wal_service.indexs@.len() + 1
                &&& final(self).wal_service.indexs_map@ == old(self).wal_service.indexs_map@
            } else {
                // The sealed or full segment was rotated out, its
                // offsets kept under its name.
                &&& final(self).wal_service.wal.entries() == seq![
                    entry_enc(records.deep_view()),
                ]
                &&& final(self).wal_service.indexs@.len() == 1
                &&& final(self).wal_service.indexs_map@.len() == old(
                    self,
                ).wal_service.indexs_map@.len() + 1
                &&& final(self).wal_service.indexs_map@.last().0@ == old(
                    self,
                ).wal_service.wal.name@
                &&& final(self).wal_service.indexs_map@.last().1@ == old(
                    self,
                ).wal_service.indexs@
            },
    {
        let resp = self.wal_service.append(records);
        if resp {
            let ghost pre_mem = self.memtable;
            let inserted = self.memtable.batch_insert(batches);
            proof {
                let (sts, ts, oks): (
                    Seq<crate::memtable::MemTableService>,
                    Seq<u64>,
                    Seq<bool>,
                ) = choose|
                    sts: Seq<crate::memtable::MemTableService>,
                    ts: Seq<u64>,
                    oks: Seq<bool>,
                |
                    #![trigger crate::memtable::run_steps(
                        pre_mem,
                        batches@,
                        sts,
                        ts,
                        oks,
                        self.memtable,
                    )]
                    {
                        &&& crate::memtable::run_steps(
                            pre_mem,
                            batches@,
                            sts,
                            ts,
                            oks,
                            self.memtable,
                        )
                        &&& inserted == (forall|k: int| 0 <= k < oks.len() ==> oks[k] == true)
                    };
                assert(crate::memtable::run_steps(
                    old(self).memtable,
                    batches@,
                    sts,
                    ts,
                    oks,
                    self.memtable,
                ));
            }
            resp && inserted
        } else {
            proof {
                assert(false);
            }
            false
        }
    }

    /// Apply one offset-list command: the offsets recorded for a
    /// sealed segment, or an empty list for an unknown name.
    pub fn handle_offset_list(&self, file_name: &String) -> (r: Vec<Offset>)
        ensures
            match crate::wal::assoc_find(self.wal_service.indexs_map@, file_name@) {
                Some(offsets) => r@ == offsets,
                None => r@.len() == 0,
            },
    {
        self.wal_service.offsets_for(file_name)
    }

    /// Apply one table command: the first batch registered under the
    /// asked-for table name, or nothing.
    pub fn handle_table(&self, table_name: &String) -> (r: Option<Batch>)
        ensures
            match r {
                Some(b) => crate::memtable::store_find(self.memtable.store@, table_name@)
                    is Some && crate::memtable::batch::batch_equiv(
                    b,
                    crate::memtable::store_find(self.memtable.store@, table_name@).unwrap(),
                ),
                None => crate::memtable::store_find(self.memtable.store@, table_name@) is None,
            },
    {
        match self.memtable.query_with_table(table_name) {
            Ok(mut v) => {
                if v.len() == 1 {
                    v.pop()
                } else {
                    proof {
                        assert(false);
                    }
                    None
                }
            },
            Err(_) => None,
        }
    }

    /// Apply one table-list command: every identifier the engine
    /// knows.
    pub fn handle_table_list(&self) -> (r: Option<Vec<TableName>>)
        ensures
            match r {
                Some(v) => v@ == crate::memtable::all_names(
                    self.memtable,
                    self.memtable.prefixes@,
                ),
                None => false,
            },
    {
        match self.memtable.tables() {
            Ok(v) => Some(v),
            Err(_) => None,
        }
    }
}

} // verus!
