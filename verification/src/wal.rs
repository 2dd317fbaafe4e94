//! The write-ahead log: binary framing of record batches, offset
//! bookkeeping, and the recovery scan over a segment's bytes.

pub mod codec;
pub mod index_file;
pub mod active_wal;
pub mod offset;
pub mod wal_msg;

use vstd::prelude::*;

use crate::wal::active_wal::ActiveWal;
use crate::wal::offset::Offset;
use crate::wal::wal_msg::{
    entry_enc, flat, frames_size, lemma_frames_of_len, lemma_offsets_model_snoc, offs_match,
    offsets_model,
};

verus! {

/// What can go wrong inside the log layer.
#[derive(Debug, Clone, Copy, PartialEq, Eq, Structural)]
pub enum WalError {
    /// The segment is read-only: it was sealed or opened for replay.
    NotWritable,
    /// The segment reached its size ceiling; the caller must rotate.
    LogFull,
    /// A frame's declared length does not fit the bytes that remain,
    /// or a stored value is malformed.
    CorruptLog,
    /// A read was asked for a byte range outside the segment.
    OutOfBounds,
}


/// The offset list recorded under the first entry with this segment
/// name, front to back.
pub open spec fn assoc_find(m: Seq<(String, Vec<Offset>)>, name: Seq<char>) -> Option<Seq<Offset>>
    decreases m.len(),
{
    if m.len() == 0 {
        None
    } else if m[0].0@ == name {
        Some(m[0].1@)
    } else {
        assoc_find(m.drop_first(), name)
    }
}

pub proof fn lemma_assoc_find_skip(m: Seq<(String, Vec<Offset>)>, name: Seq<char>, i: int)
    requires
        0 <= i <= m.len(),
        forall|k: int| 0 <= k < i ==> (#[trigger] m[k]).0@ != name,
    ensures
        assoc_find(m, name) == assoc_find(m.skip(i), name),
    decreases i,
{
    assert(m.skip(0) =~= m);
    if i > 0 {
        assert(m.drop_first() =~= m.skip(1));
        assert(forall|k: int| 0 <= k < i - 1 ==> (#[trigger] m.skip(1)[k]).0@ != name);
        lemma_assoc_find_skip(m.skip(1), name, i - 1);
        assert(m.skip(1).skip(i - 1) =~= m.skip(i));
    }
}

/// Entries land in the log in call order: later entries stand at
/// strictly larger payload offsets inside their segment.
pub proof fn lemma_offsets_strictly_increasing(
    fs: Seq<Seq<u8>>,
    pos: int,
    i: int,
    j: int,
)
    requires
        0 <= i < j < fs.len(),
    ensures
        offsets_model(fs, pos).len() == fs.len(),
        offsets_model(fs, pos)[i].0 < offsets_model(fs, pos)[j].0,
    decreases fs.len(),
{
    lemma_offsets_model_len(fs, pos);
    lemma_offsets_model_len(fs.drop_first(), pos + 4 + fs[0].len());
    if i == 0 {
        lemma_offsets_model_lb(fs.drop_first(), pos + 4 + fs[0].len(), j - 1);
    } else {
        lemma_offsets_strictly_increasing(fs.drop_first(), pos + 4 + fs[0].len(), i - 1, j - 1);
    }
}

pub proof fn lemma_offsets_model_len(fs: Seq<Seq<u8>>, pos: int)
    ensures
        offsets_model(fs, pos).len() == fs.len(),
    decreases fs.len(),
{
    if fs.len() > 0 {
        lemma_offsets_model_len(fs.drop_first(), pos + 4 + fs[0].len());
    }
}

/// Every modelled offset lies past the position its segment suffix
/// starts at.
pub proof fn lemma_offsets_model_lb(fs: Seq<Seq<u8>>, pos: int, k: int)
    requires
        0 <= k < fs.len(),
    ensures
        offsets_model(fs, pos).len() == fs.len(),
        offsets_model(fs, pos)[k].0 >= pos + 4,
    decreases k,
{
    lemma_offsets_model_len(fs, pos);
    if k > 0 {
        lemma_offsets_model_lb(fs.drop_first(), pos + 4 + fs[0].len(), k - 1);
    }
}

/// The log manager: the one writable segment, its offset list, and
/// the offset lists of every sealed segment, by name.
pub struct WalService {
    pub path: String,
    pub wal: ActiveWal,
    pub wal_max_size: usize,
    pub indexs: Vec<Offset>,
    pub indexs_map: Vec<(String, Vec<Offset>)>,
}

impl WalService {
    /// The service's invariant: the active segment is sound; while it
    /// is writable its bytes are exactly its entries' frames and its
    /// ceiling is the configured one; and the offset list mirrors the
    /// entries, one offset each, in order.
    pub open spec fn wf(self) -> bool {
        &&& self.wal.inv()
        &&& (self.wal.write_enable ==> self.wal.exact())
        &&& (self.wal.write_enable ==> self.wal.size == frames_size(self.wal.entries()))
        &&& (self.wal.write_enable ==> self.wal.max_size == self.wal_max_size)
        &&& offs_match(self.indexs@, offsets_model(self.wal.entries(), 0))
    }

    /// Start from an empty directory: one fresh writable segment, no
    /// sealed segments.
    pub fn init(path: String, wal_size: usize) -> (r: Self)
        ensures
            r.wf(),
            r.wal_max_size == wal_size,
            r.path@ == path@,
            r.wal.write_enable,
            r.wal.size == 0,
            r.wal.max_size == wal_size,
            r.wal.entries() == Seq::<Seq<u8>>::empty(),
            r.indexs@.len() == 0,
            r.indexs_map@.len() == 0,
    {
        let wal = ActiveWal::with_size(wal_size);
        proof {
            lemma_frames_of_len(wal.entries());
        }
        WalService { path, wal, wal_max_size: wal_size, indexs: Vec::new(), indexs_map: Vec::new() }
    }

    /// Start from the newest existing segment file: replay it to
    /// rebuild its offset list and keep it read-only; the first append
    /// will rotate to a fresh segment. Fails with `CorruptLog` when
    /// the replay does.
    pub fn init_with_segment(
        path: String,
        file_name: String,
        data: Vec<u8>,
        wal_size: usize,
    ) -> (r: Result<Self, WalError>)
        ensures
            match r {
                Ok(s) => {
                    &&& s.wf()
                    &&& s.wal_max_size == wal_size
                    &&& s.path@ == path@
                    &&& crate::wal::wal_msg::scan_frames(data@) is Some
                    &&& crate::wal::wal_msg::frames_all_ok(
                        crate::wal::wal_msg::scan_frames(data@).unwrap(),
                    )
                    &&& s.wal.entries() == crate::wal::wal_msg::scan_frames(data@).unwrap()
                    &&& offs_match(
                        s.indexs@,
                        offsets_model(crate::wal::wal_msg::scan_frames(data@).unwrap(), 0),
                    )
                    &&& s.indexs_map@.len() == 0
                },
                Err(e) => {
                    &&& e == WalError::CorruptLog
                    &&& (crate::wal::wal_msg::scan_frames(data@) is None
                        || !crate::wal::wal_msg::frames_all_ok(
                        crate::wal::wal_msg::scan_frames(data@).unwrap(),
                    ))
                },
            },
    {
        let (wal, offsets) = match ActiveWal::load(file_name, data) {
            Ok(p) => p,
            Err(e) => {
                return Err(e);
            },
        };
        Ok(
            WalService {
                path,
                wal,
                wal_max_size: wal_size,
                indexs: offsets,
                indexs_map: Vec::new(),
            },
        )
    }

    /// Seal the active segment: record its name and offset list in the
    /// sealed-segment index and start a fresh writable segment.
    fn update_wal(&mut self)
        requires
            old(self).wf(),
        ensures
            final(self).wf(),
            final(self).path@ == old(self).path@,
            final(self).wal_max_size == old(self).wal_max_size,
            final(self).wal.write_enable,
            final(self).wal.size == 0,
            final(self).wal.entries() == Seq::<Seq<u8>>::empty(),
            final(self).indexs@.len() == 0,
            final(self).indexs_map@.len() == old(self).indexs_map@.len() + 1,
            final(self).indexs_map@.last().0@ == old(self).wal.name@,
            final(self).indexs_map@.last().1@ == old(self).indexs@,
            forall|k: int|
                0 <= k < old(self).indexs_map@.len() ==> final(self).indexs_map@[k] == old(
                    self,
                ).indexs_map@[k],
    {
        let old_wal_name = self.wal.name();
        let old_indexs = self.indexs.split_off(0);
        proof {
            assert(old_indexs@ =~= old(self).indexs@);
            assert(self.indexs@ =~= Seq::<Offset>::empty());
        }
        self.indexs_map.push((old_wal_name, old_indexs));
        let new_wal = ActiveWal::with_size(self.wal_max_size);
        proof {
            lemma_frames_of_len(new_wal.entries());
        }
        self.wal = new_wal;
    }

    /// Durably append a batch of opaque byte records: write their
    /// entry at the end of the active segment and record its offset.
    /// When the active segment is sealed or full, rotate to a fresh
    /// segment, keeping the sealed segment's offsets under its name,
    /// and write there. In this in-memory model segment creation
    /// cannot fail, so the append always succeeds.
    pub fn append(&mut self, records: &Vec<Vec<u8>>) -> (b: bool)
        requires
            old(self).wf(),
            records@.len() <= u16::MAX,
            forall|i: int|
                0 <= i < records@.len() ==> (#[trigger] records@[i])@.len() <= u32::MAX,
            2 + 4 * records@.len() + flat(records.deep_view()).len() <= u32::MAX,
            old(self).wal.size + 6 + 4 * records@.len() + flat(records.deep_view()).len()
                <= usize::MAX,
        ensures
            b == true,
            final(self).wf(),
            final(self).path@ == old(self).path@,
            final(self).wal_max_size == old(self).wal_max_size,
            final(self).wal.write_enable,
            final(self).wal.max_size == old(self).wal_max_size,
            if old(self).wal.write_enable && old(self).wal.size <= old(self).wal.max_size {
                // The entry went down in the active segment.
                &&& final(self).wal.entries() == old(self).wal.entries().push(
                    entry_enc(records.deep_view()),
                )
                &&& final(self).wal.size == old(self).wal.size + 4 + entry_enc(
                    records.deep_view(),
                ).len()
                &&& final(self).wal.name@ == old(self).wal.name@
                &&& final(self).indexs@.len() == old(self).indexs@.len() + 1
                &&& final(self).indexs_map@ == old(self).indexs_map@
            } else {
                // The segment was sealed or full: it was rotated out
                // and the entry opened a fresh segment.
                &&& final(self).wal.entries() == seq![entry_enc(records.deep_view())]
                &&& final(self).wal.size == 4 + entry_enc(records.deep_view()).len()
                &&& final(self).indexs@.len() == 1
                &&& final(self).indexs_map@.len() == old(self).indexs_map@.len() + 1
                &&& final(self).indexs_map@.last().0@ == old(self).wal.name@
                &&& final(self).indexs_map@.last().1@ == old(self).indexs@
                &&& forall|k: int|
                    0 <= k < old(self).indexs_map@.len() ==> final(self).indexs_map@[k] == old(
                        self,
                    ).indexs_map@[k]
            },
    {
        let ghost e = entry_enc(records.deep_view());
        match self.wal.append(records) {
            Ok(offset) => {
                proof {
                    lemma_frames_of_len(old(self).wal.entries());
                    lemma_offsets_model_snoc(old(self).wal.entries(), e, 0);
                }
                self.indexs.push(offset);
                proof {
                    lemma_frames_of_len(self.wal.entries());
                }
                true
            },
            Err(_) => {
                self.update_wal();
                let ghost mid = *self;
                match self.wal.append(records) {
                    Ok(offset) => {
                        proof {
                            lemma_frames_of_len(mid.wal.entries());
                            lemma_offsets_model_snoc(mid.wal.entries(), e, 0);
                        }
                        self.indexs.push(offset);
                        proof {
                            lemma_frames_of_len(self.wal.entries());
                            assert(self.wal.entries() =~= seq![e]);
                        }
                        true
                    },
                    Err(_) => {
                        proof {
                            assert(false);
                        }
                        false
                    },
                }
            },
        }
    }

    /// The recorded offsets of a sealed segment, or an empty list for
    /// an unknown name.
    pub fn offsets_for(&self, segment_name: &String) -> (r: Vec<Offset>)
        ensures
            match assoc_find(self.indexs_map@, segment_name@) {
                Some(offsets) => r@ == offsets,
                None => r@.len() == 0,
            },
    {
        proof {
            vstd::std_specs::vec::axiom_spec_len(&self.indexs_map);
        }
        let mut i: usize = 0;
        while i < self.indexs_map.len()
            invariant
                i <= self.indexs_map@.len(),
                self.indexs_map@.len() <= usize::MAX,
                forall|k: int| 0 <= k < i ==> (#[trigger] self.indexs_map@[k]).0@ != segment_name@,
            decreases self.indexs_map@.len() - i,
        {
            if self.indexs_map[i].0 == *segment_name {
                proof {
                    lemma_assoc_find_skip(self.indexs_map@, segment_name@, i as int);
                    assert(self.indexs_map@.skip(i as int)[0] == self.indexs_map@[i as int]);
                }
                let found = &self.indexs_map[i].1;
                proof {
                    vstd::std_specs::vec::axiom_spec_len(found);
                }
                let mut r: Vec<Offset> = Vec::new();
                let mut j: usize = 0;
                while j < found.len()
                    invariant
                        j <= found@.len(),
                        found == &self.indexs_map@[i as int].1,
                        i < self.indexs_map@.len(),
                        r@ == found@.take(j as int),
                    decreases found@.len() - j,
                {
                    r.push(found[j]);
                    proof {
                        assert(r@ =~= found@.take(j + 1));
                    }
                    j = j + 1;
                }
                proof {
                    assert(found@.take(found@.len() as int) =~= found@);
                }
                return r;
            }
            i = i + 1;
        }
        proof {
            lemma_assoc_find_skip(self.indexs_map@, segment_name@, self.indexs_map@.len() as int);
            assert(self.indexs_map@.skip(self.indexs_map@.len() as int)
                =~= Seq::<(String, Vec<Offset>)>::empty());
        }
        Vec::new()
    }
}

} // verus!
