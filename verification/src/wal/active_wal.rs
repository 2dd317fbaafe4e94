//! One append-only log segment: entries are framed with a length
//! prefix and written at the end, never mutated. The segment's bytes
//! are modelled exactly; a ghost history records every appended entry,
//! and the recovery scan provably finds them all again.

use vstd::prelude::*;
use vstd::string::*;

use crate::utils::time_utils::now;
use crate::wal::codec::{copy_range, get_u16, get_u32, push_range, put_u32};
use crate::wal::offset::Offset;
use crate::wal::wal_msg::{
    decode_wal_msgs, entry_enc, flat, frame, frames_all_ok, frames_of, frames_size,
    lemma_frames_of_push, lemma_msg_enc_of_parse, msg_parse_ok, offs_match, offsets_model,
    parse_msg_lens, parse_payload, scan_frames, walmsgs_to_offsets, WalMsg,
};
use crate::wal::WalError;

verus! {

/// Default segment size ceiling: 1 GiB.
pub const MAX_SIZE: usize = 1024 * 1024 * 1024;

/// File suffix of a segment file.
pub const WAL: &'static str = ".wal";

/// One append-only segment. `data` mirrors the file bytes; `size`
/// is its length; `history` is the ghost list of appended entries.
pub struct ActiveWal {
    pub name: String,
    pub write_enable: bool,
    pub data: Vec<u8>,
    pub max_size: usize,
    pub size: usize,
    pub history: Ghost<Seq<Seq<u8>>>,
}

impl ActiveWal {
    /// The entries appended to this segment, oldest first.
    pub open spec fn entries(self) -> Seq<Seq<u8>> {
        self.history@
    }

    /// The size counter mirrors the segment's byte length.
    pub open spec fn inv(self) -> bool {
        self.size == self.data@.len()
    }

    /// A segment this module wrote from scratch: its bytes are exactly
    /// the frames of its history, and every entry fits one frame.
    pub open spec fn exact(self) -> bool {
        &&& self.data@ == frames_of(self.entries())
        &&& forall|i: int|
            0 <= i < self.entries().len() ==> 1 <= (#[trigger] self.entries()[i]).len()
                <= u32::MAX
    }

    /// A fresh writable segment named by the clock, with the default
    /// size ceiling.
    pub fn new() -> (r: Self)
        ensures
            r.inv(),
            r.exact(),
            r.write_enable,
            r.size == 0,
            r.entries() == Seq::<Seq<u8>>::empty(),
            r.max_size == MAX_SIZE,
    {
        Self::with_size(MAX_SIZE)
    }

    /// A fresh writable segment named by the clock, with the given
    /// size ceiling.
    pub fn with_size(max_size: usize) -> (r: Self)
        ensures
            r.inv(),
            r.exact(),
            r.write_enable,
            r.size == 0,
            r.entries() == Seq::<Seq<u8>>::empty(),
            r.max_size == max_size,
    {
        proof {
            reveal_strlit(".wal");
        }
        let stamp = crate::utils::text::u64_to_string(now() as u64);
        let name = stamp.concat(WAL);
        let r = ActiveWal {
            name,
            write_enable: true,
            data: Vec::new(),
            max_size,
            size: 0,
            history: Ghost(Seq::empty()),
        };
        proof {
            assert(r.data@ =~= frames_of(r.entries()));
        }
        r
    }

    /// A fresh writable segment under a chosen file name, with the
    /// given size ceiling.
    pub fn with_name(file_name: &str, max_size: usize) -> (r: Self)
        ensures
            r.inv(),
            r.exact(),
            r.write_enable,
            r.size == 0,
            r.entries() == Seq::<Seq<u8>>::empty(),
            r.max_size == max_size,
            r.name@ == file_name@ + WAL@,
    {
        let name = String::from_str(file_name).concat(WAL);
        let r = ActiveWal {
            name,
            write_enable: true,
            data: Vec::new(),
            max_size,
            size: 0,
            history: Ghost(Seq::empty()),
        };
        proof {
            assert(r.data@ =~= frames_of(r.entries()));
        }
        r
    }

    /// An existing segment's bytes opened for reading only: nothing is
    /// known of its entries and nothing may be appended.
    pub fn open(file_name: String, data: Vec<u8>) -> (r: Self)
        ensures
            r.inv(),
            !r.write_enable,
            r.data@ == data@,
            r.name@ == file_name@,
            r.max_size == MAX_SIZE,
    {
        proof {
            vstd::std_specs::vec::axiom_spec_len(&data);
        }
        let size = data.len();
        ActiveWal {
            name: file_name,
            write_enable: false,
            data,
            max_size: MAX_SIZE,
            size,
            history: Ghost(Seq::empty()),
        }
    }

    /// Replay an existing segment's bytes: scan every frame in file
    /// order, rebuild the offset index, and open the segment
    /// read-only. Fails with `CorruptLog` when a frame declares more
    /// bytes than remain or holds a malformed entry.
    pub fn load(file_name: String, data: Vec<u8>) -> (r: Result<(Self, Vec<Offset>), WalError>)
        ensures
            match r {
                Ok((w, offsets)) => {
                    &&& scan_frames(data@) is Some
                    &&& frames_all_ok(scan_frames(data@).unwrap())
                    &&& w.inv()
                    &&& !w.write_enable
                    &&& w.data@ == data@
                    &&& w.name@ == file_name@
                    &&& w.max_size == MAX_SIZE
                    &&& w.entries() == scan_frames(data@).unwrap()
                    &&& offs_match(offsets@, offsets_model(scan_frames(data@).unwrap(), 0))
                },
                Err(e) => {
                    &&& e == WalError::CorruptLog
                    &&& (scan_frames(data@) is None || !frames_all_ok(scan_frames(data@).unwrap()))
                },
            },
    {
        proof {
            vstd::std_specs::vec::axiom_spec_len(&data);
        }
        let msgs = match decode_wal_msgs(&data) {
            Ok(v) => v,
            Err(e) => {
                return Err(e);
            },
        };
        let ghost fs = scan_frames(data@).unwrap();
        proof {
            lemma_scan_frames_size(data@);
            assert(crate::wal::wal_msg::encs_of(msgs@) =~= fs);
        }
        let offsets = walmsgs_to_offsets(&msgs);
        let size = data.len();
        let w = ActiveWal {
            name: file_name,
            write_enable: false,
            data,
            max_size: MAX_SIZE,
            size,
            history: Ghost(fs),
        };
        Ok((w, offsets))
    }

    /// This segment's file name.
    pub fn name(&self) -> (r: String)
        ensures
            r@ == self.name@,
    {
        self.name.clone()
    }
}

/// Frames recovered by the scan never claim more bytes than the
/// segment holds.
pub proof fn lemma_scan_frames_size(b: Seq<u8>)
    requires
        scan_frames(b) is Some,
    ensures
        frames_size(scan_frames(b).unwrap()) <= b.len(),
    decreases b.len(),
{
    let fs = scan_frames(b).unwrap();
    if b.len() <= 4 {
        assert(fs =~= Seq::<Seq<u8>>::empty());
    } else {
        let l = crate::wal::codec::u32_of(b[0], b[1], b[2], b[3]) as int;
        let rest = scan_frames(b.skip(4 + l)).unwrap();
        lemma_scan_frames_size(b.skip(4 + l));
        assert(fs == seq![b.subrange(4, 4 + l)] + rest);
        crate::wal::wal_msg::lemma_frames_size_head(fs);
        assert(fs[0] == b.subrange(4, 4 + l));
        assert(fs.drop_first() =~= rest);
    }
}

impl ActiveWal {
    /// Append one already-framed entry body at the segment's end.
    /// Fails with `NotWritable` on a read-only segment, leaving it
    /// untouched; fails with `LogFull` once the size ceiling has been
    /// passed, sealing the segment without writing. Otherwise the
    /// frame goes down and the returned offset points at its payload.
    pub fn append_bytes(&mut self, bytes: &Vec<u8>) -> (r: Result<Offset, WalError>)
        requires
            old(self).inv(),
            1 <= bytes@.len() <= u32::MAX,
            old(self).size + 4 + bytes@.len() <= usize::MAX,
        ensures
            final(self).inv(),
            final(self).name@ == old(self).name@,
            final(self).max_size == old(self).max_size,
            match r {
                Ok(off) => {
                    &&& old(self).write_enable
                    &&& old(self).size <= old(self).max_size
                    &&& final(self).write_enable
                    &&& final(self).data@ == old(self).data@ + frame(bytes@)
                    &&& final(self).entries() == old(self).entries().push(bytes@)
                    &&& final(self).size == old(self).size + 4 + bytes@.len()
                    &&& off.offset == old(self).size + 4
                    &&& off.len == bytes@.len()
                    &&& (old(self).exact() ==> final(self).exact())
                },
                Err(WalError::NotWritable) => {
                    &&& !old(self).write_enable
                    &&& *final(self) == *old(self)
                },
                Err(WalError::LogFull) => {
                    &&& old(self).write_enable
                    &&& old(self).size > old(self).max_size
                    &&& !final(self).write_enable
                    &&& final(self).data@ == old(self).data@
                    &&& final(self).entries() == old(self).entries()
                    &&& final(self).size == old(self).size
                },
                Err(_) => false,
            },
    {
        if !self.write_enable {
            return Err(WalError::NotWritable);
        }
        if self.size > self.max_size {
            self.write_enable = false;
            return Err(WalError::LogFull);
        }
        proof {
            vstd::std_specs::vec::axiom_spec_len(bytes);
        }
        let mut index = Offset::from(self.size + 4);
        let v_len = bytes.len() as u32;
        put_u32(&mut self.data, v_len);
        push_range(&mut self.data, bytes, 0, bytes.len());
        proof {
            assert(bytes@.subrange(0, bytes@.len() as int) =~= bytes@);
            assert(self.data@ =~= old(self).data@ + frame(bytes@));
        }
        index.update(bytes.len());
        let add_size = self.data.len();
        self.size = self.size + 4 + bytes.len();
        proof {
            let h = old(self).entries();
            self.history = Ghost(h.push(bytes@));
            if old(self).exact() {
                lemma_frames_of_push(h, bytes@);
                assert(self.data@ =~= frames_of(self.entries()));
            }
        }
        Ok(index)
    }

    /// Append one entry. The entry's binary form becomes the frame's
    /// body; the returned offset points at it.
    pub fn append_wal_msg(&mut self, wal_msg: &WalMsg) -> (r: Result<Offset, WalError>)
        requires
            old(self).inv(),
            wal_msg.wf(),
            1 <= wal_msg.spec_enc().len() <= u32::MAX,
            old(self).size + 4 + wal_msg.spec_enc().len() <= usize::MAX,
        ensures
            final(self).inv(),
            final(self).name@ == old(self).name@,
            final(self).max_size == old(self).max_size,
            match r {
                Ok(off) => {
                    &&& old(self).write_enable
                    &&& old(self).size <= old(self).max_size
                    &&& final(self).write_enable
                    &&& final(self).data@ == old(self).data@ + frame(wal_msg.spec_enc())
                    &&& final(self).entries() == old(self).entries().push(wal_msg.spec_enc())
                    &&& final(self).size == old(self).size + 4 + wal_msg.spec_enc().len()
                    &&& off.offset == old(self).size + 4
                    &&& off.len == wal_msg.spec_enc().len()
                    &&& (old(self).exact() ==> final(self).exact())
                },
                Err(WalError::NotWritable) => {
                    &&& !old(self).write_enable
                    &&& *final(self) == *old(self)
                },
                Err(WalError::LogFull) => {
                    &&& old(self).write_enable
                    &&& old(self).size > old(self).max_size
                    &&& !final(self).write_enable
                    &&& final(self).data@ == old(self).data@
                    &&& final(self).entries() == old(self).entries()
                    &&& final(self).size == old(self).size
                },
                Err(_) => false,
            },
    {
        if !self.write_enable {
            return Err(WalError::NotWritable);
        }
        let mut wal_buf: Vec<u8> = Vec::new();
        wal_msg.encode(&mut wal_buf);
        proof {
            vstd::std_specs::vec::axiom_spec_len(&wal_buf);
        }
        self.append_bytes(&wal_buf)
    }

    /// Append a batch of opaque byte records as one entry.
    pub fn append(&mut self, records: &Vec<Vec<u8>>) -> (r: Result<Offset, WalError>)
        requires
            old(self).inv(),
            records@.len() <= u16::MAX,
            forall|i: int|
                0 <= i < records@.len() ==> (#[trigger] records@[i])@.len() <= u32::MAX,
            2 + 4 * records@.len() + flat(records.deep_view()).len() <= u32::MAX,
            old(self).size + 6 + 4 * records@.len() + flat(records.deep_view()).len()
                <= usize::MAX,
        ensures
            final(self).inv(),
            final(self).name@ == old(self).name@,
            final(self).max_size == old(self).max_size,
            match r {
                Ok(off) => {
                    &&& old(self).write_enable
                    &&& old(self).size <= old(self).max_size
                    &&& final(self).write_enable
                    &&& final(self).data@ == old(self).data@ + frame(
                        entry_enc(records.deep_view()),
                    )
                    &&& final(self).entries() == old(self).entries().push(
                        entry_enc(records.deep_view()),
                    )
                    &&& off.offset == old(self).size + 4
                    &&& off.len == entry_enc(records.deep_view()).len()
                    &&& final(self).size == old(self).size + 4 + entry_enc(
                        records.deep_view(),
                    ).len()
                    &&& (old(self).exact() ==> final(self).exact())
                },
                Err(WalError::NotWritable) => {
                    &&& !old(self).write_enable
                    &&& *final(self) == *old(self)
                },
                Err(WalError::LogFull) => {
                    &&& old(self).write_enable
                    &&& old(self).size > old(self).max_size
                    &&& !final(self).write_enable
                    &&& final(self).data@ == old(self).data@
                    &&& final(self).entries() == old(self).entries()
                    &&& final(self).size == old(self).size
                },
                Err(_) => false,
            },
    {
        if !self.write_enable {
            return Err(WalError::NotWritable);
        }
        let wal_msg = WalMsg::from_records(records);
        proof {
            crate::wal::codec::lemma_be32_concat_len(wal_msg.indexs@);
            assert(wal_msg.spec_enc() == entry_enc(records.deep_view()));
        }
        self.append_wal_msg(&wal_msg)
    }

    /// Read the entry whose frame starts at the given byte position:
    /// its length prefix first, then its body. Fails with
    /// `OutOfBounds` when the frame reaches past the segment's end and
    /// with `CorruptLog` when its body is malformed.
    pub fn read_with_offset(&self, offset: usize) -> (r: Result<WalMsg, WalError>)
        requires
            self.inv(),
        ensures
            match r {
                Ok(m) => {
                    let l = crate::wal::codec::u32_of(
                        self.data@[offset as int],
                        self.data@[offset + 1],
                        self.data@[offset + 2],
                        self.data@[offset + 3],
                    ) as int;
                    &&& offset + 4 + l <= self.data@.len()
                    &&& m.wf()
                    &&& m.spec_enc() == self.data@.subrange(offset + 4, offset + 4 + l)
                },
                Err(WalError::OutOfBounds) => offset + 4 > self.data@.len()
                    || offset + 4 + crate::wal::codec::u32_of(
                    self.data@[offset as int],
                    self.data@[offset + 1],
                    self.data@[offset + 2],
                    self.data@[offset + 3],
                ) as int > self.data@.len(),
                Err(WalError::CorruptLog) => !msg_parse_ok(
                    self.data@.subrange(
                        offset + 4,
                        offset + 4 + crate::wal::codec::u32_of(
                            self.data@[offset as int],
                            self.data@[offset + 1],
                            self.data@[offset + 2],
                            self.data@[offset + 3],
                        ) as int,
                    ),
                ),
                Err(_) => false,
            },
    {
        proof {
            vstd::std_specs::vec::axiom_spec_len(&self.data);
        }
        if offset > self.data.len() || self.data.len() - offset < 4 {
            return Err(WalError::OutOfBounds);
        }
        let len = get_u32(&self.data, offset);
        if (len as u64) > (self.data.len() - offset - 4) as u64 {
            return Err(WalError::OutOfBounds);
        }
        let l = len as usize;
        let payload = copy_range(&self.data, offset + 4, offset + 4 + l);
        let ok = if payload.len() < 2 {
            false
        } else {
            let num = get_u16(&payload, 0);
            2 + 4 * (num as usize) <= payload.len()
        };
        if !ok {
            return Err(WalError::CorruptLog);
        }
        let m = WalMsg::decode(&payload);
        proof {
            lemma_msg_enc_of_parse(payload@);
        }
        Ok(m)
    }

    /// Read the entry a recorded offset points at: exactly
    /// `offset.len` bytes starting at `offset.offset`. Fails with
    /// `OutOfBounds` when the range reaches past the segment's end and
    /// with `CorruptLog` when the bytes there are malformed.
    pub fn read_with_index(&self, offset: Offset) -> (r: Result<WalMsg, WalError>)
        requires
            self.inv(),
        ensures
            match r {
                Ok(m) => {
                    &&& offset.offset + offset.len <= self.data@.len()
                    &&& msg_parse_ok(
                        self.data@.subrange(
                            offset.offset as int,
                            offset.offset + offset.len,
                        ),
                    )
                    &&& m.wf()
                    &&& m.spec_enc() == self.data@.subrange(
                        offset.offset as int,
                        offset.offset + offset.len,
                    )
                },
                Err(WalError::OutOfBounds) => offset.offset + offset.len > self.data@.len(),
                Err(WalError::CorruptLog) => {
                    &&& offset.offset + offset.len <= self.data@.len()
                    &&& !msg_parse_ok(
                        self.data@.subrange(
                            offset.offset as int,
                            offset.offset + offset.len,
                        ),
                    )
                },
                Err(_) => false,
            },
    {
        proof {
            vstd::std_specs::vec::axiom_spec_len(&self.data);
        }
        if offset.offset > self.data.len() || self.data.len() - offset.offset < offset.len {
            return Err(WalError::OutOfBounds);
        }
        let payload = copy_range(&self.data, offset.offset, offset.offset + offset.len);
        let ok = if payload.len() < 2 {
            false
        } else {
            let num = get_u16(&payload, 0);
            2 + 4 * (num as usize) <= payload.len()
        };
        if !ok {
            return Err(WalError::CorruptLog);
        }
        let m = WalMsg::decode(&payload);
        proof {
            lemma_msg_enc_of_parse(payload@);
        }
        Ok(m)
    }
}

/// Round trip, end to end: appending a batch of records frames their
/// entry at the end of the segment, and the returned offset's byte
/// range holds exactly that entry, whose length table splits the
/// payload back into the original records.
pub proof fn lemma_append_read_round_trip(pre_data: Seq<u8>, rs: Seq<Seq<u8>>)
    requires
        rs.len() <= u16::MAX,
        forall|i: int| 0 <= i < rs.len() ==> (#[trigger] rs[i]).len() <= u32::MAX,
    ensures
        ({
            let e = entry_enc(rs);
            let data = pre_data + frame(e);
            &&& data.subrange(pre_data.len() as int + 4, pre_data.len() + 4 + e.len() as int) == e
            &&& msg_parse_ok(e)
            &&& crate::wal::wal_msg::split_records(parse_msg_lens(e), parse_payload(e)) == rs
        }),
{
    let e = entry_enc(rs);
    let data = pre_data + frame(e);
    crate::wal::wal_msg::lemma_entry_round_trip(rs);
    assert(data.subrange(pre_data.len() as int + 4, pre_data.len() + 4 + e.len() as int) =~= e);
}

} // verus!
