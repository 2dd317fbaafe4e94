//! Log offsets: where one framed entry's payload lives inside a
//! segment, and their fixed-width binary form for index persistence.

use vstd::prelude::*;

use crate::wal::codec::{be32, be64, get_u32, get_u64, put_u32, put_u64, u64_of};
use crate::wal::codec::{lemma_u64_inv, lemma_u64_round};
use crate::wal::WalError;

verus! {

/// Points at one framed entry's payload: `offset` is the byte position
/// of the payload (just past the 4-byte frame-length prefix), `len` the
/// payload's length in bytes.
#[derive(Debug, Clone, Copy, PartialEq, Eq, Structural)]
pub struct Offset {
    pub offset: usize,
    pub len: usize,
}

impl Offset {
    /// An offset at `offset` whose length is not yet known.
    pub fn from(offset: usize) -> (r: Self)
        ensures
            r.offset == offset,
            r.len == 0,
    {
        Self { offset, len: 0 }
    }

    /// An offset whose length is the sum of the given record lengths.
    pub fn with_fd_lens(offset: usize, fd_lens: Vec<u32>) -> (r: Self)
        requires
            sum_u32(fd_lens@) <= usize::MAX,
        ensures
            r.offset == offset,
            r.len == sum_u32(fd_lens@),
    {
        let mut sum: usize = 0;
        let mut i: usize = 0;
        while i < fd_lens.len()
            invariant
                i <= fd_lens@.len(),
                sum == sum_u32(fd_lens@.take(i as int)),
                sum_u32(fd_lens@) <= usize::MAX,
            decreases fd_lens@.len() - i,
        {
            proof {
                lemma_sum_u32_take_step(fd_lens@, i as int);
                lemma_sum_u32_take_bound(fd_lens@, i + 1);
            }
            sum = sum + (fd_lens[i] as usize);
            i = i + 1;
        }
        proof {
            assert(fd_lens@.take(fd_lens@.len() as int) =~= fd_lens@);
        }
        Self { offset, len: sum }
    }

    /// Record the payload length once it is known.
    pub fn update(&mut self, len: usize)
        ensures
            final(self).offset == old(self).offset,
            final(self).len == len,
    {
        self.len = len;
    }
}

/// The sum of a sequence of `u32` lengths, as an unbounded integer.
pub open spec fn sum_u32(s: Seq<u32>) -> int
    decreases s.len(),
{
    if s.len() == 0 {
        0
    } else {
        sum_u32(s.drop_last()) + s.last()
    }
}

pub proof fn lemma_sum_u32_take_step(s: Seq<u32>, i: int)
    requires
        0 <= i < s.len(),
    ensures
        sum_u32(s.take(i + 1)) == sum_u32(s.take(i)) + s[i],
{
    assert(s.take(i + 1).drop_last() =~= s.take(i));
    assert(s.take(i + 1).last() == s[i]);
}

pub proof fn lemma_sum_u32_take_bound(s: Seq<u32>, i: int)
    requires
        0 <= i <= s.len(),
        sum_u32(s) <= usize::MAX,
    ensures
        sum_u32(s.take(i)) <= sum_u32(s),
    decreases s.len() - i,
{
    if i < s.len() {
        lemma_sum_u32_take_step(s, i);
        lemma_sum_u32_take_bound(s, i + 1);
    } else {
        assert(s.take(i) =~= s);
    }
}

/// The 16-byte binary form of one offset: two big-endian `u64`s.
pub open spec fn offset_enc(o: Offset) -> Seq<u8> {
    be64(o.offset as u64) + be64(o.len as u64)
}

/// The binary form of an offset list: a big-endian `u32` count, then
/// each offset's 16 bytes in order.
pub open spec fn offsets_body(s: Seq<Offset>) -> Seq<u8>
    decreases s.len(),
{
    if s.len() == 0 {
        Seq::empty()
    } else {
        offset_enc(s[0]) + offsets_body(s.drop_first())
    }
}

pub open spec fn offsets_enc(s: Seq<Offset>) -> Seq<u8> {
    be32(s.len() as u32) + offsets_body(s)
}

pub proof fn lemma_offsets_body_push(s: Seq<Offset>, o: Offset)
    ensures
        offsets_body(s.push(o)) == offsets_body(s) + offset_enc(o),
    decreases s.len(),
{
    let p = s.push(o);
    assert(p.len() == s.len() + 1);
    assert(offsets_body(p) == offset_enc(p[0]) + offsets_body(p.drop_first()));
    if s.len() == 0 {
        assert(p[0] == o);
        assert(p.drop_first() =~= Seq::<Offset>::empty());
        assert(offsets_body(p.drop_first()) == Seq::<u8>::empty());
        assert(offsets_body(s) == Seq::<u8>::empty());
        assert(offsets_body(p) =~= offsets_body(s) + offset_enc(o));
    } else {
        assert(p[0] == s[0]);
        assert(p.drop_first() =~= s.drop_first().push(o));
        lemma_offsets_body_push(s.drop_first(), o);
        assert(offsets_body(s) == offset_enc(s[0]) + offsets_body(s.drop_first()));
        assert(offsets_body(p) =~= offsets_body(s) + offset_enc(o));
    }
}

impl Offset {
    /// Write this offset's 16-byte form at the end of `buffer` and
    /// return how many bytes were written.
    pub fn encode(&self, buffer: &mut Vec<u8>) -> (n: usize)
        ensures
            final(buffer)@ == old(buffer)@ + offset_enc(*self),
            n == 16,
    {
        put_u64(buffer, self.offset as u64);
        put_u64(buffer, self.len as u64);
        assert(buffer@ =~= old(buffer)@ + offset_enc(*self));
        16
    }

    /// Read an offset back from exactly 16 bytes; any other length is
    /// malformed. The stored values must fit the machine's `usize`.
    pub fn decode(bytes: &Vec<u8>) -> (r: Result<Self, WalError>)
        ensures
            match r {
                Ok(o) => bytes@.len() == 16 && offset_enc(o) == bytes@ && o.offset as u64
                    == u64_of(
                    bytes@[0],
                    bytes@[1],
                    bytes@[2],
                    bytes@[3],
                    bytes@[4],
                    bytes@[5],
                    bytes@[6],
                    bytes@[7],
                ) && o.len as u64 == u64_of(
                    bytes@[8],
                    bytes@[9],
                    bytes@[10],
                    bytes@[11],
                    bytes@[12],
                    bytes@[13],
                    bytes@[14],
                    bytes@[15],
                ),
                Err(e) => e == WalError::CorruptLog,
            },
            bytes@.len() == 16 && u64_of(
                bytes@[0],
                bytes@[1],
                bytes@[2],
                bytes@[3],
                bytes@[4],
                bytes@[5],
                bytes@[6],
                bytes@[7],
            ) <= usize::MAX && u64_of(
                bytes@[8],
                bytes@[9],
                bytes@[10],
                bytes@[11],
                bytes@[12],
                bytes@[13],
                bytes@[14],
                bytes@[15],
            ) <= usize::MAX ==> r is Ok,
    {
        if bytes.len() != 16 {
            return Err(WalError::CorruptLog);
        }
        let o = get_u64(bytes, 0);
        let l = get_u64(bytes, 8);
        if o > usize::MAX as u64 || l > usize::MAX as u64 {
            return Err(WalError::CorruptLog);
        }
        let off = Offset { offset: o as usize, len: l as usize };
        proof {
            vstd::std_specs::vec::axiom_spec_len(bytes);
            lemma_u64_inv(
                bytes@[0],
                bytes@[1],
                bytes@[2],
                bytes@[3],
                bytes@[4],
                bytes@[5],
                bytes@[6],
                bytes@[7],
            );
            lemma_u64_inv(
                bytes@[8],
                bytes@[9],
                bytes@[10],
                bytes@[11],
                bytes@[12],
                bytes@[13],
                bytes@[14],
                bytes@[15],
            );
            assert(offset_enc(off) =~= bytes@);
        }
        Ok(off)
    }
}

/// Write an offset list in its binary form at the end of `buffer`;
/// returns how many bytes were written.
pub fn encode_offsets(offsets: &Vec<Offset>, buffer: &mut Vec<u8>) -> (n: usize)
    requires
        offsets@.len() <= u32::MAX,
        4 + 16 * offsets@.len() <= usize::MAX,
    ensures
        final(buffer)@ == old(buffer)@ + offsets_enc(offsets@),
        n == 4 + 16 * offsets@.len(),
{
    put_u32(buffer, offsets.len() as u32);
    let mut i: usize = 0;
    while i < offsets.len()
        invariant
            i <= offsets@.len(),
            buffer@ == old(buffer)@ + be32(offsets@.len() as u32) + offsets_body(
                offsets@.take(i as int),
            ),
        decreases offsets@.len() - i,
    {
        let ghost prefix = offsets@.take(i as int);
        let _ = offsets[i].encode(buffer);
        proof {
            lemma_offsets_body_push(prefix, offsets@[i as int]);
            assert(prefix.push(offsets@[i as int]) =~= offsets@.take(i + 1));
        }
        i = i + 1;
    }
    proof {
        assert(offsets@.take(offsets@.len() as int) =~= offsets@);
        lemma_offsets_body_len(offsets@);
    }
    4 + 16 * offsets.len()
}

pub proof fn lemma_offsets_body_len(s: Seq<Offset>)
    ensures
        offsets_body(s).len() == 16 * s.len(),
    decreases s.len(),
{
    if s.len() > 0 {
        lemma_offsets_body_len(s.drop_first());
    }
}

/// Whether the 16-byte record at position `p` stores two values that
/// fit the machine's `usize`.
pub open spec fn chunk_fits(b: Seq<u8>, p: int) -> bool {
    &&& u64_of(b[p], b[p + 1], b[p + 2], b[p + 3], b[p + 4], b[p + 5], b[p + 6], b[p + 7])
        <= usize::MAX
    &&& u64_of(
        b[p + 8],
        b[p + 9],
        b[p + 10],
        b[p + 11],
        b[p + 12],
        b[p + 13],
        b[p + 14],
        b[p + 15],
    ) <= usize::MAX
}

/// Every stored value in an offset-list body fits the machine's
/// `usize`.
pub open spec fn offsets_values_fit(b: Seq<u8>) -> bool {
    forall|p: int| 4 <= p && (p - 4) % 16 == 0 && p + 16 <= b.len() ==> #[trigger] chunk_fits(b, p)
}

/// Read an offset list back from its binary form. The leading count is
/// read and then ignored, as the body's own length is authoritative:
/// after the 4-byte count the rest must divide into 16-byte entries.
/// Succeeds on every byte string of that shape whose stored values fit
/// the machine's `usize`.
pub fn decode_offsets(bytes: &Vec<u8>) -> (r: Result<Vec<Offset>, WalError>)
    ensures
        match r {
            Ok(v) => bytes@.len() >= 4 && (bytes@.len() - 4) % 16 == 0 && offsets_body(v@)
                == bytes@.skip(4) && v@.len() == (bytes@.len() - 4) / 16,
            Err(e) => e == WalError::CorruptLog,
        },
        bytes@.len() >= 4 && (bytes@.len() - 4) % 16 == 0 && offsets_values_fit(bytes@) ==> r
            is Ok,
{
    if bytes.len() < 4 || (bytes.len() - 4) % 16 != 0 {
        return Err(WalError::CorruptLog);
    }
    proof {
        vstd::std_specs::vec::axiom_spec_len(bytes);
    }
    let _count = get_u32(bytes, 0);
    let mut v: Vec<Offset> = Vec::new();
    let mut pos: usize = 4;
    while pos < bytes.len()
        invariant
            4 <= pos <= bytes@.len(),
            (bytes@.len() - 4) % 16 == 0,
            (pos - 4) % 16 == 0,
            offsets_body(v@) == bytes@.subrange(4, pos as int),
            v@.len() == (pos - 4) / 16,
        decreases bytes@.len() - pos,
    {
        assert(pos + 16 <= bytes@.len()) by {
            assert((bytes@.len() - pos) % 16 == 0);
        };
        let mut chunk: Vec<u8> = Vec::new();
        let mut j: usize = 0;
        while j < 16
            invariant
                j <= 16,
                pos + 16 <= bytes@.len(),
                bytes@.len() <= usize::MAX,
                chunk@ == bytes@.subrange(pos as int, pos + j),
            decreases 16 - j,
        {
            chunk.push(bytes[pos + j]);
            assert(chunk@ =~= bytes@.subrange(pos as int, pos + j + 1));
            j = j + 1;
        }
        let o = match Offset::decode(&chunk) {
            Ok(o) => o,
            Err(e) => {
                proof {
                    if offsets_values_fit(bytes@) {
                        assert(chunk_fits(bytes@, pos as int));
                        assert(chunk@[0] == bytes@[pos as int]);
                        assert(chunk@[1] == bytes@[pos + 1]);
                        assert(chunk@[2] == bytes@[pos + 2]);
                        assert(chunk@[3] == bytes@[pos + 3]);
                        assert(chunk@[4] == bytes@[pos + 4]);
                        assert(chunk@[5] == bytes@[pos + 5]);
                        assert(chunk@[6] == bytes@[pos + 6]);
                        assert(chunk@[7] == bytes@[pos + 7]);
                        assert(chunk@[8] == bytes@[pos + 8]);
                        assert(chunk@[9] == bytes@[pos + 9]);
                        assert(chunk@[10] == bytes@[pos + 10]);
                        assert(chunk@[11] == bytes@[pos + 11]);
                        assert(chunk@[12] == bytes@[pos + 12]);
                        assert(chunk@[13] == bytes@[pos + 13]);
                        assert(chunk@[14] == bytes@[pos + 14]);
                        assert(chunk@[15] == bytes@[pos + 15]);
                        assert(false);
                    }
                }
                return Err(e);
            },
        };
        let ghost prev = v@;
        v.push(o);
        proof {
            lemma_offsets_body_push(prev, o);
            assert(offsets_body(v@) =~= bytes@.subrange(4, pos + 16));
        }
        pos = pos + 16;
    }
    proof {
        assert(bytes@.subrange(4, bytes@.len() as int) =~= bytes@.skip(4));
    }
    Ok(v)
}

/// Writing an offset list and reading it back yields the same list:
/// the offset index survives persistence unchanged.
pub proof fn lemma_offsets_round_trip(s: Seq<Offset>, v: Seq<Offset>)
    requires
        offsets_body(v) == offsets_body(s),
        v.len() == s.len(),
    ensures
        v =~= s,
    decreases s.len(),
{
    lemma_offsets_body_len(s);
    if s.len() > 0 {
        assert(offsets_body(v).subrange(0, 16) =~= offset_enc(v[0]));
        assert(offsets_body(s).subrange(0, 16) =~= offset_enc(s[0]));
        lemma_offset_enc_injective(v[0], s[0]);
        lemma_offsets_body_len(s.drop_first());
        lemma_offsets_body_len(v.drop_first());
        assert(offsets_body(v).skip(16) =~= offsets_body(v.drop_first()));
        assert(offsets_body(s).skip(16) =~= offsets_body(s.drop_first()));
        lemma_offsets_round_trip(s.drop_first(), v.drop_first());
        assert forall|i: int| 0 <= i < s.len() implies v[i] == s[i] by {
            if i > 0 {
                assert(v[i] == v.drop_first()[i - 1]);
                assert(s[i] == s.drop_first()[i - 1]);
            }
        };
    }
}

/// Two offsets with the same 16-byte form are the same offset.
pub proof fn lemma_offset_enc_injective(a: Offset, b: Offset)
    requires
        offset_enc(a) == offset_enc(b),
    ensures
        a == b,
{
    assert(be64(a.offset as u64) =~= offset_enc(a).subrange(0, 8));
    assert(be64(a.len as u64) =~= offset_enc(a).subrange(8, 16));
    assert(be64(b.offset as u64) =~= offset_enc(b).subrange(0, 8));
    assert(be64(b.len as u64) =~= offset_enc(b).subrange(8, 16));
    assert(be64(a.offset as u64) == be64(b.offset as u64));
    assert(be64(a.len as u64) == be64(b.len as u64));
    lemma_u64_round(a.offset as u64);
    lemma_u64_round(b.offset as u64);
    lemma_u64_round(a.len as u64);
    lemma_u64_round(b.len as u64);
    assert(be64(a.offset as u64)[0] == be64(b.offset as u64)[0]);
    assert(be64(a.offset as u64)[1] == be64(b.offset as u64)[1]);
    assert(be64(a.offset as u64)[2] == be64(b.offset as u64)[2]);
    assert(be64(a.offset as u64)[3] == be64(b.offset as u64)[3]);
    assert(be64(a.offset as u64)[4] == be64(b.offset as u64)[4]);
    assert(be64(a.offset as u64)[5] == be64(b.offset as u64)[5]);
    assert(be64(a.offset as u64)[6] == be64(b.offset as u64)[6]);
    assert(be64(a.offset as u64)[7] == be64(b.offset as u64)[7]);
    assert(a.offset as u64 == b.offset as u64);
    assert(be64(a.len as u64)[0] == be64(b.len as u64)[0]);
    assert(be64(a.len as u64)[1] == be64(b.len as u64)[1]);
    assert(be64(a.len as u64)[2] == be64(b.len as u64)[2]);
    assert(be64(a.len as u64)[3] == be64(b.len as u64)[3]);
    assert(be64(a.len as u64)[4] == be64(b.len as u64)[4]);
    assert(be64(a.len as u64)[5] == be64(b.len as u64)[5]);
    assert(be64(a.len as u64)[6] == be64(b.len as u64)[6]);
    assert(be64(a.len as u64)[7] == be64(b.len as u64)[7]);
    assert(a.len as u64 == b.len as u64);
}

} // verus!
