//! One logical log entry: a small batch of opaque byte records,
//! concatenated behind a per-record length table so the caller can
//! split them back out, together with its binary form and the scan
//! that recovers every entry of a segment in file order.

use vstd::prelude::*;

use crate::wal::codec::{
    be16, be32, be32_concat, copy_range, get_u16, get_u32, lemma_be32_concat_len,
    lemma_be32_concat_push, lemma_u16_inv, lemma_u16_round, lemma_u32_inv, lemma_u32_round,
    push_range, put_u16, put_u32, u16_of, u32_of,
};
use crate::wal::offset::{lemma_sum_u32_take_step, sum_u32, Offset};
use crate::wal::WalError;

verus! {

/// One log entry: `num` records whose encoded lengths stand in
/// `indexs`, their payloads concatenated in `bytes`.
#[derive(Debug, Clone, PartialEq, Eq)]
pub struct WalMsg {
    pub num: u16,
    pub indexs: Vec<u32>,
    pub bytes: Vec<u8>,
}

impl WalMsg {
    /// A well-formed entry declares exactly one length per record.
    pub open spec fn wf(self) -> bool {
        self.num as int == self.indexs@.len()
    }

    /// The binary form of this entry: a big-endian `u16` record count,
    /// one big-endian `u32` length per record, then the payload bytes.
    pub open spec fn spec_enc(self) -> Seq<u8> {
        be16(self.num) + be32_concat(self.indexs@) + self.bytes@
    }

    /// The record length table.
    pub fn indexs(&self) -> (r: &Vec<u32>)
        ensures
            r@ == self.indexs@,
    {
        &self.indexs
    }

    /// A copy of the concatenated record payloads.
    pub fn bytes(&self) -> (r: Vec<u8>)
        ensures
            r@ == self.bytes@,
    {
        proof {
            vstd::std_specs::vec::axiom_spec_len(&self.bytes);
        }
        copy_range(&self.bytes, 0, self.bytes.len())
    }

    /// How many bytes `encode` will write: count field, length table,
    /// payload.
    pub fn encode_len(&self) -> (n: usize)
        requires
            self.wf(),
            2 + 4 * self.indexs@.len() + self.bytes@.len() <= usize::MAX,
        ensures
            n == self.spec_enc().len(),
    {
        proof {
            vstd::std_specs::vec::axiom_spec_len(&self.indexs);
            vstd::std_specs::vec::axiom_spec_len(&self.bytes);
            lemma_be32_concat_len(self.indexs@);
        }
        2 + 4 * self.indexs.len() + self.bytes.len()
    }
}

/// The lengths of a record sequence, each as a `u32`.
pub open spec fn lens_of(rs: Seq<Seq<u8>>) -> Seq<u32> {
    rs.map_values(|r: Seq<u8>| r.len() as u32)
}

/// All records concatenated in order.
pub open spec fn flat(rs: Seq<Seq<u8>>) -> Seq<u8>
    decreases rs.len(),
{
    if rs.len() == 0 {
        Seq::empty()
    } else {
        rs[0] + flat(rs.drop_first())
    }
}

pub proof fn lemma_flat_len(rs: Seq<Seq<u8>>)
    ensures
        flat(rs).len() == sum_lens(rs),
    decreases rs.len(),
{
    if rs.len() > 0 {
        lemma_flat_len(rs.drop_first());
    }
}

/// The total length of a record sequence.
pub open spec fn sum_lens(rs: Seq<Seq<u8>>) -> int
    decreases rs.len(),
{
    if rs.len() == 0 {
        0
    } else {
        rs[0].len() + sum_lens(rs.drop_first())
    }
}

pub proof fn lemma_flat_push(rs: Seq<Seq<u8>>, r: Seq<u8>)
    ensures
        flat(rs.push(r)) == flat(rs) + r,
    decreases rs.len(),
{
    let p = rs.push(r);
    assert(flat(p) == p[0] + flat(p.drop_first()));
    if rs.len() == 0 {
        assert(p[0] == r);
        assert(p.drop_first() =~= Seq::<Seq<u8>>::empty());
        assert(flat(p) =~= flat(rs) + r);
    } else {
        assert(p[0] == rs[0]);
        assert(p.drop_first() =~= rs.drop_first().push(r));
        lemma_flat_push(rs.drop_first(), r);
        assert(flat(p) =~= flat(rs) + r);
    }
}

/// Cutting a byte string back into records along a length table.
pub open spec fn split_records(lens: Seq<u32>, b: Seq<u8>) -> Seq<Seq<u8>>
    decreases lens.len(),
{
    if lens.len() == 0 {
        Seq::empty()
    } else {
        seq![b.take(lens[0] as int)] + split_records(lens.drop_first(), b.skip(lens[0] as int))
    }
}

/// Splitting the concatenation of records along their own lengths
/// yields the records again.
pub proof fn lemma_split_of_flat(rs: Seq<Seq<u8>>)
    requires
        forall|i: int| 0 <= i < rs.len() ==> #[trigger] rs[i].len() <= u32::MAX,
    ensures
        split_records(lens_of(rs), flat(rs)) == rs,
    decreases rs.len(),
{
    if rs.len() > 0 {
        let lens = lens_of(rs);
        let b = flat(rs);
        assert(lens[0] == rs[0].len() as u32);
        assert(b == rs[0] + flat(rs.drop_first()));
        assert(b.take(rs[0].len() as int) =~= rs[0]);
        assert(b.skip(rs[0].len() as int) =~= flat(rs.drop_first()));
        assert(lens.drop_first() =~= lens_of(rs.drop_first()));
        lemma_split_of_flat(rs.drop_first());
        assert(split_records(lens, b) =~= rs);
    } else {
        assert(split_records(lens_of(rs), flat(rs)) =~= rs);
    }
}

/// Splitting one more record off the front extends the split of the
/// shorter prefix by the byte range the prefix sums delimit.
pub proof fn lemma_split_records_snoc(lens: Seq<u32>, b: Seq<u8>, i: int)
    requires
        0 <= i < lens.len(),
        sum_u32(lens.take(i + 1)) <= b.len(),
    ensures
        split_records(lens.take(i + 1), b) == split_records(lens.take(i), b).push(
            b.skip(sum_u32(lens.take(i))).take(lens[i] as int),
        ),
    decreases i,
{
    lemma_sum_u32_nonneg(lens.take(i));
    assert(sum_u32(lens.take(i + 1)) == sum_u32(lens.take(i)) + lens[i]) by {
        lemma_sum_u32_take_step(lens, i);
    };
    if i == 0 {
        assert(lens.take(0) =~= Seq::<u32>::empty());
        assert(lens.take(1)[0] == lens[0]);
        assert(lens.take(1).len() == 1);
        assert(lens.take(1).drop_first() =~= Seq::<u32>::empty());
        assert(b.skip(0) =~= b);
        assert(split_records(Seq::<u32>::empty(), b.skip(lens[0] as int))
            == Seq::<Seq<u8>>::empty());
        assert(split_records(lens.take(0), b) == Seq::<Seq<u8>>::empty());
        assert(split_records(lens.take(1), b) == seq![b.take(lens.take(1)[0] as int)]
            + split_records(lens.take(1).drop_first(), b.skip(lens.take(1)[0] as int)));
        assert(split_records(lens.take(1), b) =~= split_records(lens.take(0), b).push(
            b.take(lens[0] as int),
        ));
    } else {
        let l0 = lens[0] as int;
        assert(sum_u32(lens.drop_first().take(i)) == sum_u32(lens.take(i + 1)) - lens[0]) by {
            lemma_sum_head(lens.take(i + 1));
            assert(lens.take(i + 1).drop_first() =~= lens.drop_first().take(i));
            assert(lens.take(i + 1)[0] == lens[0]);
        };
        assert(l0 <= b.len()) by {
            lemma_sum_u32_nonneg(lens.drop_first().take(i));
        };
        lemma_split_records_snoc(lens.drop_first(), b.skip(l0), i - 1);
        assert(lens.take(i + 1).drop_first() =~= lens.drop_first().take(i));
        assert(lens.take(i).drop_first() =~= lens.drop_first().take(i - 1));
        assert(lens.take(i)[0] == lens[0]);
        assert(lens.take(i + 1)[0] == lens[0]);
        assert(sum_u32(lens.take(i)) == lens[0] + sum_u32(lens.drop_first().take(i - 1))) by {
            lemma_sum_head(lens.take(i));
        };
        lemma_sum_u32_nonneg(lens.drop_first().take(i - 1));
        assert(b.skip(l0).skip(sum_u32(lens.drop_first().take(i - 1))) =~= b.skip(
            sum_u32(lens.take(i)),
        ));
        assert(lens.drop_first()[i - 1] == lens[i]);
        assert(split_records(lens.take(i + 1), b) =~= split_records(lens.take(i), b).push(
            b.skip(sum_u32(lens.take(i))).take(lens[i] as int),
        ));
    }
}

pub proof fn lemma_split_records_len(lens: Seq<u32>, b: Seq<u8>)
    ensures
        split_records(lens, b).len() == lens.len(),
    decreases lens.len(),
{
    if lens.len() > 0 {
        lemma_split_records_len(lens.drop_first(), b.skip(lens[0] as int));
    }
}

/// The sum over a nonempty length table equals its head plus the sum
/// over its tail.
pub proof fn lemma_sum_head(lens: Seq<u32>)
    requires
        lens.len() > 0,
    ensures
        sum_u32(lens) == lens[0] + sum_u32(lens.drop_first()),
    decreases lens.len(),
{
    if lens.len() == 1 {
        assert(lens.drop_last() =~= Seq::<u32>::empty());
        assert(lens.drop_first() =~= Seq::<u32>::empty());
    } else {
        lemma_sum_head(lens.drop_last());
        assert(lens.drop_last().drop_first() =~= lens.drop_first().drop_last());
        assert(lens.drop_last()[0] == lens[0]);
        assert(lens.drop_first().last() == lens.last());
    }
}

impl WalMsg {
    /// Package a batch of opaque byte records as one log entry: the
    /// length table holds each record's length, the payload their
    /// concatenation.
    pub fn from_records(records: &Vec<Vec<u8>>) -> (r: WalMsg)
        requires
            records@.len() <= u16::MAX,
            forall|i: int|
                0 <= i < records@.len() ==> (#[trigger] records@[i])@.len() <= u32::MAX,
        ensures
            r.wf(),
            r.num as int == records@.len(),
            r.indexs@ == lens_of(records.deep_view()),
            r.bytes@ == flat(records.deep_view()),
    {
        let ghost rsv = records.deep_view();
        let mut indexs: Vec<u32> = Vec::new();
        let mut bytes: Vec<u8> = Vec::new();
        let num = records.len() as u16;
        let mut i: usize = 0;
        proof {
            assert(rsv.take(0) =~= Seq::<Seq<u8>>::empty());
        }
        while i < records.len()
            invariant
                i <= records@.len(),
                records@.len() <= u16::MAX,
                rsv == records.deep_view(),
                rsv.len() == records@.len(),
                forall|k: int| 0 <= k < records@.len() ==> rsv[k] == (#[trigger] records@[k])@,
                forall|k: int|
                    0 <= k < records@.len() ==> (#[trigger] records@[k])@.len() <= u32::MAX,
                indexs@ == lens_of(rsv.take(i as int)),
                bytes@ == flat(rsv.take(i as int)),
            decreases records@.len() - i,
        {
            let rec = &records[i];
            proof {
                vstd::std_specs::vec::axiom_spec_len(rec);
            }
            let ghost prefix = rsv.take(i as int);
            indexs.push(rec.len() as u32);
            push_range(&mut bytes, rec, 0, rec.len());
            proof {
                assert(rec@.subrange(0, rec@.len() as int) =~= rec@);
                lemma_flat_push(prefix, rsv[i as int]);
                assert(prefix.push(rsv[i as int]) =~= rsv.take(i + 1));
                assert(lens_of(rsv.take(i + 1)) =~= lens_of(prefix).push(
                    rsv[i as int].len() as u32,
                ));
            }
            i = i + 1;
        }
        proof {
            assert(rsv.take(rsv.len() as int) =~= rsv);
        }
        WalMsg { num, indexs, bytes }
    }

    /// Split the payload back into the records it was built from.
    /// Fails with `CorruptLog` when the length table asks for more
    /// bytes than the payload holds.
    pub fn records(&self) -> (r: Result<Vec<Vec<u8>>, WalError>)
        ensures
            match r {
                Ok(rs) => sum_u32(self.indexs@) <= self.bytes@.len() && rs.deep_view()
                    == split_records(self.indexs@, self.bytes@),
                Err(e) => e == WalError::CorruptLog && sum_u32(self.indexs@) > self.bytes@.len(),
            },
    {
        proof {
            vstd::std_specs::vec::axiom_spec_len(&self.indexs);
            vstd::std_specs::vec::axiom_spec_len(&self.bytes);
        }
        let mut out: Vec<Vec<u8>> = Vec::new();
        let mut pos: usize = 0;
        let mut i: usize = 0;
        proof {
            assert(self.indexs@.take(0) =~= Seq::<u32>::empty());
        }
        while i < self.indexs.len()
            invariant
                i <= self.indexs@.len(),
                self.bytes@.len() <= usize::MAX,
                self.indexs@.len() <= usize::MAX,
                pos == sum_u32(self.indexs@.take(i as int)),
                pos <= self.bytes@.len(),
                out.deep_view() == split_records(self.indexs@.take(i as int), self.bytes@),
            decreases self.indexs@.len() - i,
        {
            let l = self.indexs[i] as usize;
            if l > self.bytes.len() - pos {
                proof {
                    lemma_sum_u32_take_step(self.indexs@, i as int);
                    lemma_sum_u32_positive(self.indexs@, i + 1, self.indexs@.len() as int);
                    assert(self.indexs@.take(self.indexs@.len() as int) =~= self.indexs@);
                }
                return Err(WalError::CorruptLog);
            }
            let rec = copy_range(&self.bytes, pos, pos + l);
            let ghost prev = out.deep_view();
            out.push(rec);
            proof {
                lemma_sum_u32_take_step(self.indexs@, i as int);
                lemma_split_records_snoc(self.indexs@, self.bytes@, i as int);
                assert(self.bytes@.skip(sum_u32(self.indexs@.take(i as int))).take(
                    self.indexs@[i as int] as int,
                ) =~= self.bytes@.subrange(pos as int, pos + l));
                assert(out.deep_view() =~~= prev.push(rec@));
            }
            pos = pos + l;
            i = i + 1;
        }
        proof {
            assert(self.indexs@.take(self.indexs@.len() as int) =~= self.indexs@);
        }
        Ok(out)
    }
}

/// A sum of `u32` lengths is never negative.
pub proof fn lemma_sum_u32_nonneg(lens: Seq<u32>)
    ensures
        sum_u32(lens) >= 0,
    decreases lens.len(),
{
    if lens.len() > 0 {
        lemma_sum_u32_nonneg(lens.drop_last());
    }
}

/// A prefix sum of the length table never exceeds a longer one.
pub proof fn lemma_sum_u32_positive(lens: Seq<u32>, i: int, j: int)
    requires
        0 <= i <= j <= lens.len(),
    ensures
        sum_u32(lens.take(i)) <= sum_u32(lens.take(j)),
    decreases j - i,
{
    if i < j {
        lemma_sum_u32_take_step(lens, i);
        lemma_sum_u32_positive(lens, i + 1, j);
    }
}

/// The record count stored in an entry's first two bytes.
pub open spec fn parse_num(b: Seq<u8>) -> u16 {
    u16_of(b[0], b[1])
}

/// The first `n` big-endian `u32` values stored at the front of `b`.
pub open spec fn parse_lens(b: Seq<u8>, n: nat) -> Seq<u32>
    decreases n,
{
    if n == 0 {
        Seq::empty()
    } else {
        seq![u32_of(b[0], b[1], b[2], b[3])] + parse_lens(b.skip(4), (n - 1) as nat)
    }
}

/// An entry's bytes are well-formed when the count field and the whole
/// length table fit inside them.
pub open spec fn msg_parse_ok(b: Seq<u8>) -> bool {
    b.len() >= 2 && 2 + 4 * (parse_num(b) as int) <= b.len()
}

/// The length table of an entry's bytes.
pub open spec fn parse_msg_lens(b: Seq<u8>) -> Seq<u32> {
    parse_lens(b.skip(2), parse_num(b) as nat)
}

/// The payload of an entry's bytes: what follows the length table.
pub open spec fn parse_payload(b: Seq<u8>) -> Seq<u8> {
    b.skip(2 + 4 * (parse_num(b) as int))
}

pub proof fn lemma_parse_lens_snoc(b: Seq<u8>, i: nat)
    requires
        4 * (i + 1) <= b.len(),
    ensures
        parse_lens(b, i + 1) == parse_lens(b, i).push(
            u32_of(
                b[4 * (i as int)],
                b[4 * (i as int) + 1],
                b[4 * (i as int) + 2],
                b[4 * (i as int) + 3],
            ),
        ),
    decreases i,
{
    if i == 0 {
        assert(parse_lens(b.skip(4), 0) == Seq::<u32>::empty());
        assert(parse_lens(b, 0) == Seq::<u32>::empty());
        assert(parse_lens(b, 1) == seq![u32_of(b[0], b[1], b[2], b[3])] + parse_lens(
            b.skip(4),
            0,
        ));
        assert(parse_lens(b, 1) =~= parse_lens(b, 0).push(u32_of(b[0], b[1], b[2], b[3])));
    } else {
        lemma_parse_lens_snoc(b.skip(4), (i - 1) as nat);
        assert(b.skip(4)[4 * (i as int - 1)] == b[4 * (i as int)]);
        assert(b.skip(4)[4 * (i as int - 1) + 1] == b[4 * (i as int) + 1]);
        assert(b.skip(4)[4 * (i as int - 1) + 2] == b[4 * (i as int) + 2]);
        assert(b.skip(4)[4 * (i as int - 1) + 3] == b[4 * (i as int) + 3]);
        assert(parse_lens(b, i + 1) =~= parse_lens(b, i).push(
            u32_of(
                b[4 * (i as int)],
                b[4 * (i as int) + 1],
                b[4 * (i as int) + 2],
                b[4 * (i as int) + 3],
            ),
        ));
    }
}

/// Parsing a length table back out of its own encoding yields the
/// table: the tail after it does not interfere.
pub proof fn lemma_parse_of_be32_concat(lens: Seq<u32>, tail: Seq<u8>)
    ensures
        parse_lens(be32_concat(lens) + tail, lens.len()) == lens,
    decreases lens.len(),
{
    lemma_be32_concat_len(lens);
    if lens.len() > 0 {
        let b = be32_concat(lens) + tail;
        lemma_be32_concat_len(lens.drop_first());
        assert(b[0] == be32(lens[0])[0]);
        assert(b[1] == be32(lens[0])[1]);
        assert(b[2] == be32(lens[0])[2]);
        assert(b[3] == be32(lens[0])[3]);
        lemma_u32_round(lens[0]);
        assert(b.skip(4) =~= be32_concat(lens.drop_first()) + tail);
        lemma_parse_of_be32_concat(lens.drop_first(), tail);
        assert(parse_lens(b, lens.len()) =~= lens);
    } else {
        assert(parse_lens(be32_concat(lens) + tail, 0) =~= lens);
    }
}

/// A length table is recovered bytewise from any window that starts
/// with its encoding.
pub proof fn lemma_be32_of_parse_lens(c: Seq<u8>, n: nat)
    requires
        4 * n <= c.len(),
    ensures
        be32_concat(parse_lens(c, n)) == c.take(4 * (n as int)),
    decreases n,
{
    if n == 0 {
        assert(be32_concat(parse_lens(c, 0)) =~= c.take(0));
    } else {
        lemma_u32_inv(c[0], c[1], c[2], c[3]);
        lemma_be32_of_parse_lens(c.skip(4), (n - 1) as nat);
        assert(parse_lens(c, n) == seq![u32_of(c[0], c[1], c[2], c[3])] + parse_lens(
            c.skip(4),
            (n - 1) as nat,
        ));
        lemma_be32_concat_head(
            u32_of(c[0], c[1], c[2], c[3]),
            parse_lens(c.skip(4), (n - 1) as nat),
        );
        assert(c.skip(4).take(4 * (n as int - 1)) =~= c.take(4 * (n as int)).skip(4));
        assert(be32_concat(parse_lens(c, n)) =~= c.take(4 * (n as int)));
    }
}

/// Concatenating from a one-element head unfolds one step.
pub proof fn lemma_be32_concat_head(x: u32, rest: Seq<u32>)
    ensures
        be32_concat(seq![x] + rest) == be32(x) + be32_concat(rest),
{
    let s = seq![x] + rest;
    assert(s.len() == 1 + rest.len());
    assert(s[0] == x);
    assert(s.drop_first() =~= rest);
    assert(be32_concat(s) == be32(s[0]) + be32_concat(s.drop_first()));
}

impl WalMsg {
    /// Write this entry's binary form at the end of `buf`.
    pub fn encode(&self, buf: &mut Vec<u8>)
        requires
            self.wf(),
        ensures
            final(buf)@ == old(buf)@ + self.spec_enc(),
    {
        proof {
            vstd::std_specs::vec::axiom_spec_len(&self.indexs);
            vstd::std_specs::vec::axiom_spec_len(&self.bytes);
        }
        put_u16(buf, self.num);
        let mut i: usize = 0;
        proof {
            assert(self.indexs@.take(0) =~= Seq::<u32>::empty());
        }
        while i < self.indexs.len()
            invariant
                i <= self.indexs@.len(),
                self.indexs@.len() <= usize::MAX,
                buf@ == old(buf)@ + be16(self.num) + be32_concat(self.indexs@.take(i as int)),
            decreases self.indexs@.len() - i,
        {
            let ghost prefix = self.indexs@.take(i as int);
            put_u32(buf, self.indexs[i]);
            proof {
                lemma_be32_concat_push(prefix, self.indexs@[i as int]);
                assert(prefix.push(self.indexs@[i as int]) =~= self.indexs@.take(i + 1));
            }
            i = i + 1;
        }
        push_range(buf, &self.bytes, 0, self.bytes.len());
        proof {
            assert(self.indexs@.take(self.indexs@.len() as int) =~= self.indexs@);
            assert(self.bytes@.subrange(0, self.bytes@.len() as int) =~= self.bytes@);
            assert(buf@ =~= old(buf)@ + self.spec_enc());
        }
    }

    /// Read an entry back from its binary form: the record count, then
    /// that many lengths, and everything after them as the payload.
    pub fn decode(buf: &Vec<u8>) -> (r: WalMsg)
        requires
            msg_parse_ok(buf@),
        ensures
            r.wf(),
            r.num == parse_num(buf@),
            r.indexs@ == parse_msg_lens(buf@),
            r.bytes@ == parse_payload(buf@),
    {
        proof {
            vstd::std_specs::vec::axiom_spec_len(buf);
        }
        let num = get_u16(buf, 0);
        let mut indexs: Vec<u32> = Vec::new();
        let mut i: usize = 0;
        proof {
            assert(parse_lens(buf@.skip(2), 0) =~= Seq::<u32>::empty());
        }
        while i < num as usize
            invariant
                i <= num as usize,
                buf@.len() <= usize::MAX,
                num == parse_num(buf@),
                2 + 4 * (num as int) <= buf@.len(),
                indexs@.len() == i,
                indexs@ == parse_lens(buf@.skip(2), i as nat),
            decreases num as usize - i,
        {
            let v = get_u32(buf, 2 + 4 * i);
            indexs.push(v);
            proof {
                lemma_parse_lens_snoc(buf@.skip(2), i as nat);
                assert(buf@.skip(2)[4 * (i as int)] == buf@[2 + 4 * (i as int)]);
                assert(buf@.skip(2)[4 * (i as int) + 1] == buf@[2 + 4 * (i as int) + 1]);
                assert(buf@.skip(2)[4 * (i as int) + 2] == buf@[2 + 4 * (i as int) + 2]);
                assert(buf@.skip(2)[4 * (i as int) + 3] == buf@[2 + 4 * (i as int) + 3]);
            }
            i = i + 1;
        }
        let bytes = copy_range(buf, 2 + 4 * (num as usize), buf.len());
        proof {
            assert(buf@.subrange(2 + 4 * (num as int), buf@.len() as int) =~= parse_payload(buf@));
        }
        WalMsg { num, indexs, bytes }
    }
}

/// An entry survives its binary form: parsing the encoding of any
/// well-formed entry yields the entry's fields back.
pub proof fn lemma_msg_parse_of_enc(num: u16, lens: Seq<u32>, payload: Seq<u8>)
    requires
        lens.len() == num as int,
    ensures
        msg_parse_ok(be16(num) + be32_concat(lens) + payload),
        parse_num(be16(num) + be32_concat(lens) + payload) == num,
        parse_msg_lens(be16(num) + be32_concat(lens) + payload) == lens,
        parse_payload(be16(num) + be32_concat(lens) + payload) == payload,
{
    let e = be16(num) + be32_concat(lens) + payload;
    lemma_be32_concat_len(lens);
    assert(e[0] == be16(num)[0]);
    assert(e[1] == be16(num)[1]);
    lemma_u16_round(num);
    assert(parse_num(e) == num);
    assert(e.skip(2) =~= be32_concat(lens) + payload);
    lemma_parse_of_be32_concat(lens, payload);
    assert(parse_msg_lens(e) == lens);
    assert(parse_payload(e) =~= payload);
}

/// Conversely, the fields parsed out of any well-formed bytes encode
/// back to exactly those bytes.
pub proof fn lemma_msg_enc_of_parse(b: Seq<u8>)
    requires
        msg_parse_ok(b),
    ensures
        be16(parse_num(b)) + be32_concat(parse_msg_lens(b)) + parse_payload(b) == b,
{
    let n = parse_num(b) as int;
    lemma_u16_inv(b[0], b[1]);
    assert(be16(parse_num(b)) =~= b.take(2));
    lemma_be32_of_parse_lens(b.skip(2), parse_num(b) as nat);
    assert(be32_concat(parse_msg_lens(b)) == b.skip(2).take(4 * n));
    assert(be16(parse_num(b)) + be32_concat(parse_msg_lens(b)) + parse_payload(b) =~= b);
}

/// The binary form of the entry that packages a record batch.
pub open spec fn entry_enc(rs: Seq<Seq<u8>>) -> Seq<u8> {
    be16(rs.len() as u16) + be32_concat(lens_of(rs)) + flat(rs)
}

/// The whole payload is exactly accounted for by the length table.
pub proof fn lemma_sum_lens_of(rs: Seq<Seq<u8>>)
    requires
        forall|i: int| 0 <= i < rs.len() ==> #[trigger] rs[i].len() <= u32::MAX,
    ensures
        sum_u32(lens_of(rs)) == flat(rs).len(),
    decreases rs.len(),
{
    lemma_flat_len(rs);
    lemma_sum_lens_eq(rs);
}

pub proof fn lemma_sum_lens_eq(rs: Seq<Seq<u8>>)
    requires
        forall|i: int| 0 <= i < rs.len() ==> #[trigger] rs[i].len() <= u32::MAX,
    ensures
        sum_u32(lens_of(rs)) == sum_lens(rs),
    decreases rs.len(),
{
    if rs.len() > 0 {
        lemma_sum_head(lens_of(rs));
        assert(lens_of(rs)[0] == rs[0].len() as u32);
        assert(lens_of(rs).drop_first() =~= lens_of(rs.drop_first()));
        lemma_sum_lens_eq(rs.drop_first());
    }
}

/// Round trip: for any batch of byte records, packaging them as a log
/// entry, writing the entry's binary form, reading it back, and
/// splitting the payload along the length table yields the original
/// records byte for byte.
pub proof fn lemma_entry_round_trip(rs: Seq<Seq<u8>>)
    requires
        rs.len() <= u16::MAX,
        forall|i: int| 0 <= i < rs.len() ==> #[trigger] rs[i].len() <= u32::MAX,
    ensures
        msg_parse_ok(entry_enc(rs)),
        parse_num(entry_enc(rs)) as int == rs.len(),
        parse_msg_lens(entry_enc(rs)) == lens_of(rs),
        parse_payload(entry_enc(rs)) == flat(rs),
        sum_u32(lens_of(rs)) == flat(rs).len(),
        split_records(lens_of(rs), flat(rs)) == rs,
{
    lemma_msg_parse_of_enc(rs.len() as u16, lens_of(rs), flat(rs));
    lemma_sum_lens_of(rs);
    lemma_split_of_flat(rs);
}


/// One on-disk frame: a big-endian `u32` length prefix, then the
/// entry's bytes.
pub open spec fn frame(p: Seq<u8>) -> Seq<u8> {
    be32(p.len() as u32) + p
}

/// A whole segment's bytes: every appended entry's frame in order.
pub open spec fn frames_of(h: Seq<Seq<u8>>) -> Seq<u8>
    decreases h.len(),
{
    if h.len() == 0 {
        Seq::empty()
    } else {
        frame(h[0]) + frames_of(h.drop_first())
    }
}

/// How many bytes the frames of these entries occupy.
pub open spec fn frames_size(h: Seq<Seq<u8>>) -> int
    decreases h.len(),
{
    if h.len() == 0 {
        0
    } else {
        frames_size(h.drop_last()) + 4 + h.last().len()
    }
}

pub proof fn lemma_frames_size_nonneg(h: Seq<Seq<u8>>)
    ensures
        frames_size(h) >= 0,
    decreases h.len(),
{
    if h.len() > 0 {
        lemma_frames_size_nonneg(h.drop_last());
    }
}

pub proof fn lemma_frames_size_take_step(h: Seq<Seq<u8>>, i: int)
    requires
        0 <= i < h.len(),
    ensures
        frames_size(h.take(i + 1)) == frames_size(h.take(i)) + 4 + h[i].len(),
{
    assert(h.take(i + 1).drop_last() =~= h.take(i));
    assert(h.take(i + 1).last() == h[i]);
}

pub proof fn lemma_frames_size_take_mono(h: Seq<Seq<u8>>, i: int, j: int)
    requires
        0 <= i <= j <= h.len(),
    ensures
        frames_size(h.take(i)) <= frames_size(h.take(j)),
    decreases j - i,
{
    if i < j {
        lemma_frames_size_take_step(h, i);
        lemma_frames_size_take_mono(h, i + 1, j);
    }
}

/// The head of a nonempty history accounts for its frame's bytes.
pub proof fn lemma_frames_size_head(h: Seq<Seq<u8>>)
    requires
        h.len() > 0,
    ensures
        frames_size(h) == 4 + h[0].len() + frames_size(h.drop_first()),
    decreases h.len(),
{
    if h.len() == 1 {
        assert(h.drop_last() =~= Seq::<Seq<u8>>::empty());
        assert(h.drop_first() =~= Seq::<Seq<u8>>::empty());
    } else {
        lemma_frames_size_head(h.drop_last());
        assert(h.drop_last().drop_first() =~= h.drop_first().drop_last());
        assert(h.drop_last()[0] == h[0]);
        assert(h.drop_first().last() == h.last());
    }
}

pub proof fn lemma_frames_of_push(h: Seq<Seq<u8>>, p: Seq<u8>)
    ensures
        frames_of(h.push(p)) == frames_of(h) + frame(p),
    decreases h.len(),
{
    let q = h.push(p);
    assert(frames_of(q) == frame(q[0]) + frames_of(q.drop_first()));
    if h.len() == 0 {
        assert(q[0] == p);
        assert(q.drop_first() =~= Seq::<Seq<u8>>::empty());
        assert(frames_of(q) =~= frames_of(h) + frame(p));
    } else {
        assert(q[0] == h[0]);
        assert(q.drop_first() =~= h.drop_first().push(p));
        lemma_frames_of_push(h.drop_first(), p);
        assert(frames_of(q) =~= frames_of(h) + frame(p));
    }
}

/// A segment's byte length is the total size of its frames.
pub proof fn lemma_frames_of_len(h: Seq<Seq<u8>>)
    ensures
        frames_of(h).len() == frames_size(h),
    decreases h.len(),
{
    if h.len() > 0 {
        lemma_frames_size_head(h);
        lemma_frames_of_len(h.drop_first());
    }
}

/// The crash-recovery scan over a segment's bytes: read each frame's
/// length prefix, cut out its entry, and continue past it. `None`
/// marks a corrupt segment: a frame that declares more bytes than
/// remain. A trailing stub of at most four bytes is ignored.
pub open spec fn scan_frames(b: Seq<u8>) -> Option<Seq<Seq<u8>>>
    decreases b.len(),
{
    if b.len() <= 4 {
        Some(Seq::empty())
    } else {
        let l = u32_of(b[0], b[1], b[2], b[3]) as int;
        if b.len() - 4 < l {
            None
        } else {
            match scan_frames(b.skip(4 + l)) {
                Some(rest) => Some(seq![b.subrange(4, 4 + l)] + rest),
                None => None,
            }
        }
    }
}

/// Every scanned frame holds a well-formed entry.
pub open spec fn frames_all_ok(fs: Seq<Seq<u8>>) -> bool {
    forall|i: int| 0 <= i < fs.len() ==> msg_parse_ok(#[trigger] fs[i])
}

/// The decoded entries stand for the scanned frames, one each, byte
/// for byte.
pub open spec fn msgs_match_frames(v: Seq<WalMsg>, fs: Seq<Seq<u8>>) -> bool {
    &&& v.len() == fs.len()
    &&& forall|i: int|
        0 <= i < v.len() ==> (#[trigger] v[i]).wf() && v[i].spec_enc() == fs[i]
}

/// Recovery determinism: scanning the bytes that a sequence of
/// appended entries laid down recovers exactly those entries, in
/// order.
pub proof fn lemma_scan_of_frames(h: Seq<Seq<u8>>)
    requires
        forall|i: int| 0 <= i < h.len() ==> 1 <= (#[trigger] h[i]).len() <= u32::MAX,
    ensures
        scan_frames(frames_of(h)) == Some(h),
    decreases h.len(),
{
    let b = frames_of(h);
    if h.len() == 0 {
        assert(b.len() == 0);
        assert(scan_frames(b) =~= Some(Seq::<Seq<u8>>::empty()));
        assert(scan_frames(b).unwrap() =~= h);
    } else {
        let p = h[0];
        lemma_frames_of_len(h.drop_first());
        lemma_frames_size_nonneg(h.drop_first());
        assert(b == frame(p) + frames_of(h.drop_first()));
        assert(b.len() == 4 + p.len() + frames_of(h.drop_first()).len());
        assert(b.len() > 4);
        assert(b[0] == be32(p.len() as u32)[0]);
        assert(b[1] == be32(p.len() as u32)[1]);
        assert(b[2] == be32(p.len() as u32)[2]);
        assert(b[3] == be32(p.len() as u32)[3]);
        lemma_u32_round(p.len() as u32);
        assert(u32_of(b[0], b[1], b[2], b[3]) as int == p.len());
        assert(b.skip(4 + p.len() as int) =~= frames_of(h.drop_first()));
        lemma_scan_of_frames(h.drop_first());
        assert(b.subrange(4, 4 + p.len() as int) =~= p);
        assert(scan_frames(b).unwrap() =~= h);
    }
}

/// Where each entry's payload stands in the segment: 4 bytes past its
/// frame's start, with the entry's own length.
pub open spec fn offsets_model(fs: Seq<Seq<u8>>, pos: int) -> Seq<(int, int)>
    decreases fs.len(),
{
    if fs.len() == 0 {
        Seq::empty()
    } else {
        seq![(pos + 4, fs[0].len() as int)] + offsets_model(
            fs.drop_first(),
            pos + 4 + fs[0].len(),
        )
    }
}

/// An offset list realizes the model when it agrees entry by entry.
pub open spec fn offs_match(v: Seq<Offset>, m: Seq<(int, int)>) -> bool {
    &&& v.len() == m.len()
    &&& forall|i: int|
        0 <= i < v.len() ==> (#[trigger] v[i]).offset == m[i].0 && v[i].len == m[i].1
}

pub proof fn lemma_offsets_model_snoc(fs: Seq<Seq<u8>>, p: Seq<u8>, pos: int)
    ensures
        offsets_model(fs.push(p), pos) == offsets_model(fs, pos).push(
            (pos + frames_size(fs) + 4, p.len() as int),
        ),
    decreases fs.len(),
{
    let q = fs.push(p);
    if fs.len() == 0 {
        assert(q[0] == p);
        assert(q.drop_first() =~= Seq::<Seq<u8>>::empty());
        assert(offsets_model(fs, pos) == Seq::<(int, int)>::empty());
        assert(frames_size(fs) == 0);
        assert(offsets_model(q.drop_first(), pos + 4 + q[0].len()) == Seq::<(int, int)>::empty());
        assert(offsets_model(q, pos) == seq![(pos + 4, q[0].len() as int)] + offsets_model(
            q.drop_first(),
            pos + 4 + q[0].len(),
        ));
        assert(offsets_model(q, pos) =~= offsets_model(fs, pos).push(
            (pos + frames_size(fs) + 4, p.len() as int),
        ));
    } else {
        assert(q[0] == fs[0]);
        assert(q.drop_first() =~= fs.drop_first().push(p));
        lemma_offsets_model_snoc(fs.drop_first(), p, pos + 4 + fs[0].len());
        lemma_frames_size_head(fs);
        assert(offsets_model(q, pos) =~= offsets_model(fs, pos).push(
            (pos + frames_size(fs) + 4, p.len() as int),
        ));
    }
}

/// The binary forms of a list of entries.
pub open spec fn encs_of(v: Seq<WalMsg>) -> Seq<Seq<u8>> {
    v.map_values(|m: WalMsg| m.spec_enc())
}

/// Decode every frame of a segment's bytes in file order, as the
/// recovery scan does. Fails with `CorruptLog` when a frame declares
/// more bytes than remain or holds a malformed entry.
pub fn decode_wal_msgs(bytes: &Vec<u8>) -> (r: Result<Vec<WalMsg>, WalError>)
    ensures
        match r {
            Ok(v) => {
                &&& scan_frames(bytes@) is Some
                &&& frames_all_ok(scan_frames(bytes@).unwrap())
                &&& msgs_match_frames(v@, scan_frames(bytes@).unwrap())
            },
            Err(e) => {
                &&& e == WalError::CorruptLog
                &&& (scan_frames(bytes@) is None || !frames_all_ok(scan_frames(bytes@).unwrap()))
            },
        },
{
    proof {
        vstd::std_specs::vec::axiom_spec_len(bytes);
    }
    let n = bytes.len();
    let mut v: Vec<WalMsg> = Vec::new();
    let mut pos: usize = 0;
    let ghost mut fs_done: Seq<Seq<u8>> = Seq::empty();
    proof {
        assert(bytes@.skip(0) =~= bytes@);
        assert(fs_done + scan_frames(bytes@).unwrap() =~= scan_frames(bytes@).unwrap());
    }
    while n - pos > 4
        invariant
            pos <= n,
            n == bytes@.len(),
            n <= usize::MAX,
            frames_all_ok(fs_done),
            msgs_match_frames(v@, fs_done),
            match scan_frames(bytes@.skip(pos as int)) {
                Some(rest) => scan_frames(bytes@) == Some(fs_done + rest),
                None => scan_frames(bytes@) is None,
            },
        decreases n - pos,
    {
        let ghost s = bytes@.skip(pos as int);
        proof {
            assert(s.len() == n - pos);
            assert(s[0] == bytes@[pos as int]);
            assert(s[1] == bytes@[pos as int + 1]);
            assert(s[2] == bytes@[pos as int + 2]);
            assert(s[3] == bytes@[pos as int + 3]);
        }
        let l32 = get_u32(bytes, pos);
        if (l32 as u64) > (n - pos - 4) as u64 {
            proof {
                assert(scan_frames(s) is None);
            }
            return Err(WalError::CorruptLog);
        }
        let l = l32 as usize;
        let ghost fpay = s.subrange(4, 4 + l as int);
        proof {
            assert(s.skip(4 + l as int) =~= bytes@.skip(pos + 4 + l as int));
            assert(fpay =~= bytes@.subrange(pos + 4, pos + 4 + l as int));
        }
        let payload = copy_range(bytes, pos + 4, pos + 4 + l);
        let parse_ok = if payload.len() < 2 {
            false
        } else {
            let num = get_u16(&payload, 0);
            2 + 4 * (num as usize) <= payload.len()
        };
        if !parse_ok {
            proof {
                assert(!msg_parse_ok(fpay));
                if scan_frames(bytes@.skip(pos + 4 + l as int)) is Some {
                    let rest2 = scan_frames(bytes@.skip(pos + 4 + l as int)).unwrap();
                    assert(scan_frames(s) == Some(seq![fpay] + rest2));
                    let full = fs_done + (seq![fpay] + rest2);
                    assert(scan_frames(bytes@) == Some(full));
                    assert(full[fs_done.len() as int] == fpay);
                    assert(!frames_all_ok(full));
                } else {
                    assert(scan_frames(s) is None);
                }
            }
            return Err(WalError::CorruptLog);
        }
        let msg = WalMsg::decode(&payload);
        v.push(msg);
        proof {
            lemma_msg_enc_of_parse(fpay);
            assert(msg.spec_enc() == fpay);
            let old_done = fs_done;
            fs_done = fs_done.push(fpay);
            assert(msgs_match_frames(v@, fs_done));
            if scan_frames(bytes@.skip(pos + 4 + l as int)) is Some {
                let rest2 = scan_frames(bytes@.skip(pos + 4 + l as int)).unwrap();
                assert(scan_frames(s) == Some(seq![fpay] + rest2));
                assert(old_done + (seq![fpay] + rest2) =~= fs_done + rest2);
            } else {
                assert(scan_frames(s) is None);
            }
        }
        pos = pos + 4 + l;
    }
    proof {
        assert(bytes@.skip(pos as int).len() <= 4);
        assert(scan_frames(bytes@.skip(pos as int)) == Some(Seq::<Seq<u8>>::empty()));
        assert(fs_done + Seq::<Seq<u8>>::empty() =~= fs_done);
    }
    Ok(v)
}

/// Rebuild the offset index from the entries recovered by the scan:
/// each entry's payload starts four bytes past its frame, and frames
/// stand back to back from the start of the file.
pub fn walmsgs_to_offsets(walmsgs: &Vec<WalMsg>) -> (r: Vec<Offset>)
    requires
        forall|i: int| 0 <= i < walmsgs@.len() ==> (#[trigger] walmsgs@[i]).wf(),
        frames_size(encs_of(walmsgs@)) <= usize::MAX,
    ensures
        offs_match(r@, offsets_model(encs_of(walmsgs@), 0)),
{
    proof {
        vstd::std_specs::vec::axiom_spec_len(walmsgs);
    }
    let ghost fs = encs_of(walmsgs@);
    let mut offsets: Vec<Offset> = Vec::new();
    let mut offset: usize = 0;
    let mut i: usize = 0;
    proof {
        assert(fs.take(0) =~= Seq::<Seq<u8>>::empty());
        assert(offsets_model(fs.take(0), 0) =~= Seq::<(int, int)>::empty());
    }
    while i < walmsgs.len()
        invariant
            i <= walmsgs@.len(),
            fs == encs_of(walmsgs@),
            fs.len() == walmsgs@.len(),
            forall|k: int| 0 <= k < walmsgs@.len() ==> (#[trigger] walmsgs@[k]).wf(),
            forall|k: int|
                0 <= k < walmsgs@.len() ==> (#[trigger] fs[k]) == walmsgs@[k].spec_enc(),
            frames_size(fs) <= usize::MAX,
            offset == frames_size(fs.take(i as int)),
            offs_match(offsets@, offsets_model(fs.take(i as int), 0)),
        decreases walmsgs@.len() - i,
    {
        proof {
            lemma_frames_size_take_step(fs, i as int);
            lemma_frames_size_take_mono(fs, i + 1, fs.len() as int);
            assert(fs.take(fs.len() as int) =~= fs);
            lemma_be32_concat_len(walmsgs@[i as int].indexs@);
            vstd::std_specs::vec::axiom_spec_len(&walmsgs@[i as int].indexs);
            vstd::std_specs::vec::axiom_spec_len(&walmsgs@[i as int].bytes);
        }
        let wal_msg_len = walmsgs[i].encode_len();
        let off = Offset { offset: offset + 4, len: wal_msg_len };
        let ghost prev = offsets@;
        offsets.push(off);
        proof {
            lemma_offsets_model_snoc(fs.take(i as int), fs[i as int], 0);
            assert(fs.take(i as int).push(fs[i as int]) =~= fs.take(i + 1));
            assert(offsets_model(fs.take(i + 1), 0) == offsets_model(fs.take(i as int), 0).push(
                (frames_size(fs.take(i as int)) + 4, fs[i as int].len() as int),
            ));
        }
        offset = offset + 4 + wal_msg_len;
        i = i + 1;
    }
    proof {
        assert(fs.take(fs.len() as int) =~= fs);
    }
    offsets
}


} // verus!
