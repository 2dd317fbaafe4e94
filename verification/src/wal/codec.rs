//! Big-endian integer framing primitives: the byte-level vocabulary in
//! which every segment frame and every length table is written.

use vstd::prelude::*;

verus! {

/// Big-endian bytes of a `u16`.
pub open spec fn be16(n: u16) -> Seq<u8> {
    seq![((n >> 8) & 0xff) as u8, (n & 0xff) as u8]
}

/// Big-endian bytes of a `u32`.
pub open spec fn be32(n: u32) -> Seq<u8> {
    seq![
        ((n >> 24) & 0xff) as u8,
        ((n >> 16) & 0xff) as u8,
        ((n >> 8) & 0xff) as u8,
        (n & 0xff) as u8,
    ]
}

/// Big-endian bytes of a `u64`.
pub open spec fn be64(n: u64) -> Seq<u8> {
    seq![
        ((n >> 56) & 0xff) as u8,
        ((n >> 48) & 0xff) as u8,
        ((n >> 40) & 0xff) as u8,
        ((n >> 32) & 0xff) as u8,
        ((n >> 24) & 0xff) as u8,
        ((n >> 16) & 0xff) as u8,
        ((n >> 8) & 0xff) as u8,
        (n & 0xff) as u8,
    ]
}

/// The `u16` whose big-endian bytes are `b0 b1`.
pub open spec fn u16_of(b0: u8, b1: u8) -> u16 {
    ((b0 as u16) << 8) | (b1 as u16)
}

/// The `u32` whose big-endian bytes are `b0 b1 b2 b3`.
pub open spec fn u32_of(b0: u8, b1: u8, b2: u8, b3: u8) -> u32 {
    ((b0 as u32) << 24) | ((b1 as u32) << 16) | ((b2 as u32) << 8) | (b3 as u32)
}

/// The `u64` whose big-endian bytes are `b0 .. b7`.
pub open spec fn u64_of(b0: u8, b1: u8, b2: u8, b3: u8, b4: u8, b5: u8, b6: u8, b7: u8) -> u64 {
    ((b0 as u64) << 56) | ((b1 as u64) << 48) | ((b2 as u64) << 40) | ((b3 as u64) << 32)
        | ((b4 as u64) << 24) | ((b5 as u64) << 16) | ((b6 as u64) << 8) | (b7 as u64)
}

/// Reading back the two bytes of `be16(n)` yields `n` again.
pub proof fn lemma_u16_round(n: u16)
    ensures
        u16_of(((n >> 8) & 0xff) as u8, (n & 0xff) as u8) == n,
{
    assert(((((((n >> 8) & 0xff) as u8) as u16) << 8) | (((n & 0xff) as u8) as u16)) == n)
        by (bit_vector);
}

/// Reading back the four bytes of `be32(n)` yields `n` again.
pub proof fn lemma_u32_round(n: u32)
    ensures
        u32_of(
            ((n >> 24) & 0xff) as u8,
            ((n >> 16) & 0xff) as u8,
            ((n >> 8) & 0xff) as u8,
            (n & 0xff) as u8,
        ) == n,
{
    assert((((((n >> 24) & 0xff) as u8) as u32) << 24) | (((((n >> 16) & 0xff) as u8) as u32)
        << 16) | (((((n >> 8) & 0xff) as u8) as u32) << 8) | ((((n & 0xff) as u8) as u32))
        == n) by (bit_vector);
}

/// Reading back the eight bytes of `be64(n)` yields `n` again.
pub proof fn lemma_u64_round(n: u64)
    ensures
        u64_of(
            ((n >> 56) & 0xff) as u8,
            ((n >> 48) & 0xff) as u8,
            ((n >> 40) & 0xff) as u8,
            ((n >> 32) & 0xff) as u8,
            ((n >> 24) & 0xff) as u8,
            ((n >> 16) & 0xff) as u8,
            ((n >> 8) & 0xff) as u8,
            (n & 0xff) as u8,
        ) == n,
{
    assert((((((n >> 56) & 0xff) as u8) as u64) << 56) | (((((n >> 48) & 0xff) as u8) as u64)
        << 48) | (((((n >> 40) & 0xff) as u8) as u64) << 40) | (((((n >> 32) & 0xff) as u8)
        as u64) << 32) | (((((n >> 24) & 0xff) as u8) as u64) << 24) | (((((n >> 16) & 0xff)
        as u8) as u64) << 16) | (((((n >> 8) & 0xff) as u8) as u64) << 8) | ((((n & 0xff) as u8)
        as u64)) == n) by (bit_vector);
}

/// The two bytes written by `be16` are read back unchanged: encoding
/// the `u16` they denote reproduces them.
pub proof fn lemma_u16_inv(b0: u8, b1: u8)
    ensures
        be16(u16_of(b0, b1)) =~= seq![b0, b1],
{
    let n = u16_of(b0, b1);
    assert(((n >> 8) & 0xff) as u8 == b0 && (n & 0xff) as u8 == b1) by (bit_vector)
        requires
            n == ((b0 as u16) << 8) | (b1 as u16),
    ;
}

/// The four bytes written by `be32` are read back unchanged.
pub proof fn lemma_u32_inv(b0: u8, b1: u8, b2: u8, b3: u8)
    ensures
        be32(u32_of(b0, b1, b2, b3)) =~= seq![b0, b1, b2, b3],
{
    let n = u32_of(b0, b1, b2, b3);
    assert(((n >> 24) & 0xff) as u8 == b0 && ((n >> 16) & 0xff) as u8 == b1 && ((n >> 8) & 0xff)
        as u8 == b2 && (n & 0xff) as u8 == b3) by (bit_vector)
        requires
            n == ((b0 as u32) << 24) | ((b1 as u32) << 16) | ((b2 as u32) << 8) | (b3 as u32),
    ;
}

/// The eight bytes written by `be64` are read back unchanged.
pub proof fn lemma_u64_inv(b0: u8, b1: u8, b2: u8, b3: u8, b4: u8, b5: u8, b6: u8, b7: u8)
    ensures
        be64(u64_of(b0, b1, b2, b3, b4, b5, b6, b7)) =~= seq![b0, b1, b2, b3, b4, b5, b6, b7],
{
    let n = u64_of(b0, b1, b2, b3, b4, b5, b6, b7);
    assert(((n >> 56) & 0xff) as u8 == b0 && ((n >> 48) & 0xff) as u8 == b1 && ((n >> 40) & 0xff)
        as u8 == b2 && ((n >> 32) & 0xff) as u8 == b3 && ((n >> 24) & 0xff) as u8 == b4 && ((n
        >> 16) & 0xff) as u8 == b5 && ((n >> 8) & 0xff) as u8 == b6 && (n & 0xff) as u8 == b7)
        by (bit_vector)
        requires
            n == ((b0 as u64) << 56) | ((b1 as u64) << 48) | ((b2 as u64) << 40) | ((b3 as u64)
                << 32) | ((b4 as u64) << 24) | ((b5 as u64) << 16) | ((b6 as u64) << 8) | (b7
                as u64),
    ;
}

/// Append the big-endian bytes of `n` to `buf`.
pub fn put_u16(buf: &mut Vec<u8>, n: u16)
    ensures
        final(buf)@ == old(buf)@ + be16(n),
{
    buf.push(((n >> 8) & 0xff) as u8);
    buf.push((n & 0xff) as u8);
    assert(buf@ =~= old(buf)@ + be16(n));
}

/// Append the big-endian bytes of `n` to `buf`.
pub fn put_u32(buf: &mut Vec<u8>, n: u32)
    ensures
        final(buf)@ == old(buf)@ + be32(n),
{
    buf.push(((n >> 24) & 0xff) as u8);
    buf.push(((n >> 16) & 0xff) as u8);
    buf.push(((n >> 8) & 0xff) as u8);
    buf.push((n & 0xff) as u8);
    assert(buf@ =~= old(buf)@ + be32(n));
}

/// Append the big-endian bytes of `n` to `buf`.
pub fn put_u64(buf: &mut Vec<u8>, n: u64)
    ensures
        final(buf)@ == old(buf)@ + be64(n),
{
    buf.push(((n >> 56) & 0xff) as u8);
    buf.push(((n >> 48) & 0xff) as u8);
    buf.push(((n >> 40) & 0xff) as u8);
    buf.push(((n >> 32) & 0xff) as u8);
    buf.push(((n >> 24) & 0xff) as u8);
    buf.push(((n >> 16) & 0xff) as u8);
    buf.push(((n >> 8) & 0xff) as u8);
    buf.push((n & 0xff) as u8);
    assert(buf@ =~= old(buf)@ + be64(n));
}

/// Read the big-endian `u16` stored at position `i` of `buf`.
pub fn get_u16(buf: &Vec<u8>, i: usize) -> (n: u16)
    requires
        i + 2 <= buf@.len(),
    ensures
        n == u16_of(buf@[i as int], buf@[i + 1]),
{
    proof {
        vstd::std_specs::vec::axiom_spec_len(buf);
    }
    ((buf[i] as u16) << 8) | (buf[i + 1] as u16)
}

/// Read the big-endian `u32` stored at position `i` of `buf`.
pub fn get_u32(buf: &Vec<u8>, i: usize) -> (n: u32)
    requires
        i + 4 <= buf@.len(),
    ensures
        n == u32_of(buf@[i as int], buf@[i + 1], buf@[i + 2], buf@[i + 3]),
{
    proof {
        vstd::std_specs::vec::axiom_spec_len(buf);
    }
    ((buf[i] as u32) << 24) | ((buf[i + 1] as u32) << 16) | ((buf[i + 2] as u32) << 8) | (buf[i
        + 3] as u32)
}

/// Read the big-endian `u64` stored at position `i` of `buf`.
pub fn get_u64(buf: &Vec<u8>, i: usize) -> (n: u64)
    requires
        i + 8 <= buf@.len(),
    ensures
        n == u64_of(
            buf@[i as int],
            buf@[i + 1],
            buf@[i + 2],
            buf@[i + 3],
            buf@[i + 4],
            buf@[i + 5],
            buf@[i + 6],
            buf@[i + 7],
        ),
{
    proof {
        vstd::std_specs::vec::axiom_spec_len(buf);
    }
    ((buf[i] as u64) << 56) | ((buf[i + 1] as u64) << 48) | ((buf[i + 2] as u64) << 40) | ((buf[i
        + 3] as u64) << 32) | ((buf[i + 4] as u64) << 24) | ((buf[i + 5] as u64) << 16) | ((buf[i
        + 6] as u64) << 8) | (buf[i + 7] as u64)
}

/// Copy the byte range `from .. to` of `src` into a fresh vector.
pub fn copy_range(src: &Vec<u8>, from: usize, to: usize) -> (r: Vec<u8>)
    requires
        from <= to <= src@.len(),
    ensures
        r@ == src@.subrange(from as int, to as int),
{
    proof {
        vstd::std_specs::vec::axiom_spec_len(src);
    }
    let mut r: Vec<u8> = Vec::new();
    let mut i: usize = from;
    while i < to
        invariant
            from <= i <= to <= src@.len(),
            src@.len() <= usize::MAX,
            r@ == src@.subrange(from as int, i as int),
        decreases to - i,
    {
        r.push(src[i]);
        assert(r@ =~= src@.subrange(from as int, i + 1));
        i = i + 1;
    }
    r
}

/// Append the byte range `from .. to` of `src` at the end of `dst`.
pub fn push_range(dst: &mut Vec<u8>, src: &Vec<u8>, from: usize, to: usize)
    requires
        from <= to <= src@.len(),
    ensures
        final(dst)@ == old(dst)@ + src@.subrange(from as int, to as int),
{
    proof {
        vstd::std_specs::vec::axiom_spec_len(src);
    }
    let mut i: usize = from;
    while i < to
        invariant
            from <= i <= to <= src@.len(),
            src@.len() <= usize::MAX,
            dst@ == old(dst)@ + src@.subrange(from as int, i as int),
        decreases to - i,
    {
        dst.push(src[i]);
        assert(dst@ =~= old(dst)@ + src@.subrange(from as int, i + 1));
        i = i + 1;
    }
}

/// The big-endian bytes of every `u32` in `s`, in order.
pub open spec fn be32_concat(s: Seq<u32>) -> Seq<u8>
    decreases s.len(),
{
    if s.len() == 0 {
        Seq::empty()
    } else {
        be32(s[0]) + be32_concat(s.drop_first())
    }
}

pub proof fn lemma_be32_concat_len(s: Seq<u32>)
    ensures
        be32_concat(s).len() == 4 * s.len(),
    decreases s.len(),
{
    if s.len() > 0 {
        lemma_be32_concat_len(s.drop_first());
    }
}

pub proof fn lemma_be32_concat_push(s: Seq<u32>, x: u32)
    ensures
        be32_concat(s.push(x)) == be32_concat(s) + be32(x),
    decreases s.len(),
{
    let p = s.push(x);
    assert(p.len() == s.len() + 1);
    assert(be32_concat(p) == be32(p[0]) + be32_concat(p.drop_first()));
    if s.len() == 0 {
        assert(p[0] == x);
        assert(p.drop_first() =~= Seq::<u32>::empty());
        assert(be32_concat(p.drop_first()) == Seq::<u8>::empty());
        assert(be32_concat(s) == Seq::<u8>::empty());
        assert(be32_concat(p) =~= be32_concat(s) + be32(x));
    } else {
        assert(p[0] == s[0]);
        assert(p.drop_first() =~= s.drop_first().push(x));
        lemma_be32_concat_push(s.drop_first(), x);
        assert(be32_concat(s) == be32(s[0]) + be32_concat(s.drop_first()));
        assert(be32_concat(p) =~= be32_concat(s) + be32(x));
    }
}

} // verus!
