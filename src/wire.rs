//! Big-endian integers as they appear on the wire.
use vstd::prelude::*;

verus! {

/// Two bytes, most significant first.
pub open spec fn be16(x: u16) -> Seq<u8> {
    seq![(x >> 8u16) as u8, (x & 0xffu16) as u8]
}

/// Four bytes, most significant first.
pub open spec fn be32(x: u32) -> Seq<u8> {
    seq![(x >> 24u32) as u8, ((x >> 16u32) & 0xffu32) as u8, ((x >> 8u32) & 0xffu32) as u8, (x & 0xffu32) as u8]
}

/// The integer held by the first two bytes of `b`.
pub open spec fn read_be16(b: Seq<u8>) -> u16 {
    ((b[0] as u16) << 8u16) | (b[1] as u16)
}

/// The integer held by the first four bytes of `b`.
pub open spec fn read_be32(b: Seq<u8>) -> u32 {
    ((b[0] as u32) << 24u32) | ((b[1] as u32) << 16u32) | ((b[2] as u32) << 8u32) | (b[3] as u32)
}

pub proof fn lemma_be16_roundtrip(x: u16)
    ensures
        be16(x).len() == 2,
        read_be16(be16(x)) == x,
{
    let b = be16(x);
    let hi = (x >> 8u16) as u8;
    let lo = (x & 0xffu16) as u8;
    assert(b[0] == hi && b[1] == lo);
    assert((((hi as u16) << 8u16) | (lo as u16)) == x) by (bit_vector)
        requires
            hi == (x >> 8u16) as u8,
            lo == (x & 0xffu16) as u8,
    ;
}

pub proof fn lemma_be32_roundtrip(x: u32)
    ensures
        be32(x).len() == 4,
        read_be32(be32(x)) == x,
{
    let b = be32(x);
    let b0 = (x >> 24u32) as u8;
    let b1 = ((x >> 16u32) & 0xffu32) as u8;
    let b2 = ((x >> 8u32) & 0xffu32) as u8;
    let b3 = (x & 0xffu32) as u8;
    assert(b[0] == b0 && b[1] == b1 && b[2] == b2 && b[3] == b3);
    assert(((b0 as u32) << 24u32) | ((b1 as u32) << 16u32) | ((b2 as u32) << 8u32) | (b3 as u32)
        == x) by (bit_vector)
        requires
            b0 == (x >> 24u32) as u8,
            b1 == ((x >> 16u32) & 0xffu32) as u8,
            b2 == ((x >> 8u32) & 0xffu32) as u8,
            b3 == (x & 0xffu32) as u8,
    ;
}

/// Reading depends on the leading bytes only.
pub proof fn lemma_read_prefix(a: Seq<u8>, b: Seq<u8>)
    requires
        a.len() >= 4,
    ensures
        read_be32(a + b) == read_be32(a),
        read_be16(a + b) == read_be16(a),
{
    assert((a + b)[0] == a[0] && (a + b)[1] == a[1] && (a + b)[2] == a[2] && (a + b)[3] == a[3]);
}

/// A 16-bit read depends on the first two bytes only.
pub proof fn lemma_read16_prefix(a: Seq<u8>, b: Seq<u8>)
    requires
        a.len() >= 2,
    ensures
        read_be16(a + b) == read_be16(a),
{
    assert((a + b)[0] == a[0] && (a + b)[1] == a[1]);
}

pub proof fn lemma_i16_cast(x: i16)
    ensures
        ((x as u16) as i16) == x,
{
    assert(((x as u16) as i16) == x) by (bit_vector);
}

pub proof fn lemma_i32_cast(x: i32)
    ensures
        ((x as u32) as i32) == x,
{
    assert(((x as u32) as i32) == x) by (bit_vector);
}

pub fn push_be16(out: &mut Vec<u8>, x: u16)
    ensures
        final(out)@ == old(out)@ + be16(x),
{
    out.push((x >> 8u16) as u8);
    out.push((x & 0xffu16) as u8);
    assert(final(out)@ =~= old(out)@ + be16(x));
}

pub fn push_be32(out: &mut Vec<u8>, x: u32)
    ensures
        final(out)@ == old(out)@ + be32(x),
{
    out.push((x >> 24u32) as u8);
    out.push(((x >> 16u32) & 0xffu32) as u8);
    out.push(((x >> 8u32) & 0xffu32) as u8);
    out.push((x & 0xffu32) as u8);
    assert(final(out)@ =~= old(out)@ + be32(x));
}

pub fn get_be16(b: &[u8], pos: usize) -> (r: u16)
    requires
        pos + 2 <= b@.len(),
    ensures
        forall|e: int|
            pos + 2 <= e <= b@.len() ==> r == #[trigger] read_be16(b@.subrange(pos as int, e)),
{
    ((b[pos] as u16) << 8u16) | (b[pos + 1] as u16)
}

pub fn get_be32(b: &[u8], pos: usize) -> (r: u32)
    requires
        pos + 4 <= b@.len(),
    ensures
        forall|e: int|
            pos + 4 <= e <= b@.len() ==> r == #[trigger] read_be32(b@.subrange(pos as int, e)),
{
    ((b[pos] as u32) << 24u32) | ((b[pos + 1] as u32) << 16u32) | ((b[pos + 2] as u32) << 8u32) | (
    b[pos + 3] as u32)
}

/// Appends `src` to `out`.
pub fn push_all(out: &mut Vec<u8>, src: &[u8])
    ensures
        final(out)@ == old(out)@ + src@,
{
    let mut i: usize = 0;
    while i < src.len()
        invariant
            i <= src@.len(),
            out@ == old(out)@ + src@.subrange(0, i as int),
        decreases src@.len() - i,
    {
        out.push(src[i]);
        i = i + 1;
        assert(out@ =~= old(out)@ + src@.subrange(0, i as int));
    }
    assert(src@.subrange(0, src@.len() as int) =~= src@);
}

/// The bytes of `b` from `start` up to `end`.
pub fn copy_range(b: &[u8], start: usize, end: usize) -> (r: Vec<u8>)
    requires
        start <= end <= b@.len(),
    ensures
        r@ == b@.subrange(start as int, end as int),
{
    let mut r: Vec<u8> = Vec::new();
    let mut i: usize = start;
    while i < end
        invariant
            start <= i <= end <= b@.len(),
            r@ == b@.subrange(start as int, i as int),
        decreases end - i,
    {
        r.push(b[i]);
        i = i + 1;
        assert(r@ =~= b@.subrange(start as int, i as int));
    }
    r
}

/// The integer held by the first eight bytes of `b`.
pub open spec fn read_be64(b: Seq<u8>) -> u64 {
    ((read_be32(b) as u64) << 32u64) | (read_be32(b.subrange(4, b.len() as int)) as u64)
}

pub fn get_be64(b: &[u8], pos: usize) -> (r: u64)
    requires
        pos + 8 <= b@.len(),
    ensures
        r == read_be64(b@.subrange(pos as int, b@.len() as int)),
{
    let n = b.len();
    assert(pos + 4 <= n);
    let hi = get_be32(b, pos);
    let lo = get_be32(b, pos + 4);
    let ghost s = b@.subrange(pos as int, b@.len() as int);
    assert(s.subrange(4, s.len() as int) =~= b@.subrange(pos + 4, b@.len() as int));
    ((hi as u64) << 32u64) | (lo as u64)
}

} // verus!
