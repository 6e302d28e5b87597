//! Small verified helpers on byte buffers.

use vstd::prelude::*;

verus! {

/// Copies `v[start..end]` into a fresh vector.
pub fn copy_range(v: &[u8], start: usize, end: usize) -> (r: Vec<u8>)
    requires
        start <= end <= v@.len(),
    ensures
        r@ == v@.subrange(start as int, end as int),
{
    let mut r: Vec<u8> = Vec::with_capacity(end - start);
    let mut i: usize = start;
    while i < end
        invariant
            start <= i <= end <= v@.len(),
            r@ == v@.subrange(start as int, i as int),
        decreases end - i,
    {
        r.push(v[i]);
        i = i + 1;
        assert(r@ =~= v@.subrange(start as int, i as int));
    }
    r
}

/// Appends all bytes of `v` to `out`.
pub fn append_bytes(out: &mut Vec<u8>, v: &[u8])
    ensures
        final(out)@ == old(out)@ + v@,
{
    let mut i: usize = 0;
    let ghost start = out@;
    while i < v.len()
        invariant
            i <= v@.len(),
            out@ == start + v@.subrange(0, i as int),
        decreases v@.len() - i,
    {
        out.push(v[i]);
        i = i + 1;
        assert(out@ =~= start + v@.subrange(0, i as int));
    }
    assert(v@.subrange(0, v@.len() as int) =~= v@);
}


/// The little-endian bytes of a 16-bit value.
pub open spec fn le16(x: u16) -> Seq<u8> {
    seq![(x % 256) as u8, (x / 256) as u8]
}

/// The little-endian bytes of a 32-bit value.
pub open spec fn le32(x: u32) -> Seq<u8> {
    seq![(x % 256) as u8, ((x / 256) % 256) as u8, ((x / 65536) % 256) as u8, (x / 16777216) as u8]
}

/// The little-endian bytes of a 64-bit value: its low and then its high
/// 32-bit half.
pub open spec fn le64(x: u64) -> Seq<u8> {
    le32((x % 0x1_0000_0000) as u32) + le32((x / 0x1_0000_0000) as u32)
}

/// The 16-bit value of two little-endian bytes.
pub open spec fn from_le16(b0: u8, b1: u8) -> u16 {
    (b0 + 256 * b1) as u16
}

/// The 32-bit value of four little-endian bytes.
pub open spec fn from_le32(b0: u8, b1: u8, b2: u8, b3: u8) -> u32 {
    (b0 + 256 * b1 + 65536 * b2 + 16777216 * b3) as u32
}

/// Decoding the little-endian bytes of a 16-bit value gives it back.
pub proof fn lemma_le16_decode(x: u16)
    ensures
        from_le16(le16(x)[0], le16(x)[1]) == x,
{
    assert(x == (x % 256) + 256 * (x / 256)) by (bit_vector);
}

/// Decoding the little-endian bytes of a 32-bit value gives it back.
pub proof fn lemma_le32_decode(y: u32)
    ensures
        from_le32(le32(y)[0], le32(y)[1], le32(y)[2], le32(y)[3]) == y,
{
    assert(y == (y % 256) + 256 * ((y / 256) % 256) + 65536 * ((y / 65536) % 256) + 16777216 * (y / 16777216))
        by (bit_vector);
}

/// Encoding the value of two little-endian bytes gives them back.
pub proof fn lemma_le16_encode(b0: u8, b1: u8)
    ensures
        le16(from_le16(b0, b1)) == seq![b0, b1],
{
    let v: int = b0 + 256 * b1;
    assert(v % 256 == b0 && v / 256 == b1) by (nonlinear_arith)
        requires
            v == b0 + 256 * b1,
            0 <= b0 < 256,
            0 <= b1 < 256,
    ;
    assert(le16(from_le16(b0, b1)) =~= seq![b0, b1]);
}

/// Encoding the value of four little-endian bytes gives them back.
pub proof fn lemma_le32_encode(b0: u8, b1: u8, b2: u8, b3: u8)
    ensures
        le32(from_le32(b0, b1, b2, b3)) == seq![b0, b1, b2, b3],
{
    let v: int = b0 + 256 * b1 + 65536 * b2 + 16777216 * b3;
    assert(v % 256 == b0 && (v / 256) % 256 == b1 && (v / 65536) % 256 == b2 && v / 16777216 == b3)
        by (nonlinear_arith)
        requires
            v == b0 + 256 * b1 + 65536 * b2 + 16777216 * b3,
            0 <= b0 < 256,
            0 <= b1 < 256,
            0 <= b2 < 256,
            0 <= b3 < 256,
    ;
    assert(le32(from_le32(b0, b1, b2, b3)) =~= seq![b0, b1, b2, b3]);
}

/// Appends the little-endian bytes of a 16-bit value.
pub fn push_le16(out: &mut Vec<u8>, x: u16)
    ensures
        final(out)@ == old(out)@ + le16(x),
{
    out.push((x % 256) as u8);
    out.push((x / 256) as u8);
    assert(out@ =~= old(out)@ + le16(x));
}

/// Appends the little-endian bytes of a 32-bit value.
pub fn push_le32(out: &mut Vec<u8>, x: u32)
    ensures
        final(out)@ == old(out)@ + le32(x),
{
    out.push((x % 256) as u8);
    out.push(((x / 256) % 256) as u8);
    out.push(((x / 65536) % 256) as u8);
    out.push((x / 16777216) as u8);
    assert(out@ =~= old(out)@ + le32(x));
}

/// Appends the little-endian bytes of a 64-bit value.
pub fn push_le64(out: &mut Vec<u8>, x: u64)
    ensures
        final(out)@ == old(out)@ + le64(x),
{
    push_le32(out, (x % 0x1_0000_0000) as u32);
    push_le32(out, (x / 0x1_0000_0000) as u32);
    assert(out@ =~= old(out)@ + le64(x));
}

/// Reads a little-endian 16-bit value at `i`.
pub fn read_le16(v: &[u8], i: usize) -> (r: u16)
    requires
        i + 2 <= v@.len(),
    ensures
        r == from_le16(v@[i as int], v@[i + 1]),
{
    (v[i] as u16) + 256 * (v[i + 1] as u16)
}

/// Reads a little-endian 32-bit value at `i`.
pub fn read_le32(v: &[u8], i: usize) -> (r: u32)
    requires
        i + 4 <= v@.len(),
    ensures
        r == from_le32(v@[i as int], v@[i + 1], v@[i + 2], v@[i + 3]),
{
    (v[i] as u32) + 256 * (v[i + 1] as u32) + 65536 * (v[i + 2] as u32) + 16777216 * (v[i + 3] as u32)
}

} // verus!
