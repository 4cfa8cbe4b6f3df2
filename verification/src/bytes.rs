//! Little-endian byte encodings of unsigned integers, as they appear in
//! RIFF/WAVE headers.
use vstd::prelude::*;

verus! {

/// The two little-endian bytes of `x` (taken modulo 2^16).
pub open spec fn le16(x: int) -> Seq<u8> {
    seq![(x % 256) as u8, ((x / 256) % 256) as u8]
}

/// The four little-endian bytes of `x` (taken modulo 2^32).
pub open spec fn le32(x: int) -> Seq<u8> {
    seq![
        (x % 256) as u8,
        ((x / 256) % 256) as u8,
        ((x / 65536) % 256) as u8,
        ((x / 16777216) % 256) as u8,
    ]
}

/// The number that four little-endian bytes stand for.
pub open spec fn from_le32(s: Seq<u8>) -> int {
    s[0] + 256 * s[1] + 65536 * s[2] + 16777216 * s[3]
}

/// The number that two little-endian bytes stand for.
pub open spec fn from_le16(s: Seq<u8>) -> int {
    s[0] + 256 * s[1]
}

/// Reading back the four bytes of a 32-bit value gives the value.
pub proof fn lemma_le32_roundtrip(x: int)
    requires
        0 <= x < 0x1_0000_0000,
    ensures
        le32(x).len() == 4,
        from_le32(le32(x)) == x,
{
    let b0 = x % 256;
    let q0 = x / 256;
    let b1 = q0 % 256;
    let q1 = q0 / 256;
    let b2 = q1 % 256;
    let q2 = q1 / 256;
    let b3 = q2 % 256;
    assert(x == 256 * q0 + b0 && 0 <= b0 < 256) by (nonlinear_arith)
        requires b0 == x % 256, q0 == x / 256, x >= 0;
    assert(q0 == 256 * q1 + b1 && 0 <= b1 < 256 && q0 >= 0) by (nonlinear_arith)
        requires b1 == q0 % 256, q1 == q0 / 256, q0 == x / 256, x >= 0;
    assert(q1 == 256 * q2 + b2 && 0 <= b2 < 256 && q1 >= 0) by (nonlinear_arith)
        requires b2 == q1 % 256, q2 == q1 / 256, q1 == q0 / 256, q0 >= 0;
    assert(q2 < 256 && q2 >= 0) by (nonlinear_arith)
        requires x == 256 * q0 + b0, q0 == 256 * q1 + b1, q1 == 256 * q2 + b2, 0 <= b0 < 256,
            0 <= b1 < 256, 0 <= b2 < 256, 0 <= x < 0x1_0000_0000, q1 >= 0, q0 >= 0;
    assert(b3 == q2) by (nonlinear_arith)
        requires b3 == q2 % 256, 0 <= q2 < 256;
    assert(q1 / 256 == q2);
    assert(x / 65536 == q1) by (nonlinear_arith)
        requires x == 256 * q0 + b0, q0 == 256 * q1 + b1, 0 <= b0 < 256, 0 <= b1 < 256, q1 >= 0;
    assert(x / 16777216 == q2) by (nonlinear_arith)
        requires x == 256 * q0 + b0, q0 == 256 * q1 + b1, q1 == 256 * q2 + b2, 0 <= b0 < 256,
            0 <= b1 < 256, 0 <= b2 < 256, q2 >= 0;
    assert(x == b0 + 256 * b1 + 65536 * b2 + 16777216 * b3) by (nonlinear_arith)
        requires x == 256 * q0 + b0, q0 == 256 * q1 + b1, q1 == 256 * q2 + b2, b3 == q2;
}

/// Reading back the two bytes of a 16-bit value gives the value.
pub proof fn lemma_le16_roundtrip(x: int)
    requires
        0 <= x < 0x1_0000,
    ensures
        le16(x).len() == 2,
        from_le16(le16(x)) == x,
{
    let b0 = x % 256;
    let q0 = x / 256;
    assert(x == 256 * q0 + b0 && 0 <= b0 < 256 && 0 <= q0 < 256) by (nonlinear_arith)
        requires b0 == x % 256, q0 == x / 256, 0 <= x < 0x1_0000;
    assert(q0 % 256 == q0);
}

/// Appends the four little-endian bytes of `x` to `buf`.
pub fn push_le32(buf: &mut Vec<u8>, x: u32)
    ensures
        final(buf)@ == old(buf)@ + le32(x as int),
{
    let b0 = (x % 256) as u8;
    let b1 = ((x / 256) % 256) as u8;
    let b2 = ((x / 65536) % 256) as u8;
    let b3 = ((x / 16777216) % 256) as u8;
    buf.push(b0);
    buf.push(b1);
    buf.push(b2);
    buf.push(b3);
    assert(final(buf)@ =~= old(buf)@ + le32(x as int));
}

/// Appends the two little-endian bytes of `x` to `buf`.
pub fn push_le16(buf: &mut Vec<u8>, x: u16)
    ensures
        final(buf)@ == old(buf)@ + le16(x as int),
{
    let b0 = (x % 256) as u8;
    let b1 = ((x / 256) % 256) as u8;
    buf.push(b0);
    buf.push(b1);
    assert(final(buf)@ =~= old(buf)@ + le16(x as int));
}

/// Overwrites the four bytes at `pos` with the little-endian bytes of `x`.
pub fn write_le32_at(buf: &mut Vec<u8>, pos: usize, x: u32)
    requires
        pos + 4 <= old(buf).len(),
    ensures
        final(buf)@ == old(buf)@.subrange(0, pos as int) + le32(x as int) + old(buf)@.subrange(
            pos + 4,
            old(buf)@.len() as int,
        ),
{
    buf.set(pos, (x % 256) as u8);
    assert(buf@.len() == old(buf)@.len());
    buf.set(pos + 1, ((x / 256) % 256) as u8);
    assert(buf@.len() == old(buf)@.len());
    buf.set(pos + 2, ((x / 65536) % 256) as u8);
    assert(buf@.len() == old(buf)@.len());
    buf.set(pos + 3, ((x / 16777216) % 256) as u8);
    assert(final(buf)@ =~= old(buf)@.subrange(0, pos as int) + le32(x as int) + old(buf)@.subrange(
        pos + 4,
        old(buf)@.len() as int,
    ));
}

} // verus!
