//! The sample types a WAV write stream can take, and the bytes that stand
//! for them in a file.
use vstd::prelude::*;

use byte_slice_cast::AsByteSlice;

use super::Format;
use crate::bytes::{le16, le32};

verus! {

/// The little-endian bytes of 16-bit samples, two per sample.
pub open spec fn samples_le16(s: Seq<i16>) -> Seq<u8> {
    Seq::new((2 * s.len()) as nat, |i: int| le16(s[i / 2] as int)[i % 2])
}

/// The big-endian bytes of 16-bit samples, two per sample.
pub open spec fn samples_be16(s: Seq<i16>) -> Seq<u8> {
    Seq::new((2 * s.len()) as nat, |i: int| le16(s[i / 2] as int)[1 - i % 2])
}

/// The little-endian bytes of 32-bit samples, four per sample.
pub open spec fn samples_le32(s: Seq<i32>) -> Seq<u8> {
    Seq::new((4 * s.len()) as nat, |i: int| le32(s[i / 4] as int)[i % 4])
}

/// The big-endian bytes of 32-bit samples, four per sample.
pub open spec fn samples_be32(s: Seq<i32>) -> Seq<u8> {
    Seq::new((4 * s.len()) as nat, |i: int| le32(s[i / 4] as int)[3 - i % 4])
}

/// The three low little-endian bytes of samples held in 32 bits: 24-bit
/// samples as a WAV file stores them.
pub open spec fn samples_le24(s: Seq<i32>) -> Seq<u8> {
    Seq::new((3 * s.len()) as nat, |i: int| le32(s[i / 3] as int)[i % 3])
}

/// The first three of every four bytes.
pub open spec fn cram24(b: Seq<u8>) -> Seq<u8> {
    Seq::new((3 * (b.len() / 4)) as nat, |i: int| b[4 * (i / 3) + i % 3])
}

/// Calls `byte_slice_cast::AsByteSlice::as_byte_slice` on 16-bit samples:
/// their bytes in the byte order of the machine, which the crate's
/// documentation gives as big-endian or little-endian.
#[verifier::external_body]
fn i16_as_byte_slice(data: &[i16]) -> (r: &[u8])
    ensures
        r@ == samples_le16(data@) || r@ == samples_be16(data@),
{
    data.as_byte_slice()
}

/// Calls `byte_slice_cast::AsByteSlice::as_byte_slice` on 32-bit samples:
/// their bytes in the byte order of the machine, which the crate's
/// documentation gives as big-endian or little-endian.
#[verifier::external_body]
fn i32_as_byte_slice(data: &[i32]) -> (r: &[u8])
    ensures
        r@ == samples_le32(data@) || r@ == samples_be32(data@),
{
    data.as_byte_slice()
}

/// Keeping the first three of every four little-endian bytes of 32-bit
/// samples gives their 24-bit little-endian bytes.
pub proof fn lemma_cram24_le(s: Seq<i32>)
    ensures
        cram24(samples_le32(s)) == samples_le24(s),
{
    let b = samples_le32(s);
    assert(b.len() / 4 == s.len()) by (nonlinear_arith)
        requires b.len() == 4 * s.len();
    assert forall|i: int| 0 <= i < 3 * s.len() implies #[trigger] cram24(b)[i] == samples_le24(s)[i] by {
        let f = i / 3;
        let k = i % 3;
        assert(0 <= f < s.len() && 0 <= k < 3 && i == 3 * f + k) by (nonlinear_arith)
            requires 0 <= i < 3 * s.len(), f == i / 3, k == i % 3;
        let j = 4 * f + k;
        assert(j / 4 == f && j % 4 == k) by (nonlinear_arith)
            requires j == 4 * f + k, 0 <= k < 3, f >= 0;
        assert(0 <= j < 4 * s.len()) by (nonlinear_arith)
            requires j == 4 * f + k, 0 <= k < 3, 0 <= f < s.len();
    }
    assert(cram24(b) =~= samples_le24(s));
}

/// A sample type of WAV files: how its samples are written as bytes.
pub trait WavBitDepth: Sized {
    /// The type of a sample.
    type T: Copy + Default + Send;

    /// A converter for blocks of up to `max_block_frames` frames of
    /// `num_channels` channels.
    fn new(max_block_frames: usize, num_channels: u16) -> Self;

    /// The WAV sample format.
    fn format() -> Format;

    /// The bytes that stand for the interleaved samples `data` in a file.
    fn as_bytes<'a>(&'a mut self, data: &'a [Self::T]) -> &'a [u8];
}

/// Unsigned 8-bit samples.
pub struct Uint8 {}

impl WavBitDepth for Uint8 {
    type T = u8;

    fn new(max_block_frames: usize, num_channels: u16) -> Self {
        Uint8 {}
    }

    fn format() -> (r: Format)
        ensures
            r == Format::Uint8,
    {
        Format::Uint8
    }

    /// Each sample is its own byte.
    fn as_bytes<'a>(&'a mut self, data: &'a [u8]) -> (r: &'a [u8])
        ensures
            r@ == data@,
    {
        data
    }
}

/// Signed 16-bit samples.
pub struct Int16 {}

impl WavBitDepth for Int16 {
    type T = i16;

    fn new(max_block_frames: usize, num_channels: u16) -> Self {
        Int16 {}
    }

    fn format() -> (r: Format)
        ensures
            r == Format::Int16,
    {
        Format::Int16
    }

    /// The two bytes of each sample, in the byte order of the machine.
    fn as_bytes<'a>(&'a mut self, data: &'a [i16]) -> (r: &'a [u8])
        ensures
            r@ == samples_le16(data@) || r@ == samples_be16(data@),
    {
        i16_as_byte_slice(data)
    }
}

/// Signed 24-bit samples, each held in an `i32`.
pub struct Int24 {
    cram_buffer: Vec<u8>,
}

impl Int24 {
    /// The bytes left in the scratch buffer from the last conversion.
    pub closed spec fn spec_buffered(self) -> Seq<u8> {
        self.cram_buffer@
    }
}

impl WavBitDepth for Int24 {
    type T = i32;

    fn new(max_block_frames: usize, num_channels: u16) -> (r: Self)
        ensures
            r.spec_buffered() == Seq::<u8>::empty(),
    {
        // The capacity is only reserved where it fits.
        let cram_buffer_size = match max_block_frames.checked_mul(num_channels as usize) {
            Some(n) => match n.checked_mul(3) {
                Some(n) => n,
                None => 0,
            },
            None => 0,
        };
        Int24 { cram_buffer: Vec::with_capacity(cram_buffer_size) }
    }

    fn format() -> (r: Format)
        ensures
            r == Format::Int24,
    {
        Format::Int24
    }

    /// The three low bytes of each sample: on a little-endian machine, its
    /// 24-bit little-endian bytes.
    fn as_bytes<'a>(&'a mut self, data: &'a [i32]) -> (r: &'a [u8])
        ensures
            r@ == samples_le24(data@) || r@ == cram24(samples_be32(data@)),
    {
        self.cram_buffer.clear();
        let num_frames = data.len();
        let data_u8 = i32_as_byte_slice(data);
        let ghost b = data_u8@;
        let total = data_u8.len();
        assert(b.len() == 4 * num_frames);
        let mut f: usize = 0;
        while f < num_frames
            invariant
                f <= num_frames,
                b == data_u8@,
                b.len() == 4 * num_frames == total,
                self.cram_buffer@.len() == 3 * f,
                forall|i: int| 0 <= i < 3 * f ==> #[trigger] self.cram_buffer@[i] == b[4 * (i / 3) + i % 3],
            decreases num_frames - f,
        {
            let ghost before = self.cram_buffer@;
            self.cram_buffer.push(data_u8[f * 4]);
            self.cram_buffer.push(data_u8[f * 4 + 1]);
            self.cram_buffer.push(data_u8[f * 4 + 2]);
            proof {
                assert forall|i: int| 0 <= i < 3 * (f + 1) implies #[trigger] self.cram_buffer@[i] == b[4 * (i / 3) + i % 3] by {
                    if i >= 3 * f {
                        assert(i / 3 == f && i % 3 == i - 3 * f) by (nonlinear_arith)
                            requires 3 * f <= i < 3 * (f + 1);
                    } else {
                        assert(self.cram_buffer@[i] == before[i]);
                    }
                }
            }
            f += 1;
        }
        proof {
            assert(b.len() / 4 == num_frames);
            assert(self.cram_buffer@ =~= cram24(b));
            lemma_cram24_le(data@);
        }
        self.cram_buffer.as_slice()
    }
}

} // verus!
