//! The RIFF/WAVE header of a WAV file.
use vstd::prelude::*;

use super::{Format, FormatType};
use crate::bytes::{from_le16, from_le32, lemma_le16_roundtrip, lemma_le32_roundtrip, le16, le32, push_le16, push_le32, write_le32_at};

verus! {

/// The letters "RIFF" in ASCII.
pub open spec fn riff_id() -> Seq<u8> {
    seq![0x52u8, 0x49u8, 0x46u8, 0x46u8]
}

/// The letters "WAVE" in ASCII.
pub open spec fn wave_id() -> Seq<u8> {
    seq![0x57u8, 0x41u8, 0x56u8, 0x45u8]
}

/// The letters "fmt " in ASCII.
pub open spec fn fmt_id() -> Seq<u8> {
    seq![0x66u8, 0x6du8, 0x74u8, 0x20u8]
}

/// The letters "data" in ASCII.
pub open spec fn data_id() -> Seq<u8> {
    seq![0x64u8, 0x61u8, 0x74u8, 0x61u8]
}

/// The letters "fact" in ASCII.
pub open spec fn fact_id() -> Seq<u8> {
    seq![0x66u8, 0x61u8, 0x63u8, 0x74u8]
}

/// The size of the RIFF chunk when the data chunk is empty.
pub open spec fn base_chunk_size(format: Format) -> int {
    match format.spec_format_type() {
        FormatType::Pcm => 36,
        FormatType::Float => 50,
    }
}

/// The number of header bytes for a format.
pub open spec fn header_len(format: Format) -> int {
    match format.spec_format_type() {
        FormatType::Pcm => 44,
        FormatType::Float => 58,
    }
}

/// The number of sample bytes of `num_frames` frames, plus a padding byte
/// when that number is odd.
pub open spec fn padded_data_bytes(num_frames: int, num_channels: int, format: Format) -> int {
    let raw = num_frames * num_channels * format.spec_bytes_per_sample();
    if raw % 2 == 1 {
        raw + 1
    } else {
        raw
    }
}

/// Whether a header for this format and channel count can describe
/// `num_frames` frames: the chunk sizes must fit in 32 bits.
pub open spec fn frames_fit(num_frames: int, num_channels: int, format: Format) -> bool {
    &&& num_frames <= u32::MAX
    &&& base_chunk_size(format) + padded_data_bytes(num_frames, num_channels, format) <= u32::MAX
}

/// Whether the byte rate and block alignment of a header fit in their fields.
pub open spec fn rates_fit(num_channels: int, sample_rate: int, format: Format) -> bool {
    &&& sample_rate * num_channels * format.spec_bytes_per_sample() <= u32::MAX
    &&& num_channels * format.spec_bytes_per_sample() <= u16::MAX
}

/// The format subchunk: its id, size, audio format code, channel count,
/// sample rate, byte rate, block alignment and bits per sample.
pub open spec fn fmt_chunk(num_channels: u16, sample_rate: u32, format: Format) -> Seq<u8> {
    let bytes_per_sample = format.spec_bytes_per_sample();
    fmt_id() + le32(
        match format.spec_format_type() {
            FormatType::Pcm => 16,
            FormatType::Float => 18,
        },
    ) + le16(
        match format.spec_format_type() {
            FormatType::Pcm => 1,
            FormatType::Float => 3,
        },
    ) + le16(num_channels as int) + le32(sample_rate as int) + le32(
        sample_rate * num_channels * bytes_per_sample,
    ) + le16(num_channels * bytes_per_sample) + le16(format.spec_bits_per_sample() as int)
}

/// The complete header of a WAV file holding `num_frames` frames.
pub open spec fn header_bytes(
    num_channels: u16,
    sample_rate: u32,
    format: Format,
    num_frames: u32,
) -> Seq<u8> {
    let data_bytes = padded_data_bytes(num_frames as int, num_channels as int, format);
    let fmt = fmt_chunk(num_channels, sample_rate, format);
    match format.spec_format_type() {
        FormatType::Pcm => riff_id() + le32(36 + data_bytes) + wave_id() + fmt + data_id() + le32(
            data_bytes,
        ),
        FormatType::Float => riff_id() + le32(50 + data_bytes) + wave_id() + fmt + le16(0)
            + fact_id() + le32(4) + le32(num_frames as int) + data_id() + le32(data_bytes),
    }
}

/// Appends four literal bytes.
fn push4(buf: &mut Vec<u8>, a: u8, b: u8, c: u8, d: u8)
    ensures
        final(buf)@ == old(buf)@ + seq![a, b, c, d],
{
    buf.push(a);
    buf.push(b);
    buf.push(c);
    buf.push(d);
    assert(final(buf)@ =~= old(buf)@ + seq![a, b, c, d]);
}

/// Appends the format subchunk.
fn push_fmt_chunk(buf: &mut Vec<u8>, num_channels: u16, sample_rate: u32, format: Format)
    requires
        rates_fit(num_channels as int, sample_rate as int, format),
    ensures
        final(buf)@ == old(buf)@ + fmt_chunk(num_channels, sample_rate, format),
{
    let bits_per_sample = format.bits_per_sample();
    let bytes_per_sample = format.bytes_per_sample();
    assert(sample_rate * num_channels <= sample_rate * num_channels * bytes_per_sample)
        by (nonlinear_arith)
        requires bytes_per_sample >= 1, sample_rate >= 0, num_channels >= 0;
    let byte_rate = sample_rate * (num_channels as u32) * (bytes_per_sample as u32);
    let block_align = num_channels * bytes_per_sample;
    let (subchunk1_size, audio_format): (u32, u16) = match format.format_type() {
        FormatType::Pcm => (16, 0x1),
        FormatType::Float => (18, 0x3),
    };
    let ghost start = buf@;
    push4(buf, 0x66, 0x6d, 0x74, 0x20);
    push_le32(buf, subchunk1_size);
    push_le16(buf, audio_format);
    push_le16(buf, num_channels);
    push_le32(buf, sample_rate);
    push_le32(buf, byte_rate);
    push_le16(buf, block_align);
    push_le16(buf, bits_per_sample);
    assert(buf@ =~= start + fmt_chunk(num_channels, sample_rate, format));
}

/// The length of a header depends only on its format.
pub proof fn lemma_header_len(num_channels: u16, sample_rate: u32, format: Format, num_frames: u32)
    ensures
        header_bytes(num_channels, sample_rate, format, num_frames).len() == header_len(format),
        fmt_chunk(num_channels, sample_rate, format).len() == 24,
{
}

/// The middle part of a concatenation of three sequences.
proof fn lemma_middle<A>(a: Seq<A>, b: Seq<A>, c: Seq<A>)
    ensures
        (a + b + c).subrange(a.len() as int, (a.len() + b.len()) as int) == b,
{
    assert((a + b + c).subrange(a.len() as int, (a.len() + b.len()) as int) =~= b);
}

/// The number of data bytes of a header is a 32-bit value.
proof fn lemma_data_bytes_range(num_channels: u16, format: Format, num_frames: u32)
    requires
        frames_fit(num_frames as int, num_channels as int, format),
    ensures
        0 <= padded_data_bytes(num_frames as int, num_channels as int, format),
        base_chunk_size(format) + padded_data_bytes(num_frames as int, num_channels as int, format) < 0x1_0000_0000,
{
    let raw = num_frames * num_channels * format.spec_bytes_per_sample();
    assert(raw >= 0) by (nonlinear_arith)
        requires raw == num_frames * num_channels * format.spec_bytes_per_sample(), num_frames >= 0,
            num_channels >= 0, format.spec_bytes_per_sample() >= 0;
}

/// The sizes a header states read back as written: the RIFF chunk size,
/// the data chunk size and, for float formats, the frame count.
pub proof fn law_header_sizes_read_back(num_channels: u16, sample_rate: u32, format: Format, num_frames: u32)
    requires
        frames_fit(num_frames as int, num_channels as int, format),
    ensures
        ({
            let h = header_bytes(num_channels, sample_rate, format, num_frames);
            let data = padded_data_bytes(num_frames as int, num_channels as int, format);
            let len = header_len(format);
            &&& from_le32(h.subrange(4, 8)) == base_chunk_size(format) + data
            &&& from_le32(h.subrange(len - 4, len)) == data
            &&& format.spec_format_type() == FormatType::Float ==> from_le32(h.subrange(46, 50)) == num_frames
        }),
{
    let h = header_bytes(num_channels, sample_rate, format, num_frames);
    let data = padded_data_bytes(num_frames as int, num_channels as int, format);
    let fmt = fmt_chunk(num_channels, sample_rate, format);
    lemma_data_bytes_range(num_channels, format, num_frames);
    lemma_header_len(num_channels, sample_rate, format, num_frames);
    lemma_le32_roundtrip(base_chunk_size(format) + data);
    lemma_le32_roundtrip(data);
    lemma_le32_roundtrip(num_frames as int);
    let size = le32(base_chunk_size(format) + data);
    let tail = le32(data);
    if format.spec_format_type() == FormatType::Pcm {
        let rest = wave_id() + fmt + data_id() + tail;
        assert(h =~= riff_id() + size + rest);
        lemma_middle(riff_id(), size, rest);
        let front = riff_id() + size + wave_id() + fmt + data_id();
        assert(h =~= front + tail + Seq::<u8>::empty());
        lemma_middle(front, tail, Seq::<u8>::empty());
    } else {
        let rest = wave_id() + fmt + le16(0) + fact_id() + le32(4) + le32(num_frames as int) + data_id() + tail;
        assert(h =~= riff_id() + size + rest);
        lemma_middle(riff_id(), size, rest);
        let front = riff_id() + size + wave_id() + fmt + le16(0) + fact_id() + le32(4);
        let back = data_id() + tail;
        assert(h =~= front + le32(num_frames as int) + back);
        lemma_middle(front, le32(num_frames as int), back);
        let front2 = front + le32(num_frames as int) + data_id();
        assert(h =~= front2 + tail + Seq::<u8>::empty());
        lemma_middle(front2, tail, Seq::<u8>::empty());
    }
}

/// The channel count and the sample rate a header states read back as
/// written.
pub proof fn law_header_format_read_back(num_channels: u16, sample_rate: u32, format: Format, num_frames: u32)
    ensures
        ({
            let h = header_bytes(num_channels, sample_rate, format, num_frames);
            &&& from_le16(h.subrange(22, 24)) == num_channels
            &&& from_le32(h.subrange(24, 28)) == sample_rate
        }),
{
    let h = header_bytes(num_channels, sample_rate, format, num_frames);
    let data = padded_data_bytes(num_frames as int, num_channels as int, format);
    let fmt = fmt_chunk(num_channels, sample_rate, format);
    let size = le32(base_chunk_size(format) + data);
    lemma_header_len(num_channels, sample_rate, format, num_frames);
    lemma_le16_roundtrip(num_channels as int);
    lemma_le32_roundtrip(sample_rate as int);
    let code = match format.spec_format_type() {
        FormatType::Pcm => 1int,
        FormatType::Float => 3int,
    };
    let sub_size = match format.spec_format_type() {
        FormatType::Pcm => 16int,
        FormatType::Float => 18int,
    };
    let after_rate = le32(sample_rate * num_channels * format.spec_bytes_per_sample()) + le16(
        num_channels * format.spec_bytes_per_sample(),
    ) + le16(format.spec_bits_per_sample() as int);
    assert(fmt =~= fmt_id() + le32(sub_size) + le16(code) + le16(num_channels as int) + le32(sample_rate as int)
        + after_rate);
    let head = riff_id() + size + wave_id() + fmt_id() + le32(sub_size) + le16(code);
    let fmt_rest = le32(sample_rate as int) + after_rate;
    let after_fmt = h.subrange(36, h.len() as int);
    assert(h =~= head + le16(num_channels as int) + (fmt_rest + after_fmt));
    lemma_middle(head, le16(num_channels as int), fmt_rest + after_fmt);
    let head2 = head + le16(num_channels as int);
    assert(h =~= head2 + le32(sample_rate as int) + (after_rate + after_fmt));
    lemma_middle(head2, le32(sample_rate as int), after_rate + after_fmt);
}

/// Rewriting the two size fields of a PCM header gives the header for the
/// new frame count.
#[verifier::rlimit(40)]
proof fn lemma_pcm_sizes(
    old_buf: Seq<u8>,
    mid: Seq<u8>,
    new_buf: Seq<u8>,
    nc: u16,
    sr: u32,
    fmt: Format,
    n_old: u32,
    n_new: u32,
)
    requires
        fmt.spec_format_type() == FormatType::Pcm,
        old_buf == header_bytes(nc, sr, fmt, n_old),
        mid == old_buf.subrange(0, 4) + le32(
            36 + padded_data_bytes(n_new as int, nc as int, fmt),
        ) + old_buf.subrange(8, old_buf.len() as int),
        new_buf == mid.subrange(0, 40) + le32(padded_data_bytes(n_new as int, nc as int, fmt))
            + mid.subrange(44, mid.len() as int),
    ensures
        new_buf == header_bytes(nc, sr, fmt, n_new),
{
    lemma_header_len(nc, sr, fmt, n_old);
    lemma_header_len(nc, sr, fmt, n_new);
    let target = header_bytes(nc, sr, fmt, n_new);
    assert forall|i: int| 0 <= i < 44 implies new_buf[i] == target[i] by {
        if 4 <= i < 8 || 40 <= i < 44 {
        } else {
            assert(new_buf[i] == old_buf[i]);
        }
    }
    assert(new_buf =~= target);
}

/// Rewriting the three size fields of a float header gives the header for
/// the new frame count.
#[verifier::rlimit(40)]
proof fn lemma_float_sizes(
    old_buf: Seq<u8>,
    mid1: Seq<u8>,
    mid2: Seq<u8>,
    new_buf: Seq<u8>,
    nc: u16,
    sr: u32,
    fmt: Format,
    n_old: u32,
    n_new: u32,
)
    requires
        fmt.spec_format_type() == FormatType::Float,
        old_buf == header_bytes(nc, sr, fmt, n_old),
        mid1 == old_buf.subrange(0, 4) + le32(
            50 + padded_data_bytes(n_new as int, nc as int, fmt),
        ) + old_buf.subrange(8, old_buf.len() as int),
        mid2 == mid1.subrange(0, 46) + le32(n_new as int) + mid1.subrange(50, mid1.len() as int),
        new_buf == mid2.subrange(0, 54) + le32(padded_data_bytes(n_new as int, nc as int, fmt))
            + mid2.subrange(58, mid2.len() as int),
    ensures
        new_buf == header_bytes(nc, sr, fmt, n_new),
{
    lemma_header_len(nc, sr, fmt, n_old);
    lemma_header_len(nc, sr, fmt, n_new);
    let target = header_bytes(nc, sr, fmt, n_new);
    assert forall|i: int| 0 <= i < 58 implies new_buf[i] == target[i] by {
        if 4 <= i < 8 || 46 <= i < 50 || 54 <= i < 58 {
        } else {
            assert(new_buf[i] == old_buf[i]);
        }
    }
    assert(new_buf =~= target);
}

/// The header of a WAV file.
pub struct Header {
    buffer: Vec<u8>,
    num_channels: u16,
    format: Format,
    sample_rate: Ghost<u32>,
    num_frames: Ghost<u32>,
}

impl Header {
    /// The header is the encoding of its channel count, sample rate, format
    /// and frame count.
    pub closed spec fn wf(self) -> bool {
        &&& self.buffer@ == header_bytes(
            self.num_channels,
            self.sample_rate@,
            self.format,
            self.num_frames@,
        )
        &&& rates_fit(self.num_channels as int, self.sample_rate@ as int, self.format)
    }

    pub closed spec fn spec_num_channels(self) -> u16 {
        self.num_channels
    }

    pub closed spec fn spec_sample_rate(self) -> u32 {
        self.sample_rate@
    }

    pub closed spec fn spec_format(self) -> Format {
        self.format
    }

    pub closed spec fn spec_num_frames(self) -> u32 {
        self.num_frames@
    }

    /// The bytes of the header.
    pub closed spec fn spec_buffer(self) -> Seq<u8> {
        self.buffer@
    }

    /// A new header for a file that holds no frames yet.
    pub fn new(num_channels: u16, sample_rate: u32, format: Format) -> (h: Self)
        requires
            rates_fit(num_channels as int, sample_rate as int, format),
        ensures
            h.wf(),
            h.spec_num_channels() == num_channels,
            h.spec_sample_rate() == sample_rate,
            h.spec_format() == format,
            h.spec_num_frames() == 0,
            h.spec_buffer() == header_bytes(num_channels, sample_rate, format, 0),
            h.spec_buffer().len() == header_len(format),
    {
        let format_type = format.format_type();
        assert(padded_data_bytes(0, num_channels as int, format) == 0) by {
            assert(0 * (num_channels as int) * format.spec_bytes_per_sample() == 0);
        }
        let mut buffer: Vec<u8> = Vec::new();
        // RIFF chunk
        push4(&mut buffer, 0x52, 0x49, 0x46, 0x46);
        match format_type {
            FormatType::Pcm => push_le32(&mut buffer, 36),
            FormatType::Float => push_le32(&mut buffer, 50),
        }
        push4(&mut buffer, 0x57, 0x41, 0x56, 0x45);
        // Format subchunk
        push_fmt_chunk(&mut buffer, num_channels, sample_rate, format);
        match format_type {
            FormatType::Pcm => {},
            FormatType::Float => {
                // Extension size
                push_le16(&mut buffer, 0);
                // Fact subchunk: size and samples per channel
                push4(&mut buffer, 0x66, 0x61, 0x63, 0x74);
                push_le32(&mut buffer, 4);
                push_le32(&mut buffer, 0);
            },
        }
        // Data subchunk
        push4(&mut buffer, 0x64, 0x61, 0x74, 0x61);
        push_le32(&mut buffer, 0);

        let h = Header {
            buffer,
            num_channels,
            format,
            sample_rate: Ghost(sample_rate),
            num_frames: Ghost(0),
        };
        assert(h.buffer@ =~= header_bytes(num_channels, sample_rate, format, 0));
        h
    }

    /// Updates the RIFF chunk size, the data chunk size and (for float
    /// formats) the per-channel sample count so that the header describes a
    /// file holding `num_frames` frames.
    pub fn set_num_frames(&mut self, num_frames: u32)
        requires
            old(self).wf(),
            frames_fit(num_frames as int, old(self).spec_num_channels() as int, old(self).spec_format()),
        ensures
            final(self).wf(),
            final(self).spec_num_channels() == old(self).spec_num_channels(),
            final(self).spec_sample_rate() == old(self).spec_sample_rate(),
            final(self).spec_format() == old(self).spec_format(),
            final(self).spec_num_frames() == num_frames,
            final(self).spec_buffer() == header_bytes(
                old(self).spec_num_channels(),
                old(self).spec_sample_rate(),
                old(self).spec_format(),
                num_frames,
            ),
    {
        let ghost nc = self.num_channels;
        let ghost sr = self.sample_rate@;
        let ghost fmt = self.format;
        let bytes_per_sample = self.format.bytes_per_sample();
        let ghost raw = num_frames * nc * bytes_per_sample;
        assert(num_frames * nc <= raw && 0 <= raw) by (nonlinear_arith)
            requires bytes_per_sample >= 1, raw == num_frames * nc * bytes_per_sample,
            num_frames >= 0, nc >= 0;
        let mut num_bytes = num_frames * (self.num_channels as u32) * (bytes_per_sample as u32);

        // If num_bytes is odd, add a padding byte.
        if num_bytes % 2 == 1 {
            num_bytes += 1;
        }
        assert(num_bytes == padded_data_bytes(num_frames as int, nc as int, fmt));
        let ghost old_buf = self.buffer@;
        proof {
            lemma_header_len(nc, sr, fmt, self.num_frames@);
        }

        match self.format.format_type() {
            FormatType::Pcm => {
                write_le32_at(&mut self.buffer, 4, 36 + num_bytes);
                let ghost mid = self.buffer@;
                write_le32_at(&mut self.buffer, 40, num_bytes);
                proof {
                    lemma_pcm_sizes(old_buf, mid, self.buffer@, nc, sr, fmt, self.num_frames@, num_frames);
                }
            },
            FormatType::Float => {
                write_le32_at(&mut self.buffer, 4, 50 + num_bytes);
                let ghost mid1 = self.buffer@;
                write_le32_at(&mut self.buffer, 46, num_frames);
                let ghost mid2 = self.buffer@;
                write_le32_at(&mut self.buffer, 54, num_bytes);
                proof {
                    lemma_float_sizes(old_buf, mid1, mid2, self.buffer@, nc, sr, fmt, self.num_frames@, num_frames);
                }
            },
        }
        self.num_frames = Ghost(num_frames);
    }

    /// The bytes of the header, as they are written at the start of the file.
    pub fn buffer(&self) -> (r: &[u8])
        ensures
            r@ == self.spec_buffer(),
    {
        self.buffer.as_slice()
    }

    /// The largest number of sample bytes a file of this format can hold:
    /// the RIFF chunk size must fit in 32 bits.
    pub fn max_data_bytes(&self) -> (r: u32)
        ensures
            r == u32::MAX - base_chunk_size(self.spec_format()),
    {
        if self.format.format_type() == FormatType::Pcm {
            u32::MAX - 36
        } else {
            u32::MAX - 50
        }
    }
}

} // verus!
