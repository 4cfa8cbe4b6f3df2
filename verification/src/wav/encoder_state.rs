//! What a WAV encoder keeps track of besides its file: the header, how many
//! frames the current file holds, when to move on to a new file, and the
//! interleaving of blocks.
use vstd::prelude::*;

use super::error::{WavFatalError, WavOpenError};
use super::header::{base_chunk_size, frames_fit, header_bytes, rates_fit, Header};
use super::Format;
use crate::read::data::pad_to;
use crate::write::encoder::{file_name_extension, num_files_to_file_name_extension};
use crate::write::{WriteBlock, WriteStatus};

verus! {

/// The samples of `frames` frames of the channels `chs`, frame after frame.
pub open spec fn interleaved<T>(chs: Seq<Seq<T>>, frames: int) -> Seq<T> {
    Seq::new((frames * chs.len()) as nat, |i: int| chs[i % chs.len() as int][i / chs.len() as int])
}

/// Where sample `ch` of frame `f` goes among `nc` interleaved channels.
proof fn lemma_interleave_index(f: int, ch: int, nc: int, frames: int)
    requires
        0 <= ch < nc,
        0 <= f < frames,
    ensures
        (f * nc + ch) / nc == f,
        (f * nc + ch) % nc == ch,
        0 <= f * nc + ch < frames * nc,
{
    vstd::arithmetic::div_mod::lemma_fundamental_div_mod_converse(f * nc + ch, nc, f, ch);
    assert(0 <= f * nc + ch < frames * nc) by (nonlinear_arith)
        requires 0 <= ch < nc, 0 <= f < frames;
}

/// The bookkeeping of a WAV encoder for samples of type `T`.
pub struct WavEncoderState<T> {
    interleave_buf: Vec<T>,
    header: Header,
    bytes_per_frame: u64,
    frames_written: u32,
    max_file_bytes: u64,
    max_block_bytes: u64,
    num_channels: usize,
    block_size: usize,
    num_files: u32,
}

impl<T: Copy + Default + Send> WavEncoderState<T> {
    pub closed spec fn spec_num_channels(self) -> usize {
        self.num_channels
    }

    pub closed spec fn spec_block_size(self) -> usize {
        self.block_size
    }

    /// The frames held by the current file.
    pub closed spec fn spec_frames_written(self) -> u32 {
        self.frames_written
    }

    /// The number of files written so far (0 once the stream is finished
    /// or discarded).
    pub closed spec fn spec_num_files(self) -> u32 {
        self.num_files
    }

    pub closed spec fn spec_format(self) -> Format {
        self.header.spec_format()
    }

    pub closed spec fn spec_sample_rate(self) -> u32 {
        self.header.spec_sample_rate()
    }

    /// The bytes of one frame.
    pub closed spec fn spec_bytes_per_frame(self) -> int {
        self.bytes_per_frame as int
    }

    /// The largest number of sample bytes a file can hold.
    pub closed spec fn spec_max_file_bytes(self) -> int {
        self.max_file_bytes as int
    }

    /// The header of the current file.
    pub closed spec fn spec_header(self) -> Seq<u8> {
        self.header.spec_buffer()
    }

    /// Another block might not fit in the current file.
    pub closed spec fn spec_full(self) -> bool {
        self.frames_written * self.bytes_per_frame + self.max_block_bytes >= self.max_file_bytes
    }

    pub closed spec fn wf(self) -> bool {
        let format = self.header.spec_format();
        &&& self.header.wf()
        &&& self.header.spec_num_channels() == self.num_channels
        &&& self.header.spec_num_frames() == self.frames_written
        &&& self.bytes_per_frame == self.num_channels * format.spec_bytes_per_sample()
        &&& self.max_file_bytes == u32::MAX - base_chunk_size(format)
        &&& self.max_block_bytes == self.block_size * self.bytes_per_frame
        &&& self.max_block_bytes + u32::MAX <= u64::MAX
        &&& self.bytes_per_frame <= u16::MAX
        &&& frames_fit(self.frames_written as int, self.num_channels as int, format)
    }

    /// The bookkeeping of a new file of `num_channels` channels at
    /// `sample_rate` in `format`, written in blocks of up to `block_size`
    /// frames.
    ///
    /// The parameters are refused when the byte rate or the block alignment
    /// does not fit in its header field.
    pub fn new(num_channels: u16, sample_rate: u32, format: Format, block_size: usize) -> (r: Result<
        Self,
        WavOpenError,
    >)
        requires
            block_size * num_channels * format.spec_bytes_per_sample() + u32::MAX <= u64::MAX,
        ensures
            match r {
                Ok(s) => {
                    &&& s.wf()
                    &&& s.spec_num_channels() == num_channels
                    &&& s.spec_block_size() == block_size
                    &&& s.spec_format() == format
                    &&& s.spec_sample_rate() == sample_rate
                    &&& s.spec_frames_written() == 0
                    &&& s.spec_num_files() == 1
                    &&& s.spec_header() == header_bytes(num_channels, sample_rate, format, 0)
                    &&& s.spec_full() == (block_size * num_channels * format.spec_bytes_per_sample()
                        >= u32::MAX - base_chunk_size(format))
                },
                Err(e) => e == WavOpenError::CodecParamsNotSupported { num_channels, format },
            },
            r is Ok <==> rates_fit(num_channels as int, sample_rate as int, format),
    {
        let bytes_per_sample = format.bytes_per_sample();
        let nc = num_channels as u64;
        let bytes_per_frame = nc * (bytes_per_sample as u64);
        let max_file_bytes: u64 = if format.format_type() == super::FormatType::Pcm {
            (u32::MAX - 36) as u64
        } else {
            (u32::MAX - 50) as u64
        };
        assert(bytes_per_frame == num_channels * bytes_per_sample);
        if bytes_per_frame > u16::MAX as u64 || {
            assert((sample_rate as u64) * bytes_per_frame <= 0xffff_ffff * 0xffff) by (nonlinear_arith)
                requires sample_rate <= 0xffff_ffff, bytes_per_frame <= 0xffff;
            (sample_rate as u64) * bytes_per_frame > u32::MAX as u64
        } {
            assert(sample_rate * num_channels * bytes_per_sample == sample_rate * (num_channels
                * bytes_per_sample)) by (nonlinear_arith);
            return Err(WavOpenError::CodecParamsNotSupported { num_channels, format });
        }
        assert(sample_rate * num_channels * bytes_per_sample == sample_rate * (num_channels
            * bytes_per_sample)) by (nonlinear_arith);
        assert(block_size * num_channels * bytes_per_sample == block_size * (num_channels
            * bytes_per_sample)) by (nonlinear_arith);
        let header = Header::new(num_channels, sample_rate, format);
        let max_block_bytes = (block_size as u64) * bytes_per_frame;
        Ok(WavEncoderState {
            interleave_buf: Vec::new(),
            header,
            bytes_per_frame,
            frames_written: 0,
            max_file_bytes,
            max_block_bytes,
            num_channels: num_channels as usize,
            block_size,
            num_files: 1,
        })
    }

    /// The bytes of the header of the current file.
    pub fn header(&self) -> (r: &[u8])
        ensures
            r@ == self.spec_header(),
    {
        self.header.buffer()
    }

    /// Whether another block might not fit in the current file.
    pub fn is_full(&self) -> (r: bool)
        requires
            self.wf(),
        ensures
            r == self.spec_full(),
    {
        proof { self.lemma_bytes_fit(); }
        self.frames_written as u64 * self.bytes_per_frame + self.max_block_bytes >= self.max_file_bytes
    }

    /// The number of files written so far.
    pub fn num_files(&self) -> (r: u32)
        ensures
            r == self.spec_num_files(),
    {
        self.num_files
    }

    /// The samples of the first `block.written_frames()` frames of `block`,
    /// frame after frame; a mono block is not copied.
    pub fn interleave<'a>(&'a mut self, block: &'a WriteBlock<T>) -> (r: &'a [T])
        requires
            old(self).wf(),
            block.spec_channels().len() == old(self).spec_num_channels(),
            forall|ch: int| 0 <= ch < block.spec_channels().len()
                ==> block.spec_channels()[0].len() <= #[trigger] block.spec_channels()[ch].len(),
            block.spec_channels()[0].len() <= old(self).spec_block_size(),
            block.spec_channels()[0].len() * old(self).spec_num_channels() <= usize::MAX,
        ensures
            final(self).wf(),
            final(self).same_bookkeeping(*old(self)),
            r@ == interleaved(block.spec_channels(), block.spec_channels()[0].len() as int),
    {
        let nc = self.num_channels;
        let written_frames = block.written_frames();
        let chs = block.block();
        let ghost s = block.spec_buffers();
        let ghost t = block.spec_channels();
        if nc == 0 {
            // A block without channels has no samples.
            let r = vstd::slice::slice_subrange(self.interleave_buf.as_slice(), 0, 0);
            assert(t.len() == 0);
            assert((block.spec_channels()[0].len() as int) * (t.len() as int) == 0);
            assert(r@ =~= interleaved(t, block.spec_channels()[0].len() as int));
            return r;
        }
        assert(chs@[0]@ == s[0]);
        if nc == 1 {
            let r = vstd::slice::slice_subrange(chs[0].as_slice(), 0, written_frames);
            assert(r@ =~= interleaved(t, written_frames as int)) by {
                assert(t.len() == 1);
                assert(t[0] == s[0].subrange(0, written_frames as int));
                assert((written_frames as int) * (t.len() as int) == written_frames) by (nonlinear_arith)
                    requires t.len() == 1;
                assert(interleaved(t, written_frames as int).len() == written_frames);
                assert forall|i: int| 0 <= i < written_frames implies r@[i] == #[trigger] interleaved(
                    t,
                    written_frames as int,
                )[i] by {
                    assert(i % 1 == 0 && i / 1 == i);
                }
            }
            return r;
        }
        let total = written_frames * nc;
        if self.interleave_buf.len() < total {
            let z = T::default();
            pad_to(&mut self.interleave_buf, total, z);
        }
        let mut ch: usize = 0;
        while ch < nc
            invariant
                old(self).wf(),
                self.same_bookkeeping(*old(self)),
                ch <= nc == s.len(),
                nc >= 2,
                total == written_frames * nc,
                total <= self.interleave_buf@.len(),
                forall|c: int| 0 <= c < nc ==> written_frames <= (#[trigger] s[c]).len(),
                chs@.len() == nc,
                forall|c: int| 0 <= c < nc ==> (#[trigger] chs@[c])@ == s[c],
                forall|i: int| 0 <= i < total && i % (nc as int) < ch ==> #[trigger] self.interleave_buf@[i]
                    == s[i % (nc as int)][i / (nc as int)],
            decreases nc - ch,
        {
            let mut f: usize = 0;
            while f < written_frames
                invariant
                    old(self).wf(),
                    self.same_bookkeeping(*old(self)),
                    ch < nc == s.len(),
                    nc >= 2,
                    f <= written_frames,
                    total == written_frames * nc,
                    total <= self.interleave_buf@.len(),
                    written_frames <= s[ch as int].len(),
                    chs@.len() == nc,
                    chs@[ch as int]@ == s[ch as int],
                    forall|i: int|
                        0 <= i < total && (i % (nc as int) < ch || (i % (nc as int) == ch && i / (nc as int) < f))
                            ==> #[trigger] self.interleave_buf@[i] == s[i % (nc as int)][i / (nc as int)],
                decreases written_frames - f,
            {
                proof { lemma_interleave_index(f as int, ch as int, nc as int, written_frames as int); }
                let i = f * nc + ch;
                let ghost before = self.interleave_buf@;
                self.interleave_buf.set(i, chs[ch][f]);
                proof {
                    assert forall|j: int|
                        0 <= j < total && (j % (nc as int) < ch || (j % (nc as int) == ch && j / (nc as int) < f + 1))
                            implies #[trigger] self.interleave_buf@[j] == s[j % (nc as int)][j / (nc as int)] by {
                        if j != i {
                            assert(self.interleave_buf@[j] == before[j]);
                            if j % (nc as int) == ch && j / (nc as int) == f {
                                vstd::arithmetic::div_mod::lemma_fundamental_div_mod(j, nc as int);
                                assert(j == nc * f + ch);
                                assert(false) by (nonlinear_arith)
                                    requires j == nc * f + ch, i == f * nc + ch, j != i;
                            }
                        }
                    }
                }
                f += 1;
            }
            proof {
                assert forall|i: int| 0 <= i < total && i % (nc as int) < ch + 1 implies #[trigger] self.interleave_buf@[i]
                    == s[i % (nc as int)][i / (nc as int)] by {
                    if i % (nc as int) == ch {
                        vstd::arithmetic::mul::lemma_mul_is_commutative(written_frames as int, nc as int);
                        vstd::arithmetic::div_mod::lemma_multiply_divide_lt(i, nc as int, written_frames as int);
                    }
                }
            }
            ch += 1;
        }
        let r = vstd::slice::slice_subrange(self.interleave_buf.as_slice(), 0, total);
        proof {
            assert forall|i: int| 0 <= i < total implies #[trigger] r@[i] == interleaved(t, written_frames as int)[i] by {
                vstd::arithmetic::div_mod::lemma_mod_bound(i, nc as int);
                vstd::arithmetic::mul::lemma_mul_is_commutative(written_frames as int, nc as int);
                vstd::arithmetic::div_mod::lemma_multiply_divide_lt(i, nc as int, written_frames as int);
                let c = i % (nc as int);
                assert(t[c] == s[c].subrange(0, written_frames as int));
            }
            assert(r@ =~= interleaved(t, written_frames as int));
        }
        r
    }

    /// Counts `frames` more frames into the current file and updates its
    /// header. Returns the sample bytes the file now holds, and whether
    /// another block might not fit, in which case the stream moves on to a
    /// new file.
    pub fn record_frames(&mut self, frames: usize) -> (r: (u64, bool))
        requires
            old(self).wf(),
            frames <= old(self).spec_block_size(),
            frames_fit(
                old(self).spec_frames_written() + frames,
                old(self).spec_num_channels() as int,
                old(self).spec_format(),
            ),
        ensures
            final(self).wf(),
            final(self).spec_frames_written() == old(self).spec_frames_written() + frames,
            final(self).spec_header() == header_bytes(
                old(self).spec_num_channels() as u16,
                old(self).spec_sample_rate(),
                old(self).spec_format(),
                final(self).spec_frames_written(),
            ),
            final(self).same_config(*old(self)),
            final(self).spec_num_files() == old(self).spec_num_files(),
            r.0 == final(self).spec_frames_written() * final(self).spec_bytes_per_frame(),
            r.1 == final(self).spec_full(),
    {
        let ghost bps = self.header.spec_format().spec_bytes_per_sample();
        proof {
            let t = self.frames_written + frames;
            assert(t * (self.num_channels as int) * bps == t * self.bytes_per_frame)
                by (nonlinear_arith) requires self.bytes_per_frame == self.num_channels * bps;
        }
        let frames_written = self.frames_written + frames as u32;
        self.header.set_num_frames(frames_written);
        self.frames_written = frames_written;
        proof { self.lemma_bytes_fit(); }
        let bytes_written = (frames_written as u64) * self.bytes_per_frame;
        (bytes_written, bytes_written + self.max_block_bytes >= self.max_file_bytes)
    }

    /// The bytes of the frames written fit in a header's size field.
    proof fn lemma_bytes_fit(self)
        requires
            self.wf(),
        ensures
            self.frames_written * self.bytes_per_frame <= u32::MAX,
    {
        let bps = self.header.spec_format().spec_bytes_per_sample();
        assert(self.frames_written * (self.num_channels as int) * bps == self.frames_written * self.bytes_per_frame)
            by (nonlinear_arith) requires self.bytes_per_frame == self.num_channels * bps;
    }

    /// Whether `frames` more frames fit in the current file: whether the
    /// header could state them.
    pub fn can_record(&self, frames: usize) -> (r: bool)
        requires
            self.wf(),
        ensures
            r == frames_fit(
                self.spec_frames_written() + frames,
                self.spec_num_channels() as int,
                self.spec_format(),
            ),
    {
        let ghost bps = self.header.spec_format().spec_bytes_per_sample();
        let ghost t = self.frames_written + frames;
        proof {
            assert(t * (self.num_channels as int) * bps == t * self.bytes_per_frame)
                by (nonlinear_arith) requires self.bytes_per_frame == self.num_channels * bps;
        }
        if frames as u64 > u32::MAX as u64 {
            return false;
        }
        let total = self.frames_written as u64 + frames as u64;
        if total > u32::MAX as u64 {
            return false;
        }
        assert(total * self.bytes_per_frame <= 0x2_0000_0000 * 0xffff) by (nonlinear_arith)
            requires total <= 0x2_0000_0000, self.bytes_per_frame <= 0xffff, self.bytes_per_frame >= 0;
        let raw = total * self.bytes_per_frame;
        let padded = if raw % 2 == 1 { raw + 1 } else { raw };
        let base = u32::MAX as u64 - self.max_file_bytes;
        base + padded <= u32::MAX as u64
    }


    /// Counts one more file: the one the stream moves on to. Fails when the
    /// count of files cannot grow.
    pub fn next_file(&mut self) -> (r: Result<u32, WavFatalError>)
        requires
            old(self).wf(),
        ensures
            final(self).wf(),
            final(self).same_config(*old(self)),
            final(self).spec_frames_written() == old(self).spec_frames_written(),
            final(self).spec_header() == old(self).spec_header(),
            match r {
                Ok(n) => n == old(self).spec_num_files() + 1 && final(self).spec_num_files() == n,
                Err(e) => e is ReachedMaxSize && old(self).spec_num_files() == u32::MAX
                    && final(self).spec_num_files() == old(self).spec_num_files(),
            },
    {
        if self.num_files == u32::MAX {
            return Err(WavFatalError::ReachedMaxSize);
        }
        self.num_files = self.num_files + 1;
        Ok(self.num_files)
    }

    /// Starts counting the frames of a new, empty file.
    pub fn start_new_file(&mut self)
        requires
            old(self).wf(),
        ensures
            final(self).wf(),
            final(self).same_config(*old(self)),
            final(self).spec_frames_written() == 0,
            final(self).spec_num_files() == old(self).spec_num_files(),
            final(self).spec_header() == header_bytes(
                old(self).spec_num_channels() as u16,
                old(self).spec_sample_rate(),
                old(self).spec_format(),
                0,
            ),
    {
        proof {
            assert(0 * (self.num_channels as int) * self.header.spec_format().spec_bytes_per_sample() == 0);
        }
        self.header.set_num_frames(0);
        self.frames_written = 0;
    }

    /// The frames of `block` to write to the file: none for a block with no
    /// frames, which leaves the file as it is.
    pub fn block_frames(&self, block: &WriteBlock<T>) -> (r: Option<usize>)
        ensures
            r == if block.spec_written_frames() == 0 {
                None::<usize>
            } else {
                Some(block.spec_written_frames() as usize)
            },
    {
        let frames = block.written_frames();
        if frames == 0 {
            None
        } else {
            Some(frames)
        }
    }

    /// Where the stream stands once a block's frames are recorded and the
    /// file's header updated, `full` being what [`Self::record_frames`]
    /// answered: a full file is followed by a new, empty one, counted here,
    /// and the status reports how many files there are; otherwise the block
    /// is simply written. Fails when the count of files cannot grow.
    pub fn after_block(&mut self, full: bool) -> (r: Result<WriteStatus, WavFatalError>)
        requires
            old(self).wf(),
        ensures
            final(self).wf(),
            final(self).same_config(*old(self)),
            !full ==> r == Ok::<WriteStatus, WavFatalError>(WriteStatus::WrittenOk) && *final(self) == *old(self),
            full ==> match r {
                Ok(status) => {
                    &&& old(self).spec_num_files() < u32::MAX
                    &&& status == WriteStatus::ReachedMaxSize { num_files: (old(self).spec_num_files() + 1) as u32 }
                    &&& final(self).spec_num_files() == old(self).spec_num_files() + 1
                    &&& final(self).spec_frames_written() == 0
                    &&& final(self).spec_header() == header_bytes(
                        old(self).spec_num_channels() as u16,
                        old(self).spec_sample_rate(),
                        old(self).spec_format(),
                        0,
                    )
                },
                Err(e) => {
                    &&& e is ReachedMaxSize
                    &&& old(self).spec_num_files() == u32::MAX
                    &&& final(self).spec_num_files() == old(self).spec_num_files()
                    &&& final(self).spec_frames_written() == old(self).spec_frames_written()
                },
            },
    {
        if !full {
            return Ok(WriteStatus::WrittenOk);
        }
        let num_files = match self.next_file() {
            Ok(n) => n,
            Err(e) => return Err(e),
        };
        self.start_new_file();
        Ok(WriteStatus::ReachedMaxSize { num_files })
    }

    /// The header is brought up to date before the file is closed, and the
    /// stream then holds no file.
    pub fn finish(&mut self)
        requires
            old(self).wf(),
        ensures
            final(self).wf(),
            final(self).same_config(*old(self)),
            final(self).spec_frames_written() == old(self).spec_frames_written(),
            final(self).spec_header() == header_bytes(
                old(self).spec_num_channels() as u16,
                old(self).spec_sample_rate(),
                old(self).spec_format(),
                old(self).spec_frames_written(),
            ),
            final(self).spec_num_files() == 0,
    {
        proof {
            let bps = self.header.spec_format().spec_bytes_per_sample();
            assert(self.frames_written * (self.num_channels as int) * bps == self.frames_written * self.bytes_per_frame)
                by (nonlinear_arith) requires self.bytes_per_frame == self.num_channels * bps;
        }
        self.header.set_num_frames(self.frames_written);
        self.num_files = 0;
    }

    /// The files were deleted: the stream holds no file.
    pub fn discard(&mut self)
        requires
            old(self).wf(),
        ensures
            final(self).wf(),
            final(self).same_config(*old(self)),
            final(self).spec_frames_written() == old(self).spec_frames_written(),
            final(self).spec_header() == old(self).spec_header(),
            final(self).spec_num_files() == 0,
    {
        self.num_files = 0;
    }

    /// Starts over with one empty file.
    pub fn restart(&mut self)
        requires
            old(self).wf(),
        ensures
            final(self).wf(),
            final(self).same_config(*old(self)),
            final(self).spec_frames_written() == 0,
            final(self).spec_header() == header_bytes(
                old(self).spec_num_channels() as u16,
                old(self).spec_sample_rate(),
                old(self).spec_format(),
                0,
            ),
            final(self).spec_num_files() == if old(self).spec_num_files() > 1 {
                1
            } else {
                old(self).spec_num_files()
            },
    {
        self.start_new_file();
        if self.num_files > 1 {
            self.num_files = 1;
        }
    }

    /// The extensions of the file names of the files after the first one:
    /// `"_001"`, `"_002"`, ... up to the current file.
    pub fn extra_file_extensions(&self) -> (r: Vec<String>)
        ensures
            r@.len() == if self.spec_num_files() > 1 {
                self.spec_num_files() - 1
            } else {
                0
            },
            forall|k: int| 0 <= k < r@.len() ==> (#[trigger] r@[k])@ == file_name_extension((k + 2) as u32),
    {
        let mut r: Vec<String> = Vec::new();
        if self.num_files <= 1 {
            return r;
        }
        let n = self.num_files as u64;
        let mut i: u64 = 2;
        while i <= n
            invariant
                2 <= i <= n + 1,
                n == self.num_files > 1,
                r@.len() == i - 2,
                forall|k: int| 0 <= k < r@.len() ==> (#[trigger] r@[k])@ == file_name_extension((k + 2) as u32),
            decreases n + 1 - i,
        {
            r.push(num_files_to_file_name_extension(i as u32));
            i += 1;
        }
        r
    }

    /// The channels, the sample rate, the format and the sizes are those of
    /// `other`.
    pub closed spec fn same_config(self, other: Self) -> bool {
        &&& self.header.spec_num_channels() == other.header.spec_num_channels()
        &&& self.header.spec_sample_rate() == other.header.spec_sample_rate()
        &&& self.header.spec_format() == other.header.spec_format()
        &&& self.bytes_per_frame == other.bytes_per_frame
        &&& self.max_file_bytes == other.max_file_bytes
        &&& self.max_block_bytes == other.max_block_bytes
        &&& self.num_channels == other.num_channels
        &&& self.block_size == other.block_size
    }

    /// A file never grows past what a WAV header can describe (4 GB): the
    /// header can always state the frames the current file holds, and the
    /// sample bytes stay under the file's limit.
    pub proof fn law_file_within_limit(self)
        requires
            self.wf(),
        ensures
            frames_fit(self.spec_frames_written() as int, self.spec_num_channels() as int, self.spec_format()),
            self.spec_frames_written() * self.spec_bytes_per_frame() < self.spec_max_file_bytes(),
            self.spec_max_file_bytes() == u32::MAX - base_chunk_size(self.spec_format()),
            self.spec_bytes_per_frame() == self.spec_num_channels() * self.spec_format().spec_bytes_per_sample(),
            // The file is full (a new one is started after the block that
            // fills it) when one more block might not fit.
            self.spec_full() == (self.spec_frames_written() * self.spec_bytes_per_frame() + self.spec_block_size()
                * self.spec_bytes_per_frame() >= self.spec_max_file_bytes()),
    {
        let bps = self.header.spec_format().spec_bytes_per_sample();
        assert(self.frames_written * (self.num_channels as int) * bps == self.frames_written * self.bytes_per_frame)
            by (nonlinear_arith) requires self.bytes_per_frame == self.num_channels * bps;
    }

    /// The header, the counts and the sizes are those of `other`.
    pub closed spec fn same_bookkeeping(self, other: Self) -> bool {
        &&& self.header == other.header
        &&& self.bytes_per_frame == other.bytes_per_frame
        &&& self.frames_written == other.frames_written
        &&& self.max_file_bytes == other.max_file_bytes
        &&& self.max_block_bytes == other.max_block_bytes
        &&& self.num_channels == other.num_channels
        &&& self.block_size == other.block_size
        &&& self.num_files == other.num_files
    }
}

} // verus!
