//! The position bookkeeping of a decoder that reads a file packet by
//! packet: which frames of the current packet go into a block, when a new
//! packet is needed, and where the playhead stands.
use vstd::prelude::*;

verus! {

/// `frame` brought into `0..len` by taking `len` away as often as needed.
pub fn wrap_frame(frame: usize, len: usize) -> (r: usize)
    requires
        len > 0,
    ensures
        r == frame % len,
{
    let ghost f0 = frame;
    let mut frame = frame;
    while frame >= len
        invariant
            len > 0,
            frame % len == f0 % len,
        decreases frame,
    {
        proof { vstd::arithmetic::div_mod::lemma_mod_sub_multiples_vanish(frame as int, len as int); }
        frame -= len;
    }
    proof { vstd::arithmetic::div_mod::lemma_small_mod(frame as nat, len as nat); }
    frame
}

/// The whole seconds and the frames left over of `frame` at `sample_rate`
/// frames per second: the exact part of a position in time.
pub fn frame_to_time_parts(frame: u64, sample_rate: u32) -> (r: (u64, u64))
    requires
        sample_rate > 0,
    ensures
        r.0 == frame / (sample_rate as u64),
        r.1 == frame % (sample_rate as u64),
        r.0 * sample_rate + r.1 == frame,
{
    let sr = sample_rate as u64;
    let seconds = frame / sr;
    let fract_frames = frame % sr;
    proof { vstd::arithmetic::div_mod::lemma_fundamental_div_mod(frame as int, sr as int); }
    assert(seconds * sample_rate == sr * seconds) by (nonlinear_arith) requires sr == sample_rate;
    (seconds, fract_frames)
}

/// What a decoder does next while filling a block.
#[derive(Debug, Clone, Copy, PartialEq, Eq, Structural)]
pub enum DecodeAction {
    /// Copy `frames` frames of the decoded packet, from its frame `from` on,
    /// to the end of the block.
    Copy { from: usize, frames: usize },
    /// Decode the next packet and report it with
    /// [`DecodeCursor::packet_decoded`], or report the end of the file with
    /// [`DecodeCursor::end_of_file`].
    DecodePacket,
    /// The block is complete.
    Done,
}

/// Where a packet decoder stands in its file and in the packet it decoded
/// last.
pub struct DecodeCursor {
    decode_buffer_len: usize,
    curr_decode_buffer_frame: usize,
    num_frames: usize,
    block_size: usize,
    playhead_frame: usize,
    reset_decode_buffer: bool,
    seek_diff: usize,
    block_start_frame: usize,
    reached_end_of_file: bool,
    in_block: bool,
}

impl DecodeCursor {
    /// The frames in the decoded packet.
    pub closed spec fn spec_packet_len(self) -> usize {
        self.decode_buffer_len
    }

    /// The next frame of the decoded packet to copy.
    pub closed spec fn spec_packet_frame(self) -> usize {
        self.curr_decode_buffer_frame
    }

    pub closed spec fn spec_num_frames(self) -> usize {
        self.num_frames
    }

    pub closed spec fn spec_block_size(self) -> usize {
        self.block_size
    }

    /// The frame the next block starts at.
    pub closed spec fn spec_playhead(self) -> usize {
        self.playhead_frame
    }

    /// Whether a new packet is needed before copying.
    pub closed spec fn spec_needs_packet(self) -> bool {
        self.reset_decode_buffer
    }

    /// The frames still to skip after a seek landed before its target.
    pub closed spec fn spec_seek_diff(self) -> usize {
        self.seek_diff
    }

    /// The frames copied into the current block.
    pub closed spec fn spec_block_frames(self) -> usize {
        self.block_start_frame
    }

    pub closed spec fn spec_reached_end_of_file(self) -> bool {
        self.reached_end_of_file
    }

    /// Whether a block is being filled.
    pub closed spec fn spec_in_block(self) -> bool {
        self.in_block
    }

    pub closed spec fn wf(self) -> bool {
        &&& self.block_start_frame <= self.block_size
        &&& self.num_frames + self.block_size <= usize::MAX
        &&& self.in_block ==> self.playhead_frame < self.num_frames
    }

    /// The bookkeeping of a file of `num_frames` frames read in blocks of
    /// `block_size` frames from `start_frame` on, whose first decoded packet
    /// holds `first_packet_frames` frames.
    pub fn new(num_frames: usize, block_size: usize, start_frame: usize, first_packet_frames: usize) -> (s: Self)
        requires
            num_frames + block_size <= usize::MAX,
        ensures
            s.wf(),
            s.spec_packet_len() == first_packet_frames,
            s.spec_packet_frame() == 0,
            s.spec_num_frames() == num_frames,
            s.spec_block_size() == block_size,
            s.spec_playhead() == start_frame,
            !s.spec_needs_packet(),
            s.spec_seek_diff() == 0,
            !s.spec_in_block(),
    {
        DecodeCursor {
            decode_buffer_len: first_packet_frames,
            curr_decode_buffer_frame: 0,
            num_frames,
            block_size,
            playhead_frame: start_frame,
            reset_decode_buffer: false,
            seek_diff: 0,
            block_start_frame: 0,
            reached_end_of_file: false,
            in_block: false,
        }
    }

    /// The frame the next block starts at.
    pub fn current_frame(&self) -> (r: usize)
        ensures
            r == self.spec_playhead(),
    {
        self.playhead_frame
    }

    /// Moves the playhead to `frame`, or to the end of the file if `frame`
    /// lies at or past it. Returns whether the reader must seek; if so, the
    /// seek is reported with [`DecodeCursor::seeked`].
    pub fn seek(&mut self, frame: usize) -> (r: bool)
        requires
            old(self).wf(),
            !old(self).spec_in_block(),
        ensures
            final(self).wf(),
            r == (frame < old(self).spec_num_frames()),
            final(self).spec_playhead() == if r { frame } else { old(self).spec_num_frames() },
            final(self).same_but_playhead(*old(self)),
    {
        if frame >= self.num_frames {
            // Do nothing if out of range.
            self.playhead_frame = self.num_frames;
            return false;
        }
        self.playhead_frame = frame;
        true
    }

    /// The reader has seeked to timestamp `actual_ts` when `required_ts` was
    /// asked for: the frames in between are skipped, and copying resumes
    /// with a new packet.
    pub fn seeked(&mut self, required_ts: u64, actual_ts: u64)
        requires
            old(self).wf(),
            actual_ts <= required_ts,
            required_ts - actual_ts <= usize::MAX,
        ensures
            final(self).wf(),
            final(self).spec_seek_diff() == required_ts - actual_ts,
            final(self).spec_needs_packet(),
            final(self).spec_packet_frame() == 0,
            final(self).spec_playhead() == old(self).spec_playhead(),
            final(self).spec_packet_len() == old(self).spec_packet_len(),
            final(self).spec_num_frames() == old(self).spec_num_frames(),
            final(self).spec_block_size() == old(self).spec_block_size(),
            final(self).spec_in_block() == old(self).spec_in_block(),
    {
        self.seek_diff = (required_ts - actual_ts) as usize;
        self.reset_decode_buffer = true;
        self.curr_decode_buffer_frame = 0;
    }

    /// Starts filling a block; returns false, and does nothing, at the end
    /// of the file.
    pub fn start_block(&mut self) -> (r: bool)
        requires
            old(self).wf(),
            !old(self).spec_in_block(),
        ensures
            final(self).wf(),
            r == (old(self).spec_playhead() < old(self).spec_num_frames()),
            r ==> final(self).spec_in_block() && final(self).spec_block_frames() == 0
                && !final(self).spec_reached_end_of_file(),
            !r ==> *final(self) == *old(self),
            final(self).same_but_block(*old(self)),
    {
        if self.playhead_frame >= self.num_frames {
            return false;
        }
        self.block_start_frame = 0;
        self.reached_end_of_file = false;
        self.in_block = true;
        true
    }

    /// What to do next to fill the block. After `Copy` the frames are
    /// counted as copied; after `Done` the playhead has moved past the block
    /// (to the last frame of the file if its end was reached).
    pub fn next_action(&mut self) -> (r: DecodeAction)
        requires
            old(self).wf(),
            old(self).spec_in_block(),
        ensures
            final(self).wf(),
            final(self).spec_num_frames() == old(self).spec_num_frames(),
            final(self).spec_block_size() == old(self).spec_block_size(),
            final(self).spec_seek_diff() == old(self).spec_seek_diff(),
            final(self).spec_packet_len() == old(self).spec_packet_len(),
            final(self).spec_reached_end_of_file() == old(self).spec_reached_end_of_file(),
            old(self).action_taken(*final(self), r),
    {
        if self.block_start_frame >= self.block_size {
            if self.reached_end_of_file {
                // The read position stays at the last frame of the file.
                self.playhead_frame = self.num_frames - 1;
            } else {
                self.playhead_frame = self.playhead_frame + self.block_size;
            }
            self.in_block = false;
            return DecodeAction::Done;
        }
        let num_frames_to_cpy = if self.reset_decode_buffer {
            // Get new data first.
            self.reset_decode_buffer = false;
            0
        } else if self.curr_decode_buffer_frame < self.decode_buffer_len {
            // Find the maximum amount of frames that can be copied.
            let want = self.block_size - self.block_start_frame;
            let have = self.decode_buffer_len - self.curr_decode_buffer_frame;
            if want < have {
                want
            } else {
                have
            }
        } else {
            0
        };
        if num_frames_to_cpy != 0 {
            let from = self.curr_decode_buffer_frame;
            self.block_start_frame = self.block_start_frame + num_frames_to_cpy;
            self.curr_decode_buffer_frame = self.curr_decode_buffer_frame + num_frames_to_cpy;
            if self.curr_decode_buffer_frame >= self.decode_buffer_len {
                self.reset_decode_buffer = true;
            }
            DecodeAction::Copy { from, frames: num_frames_to_cpy }
        } else {
            DecodeAction::DecodePacket
        }
    }

    /// A packet of `frames` frames was decoded. Returns whether its frames
    /// are to be copied from (then from its frame
    /// `spec_packet_frame()`); otherwise it lies wholly before the frame a
    /// seek asked for, and the next packet is needed.
    pub fn packet_decoded(&mut self, frames: usize) -> (r: bool)
        requires
            old(self).wf(),
        ensures
            final(self).wf(),
            final(self).spec_packet_len() == frames,
            r == (old(self).spec_seek_diff() < frames),
            r ==> final(self).spec_packet_frame() == old(self).spec_seek_diff() && final(self).spec_seek_diff()
                == 0,
            !r ==> final(self).spec_seek_diff() == old(self).spec_seek_diff() - frames
                && final(self).spec_packet_frame() == old(self).spec_packet_frame(),
            final(self).spec_needs_packet() == old(self).spec_needs_packet(),
            final(self).spec_playhead() == old(self).spec_playhead(),
            final(self).spec_block_frames() == old(self).spec_block_frames(),
            final(self).spec_in_block() == old(self).spec_in_block(),
            final(self).spec_num_frames() == old(self).spec_num_frames(),
            final(self).spec_block_size() == old(self).spec_block_size(),
            final(self).spec_reached_end_of_file() == old(self).spec_reached_end_of_file(),
    {
        self.decode_buffer_len = frames;
        if self.seek_diff < frames {
            self.curr_decode_buffer_frame = self.seek_diff;
            self.seek_diff = 0;
            true
        } else {
            self.seek_diff = self.seek_diff - frames;
            false
        }
    }

    /// The file has no more packets: the rest of the block is to be filled
    /// with zeros (returns how many frames), and the playhead moves to the
    /// last frame of the file once the block is done.
    pub fn end_of_file(&mut self) -> (r: usize)
        requires
            old(self).wf(),
        ensures
            final(self).wf(),
            r == old(self).spec_block_size() - old(self).spec_block_frames(),
            final(self).spec_reached_end_of_file(),
            final(self).spec_block_frames() == final(self).spec_block_size(),
            final(self).spec_playhead() == old(self).spec_playhead(),
            final(self).spec_in_block() == old(self).spec_in_block(),
            final(self).spec_num_frames() == old(self).spec_num_frames(),
            final(self).spec_block_size() == old(self).spec_block_size(),
    {
        let missing = self.block_size - self.block_start_frame;
        self.reached_end_of_file = true;
        self.block_start_frame = self.block_size;
        missing
    }

    /// `r` is what [`DecodeCursor::next_action`] answers in state `self`,
    /// leaving the state `after`: `Done` once the block holds all its frames,
    /// the playhead then past the block (or at the last frame of the file),
    /// the place in the decoded packet kept for the next block; `Copy` of as
    /// many frames as both the block and the packet have left, from the next
    /// frame of the packet; `DecodePacket` when a new packet is needed first.
    pub open spec fn action_taken(self, after: Self, r: DecodeAction) -> bool {
        let bs = self.spec_block_size();
        let want = bs - self.spec_block_frames();
        let have = self.spec_packet_len() - self.spec_packet_frame();
        &&& after.spec_num_frames() == self.spec_num_frames()
        &&& after.spec_block_size() == bs
        &&& after.spec_seek_diff() == self.spec_seek_diff()
        &&& after.spec_packet_len() == self.spec_packet_len()
        &&& after.spec_reached_end_of_file() == self.spec_reached_end_of_file()
        &&& match r {
            DecodeAction::Done => {
                &&& self.spec_block_frames() >= bs
                &&& !after.spec_in_block()
                &&& after.spec_packet_frame() == self.spec_packet_frame()
                &&& after.spec_needs_packet() == self.spec_needs_packet()
                &&& after.spec_playhead() == if self.spec_reached_end_of_file() {
                    self.spec_num_frames() - 1
                } else {
                    self.spec_playhead() + bs
                }
            },
            DecodeAction::Copy { from, frames } => {
                &&& self.spec_block_frames() < bs
                &&& !self.spec_needs_packet()
                &&& from == self.spec_packet_frame()
                &&& frames == (if want < have { want } else { have })
                &&& frames > 0
                &&& from + frames <= self.spec_packet_len()
                &&& after.spec_block_frames() == self.spec_block_frames() + frames
                &&& after.spec_packet_frame() == from + frames
                &&& after.spec_needs_packet() == (from + frames >= self.spec_packet_len())
                &&& after.spec_in_block()
                &&& after.spec_playhead() == self.spec_playhead()
            },
            DecodeAction::DecodePacket => {
                &&& self.spec_block_frames() < bs
                &&& (self.spec_needs_packet() || self.spec_packet_frame() >= self.spec_packet_len())
                &&& !after.spec_needs_packet()
                &&& after.spec_block_frames() == self.spec_block_frames()
                &&& after.spec_packet_frame() == self.spec_packet_frame()
                &&& after.spec_in_block()
                &&& after.spec_playhead() == self.spec_playhead()
            },
        }
    }

    /// Ending a block skips nothing of the decoded packet: the next frame to
    /// copy, and whether a new packet is needed first, stay as they were.
    pub proof fn law_done_keeps_packet(before: Self, after: Self)
        requires
            before.action_taken(after, DecodeAction::Done),
        ensures
            after.spec_packet_frame() == before.spec_packet_frame(),
            after.spec_needs_packet() == before.spec_needs_packet(),
            after.spec_packet_len() == before.spec_packet_len(),
    {
    }

    /// No frame of a decoded packet is lost at a block boundary: when a block
    /// ends (`a` to `b`) with frames of the packet left, the next block
    /// (started from `b` to `c`) first copies those frames, from the first
    /// one not yet copied, as many as fit in a block.
    pub proof fn law_next_block_continues_packet(a: Self, b: Self, c: Self, d: Self, r: DecodeAction)
        requires
            a.action_taken(b, DecodeAction::Done),
            !a.spec_needs_packet(),
            a.spec_packet_frame() < a.spec_packet_len(),
            a.spec_block_size() > 0,
            c.same_but_block(b),
            c.spec_block_frames() == 0,
            c.action_taken(d, r),
        ensures
            ({
                let left = a.spec_packet_len() - a.spec_packet_frame();
                r == DecodeAction::Copy {
                    from: a.spec_packet_frame(),
                    frames: if (a.spec_block_size() as int) < left {
                        a.spec_block_size()
                    } else {
                        left as usize
                    },
                }
            }),
    {
        assert(c.spec_packet_frame() == b.spec_packet_frame());
        assert(c.spec_needs_packet() == b.spec_needs_packet());
        assert(c.spec_packet_len() == b.spec_packet_len());
        assert(c.spec_block_size() == b.spec_block_size());
    }

    /// All but the playhead is that of `other`.
    pub closed spec fn same_but_playhead(self, other: Self) -> bool {
        self == DecodeCursor { playhead_frame: self.playhead_frame, ..other }
    }

    /// All but the state of the block being filled is that of `other`.
    pub closed spec fn same_but_block(self, other: Self) -> bool {
        self == DecodeCursor {
            block_start_frame: self.block_start_frame,
            reached_end_of_file: self.reached_end_of_file,
            in_block: self.in_block,
            ..other
        }
    }
}

} // verus!
