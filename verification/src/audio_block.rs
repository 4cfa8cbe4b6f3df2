//! A block of audio data, one buffer per channel.
use vstd::prelude::*;

use crate::read::data::repeat;

verus! {

/// A block of audio data.
pub struct AudioBlock<T: Copy + Default + Send> {
    /// The buffers of samples, one for each channel.
    ///
    /// Do not resize any of these `Vec`s.
    pub channels: Vec<Vec<T>>,
    pub(crate) frames_written: usize,
    block_frames: usize,
}

impl<T: Copy + Default + Send> AudioBlock<T> {
    /// The samples of each channel.
    pub closed spec fn spec_channels(self) -> Seq<Seq<T>> {
        Seq::new(self.channels@.len(), |i: int| self.channels@[i]@)
    }

    pub closed spec fn spec_frames_written(self) -> usize {
        self.frames_written
    }

    pub closed spec fn spec_capacity(self) -> usize {
        self.block_frames
    }

    /// A block of `num_channels` channels of `block_frames` default samples
    /// each, all counted as written.
    pub fn new(num_channels: usize, block_frames: usize) -> (b: Self)
        ensures
            b.spec_channels().len() == num_channels,
            b.spec_frames_written() == block_frames,
            b.spec_capacity() == block_frames,
            exists|z: T| #[trigger] call_ensures(T::default, (), z) && forall|ch: int|
                0 <= ch < num_channels ==> #[trigger] b.spec_channels()[ch] == repeat(z, block_frames as int),
    {
        let z = T::default();
        let mut channels: Vec<Vec<T>> = Vec::with_capacity(num_channels);
        let mut ch: usize = 0;
        while ch < num_channels
            invariant
                ch <= num_channels,
                channels@.len() == ch,
                forall|c: int| 0 <= c < ch ==> (#[trigger] channels@[c])@ == repeat(z, block_frames as int),
            decreases num_channels - ch,
        {
            let mut samples: Vec<T> = Vec::with_capacity(block_frames);
            let mut i: usize = 0;
            while i < block_frames
                invariant
                    i <= block_frames,
                    samples@ == repeat(z, i as int),
                decreases block_frames - i,
            {
                samples.push(z);
                i += 1;
                assert(samples@ =~= repeat(z, i as int));
            }
            channels.push(samples);
            ch += 1;
        }
        assert(call_ensures(T::default, (), z));
        let b = AudioBlock { channels, frames_written: block_frames, block_frames };
        assert(forall|ch: int| 0 <= ch < num_channels ==> #[trigger] b.spec_channels()[ch] == repeat(z, block_frames as int));
        b
    }

    /// The number of frames written to this block (only relevant for
    /// write streams).
    pub fn frames_written(&self) -> (r: usize)
        ensures
            r == self.spec_frames_written(),
    {
        self.frames_written
    }

    /// The number of frames allocated to this block.
    pub fn capacity(&self) -> (r: usize)
        ensures
            r == self.spec_capacity(),
    {
        self.block_frames
    }
}

} // verus!
