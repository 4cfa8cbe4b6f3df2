//! The blocks a read stream receives from its IO server.
use vstd::prelude::*;

use crate::write::data::empty_channels;

verus! {

/// A prefetch data block.
pub struct DataBlock<T: Copy + Default + Send> {
    pub block: Vec<Vec<T>>,
}

/// The samples of each channel of `b`.
pub open spec fn block_view<T: Copy + Default + Send>(b: DataBlock<T>) -> Seq<Seq<T>> {
    Seq::new(b.block@.len(), |i: int| b.block@[i]@)
}

/// `n` copies of `x`.
pub open spec fn repeat<T>(x: T, n: int) -> Seq<T> {
    Seq::new(n as nat, |i: int| x)
}

impl<T: Copy + Default + Send> DataBlock<T> {
    /// A new block with `num_channels` empty channels, each with room for
    /// `block_size` frames.
    pub fn new(num_channels: usize, block_size: usize) -> (b: Self)
        ensures
            block_view(b) == empty_channels::<T>(num_channels as int),
    {
        let mut block: Vec<Vec<T>> = Vec::new();
        let mut i: usize = 0;
        while i < num_channels
            invariant
                i <= num_channels,
                block@.len() == i,
                forall|j: int| 0 <= j < i ==> (#[trigger] block@[j])@.len() == 0,
            decreases num_channels - i,
        {
            block.push(Vec::with_capacity(block_size));
            i += 1;
        }
        let b = DataBlock { block };
        assert forall|j: int| 0 <= j < num_channels implies #[trigger] block_view(b)[j]
            =~= Seq::<T>::empty() by {
            assert(b.block@[j]@.len() == 0);
        }
        assert(block_view(b) =~= empty_channels::<T>(num_channels as int));
        b
    }

    /// Removes all samples, keeping the channels.
    pub fn clear(&mut self)
        ensures
            block_view(*final(self)) == empty_channels::<T>(block_view(*old(self)).len() as int),
    {
        let n = self.block.len();
        let mut i: usize = 0;
        while i < n
            invariant
                n == self.block@.len() == old(self).block@.len(),
                i <= n,
                forall|j: int| 0 <= j < i ==> (#[trigger] self.block@[j])@.len() == 0,
            decreases n - i,
        {
            self.block[i].clear();
            i += 1;
        }
        assert forall|j: int| 0 <= j < n implies #[trigger] block_view(*self)[j]
            =~= Seq::<T>::empty() by {
            assert(self.block@[j]@.len() == 0);
        }
        assert(block_view(*self) =~= empty_channels::<T>(n as int));
    }

    /// If the decoder did not fill enough frames, fills the rest of each
    /// channel with the default sample.
    pub(crate) fn ensure_correct_size(&mut self, block_size: usize)
        ensures
            block_view(*final(self)).len() == block_view(*old(self)).len(),
            exists|z: T| #[trigger] call_ensures(T::default, (), z) && forall|i: int|
                0 <= i < block_view(*old(self)).len() ==> #[trigger] block_view(*final(self))[i] == if block_view(
                    *old(self),
                )[i].len() < block_size {
                    block_view(*old(self))[i] + repeat(z, block_size - block_view(*old(self))[i].len())
                } else {
                    block_view(*old(self))[i]
                },
    {
        let z = T::default();
        let n = self.block.len();
        let mut i: usize = 0;
        while i < n
            invariant
                n == self.block@.len() == old(self).block@.len(),
                i <= n,
                forall|j: int|
                    0 <= j < i ==> (#[trigger] self.block@[j])@ == if old(self).block@[j]@.len()
                        < block_size {
                        old(self).block@[j]@ + repeat(z, block_size - old(self).block@[j]@.len())
                    } else {
                        old(self).block@[j]@
                    },
                forall|j: int| i <= j < n ==> (#[trigger] self.block@[j]) == old(self).block@[j],
            decreases n - i,
        {
            if self.block[i].len() < block_size {
                pad_to(&mut self.block[i], block_size, z);
            }
            i += 1;
        }
        assert(call_ensures(T::default, (), z));
    }
}

/// Appends copies of `z` to `v` until it holds `len` elements.
pub fn pad_to<T: Copy>(v: &mut Vec<T>, len: usize, z: T)
    requires
        old(v)@.len() <= len,
    ensures
        final(v)@ == old(v)@ + repeat(z, len - old(v)@.len()),
{
    while v.len() < len
        invariant
            old(v)@.len() <= v@.len() <= len,
            v@ == old(v)@ + repeat(z, v@.len() - old(v)@.len()),
        decreases len - v@.len(),
    {
        v.push(z);
        assert(v@ =~= old(v)@ + repeat(z, v@.len() - old(v)@.len()));
    }
}

/// A cache of consecutive prefetch blocks.
pub struct DataBlockCache<T: Copy + Default + Send> {
    pub blocks: Vec<DataBlock<T>>,
}

impl<T: Copy + Default + Send> DataBlockCache<T> {
    /// A new cache of `num_prefetch_blocks` empty blocks.
    pub fn new(num_channels: usize, num_prefetch_blocks: usize, block_size: usize) -> (c: Self)
        ensures
            c.blocks@.len() == num_prefetch_blocks,
            forall|i: int|
                0 <= i < num_prefetch_blocks ==> block_view(#[trigger] c.blocks@[i])
                    == empty_channels::<T>(num_channels as int),
    {
        let mut blocks: Vec<DataBlock<T>> = Vec::new();
        let mut i: usize = 0;
        while i < num_prefetch_blocks
            invariant
                i <= num_prefetch_blocks,
                blocks@.len() == i,
                forall|j: int|
                    0 <= j < i ==> block_view(#[trigger] blocks@[j]) == empty_channels::<T>(
                        num_channels as int,
                    ),
            decreases num_prefetch_blocks - i,
        {
            blocks.push(DataBlock::new(num_channels, block_size));
            i += 1;
        }
        DataBlockCache { blocks }
    }
}

/// A slot of the prefetch buffer: the block read from the file for it, or
/// the cache whose block it uses instead.
pub struct DataBlockEntry<T: Copy + Default + Send> {
    pub use_cache_index: Option<usize>,
    pub block: Option<DataBlock<T>>,
    pub wanted_start_frame: usize,
}

/// A cache slot: the cache, once received, and the frame it starts at.
pub struct DataBlockCacheEntry<T: Copy + Default + Send> {
    pub cache: Option<DataBlockCache<T>>,
    pub wanted_start_frame: usize,
}

/// The buffers a read stream owns.
pub struct HeapData<T: Copy + Default + Send> {
    pub read_buffer: DataBlock<T>,
    pub prefetch_buffer: Vec<DataBlockEntry<T>>,
    pub caches: Vec<DataBlockCacheEntry<T>>,
}

/// The sample data returned by a read stream.
pub struct ReadData<'a, T: Copy + Default + Send> {
    data: &'a DataBlock<T>,
    len: usize,
    reached_end_of_file: bool,
}

impl<'a, T: Copy + Default + Send> ReadData<'a, T> {
    /// Every channel of the data holds at least `len` samples.
    pub closed spec fn wf(self) -> bool {
        forall|i: int| 0 <= i < self.data.block@.len() ==> self.len <= (#[trigger] self.data.block@[i])@.len()
    }

    /// The samples of each channel.
    pub closed spec fn spec_channels(self) -> Seq<Seq<T>> {
        Seq::new(self.data.block@.len(), |i: int| self.data.block@[i]@.subrange(0, self.len as int))
    }

    pub closed spec fn spec_num_frames(self) -> usize {
        self.len
    }

    pub closed spec fn spec_reached_end_of_file(self) -> bool {
        self.reached_end_of_file
    }

    pub(crate) fn new(data: &'a DataBlock<T>, len: usize, reached_end_of_file: bool) -> (r: Self)
        requires
            forall|i: int| 0 <= i < data.block@.len() ==> len <= (#[trigger] data.block@[i])@.len(),
        ensures
            r.wf(),
            r.spec_num_frames() == len,
            r.spec_reached_end_of_file() == reached_end_of_file,
            r.spec_channels() == Seq::new(
                block_view(*data).len(),
                |i: int| block_view(*data)[i].subrange(0, len as int),
            ),
    {
        let r = Self { data, len, reached_end_of_file };
        assert(r.spec_channels() =~= Seq::new(
            block_view(*data).len(),
            |i: int| block_view(*data)[i].subrange(0, len as int),
        ));
        r
    }

    /// Read a single channel of samples.
    ///
    /// The length of this data will be equal to `ReadData::num_frames()`.
    pub fn read_channel(&self, channel: usize) -> (r: &[T])
        requires
            self.wf(),
            channel < self.spec_channels().len(),
        ensures
            r@ == self.spec_channels()[channel as int],
    {
        vstd::slice::slice_subrange(self.data.block[channel].as_slice(), 0, self.len)
    }

    /// Return the number of channels in this data.
    pub fn num_channels(&self) -> (r: usize)
        ensures
            r == self.spec_channels().len(),
    {
        self.data.block.len()
    }

    /// Return the number of samples in a single channel of data.
    pub fn num_frames(&self) -> (r: usize)
        ensures
            r == self.spec_num_frames(),
    {
        self.len
    }

    /// This returns (true) if the last frame in this data is the end of the file,
    /// (false) otherwise.
    pub fn reached_end_of_file(&self) -> (r: bool)
        ensures
            r == self.spec_reached_end_of_file(),
    {
        self.reached_end_of_file
    }
}

} // verus!
