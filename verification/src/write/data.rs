//! The blocks a write stream fills and hands to its IO server.
use vstd::prelude::*;

verus! {

/// Appends `src[from..to]` to `dst`.
pub fn append_range<T: Copy>(dst: &mut Vec<T>, src: &[T], from: usize, to: usize)
    requires
        from <= to <= src@.len(),
    ensures
        final(dst)@ == old(dst)@ + src@.subrange(from as int, to as int),
{
    let mut i = from;
    while i < to
        invariant
            from <= i <= to <= src@.len(),
            dst@ == old(dst)@ + src@.subrange(from as int, i as int),
        decreases to - i,
    {
        dst.push(src[i]);
        i += 1;
        assert(dst@ =~= old(dst)@ + src@.subrange(from as int, i as int));
    }
}

/// `n` empty channels.
pub open spec fn empty_channels<T>(n: int) -> Seq<Seq<T>> {
    Seq::new(n as nat, |i: int| Seq::<T>::empty())
}

/// Writes `src[from..to]` into `dst` from position `at` on.
pub fn copy_range<T: Copy>(dst: &mut Vec<T>, at: usize, src: &[T], from: usize, to: usize)
    requires
        from <= to <= src@.len(),
        at + (to - from) <= old(dst)@.len(),
    ensures
        final(dst)@.len() == old(dst)@.len(),
        final(dst)@.subrange(0, at as int) == old(dst)@.subrange(0, at as int),
        final(dst)@.subrange(at as int, at + (to - from)) == src@.subrange(from as int, to as int),
{
    let len = dst.len();
    let mut i = from;
    while i < to
        invariant
            from <= i <= to <= src@.len(),
            at + (to - from) <= dst@.len() == old(dst)@.len() == len,
            dst@.subrange(0, at as int) == old(dst)@.subrange(0, at as int),
            dst@.subrange(at as int, at + (i - from)) == src@.subrange(from as int, i as int),
        decreases to - i,
    {
        let ghost before = dst@;
        dst.set(at + (i - from), src[i]);
        i += 1;
        assert(dst@.subrange(0, at as int) =~= before.subrange(0, at as int));
        assert(dst@.subrange(at as int, at + (i - from)) =~= src@.subrange(from as int, i as int)) by {
            assert(before.subrange(at as int, at + (i - 1 - from)) == src@.subrange(from as int, i - 1));
        }
    }
}

/// A block to write data to: one buffer of the block's size per channel,
/// of which the first `written_frames` frames are written.
pub struct WriteBlock<T: Copy + Default + Send> {
    pub(crate) block: Vec<Vec<T>>,
    pub(crate) written_frames: usize,
    pub(crate) restart_count: usize,
}

impl<T: Copy + Default + Send> WriteBlock<T> {
    /// Every channel's buffer has the block's size, and the written frames
    /// fit in it.
    #[verifier::type_invariant]
    closed spec fn inv(self) -> bool {
        &&& forall|i: int| 0 <= i < self.block@.len() ==> #[trigger] self.block@[i]@.len() == self.spec_capacity()
        &&& self.written_frames <= self.spec_capacity()
    }

    /// The number of frames each channel's buffer holds.
    pub closed spec fn spec_capacity(self) -> int {
        if self.block@.len() > 0 {
            self.block@[0]@.len() as int
        } else {
            0
        }
    }

    /// The whole buffer of each channel.
    pub closed spec fn spec_buffers(self) -> Seq<Seq<T>> {
        Seq::new(self.block@.len(), |i: int| self.block@[i]@)
    }

    /// The frames written to each channel.
    pub closed spec fn spec_channels(self) -> Seq<Seq<T>> {
        Seq::new(
            self.block@.len(),
            |i: int| Seq::new(self.written_frames as nat, |k: int| self.block@[i]@[k]),
        )
    }

    /// The number of frames written.
    pub closed spec fn spec_written_frames(self) -> int {
        self.written_frames as int
    }

    /// The stream restart this block was filled in.
    pub closed spec fn spec_restart_count(self) -> usize {
        self.restart_count
    }

    /// Marks the block as filled in the stream restart `restart_count`.
    pub(crate) fn set_restart_count(&mut self, restart_count: usize)
        ensures
            final(self).spec_restart_count() == restart_count,
            final(self).spec_channels() == old(self).spec_channels(),
            final(self).spec_capacity() == old(self).spec_capacity(),
    {
        proof { use_type_invariant(&*self); }
        self.restart_count = restart_count;
    }

    /// All channels hold the same number of frames.
    pub open spec fn is_rectangular(self) -> bool {
        forall|i: int|
            0 <= i < self.spec_channels().len() ==> #[trigger] self.spec_channels()[i].len()
                == self.spec_channels()[0].len()
    }

    /// A new block with `num_channels` channels, each a buffer of
    /// `block_size` default samples, with no frame written yet.
    pub fn new(num_channels: usize, block_size: usize) -> (b: Self)
        ensures
            b.spec_channels() == empty_channels::<T>(num_channels as int),
            b.spec_buffers().len() == num_channels,
            num_channels > 0 ==> b.spec_capacity() == block_size,
            exists|z: T| #[trigger] call_ensures(T::default, (), z) && forall|ch: int|
                0 <= ch < num_channels ==> #[trigger] b.spec_buffers()[ch] == Seq::new(block_size as nat, |i: int| z),
            b.spec_restart_count() == 0,
    {
        let z = T::default();
        let mut block: Vec<Vec<T>> = Vec::new();
        let mut i: usize = 0;
        while i < num_channels
            invariant
                i <= num_channels,
                block@.len() == i,
                forall|j: int| 0 <= j < i ==> (#[trigger] block@[j])@ == Seq::new(block_size as nat, |k: int| z),
            decreases num_channels - i,
        {
            let mut samples: Vec<T> = Vec::with_capacity(block_size);
            let mut k: usize = 0;
            while k < block_size
                invariant
                    k <= block_size,
                    samples@ == Seq::new(k as nat, |x: int| z),
                decreases block_size - k,
            {
                samples.push(z);
                k += 1;
                assert(samples@ =~= Seq::new(k as nat, |x: int| z));
            }
            block.push(samples);
            i += 1;
        }
        assert(call_ensures(T::default, (), z));
        let b = WriteBlock { block, written_frames: 0, restart_count: 0 };
        assert forall|j: int| 0 <= j < num_channels implies #[trigger] b.spec_channels()[j]
            =~= Seq::<T>::empty() by {}
        assert(b.spec_channels() =~= empty_channels::<T>(num_channels as int));
        assert(forall|ch: int| 0 <= ch < num_channels ==> #[trigger] b.spec_buffers()[ch] == Seq::new(block_size as nat, |i: int| z));
        b
    }

    /// The stream restart this block was filled in.
    pub(crate) fn restart_count(&self) -> (r: usize)
        ensures
            r == self.spec_restart_count(),
    {
        self.restart_count
    }

    /// The number of channels of the block.
    pub(crate) fn num_channels(&self) -> (r: usize)
        ensures
            r == self.spec_channels().len(),
    {
        self.block.len()
    }

    /// The number of frames each channel's buffer holds.
    pub(crate) fn capacity(&self) -> (r: usize)
        ensures
            r == self.spec_capacity(),
    {
        if self.block.len() > 0 {
            self.block[0].len()
        } else {
            0
        }
    }

    /// Writes `buffer[ch][from..to]` after the written frames of each
    /// channel `ch`.
    pub(crate) fn append_frames(&mut self, buffer: &[&[T]], from: usize, to: usize)
        requires
            buffer@.len() == old(self).spec_channels().len(),
            from <= to,
            forall|i: int| 0 <= i < buffer@.len() ==> to <= (#[trigger] buffer@[i])@.len(),
            buffer@.len() > 0 ==> old(self).spec_channels()[0].len() + (to - from) <= old(self).spec_capacity(),
        ensures
            final(self).spec_channels().len() == old(self).spec_channels().len(),
            forall|i: int|
                0 <= i < buffer@.len() ==> #[trigger] final(self).spec_channels()[i]
                    == old(self).spec_channels()[i] + buffer@[i]@.subrange(from as int, to as int),
            final(self).spec_restart_count() == old(self).spec_restart_count(),
            final(self).spec_capacity() == old(self).spec_capacity(),
    {
        proof { use_type_invariant(&*self); }
        let n = self.block.len();
        if n == 0 {
            return;
        }
        let w = self.written_frames;
        let cap = self.block[0].len();
        // Take the buffers out while none is counted as written.
        self.written_frames = 0;
        let mut blocks: Vec<Vec<T>> = Vec::new();
        std::mem::swap(&mut blocks, &mut self.block);
        let ghost old_blocks = blocks@;
        let mut ch: usize = 0;
        while ch < n
            invariant
                n == blocks@.len() == old_blocks.len() == buffer@.len(),
                ch <= n,
                w + (to - from) <= cap,
                from <= to,
                old_blocks == old(self).block@,
                forall|i: int| 0 <= i < n ==> (#[trigger] old_blocks[i])@.len() == cap,
                forall|i: int| 0 <= i < buffer@.len() ==> to <= (#[trigger] buffer@[i])@.len(),
                forall|i: int|
                    0 <= i < ch ==> (#[trigger] blocks@[i])@.len() == cap && blocks@[i]@.subrange(0, w + (to - from))
                        == old_blocks[i]@.subrange(0, w as int) + buffer@[i]@.subrange(from as int, to as int),
                forall|i: int| ch <= i < n ==> (#[trigger] blocks@[i]) == old_blocks[i],
            decreases n - ch,
        {
            let ghost b0 = blocks@[ch as int]@;
            copy_range(&mut blocks[ch], w, buffer[ch], from, to);
            proof {
                let b1 = blocks@[ch as int]@;
                assert(b1.subrange(0, w + (to - from)) =~= b1.subrange(0, w as int) + b1.subrange(w as int, w + (to - from)));
                assert(b0.subrange(0, w as int) == old_blocks[ch as int]@.subrange(0, w as int));
            }
            ch += 1;
        }
        assert(blocks@[0]@.len() == cap);
        self.block = blocks;
        self.written_frames = w + (to - from);
        assert forall|i: int| 0 <= i < buffer@.len() implies #[trigger] self.spec_channels()[i]
            == old(self).spec_channels()[i] + buffer@[i]@.subrange(from as int, to as int) by {
            let full = self.block@[i]@.subrange(0, w + (to - from));
            assert(self.spec_channels()[i] =~= full);
            assert(old(self).spec_channels()[i] =~= old_blocks[i]@.subrange(0, w as int));
        }
    }

    /// The buffer of each channel, of which the first
    /// [`WriteBlock::written_frames`] frames are written.
    pub fn block(&self) -> (r: &[Vec<T>])
        ensures
            r@.len() == self.spec_buffers().len(),
            r@.len() == self.spec_channels().len(),
            forall|i: int| 0 <= i < r@.len() ==> (#[trigger] r@[i])@ == self.spec_buffers()[i],
    {
        self.block.as_slice()
    }

    /// The number of frames written to this block.
    pub fn written_frames(&self) -> (r: usize)
        ensures
            r == self.spec_written_frames(),
            self.spec_channels().len() > 0 ==> r == self.spec_channels()[0].len(),
            r <= self.spec_capacity(),
            forall|i: int| 0 <= i < self.spec_buffers().len() ==> #[trigger] self.spec_buffers()[i].len()
                == self.spec_capacity(),
            forall|i: int| 0 <= i < self.spec_buffers().len() ==> #[trigger] self.spec_channels()[i]
                == self.spec_buffers()[i].subrange(0, r as int),
    {
        proof { use_type_invariant(self); }
        assert forall|i: int| 0 <= i < self.spec_buffers().len() implies #[trigger] self.spec_channels()[i]
            == self.spec_buffers()[i].subrange(0, self.written_frames as int) by {
            assert(self.spec_channels()[i] =~= self.spec_buffers()[i].subrange(0, self.written_frames as int));
        }
        self.written_frames
    }

    /// Marks no frame as written, keeping the buffers.
    pub fn clear(&mut self)
        ensures
            final(self).spec_channels() == empty_channels::<T>(old(self).spec_channels().len() as int),
            final(self).spec_restart_count() == old(self).spec_restart_count(),
            final(self).spec_capacity() == old(self).spec_capacity(),
            final(self).spec_buffers() == old(self).spec_buffers(),
    {
        proof { use_type_invariant(&*self); }
        self.written_frames = 0;
        assert forall|i: int| 0 <= i < self.block@.len() implies #[trigger] self.spec_channels()[i]
            =~= Seq::<T>::empty() by {}
        assert(self.spec_channels() =~= empty_channels::<T>(old(self).spec_channels().len() as int));
    }
}

/// The blocks a write stream owns.
pub struct HeapData<T: Copy + Default + Send> {
    pub block_pool: Vec<WriteBlock<T>>,
    pub current_block: Option<WriteBlock<T>>,
    pub next_block: Option<WriteBlock<T>>,
}

} // verus!
