//! The client side of a read stream: it reads prefetched blocks on the
//! realtime thread and asks the IO server for the blocks ahead.
use vstd::prelude::*;

use super::data::{
    block_view, pad_to, repeat, DataBlockCache, DataBlockCacheEntry, DataBlockEntry, HeapData,
};
use super::error::{FatalReadError, ReadError};
use super::{ClientToServerMsg, DataBlock, Decoder, ReadData, ServerToClientMsg};
use crate::channel;
use crate::write::data::append_range;
use crate::FileInfo;

verus! {

/// Describes how to search for suitable caches when seeking in a [`ReadDiskStream`].
///
/// If a suitable cache is found, then reading can resume immediately. If not, then
/// the stream will need to buffer before it can read data.
#[derive(Debug, Clone, Copy, PartialEq, Eq, Structural)]
pub enum SeekMode {
    /// Automatically search for a suitable cache to use. This is the default mode.
    Auto,
    /// Only try one cache with the given index.
    TryOne(usize),
    /// Try the given cache with the given index, and if it is not suitable, automatically
    /// search for a suitable one.
    TryOneThenAuto(usize),
    /// Seek without searching for a suitable cache. This **will** cause the stream
    /// to buffer.
    NoCache,
}

impl Default for SeekMode {
    fn default() -> (r: Self)
        ensures
            r == SeekMode::Auto,
    {
        SeekMode::Auto
    }
}

/// What one round of filling a buffer from a stream did.
#[derive(Debug, Clone, Copy, PartialEq, Eq, Structural)]
pub enum FillStep {
    /// The buffer is full: nothing was read.
    Full,
    /// The stream is buffering: nothing was read.
    NotReady,
    /// Frames were read into the buffer, which now holds `frames_written`
    /// frames; whether the end of the file was reached.
    Read { frames_written: usize, reached_end_of_file: bool },
}

/// Whether `buffer` has `nc` channels, all of the same length.
pub open spec fn valid_buffer<T>(buffer: Seq<Vec<T>>, nc: int) -> bool {
    &&& buffer.len() == nc
    &&& nc > 0
    &&& forall|ch: int| 0 <= ch < nc ==> (#[trigger] buffer[ch])@.len() == buffer[0]@.len()
}

/// `s` with `data` written over it from position `at` on.
pub open spec fn overwrite<T>(s: Seq<T>, at: int, data: Seq<T>) -> Seq<T> {
    s.subrange(0, at) + data + s.subrange(at + data.len(), s.len() as int)
}

/// What a slot of the prefetch buffer holds.
pub struct EntryView<T> {
    pub use_cache_index: Option<usize>,
    pub block: Option<Seq<Seq<T>>>,
    pub wanted_start_frame: usize,
}

/// What a cache slot holds.
pub struct CacheView<T> {
    pub cache: Option<Seq<Seq<Seq<T>>>>,
    pub wanted_start_frame: usize,
}

pub open spec fn entry_view<T: Copy + Default + Send>(e: DataBlockEntry<T>) -> EntryView<T> {
    EntryView {
        use_cache_index: e.use_cache_index,
        block: match e.block {
            Some(b) => Some(block_view(b)),
            None => None,
        },
        wanted_start_frame: e.wanted_start_frame,
    }
}

pub open spec fn cache_blocks_view<T: Copy + Default + Send>(c: DataBlockCache<T>) -> Seq<Seq<Seq<T>>> {
    Seq::new(c.blocks@.len(), |i: int| block_view(c.blocks@[i]))
}

pub open spec fn cache_view<T: Copy + Default + Send>(c: DataBlockCacheEntry<T>) -> CacheView<T> {
    CacheView {
        cache: match c.cache {
            Some(cb) => Some(cache_blocks_view(cb)),
            None => None,
        },
        wanted_start_frame: c.wanted_start_frame,
    }
}

/// The prefetch slots of a heap.
pub open spec fn heap_entries<T: Copy + Default + Send>(h: HeapData<T>) -> Seq<EntryView<T>> {
    Seq::new(h.prefetch_buffer@.len(), |i: int| entry_view(h.prefetch_buffer@[i]))
}

/// A block by its channels, if there is one.
pub open spec fn opt_block_view<T: Copy + Default + Send>(b: Option<DataBlock<T>>) -> Option<Seq<Seq<T>>> {
    match b {
        Some(x) => Some(block_view(x)),
        None => None,
    }
}

/// A cache by its blocks, if there is one.
pub open spec fn opt_cache_view<T: Copy + Default + Send>(c: Option<DataBlockCache<T>>) -> Option<Seq<Seq<Seq<T>>>> {
    match c {
        Some(x) => Some(cache_blocks_view(x)),
        None => None,
    }
}

/// `m` asks the IO server to read the frames from `start_frame` on into
/// prefetch slot `index`, handing it the block the slot held (`block`).
pub open spec fn is_read_request<D: Decoder>(
    m: ClientToServerMsg<D>,
    index: usize,
    block: Option<Seq<Seq<D::T>>>,
    start_frame: usize,
) -> bool {
    &&& m matches ClientToServerMsg::ReadIntoBlock { block_index, block: b, start_frame: s }
    &&& block_index == index
    &&& opt_block_view(b) == block
    &&& s == start_frame
}

/// `m` asks the IO server to fill cache slot `index` from `start_frame` on,
/// handing it the cache the slot held (`cache`).
pub open spec fn is_cache_request<D: Decoder>(
    m: ClientToServerMsg<D>,
    index: usize,
    cache: Option<Seq<Seq<Seq<D::T>>>>,
    start_frame: usize,
) -> bool {
    &&& m matches ClientToServerMsg::Cache { cache_index, cache: c, start_frame: s }
    &&& cache_index == index
    &&& opt_cache_view(c) == cache
    &&& s == start_frame
}

/// `later` is `earlier` followed by requests that only hand blocks or caches
/// back to the IO server.
pub open spec fn only_disposals_after<D: Decoder>(
    earlier: Seq<ClientToServerMsg<D>>,
    later: Seq<ClientToServerMsg<D>>,
) -> bool {
    &&& earlier.is_prefix_of(later)
    &&& forall|i: int|
        earlier.len() <= i < later.len() ==> (#[trigger] later[i] is DisposeBlock || later[i] is DisposeCache)
}

/// What a request hands back to the IO server, by its contents.
pub enum Returned<T> {
    /// A block, by its channels.
    Block(Seq<Seq<T>>),
    /// A cache, by its blocks.
    Cache(Seq<Seq<Seq<T>>>),
    /// Anything else.
    Other,
}

/// What request `m` hands back to the IO server.
pub open spec fn returned_view<D: Decoder>(m: ClientToServerMsg<D>) -> Returned<D::T> {
    match m {
        ClientToServerMsg::DisposeBlock { block } => Returned::Block(block_view(block)),
        ClientToServerMsg::DisposeCache { cache } => Returned::Cache(cache_blocks_view(cache)),
        _ => Returned::Other,
    }
}

/// What the requests of `reqs` after those of `base` hand back, in order.
pub open spec fn returned_after<D: Decoder>(base: Seq<ClientToServerMsg<D>>, reqs: Seq<ClientToServerMsg<D>>) -> Seq<
    Returned<D::T>,
> {
    Seq::new((reqs.len() - base.len()) as nat, |j: int| returned_view(reqs[base.len() + j]))
}

/// Handing over one more request hands back what it holds.
proof fn lemma_returned_push<D: Decoder>(
    base: Seq<ClientToServerMsg<D>>,
    reqs: Seq<ClientToServerMsg<D>>,
    m: ClientToServerMsg<D>,
)
    requires
        base.len() <= reqs.len(),
    ensures
        returned_after(base, reqs.push(m)) == returned_after(base, reqs).push(returned_view(m)),
{
    assert(returned_after(base, reqs.push(m)) =~= returned_after(base, reqs).push(returned_view(m)));
}

/// The cache slots of a heap.
pub open spec fn heap_caches<T: Copy + Default + Send>(h: HeapData<T>) -> Seq<CacheView<T>> {
    Seq::new(h.caches@.len(), |i: int| cache_view(h.caches@[i]))
}

/// The samples `start..start + n` of a channel; positions past its end are
/// the silence sample `z`.
pub open spec fn chunk<T>(s: Seq<T>, start: int, n: int, z: T) -> Seq<T> {
    if s.len() <= start {
        repeat(z, n)
    } else if s.len() < start + n {
        s.subrange(start, s.len() as int) + repeat(z, start + n - s.len())
    } else {
        s.subrange(start, start + n)
    }
}

/// The frames `start..start + n` of each of the `nc` channels of a block,
/// or silence where there is no block.
pub open spec fn frames_from<T>(src: Option<Seq<Seq<T>>>, nc: int, start: int, n: int, z: T) -> Seq<
    Seq<T>,
> {
    Seq::new(
        nc as nat,
        |ch: int|
            match src {
                Some(b) => chunk(b[ch], start, n, z),
                None => repeat(z, n),
            },
    )
}

/// Channel-wise concatenation.
pub open spec fn concat_channels<T>(a: Seq<Seq<T>>, b: Seq<Seq<T>>) -> Seq<Seq<T>> {
    Seq::new(a.len(), |ch: int| a[ch] + b[ch])
}

/// Whether `cache` holds `npb` blocks of `nc` channels each.
fn cache_shape_ok<T: Copy + Default + Send>(cache: &DataBlockCache<T>, npb: usize, nc: usize) -> (r: bool)
    ensures
        r == (cache.blocks@.len() == npb && forall|j: int|
            0 <= j < npb ==> block_view(#[trigger] cache.blocks@[j]).len() == nc),
{
    if cache.blocks.len() != npb {
        return false;
    }
    let mut j: usize = 0;
    while j < npb
        invariant
            j <= npb == cache.blocks@.len(),
            forall|i: int| 0 <= i < j ==> block_view(#[trigger] cache.blocks@[i]).len() == nc,
        decreases npb - j,
    {
        if cache.blocks[j].block.len() != nc {
            return false;
        }
        j += 1;
    }
    true
}

/// Whether some prefetch slot uses cache `c`.
pub open spec fn some_slot_uses<T>(entries: Seq<EntryView<T>>, c: int) -> bool {
    exists|i: int| 0 <= i < entries.len() && #[trigger] entries[i].use_cache_index == Some(c as usize)
}

/// The prefetch slots after cache `ci` is moved while the temporary cache is
/// `temp`: slots that used `ci` use the temporary cache instead, unless the
/// temporary cache was still relied on, in which case every slot relying on
/// it (old or new) is silenced.
pub open spec fn entries_after_cache_move<T>(
    entries: Seq<EntryView<T>>,
    ci: int,
    temp: int,
    silence_temp: bool,
) -> Seq<EntryView<T>> {
    Seq::new(
        entries.len(),
        |i: int|
            {
                let e = entries[i];
                if e.use_cache_index == Some(ci as usize) || e.use_cache_index == Some(temp as usize) {
                    if silence_temp {
                        EntryView { use_cache_index: None, block: None, wanted_start_frame: e.wanted_start_frame }
                    } else {
                        EntryView { use_cache_index: Some(temp as usize), ..e }
                    }
                } else {
                    e
                }
            },
    )
}

/// The block prefetch slot `i` of heap `h` reads from: the block of its
/// cache if it uses one (none until the cache has arrived), else its own.
pub open spec fn heap_source<T: Copy + Default + Send>(h: HeapData<T>, i: int) -> Option<Seq<Seq<T>>> {
    let e = heap_entries(h)[i];
    match e.use_cache_index {
        Some(c) => match heap_caches(h)[c as int].cache {
            Some(cb) => Some(cb[i]),
            None => None,
        },
        None => e.block,
    }
}

/// Appends `chunk(src, start, n, z)` to `dst`.
fn append_chunk<T: Copy>(dst: &mut Vec<T>, src: &Vec<T>, start: usize, n: usize, z: T)
    requires
        old(dst)@.len() + n <= usize::MAX,
        start + n <= usize::MAX,
    ensures
        final(dst)@ == old(dst)@ + chunk(src@, start as int, n as int, z),
{
    if src.len() <= start {
        let len = dst.len() + n;
        pad_to(dst, len, z);
    } else if src.len() < start + n {
        append_range(dst, src.as_slice(), start, src.len());
        let len = dst.len() + (start + n - src.len());
        pad_to(dst, len, z);
        assert(final(dst)@ =~= old(dst)@ + chunk(src@, start as int, n as int, z));
    } else {
        append_range(dst, src.as_slice(), start, start + n);
    }
}

/// Appends to each channel of the read buffer the frames
/// `start_frame_in_block..start_frame_in_block + frames` of the block that
/// prefetch slot `block_index` reads from, with silence where that block
/// has no data or has not arrived.
fn copy_block_into_read_buffer<T: Copy + Default + Send>(
    heap: &mut HeapData<T>,
    block_index: usize,
    start_frame_in_block: usize,
    frames: usize,
    z: T,
)
    requires
        block_index < old(heap).prefetch_buffer@.len(),
        start_frame_in_block + frames <= usize::MAX,
        forall|ch: int| 0 <= ch < block_view(old(heap).read_buffer).len()
            ==> #[trigger] block_view(old(heap).read_buffer)[ch].len() + frames <= usize::MAX,
        old(heap).prefetch_buffer@[block_index as int].use_cache_index matches Some(c) ==> {
            &&& c < old(heap).caches@.len()
            &&& old(heap).caches@[c as int].cache matches Some(cb) ==> {
                &&& block_index < cb.blocks@.len()
                &&& block_view(cb.blocks@[block_index as int]).len() == block_view(old(heap).read_buffer).len()
            }
        },
        old(heap).prefetch_buffer@[block_index as int].block matches Some(b)
            ==> block_view(b).len() == block_view(old(heap).read_buffer).len(),
    ensures
        final(heap).prefetch_buffer == old(heap).prefetch_buffer,
        final(heap).caches == old(heap).caches,
        block_view(final(heap).read_buffer) == concat_channels(
            block_view(old(heap).read_buffer),
            frames_from(
                heap_source(*old(heap), block_index as int),
                block_view(old(heap).read_buffer).len() as int,
                start_frame_in_block as int,
                frames as int,
                z,
            ),
        ),
{
    let ghost h = *heap;
    let ghost nc = block_view(h.read_buffer).len() as int;
    let entry = &heap.prefetch_buffer[block_index];
    assert(entry_view(*entry) == heap_entries(h)[block_index as int]);
    let source: Option<&DataBlock<T>> = match entry.use_cache_index {
        Some(cache_index) => {
            assert(cache_view(heap.caches@[cache_index as int]) == heap_caches(h)[cache_index as int]);
            match &heap.caches[cache_index].cache {
                Some(cache) => {
                    assert(cache_blocks_view(*cache)[block_index as int] == block_view(cache.blocks@[block_index as int]));
                    Some(&cache.blocks[block_index])
                },
                None => None,
            }
        },
        None => match &entry.block {
            Some(b) => Some(b),
            None => None,
        },
    };
    assert(match source {
        Some(b) => heap_source(h, block_index as int) == Some(block_view(*b)) && block_view(*b).len() == nc,
        None => heap_source(h, block_index as int) is None,
    });
    let target = Ghost(frames_from(heap_source(h, block_index as int), nc, start_frame_in_block as int, frames as int, z));
    let n = heap.read_buffer.block.len();
    let mut ch: usize = 0;
    while ch < n
        invariant
            n == nc == heap.read_buffer.block@.len() == block_view(h.read_buffer).len(),
            ch <= n,
            heap.prefetch_buffer == h.prefetch_buffer,
            heap.caches == h.caches,
            start_frame_in_block + frames <= usize::MAX,
            match source {
                Some(b) => heap_source(h, block_index as int) == Some(block_view(*b)) && block_view(*b).len() == nc,
                None => heap_source(h, block_index as int) is None,
            },
            target@ == frames_from(heap_source(h, block_index as int), nc, start_frame_in_block as int, frames as int, z),
            forall|j: int| 0 <= j < ch ==> #[trigger] heap.read_buffer.block@[j]@ == block_view(h.read_buffer)[j] + target@[j],
            forall|j: int| ch <= j < n ==> #[trigger] heap.read_buffer.block@[j] == h.read_buffer.block@[j],
            forall|j: int| 0 <= j < n ==> #[trigger] block_view(h.read_buffer)[j].len() + frames <= usize::MAX,
        decreases n - ch,
    {
        let ghost before = heap.read_buffer.block@;
        assert(heap.read_buffer.block@[ch as int]@ == block_view(h.read_buffer)[ch as int]);
        assert(block_view(h.read_buffer)[ch as int].len() + frames <= usize::MAX);
        match source {
            Some(b) => {
                append_chunk(&mut heap.read_buffer.block[ch], &b.block[ch], start_frame_in_block, frames, z);
            },
            None => {
                let len = heap.read_buffer.block[ch].len() + frames;
                pad_to(&mut heap.read_buffer.block[ch], len, z);
                assert(heap.read_buffer.block@[ch as int]@ =~= block_view(h.read_buffer)[ch as int] + repeat(z, frames as int));
            },
        }
        proof {
            assert forall|j: int| 0 <= j < n && j != ch implies #[trigger] heap.read_buffer.block@[j] == before[j] by {}
        }
        ch += 1;
    }
    assert(block_view(heap.read_buffer) =~= concat_channels(block_view(h.read_buffer), target@));
}

/// Each channel of `frames_from(.., n, ..)` holds `n` samples.
proof fn lemma_frames_from_len<T>(src: Option<Seq<Seq<T>>>, nc: int, start: int, n: int, z: T)
    requires
        0 <= start,
        0 <= n,
        0 <= nc,
    ensures
        frames_from(src, nc, start, n, z).len() == nc,
        forall|ch: int| 0 <= ch < nc ==> (#[trigger] frames_from(src, nc, start, n, z)[ch]).len() == n,
{
}

/// Polling twice is polling once.
proof fn lemma_polled_trans<D: Decoder>(a: ReadDiskStream<D>, b: ReadDiskStream<D>, c: ReadDiskStream<D>)
    requires
        b.polled_from(a),
        c.polled_from(b),
    ensures
        c.polled_from(a),
{
    assert forall|i: int| 0 <= i < a.spec_entries().len() implies {
        &&& (#[trigger] c.spec_entries()[i]).use_cache_index == a.spec_entries()[i].use_cache_index
        &&& c.spec_entries()[i].wanted_start_frame == a.spec_entries()[i].wanted_start_frame
        &&& a.spec_entries()[i].block is Some ==> c.spec_entries()[i].block is Some
    } by {
        assert(b.spec_entries()[i].use_cache_index == a.spec_entries()[i].use_cache_index);
    }
    assert forall|k: int| 0 <= k < a.spec_caches().len() implies {
        &&& (#[trigger] c.spec_caches()[k]).wanted_start_frame == a.spec_caches()[k].wanted_start_frame
        &&& a.spec_caches()[k].cache is Some ==> c.spec_caches()[k].cache is Some
    } by {
        assert(b.spec_caches()[k].wanted_start_frame == a.spec_caches()[k].wanted_start_frame);
    }
    lemma_disposals_trans(a.spec_requests(), b.spec_requests(), c.spec_requests());
}

/// Handing back blocks and caches after handing back blocks and caches only
/// hands back blocks and caches.
proof fn lemma_disposals_trans<D: Decoder>(
    a: Seq<ClientToServerMsg<D>>,
    b: Seq<ClientToServerMsg<D>>,
    c: Seq<ClientToServerMsg<D>>,
)
    requires
        only_disposals_after(a, b),
        only_disposals_after(b, c),
    ensures
        only_disposals_after(a, c),
{
    channel::lemma_prefix_trans(a, b, c);
    assert forall|i: int| a.len() <= i < c.len() implies (#[trigger] c[i] is DisposeBlock || c[i] is DisposeCache) by {
        if i < b.len() {
            assert(c[i] == b[i]);
        }
    }
}

/// The block and the frame within it of offset `delta` into a cache of
/// `ncb` blocks of `bs` frames.
proof fn lemma_block_of(delta: int, bs: int, ncb: int, npb: int)
    requires
        bs > 0,
        delta >= 0,
        0 <= ncb < npb,
        npb >= 2,
        delta == 0 || delta < ncb * bs,
    ensures
        0 <= delta / bs < npb,
        delta / bs + 1 < npb,
        0 <= delta % bs < bs,
        (delta / bs) * bs + delta % bs == delta,
        (delta / bs) * bs <= delta,
{
    vstd::arithmetic::div_mod::lemma_fundamental_div_mod(delta, bs);
    vstd::arithmetic::mul::lemma_mul_is_commutative(bs, delta / bs);
    if delta != 0 {
        vstd::arithmetic::mul::lemma_mul_is_commutative(ncb, bs);
        vstd::arithmetic::div_mod::lemma_multiply_divide_lt(delta, bs, ncb);
    }
    vstd::arithmetic::div_mod::lemma_div_pos_is_pos(delta, bs);
    if delta == 0 {
        vstd::arithmetic::div_mod::lemma_div_of0(bs);
    }
}

/// A realtime-safe disk-streaming reader of audio files.
#[verifier::reject_recursive_types(D)]
pub struct ReadDiskStream<D: Decoder> {
    to_server_tx: channel::Sender<ClientToServerMsg<D>>,
    from_server_rx: channel::Receiver<ServerToClientMsg<D>>,
    close_signal_tx: rtrb::Producer<Option<HeapData<D::T>>>,
    heap_data: Option<HeapData<D::T>>,
    current_block_index: usize,
    next_block_index: usize,
    current_block_start_frame: usize,
    current_frame_in_block: usize,
    temp_cache_index: usize,
    temp_seek_cache_index: usize,
    num_prefetch_blocks: usize,
    prefetch_size: usize,
    cache_size: usize,
    block_size: usize,
    file_info: FileInfo<D::FileParams>,
    fatal_error: bool,
    /// The sample used for silence.
    silence: D::T,
    num_cache_blocks: Ghost<nat>,
}

impl<D: Decoder> ReadDiskStream<D> {
    pub closed spec fn spec_num_frames(self) -> int {
        self.file_info.num_frames as int
    }

    pub closed spec fn spec_num_channels(self) -> int {
        self.file_info.num_channels as int
    }

    pub closed spec fn spec_block_size(self) -> int {
        self.block_size as int
    }

    pub closed spec fn spec_num_prefetch_blocks(self) -> int {
        self.num_prefetch_blocks as int
    }

    pub closed spec fn spec_prefetch_size(self) -> int {
        self.prefetch_size as int
    }

    pub closed spec fn spec_cache_size(self) -> int {
        self.cache_size as int
    }

    pub closed spec fn spec_current_block_index(self) -> int {
        self.current_block_index as int
    }

    pub closed spec fn spec_next_block_index(self) -> int {
        self.next_block_index as int
    }

    pub closed spec fn spec_current_block_start_frame(self) -> int {
        self.current_block_start_frame as int
    }

    pub closed spec fn spec_current_frame_in_block(self) -> int {
        self.current_frame_in_block as int
    }

    /// The frame of the file the next read starts at.
    pub open spec fn spec_playhead(self) -> int {
        self.spec_current_block_start_frame() + self.spec_current_frame_in_block()
    }

    /// The requests handed to the IO server so far, in order.
    pub closed spec fn spec_requests(self) -> Seq<ClientToServerMsg<D>> {
        self.to_server_tx.spec_handed()
    }

    /// What each look at whether the channel to the IO server is full found,
    /// in order.
    pub closed spec fn spec_channel_looks(self) -> Seq<bool> {
        self.to_server_tx.spec_looks()
    }

    /// What each look at the free slots of the channel to the IO server
    /// found, in order.
    pub closed spec fn spec_slot_looks(self) -> Seq<usize> {
        self.to_server_tx.spec_slot_looks()
    }

    pub closed spec fn spec_fatal_error(self) -> bool {
        self.fatal_error
    }

    pub closed spec fn spec_silence(self) -> D::T {
        self.silence
    }

    /// The prefetch slots.
    pub closed spec fn spec_entries(self) -> Seq<EntryView<D::T>> {
        heap_entries(self.heap_data->0)
    }

    /// The cache slots; the last two are the stream's temporary caches.
    pub closed spec fn spec_caches(self) -> Seq<CacheView<D::T>> {
        heap_caches(self.heap_data->0)
    }

    /// The number of caches the user can fill.
    pub open spec fn spec_num_caches(self) -> int {
        self.spec_caches().len() - 2
    }

    /// The cache that holds a cache the user moved while it was in use.
    pub open spec fn spec_temp_cache_index(self) -> int {
        self.spec_caches().len() - 1
    }

    /// The cache a seek without a suitable cache fills.
    pub open spec fn spec_temp_seek_cache_index(self) -> int {
        self.spec_caches().len() - 2
    }

    /// The largest frame a playhead or a cache may start at, so that the
    /// frames requested ahead of it stay representable.
    pub open spec fn spec_frame_limit(self) -> int {
        usize::MAX - 2 * self.spec_prefetch_size() - self.spec_block_size()
    }

    /// The block the prefetch slot `i` reads from: the block of its cache if
    /// it uses one (none until the cache has arrived), else its own block.
    pub open spec fn spec_source(self, i: int) -> Option<Seq<Seq<D::T>>> {
        let e = self.spec_entries()[i];
        match e.use_cache_index {
            Some(c) => match self.spec_caches()[c as int].cache {
                Some(cb) => Some(cb[i]),
                None => None,
            },
            None => e.block,
        }
    }

    /// Whether the data of prefetch slot `i` has arrived.
    pub open spec fn spec_slot_ready(self, i: int) -> bool {
        let e = self.spec_entries()[i];
        match e.use_cache_index {
            Some(c) => self.spec_caches()[c as int].cache is Some,
            None => e.block is Some,
        }
    }

    pub closed spec fn wf(self) -> bool {
        let heap = self.heap_data->0;
        let nc = self.file_info.num_channels as int;
        let npb = self.num_prefetch_blocks as int;
        let bs = self.block_size as int;
        &&& self.heap_data is Some
        &&& bs > 0
        &&& npb >= 2
        &&& heap.prefetch_buffer@.len() == npb
        &&& heap.caches@.len() >= 2
        &&& self.temp_cache_index == heap.caches@.len() - 1
        &&& self.temp_seek_cache_index == heap.caches@.len() - 2
        &&& self.prefetch_size == npb * bs
        &&& npb <= self.prefetch_size
        &&& self.cache_size == self.num_cache_blocks@ * bs
        &&& self.num_cache_blocks@ < npb
        &&& 2 * self.prefetch_size + bs <= usize::MAX
        &&& self.current_block_index < npb
        &&& self.next_block_index == (self.current_block_index + 1) % npb
        &&& self.current_frame_in_block < bs
        &&& self.current_block_start_frame <= self.spec_frame_limit()
        &&& self.file_info.num_frames <= self.spec_frame_limit()
        &&& block_view(heap.read_buffer).len() == nc
        &&& forall|i: int|
            0 <= i < npb ==> {
                &&& ((#[trigger] heap.prefetch_buffer@[i]).use_cache_index matches Some(c) ==> c
                    < heap.caches@.len())
                &&& (heap.prefetch_buffer@[i].block matches Some(b) ==> block_view(b).len() == nc)
            }
        &&& forall|c: int|
            0 <= c < heap.caches@.len() ==> {
                &&& ((#[trigger] heap.caches@[c]).cache matches Some(cb) ==> {
                    &&& cb.blocks@.len() == npb
                    &&& forall|j: int|
                        0 <= j < npb ==> block_view(#[trigger] cb.blocks@[j]).len() == nc
                })
            }
    }

    /// Builds the client side of a stream whose IO server is already running
    /// and has opened the file at `start_frame`.
    ///
    /// Two cache slots beyond `max_num_caches` are reserved as temporary
    /// caches.
    pub fn create(
        start_frame: usize,
        num_cache_blocks: usize,
        num_look_ahead_blocks: usize,
        max_num_caches: usize,
        block_size: usize,
        file_info: FileInfo<D::FileParams>,
        to_server_tx: rtrb::Producer<ClientToServerMsg<D>>,
        from_server_rx: rtrb::Consumer<ServerToClientMsg<D>>,
        close_signal_tx: rtrb::Producer<Option<HeapData<D::T>>>,
    ) -> (s: Self)
        requires
            block_size > 0,
            num_look_ahead_blocks > 0,
            num_cache_blocks + num_look_ahead_blocks >= 2,
            2 * (num_cache_blocks + num_look_ahead_blocks) * block_size + block_size <= usize::MAX,
            max_num_caches + 2 <= usize::MAX,
            start_frame <= usize::MAX - 2 * (num_cache_blocks + num_look_ahead_blocks) * block_size
                - block_size,
            file_info.num_frames <= usize::MAX - 2 * (num_cache_blocks + num_look_ahead_blocks)
                * block_size - block_size,
        ensures
            s.wf(),
            !s.spec_fatal_error(),
            call_ensures(D::T::default, (), s.spec_silence()),
            s.spec_requests() == Seq::<ClientToServerMsg<D>>::empty(),
            s.spec_num_frames() == file_info.num_frames,
            s.spec_num_channels() == file_info.num_channels,
            s.spec_block_size() == block_size,
            s.spec_num_prefetch_blocks() == num_cache_blocks + num_look_ahead_blocks,
            s.spec_prefetch_size() == (num_cache_blocks + num_look_ahead_blocks) * block_size,
            s.spec_cache_size() == num_cache_blocks * block_size,
            s.spec_current_block_index() == 0,
            s.spec_current_frame_in_block() == 0,
            s.spec_current_block_start_frame() == start_frame,
            s.spec_num_caches() == max_num_caches,
            s.spec_entries() == Seq::new(
                (num_cache_blocks + num_look_ahead_blocks) as nat,
                |i: int|
                    EntryView::<D::T> {
                        use_cache_index: None,
                        block: None,
                        wanted_start_frame: (start_frame + i * block_size) as usize,
                    },
            ),
            s.spec_caches() == Seq::new(
                (max_num_caches + 2) as nat,
                |i: int| CacheView::<D::T> { cache: None, wanted_start_frame: 0 },
            ),
    {
        assert(num_cache_blocks + num_look_ahead_blocks <= 2 * (num_cache_blocks
            + num_look_ahead_blocks) * block_size) by (nonlinear_arith)
            requires block_size >= 1, num_cache_blocks + num_look_ahead_blocks >= 0;
        let num_prefetch_blocks = num_cache_blocks + num_look_ahead_blocks;
        assert(num_prefetch_blocks * block_size <= 2 * num_prefetch_blocks * block_size) by (nonlinear_arith)
            requires num_prefetch_blocks >= 0, block_size >= 0;
        assert(num_cache_blocks * block_size <= num_prefetch_blocks * block_size) by (nonlinear_arith)
            requires num_cache_blocks <= num_prefetch_blocks, block_size >= 0;
        let prefetch_size = num_prefetch_blocks * block_size;
        let read_buffer = DataBlock::new(file_info.num_channels as usize, block_size);

        // Reserve the last two caches as temporary caches.
        let max_num_caches = max_num_caches + 2;
        let mut caches: Vec<DataBlockCacheEntry<D::T>> = Vec::with_capacity(max_num_caches);
        let mut c: usize = 0;
        while c < max_num_caches
            invariant
                c <= max_num_caches,
                caches@.len() == c,
                forall|j: int|
                    0 <= j < c ==> (#[trigger] caches@[j]).cache is None
                        && caches@[j].wanted_start_frame == 0,
            decreases max_num_caches - c,
        {
            caches.push(DataBlockCacheEntry { cache: None, wanted_start_frame: 0 });
            c += 1;
        }

        let mut prefetch_buffer: Vec<DataBlockEntry<D::T>> = Vec::with_capacity(num_prefetch_blocks);
        let mut wanted_start_frame = start_frame;
        let mut i: usize = 0;
        while i < num_prefetch_blocks
            invariant
                i <= num_prefetch_blocks,
                prefetch_buffer@.len() == i,
                wanted_start_frame == start_frame + i * block_size,
                start_frame + num_prefetch_blocks * block_size <= usize::MAX,
                forall|j: int|
                    0 <= j < i ==> (#[trigger] prefetch_buffer@[j]).use_cache_index is None
                        && prefetch_buffer@[j].block is None
                        && prefetch_buffer@[j].wanted_start_frame == start_frame + j * block_size,
            decreases num_prefetch_blocks - i,
        {
            prefetch_buffer.push(DataBlockEntry { use_cache_index: None, block: None, wanted_start_frame });
            assert(start_frame + (i + 1) * block_size <= start_frame + num_prefetch_blocks * block_size)
                by (nonlinear_arith)
                requires i + 1 <= num_prefetch_blocks, block_size >= 0;
            assert(start_frame + (i + 1) * block_size == start_frame + i * block_size + block_size)
                by (nonlinear_arith);
            wanted_start_frame = wanted_start_frame + block_size;
            i += 1;
        }
        let silence = D::T::default();
        let s = Self {
            to_server_tx: channel::Sender::new(to_server_tx),
            from_server_rx: channel::Receiver::new(from_server_rx),
            close_signal_tx,
            heap_data: Some(HeapData { read_buffer, prefetch_buffer, caches }),
            current_block_index: 0,
            next_block_index: 1,
            current_block_start_frame: start_frame,
            current_frame_in_block: 0,
            temp_cache_index: max_num_caches - 1,
            temp_seek_cache_index: max_num_caches - 2,
            num_prefetch_blocks,
            prefetch_size,
            cache_size: num_cache_blocks * block_size,
            block_size,
            file_info,
            fatal_error: false,
            silence,
            num_cache_blocks: Ghost(num_cache_blocks as nat),
        };
        assert(1int % (num_prefetch_blocks as int) == 1) by (nonlinear_arith)
            requires num_prefetch_blocks >= 2;
        assert(s.next_block_index == (s.current_block_index + 1) % (num_prefetch_blocks as int));
        assert(s.prefetch_size == num_prefetch_blocks * block_size);
        assert(s.cache_size == s.num_cache_blocks@ * block_size);
        assert(2 * (num_prefetch_blocks * block_size) == 2 * num_prefetch_blocks * block_size)
            by (nonlinear_arith);
        assert(num_prefetch_blocks <= num_prefetch_blocks * block_size) by (nonlinear_arith)
            requires block_size >= 1, num_prefetch_blocks >= 0;
        assert(2 * s.prefetch_size + block_size <= usize::MAX);
        assert(s.current_block_start_frame <= s.spec_frame_limit());
        assert(s.file_info.num_frames <= s.spec_frame_limit());
        assert(s.wf());
        assert(s.spec_entries() =~= Seq::new(
            num_prefetch_blocks as nat,
            |i: int|
                EntryView::<D::T> {
                    use_cache_index: None,
                    block: None,
                    wanted_start_frame: (start_frame + i * block_size) as usize,
                },
        ));
        assert(s.spec_caches() =~= Seq::new(
            max_num_caches as nat,
            |i: int| CacheView::<D::T> { cache: None, wanted_start_frame: 0 },
        ));
        s
    }

    /// Return the total number of caches available in this stream.
    ///
    /// This is realtime-safe.
    pub fn num_caches(&self) -> (r: usize)
        requires
            self.wf(),
        ensures
            r == self.spec_num_caches(),
    {
        let heap = self.heap_data.as_ref().unwrap();
        heap.caches.len() - 2
    }

    /// Return the current frame of the playhead.
    ///
    /// This is realtime-safe.
    pub fn playhead(&self) -> (r: usize)
        requires
            self.wf(),
        ensures
            r == self.spec_playhead(),
    {
        self.current_block_start_frame + self.current_frame_in_block
    }

    /// Return info about the file.
    ///
    /// This is realtime-safe.
    pub fn info(&self) -> (r: &FileInfo<D::FileParams>)
        ensures
            r.num_frames == self.spec_num_frames(),
            r.num_channels == self.spec_num_channels(),
    {
        &self.file_info
    }

    /// Return the block size used by this decoder.
    ///
    /// This is realtime-safe.
    pub fn block_size(&self) -> (r: usize)
        ensures
            r == self.spec_block_size(),
    {
        self.block_size
    }

    /// Cache `c` has arrived and covers `frame`: it starts at `frame`, or
    /// `frame` lies inside its cached blocks.
    pub open spec fn cache_suitable(self, c: int, frame: int) -> bool {
        let entry = self.spec_caches()[c];
        let start = entry.wanted_start_frame as int;
        &&& entry.cache is Some
        &&& (frame == start || (frame > start && frame < start + self.spec_cache_size()))
    }

    /// The first user cache at or after `c` that covers `frame`.
    pub open spec fn first_suitable_from(self, frame: int, c: int) -> Option<int>
        decreases self.spec_num_caches() - c,
    {
        if c < 0 || c >= self.spec_num_caches() {
            None
        } else if self.cache_suitable(c, frame) {
            Some(c)
        } else {
            self.first_suitable_from(frame, c + 1)
        }
    }

    /// Looks `b` since `a` that all found room, followed by one more look
    /// that found `full`.
    proof fn lemma_one_more_look(a: Seq<bool>, b: Seq<bool>, full: bool)
        requires
            a.is_prefix_of(b),
            forall|i: int| 0 <= i < b.len() - a.len() - 1 ==> !#[trigger] b.skip(a.len() as int)[i],
            !(b.len() > a.len() && b.last()),
        ensures
            a.is_prefix_of(b.push(full)),
            b.push(full).skip(a.len() as int).len() > 0,
            b.push(full).skip(a.len() as int).last() == full,
            forall|i: int|
                0 <= i < b.push(full).skip(a.len() as int).len() - 1 ==> !#[trigger] b.push(full).skip(
                    a.len() as int,
                )[i],
    {
        let c = b.push(full);
        assert(c.subrange(0, a.len() as int) =~= a);
        assert forall|i: int| 0 <= i < c.skip(a.len() as int).len() - 1 implies !#[trigger] c.skip(a.len() as int)[i] by {
            assert(c.skip(a.len() as int)[i] == b[a.len() + i]);
            if i < b.len() - a.len() - 1 {
                assert(b.skip(a.len() as int)[i] == b[a.len() + i]);
            } else {
                assert(a.len() + i == b.len() - 1);
            }
        }
    }

    /// The first suitable cache depends only on the caches and their size.
    proof fn lemma_first_suitable_same(self, other: Self, frame: int, c: int)
        requires
            self.spec_caches() == other.spec_caches(),
            self.spec_cache_size() == other.spec_cache_size(),
            self.spec_num_caches() == other.spec_num_caches(),
        ensures
            self.first_suitable_from(frame, c) == other.first_suitable_from(frame, c),
        decreases self.spec_num_caches() - c,
    {
        if 0 <= c < self.spec_num_caches() && !self.cache_suitable(c, frame) {
            self.lemma_first_suitable_same(other, frame, c + 1);
        }
    }

    /// The cache a seek to `frame` uses.
    pub open spec fn found_cache(self, frame: int, mode: SeekMode) -> Option<int> {
        match mode {
            SeekMode::TryOne(c) => if self.cache_suitable(c as int, frame) {
                Some(c as int)
            } else {
                None
            },
            SeekMode::TryOneThenAuto(c) => if self.cache_suitable(c as int, frame) {
                Some(c as int)
            } else {
                self.first_suitable_from(frame, 0)
            },
            SeekMode::Auto => self.first_suitable_from(frame, 0),
            SeekMode::NoCache => None,
        }
    }

    /// Everything polling the IO server keeps: the position, the sizes, and
    /// which block or cache each prefetch slot wants; blocks and caches can
    /// only arrive, and a fatal error can only appear.
    pub open spec fn polled_from(self, old: Self) -> bool {
        &&& self.wf()
        &&& self.spec_num_frames() == old.spec_num_frames()
        &&& self.spec_num_channels() == old.spec_num_channels()
        &&& self.spec_block_size() == old.spec_block_size()
        &&& self.spec_num_prefetch_blocks() == old.spec_num_prefetch_blocks()
        &&& self.spec_prefetch_size() == old.spec_prefetch_size()
        &&& self.spec_cache_size() == old.spec_cache_size()
        &&& self.spec_current_block_index() == old.spec_current_block_index()
        &&& self.spec_next_block_index() == old.spec_next_block_index()
        &&& self.spec_current_block_start_frame() == old.spec_current_block_start_frame()
        &&& self.spec_current_frame_in_block() == old.spec_current_frame_in_block()
        &&& self.spec_silence() == old.spec_silence()
        &&& only_disposals_after(old.spec_requests(), self.spec_requests())
        &&& old.spec_fatal_error() ==> self.spec_fatal_error()
        &&& self.spec_entries().len() == old.spec_entries().len()
        &&& self.spec_caches().len() == old.spec_caches().len()
        &&& forall|i: int|
            0 <= i < old.spec_entries().len() ==> {
                &&& (#[trigger] self.spec_entries()[i]).use_cache_index
                    == old.spec_entries()[i].use_cache_index
                &&& self.spec_entries()[i].wanted_start_frame
                    == old.spec_entries()[i].wanted_start_frame
                &&& old.spec_entries()[i].block is Some ==> self.spec_entries()[i].block is Some
            }
        &&& forall|c: int|
            0 <= c < old.spec_caches().len() ==> {
                &&& (#[trigger] self.spec_caches()[c]).wanted_start_frame
                    == old.spec_caches()[c].wanted_start_frame
                &&& old.spec_caches()[c].cache is Some ==> self.spec_caches()[c].cache is Some
            }
    }

    /// All fields but the buffers and the channels are those of `other`.
    closed spec fn same_fields_but_heap(self, other: Self) -> bool {
        &&& self.current_block_index == other.current_block_index
        &&& self.next_block_index == other.next_block_index
        &&& self.current_block_start_frame == other.current_block_start_frame
        &&& self.current_frame_in_block == other.current_frame_in_block
        &&& self.temp_cache_index == other.temp_cache_index
        &&& self.temp_seek_cache_index == other.temp_seek_cache_index
        &&& self.num_prefetch_blocks == other.num_prefetch_blocks
        &&& self.prefetch_size == other.prefetch_size
        &&& self.cache_size == other.cache_size
        &&& self.block_size == other.block_size
        &&& self.file_info == other.file_info
        &&& self.fatal_error == other.fatal_error
        &&& self.silence == other.silence
        &&& self.num_cache_blocks == other.num_cache_blocks
    }

    /// Everything the contracts observe is unchanged.
    pub open spec fn same_state(self, other: Self) -> bool {
        &&& self.polled_from(other)
        &&& self.spec_fatal_error() == other.spec_fatal_error()
        &&& self.spec_entries() == other.spec_entries()
        &&& self.spec_caches() == other.spec_caches()
        &&& self.spec_requests() == other.spec_requests()
    }

    /// The replies taken from the IO server so far, in order.
    pub closed spec fn spec_received(self) -> Seq<ServerToClientMsg<D>> {
        self.from_server_rx.spec_received()
    }

    /// `m` is a block that answers the latest request of prefetch slot `i`:
    /// it is for that slot, has the stream's channels, and starts where the
    /// slot now wants.
    pub open spec fn answers_slot(self, m: ServerToClientMsg<D>, i: int) -> bool {
        &&& m matches ServerToClientMsg::ReadIntoBlockRes { block_index, block, wanted_start_frame }
        &&& block_index == i
        &&& 0 <= i < self.spec_num_prefetch_blocks()
        &&& block_view(block).len() == self.spec_num_channels()
        &&& wanted_start_frame == self.spec_entries()[i].wanted_start_frame
    }

    /// The block of the last of `msgs` that answers slot `i`, if any.
    pub open spec fn last_answer(self, msgs: Seq<ServerToClientMsg<D>>, i: int) -> Option<Seq<Seq<D::T>>>
        decreases msgs.len(),
    {
        if msgs.len() == 0 {
            None
        } else if self.answers_slot(msgs.last(), i) {
            Some(block_view(msgs.last()->ReadIntoBlockRes_block))
        } else {
            self.last_answer(msgs.drop_last(), i)
        }
    }

    /// `m` is a cache that answers the latest request of cache slot `c`: it
    /// is for that slot, has the stream's shape, and starts where the slot
    /// now wants.
    pub open spec fn answers_cache(self, m: ServerToClientMsg<D>, c: int) -> bool {
        &&& m matches ServerToClientMsg::CacheRes { cache_index, cache, wanted_start_frame }
        &&& cache_index == c
        &&& 0 <= c < self.spec_caches().len()
        &&& cache.blocks@.len() == self.spec_num_prefetch_blocks()
        &&& forall|j: int|
            0 <= j < self.spec_num_prefetch_blocks() ==> block_view(#[trigger] cache.blocks@[j]).len()
                == self.spec_num_channels()
        &&& wanted_start_frame == self.spec_caches()[c].wanted_start_frame
    }

    /// The cache of the last of `msgs` that answers cache slot `c`, if any.
    pub open spec fn last_cache_answer(self, msgs: Seq<ServerToClientMsg<D>>, c: int) -> Option<
        Seq<Seq<Seq<D::T>>>,
    >
        decreases msgs.len(),
    {
        if msgs.len() == 0 {
            None
        } else if self.answers_cache(msgs.last(), c) {
            Some(cache_blocks_view(msgs.last()->CacheRes_cache))
        } else {
            self.last_cache_answer(msgs.drop_last(), c)
        }
    }

    /// The block prefetch slot `i` holds once the replies `msgs` are taken.
    pub open spec fn slot_block_after(self, msgs: Seq<ServerToClientMsg<D>>, i: int) -> Option<Seq<Seq<D::T>>> {
        match self.last_answer(msgs, i) {
            Some(b) => Some(b),
            None => self.spec_entries()[i].block,
        }
    }

    /// The cache cache slot `c` holds once the replies `msgs` are taken.
    pub open spec fn slot_cache_after(self, msgs: Seq<ServerToClientMsg<D>>, c: int) -> Option<
        Seq<Seq<Seq<D::T>>>,
    > {
        match self.last_cache_answer(msgs, c) {
            Some(cb) => Some(cb),
            None => self.spec_caches()[c].cache,
        }
    }

    /// What taking the replies `msgs` hands back to the IO server, in order:
    /// for a block or cache that answers its slot's latest request, the one
    /// it replaces, if any; for any other block or cache, itself.
    pub open spec fn handed_back(self, msgs: Seq<ServerToClientMsg<D>>) -> Seq<Returned<D::T>>
        decreases msgs.len(),
    {
        if msgs.len() == 0 {
            Seq::empty()
        } else {
            let prev = msgs.drop_last();
            let m = msgs.last();
            self.handed_back(prev) + match m {
                ServerToClientMsg::ReadIntoBlockRes { block_index, block, .. } => if self.answers_slot(
                    m,
                    block_index as int,
                ) {
                    match self.slot_block_after(prev, block_index as int) {
                        Some(b) => seq![Returned::Block(b)],
                        None => Seq::empty(),
                    }
                } else {
                    seq![Returned::Block(block_view(block))]
                },
                ServerToClientMsg::CacheRes { cache_index, cache, .. } => if self.answers_cache(
                    m,
                    cache_index as int,
                ) {
                    match self.slot_cache_after(prev, cache_index as int) {
                        Some(cb) => seq![Returned::Cache(cb)],
                        None => Seq::empty(),
                    }
                } else {
                    seq![Returned::Cache(cache_blocks_view(cache))]
                },
                _ => Seq::empty(),
            }
        }
    }

    /// Retrieves the blocks and caches the IO server has sent. A block or
    /// cache is kept only if it answers the latest request for its slot;
    /// otherwise (and for what it replaces) it is handed back to the server
    /// to be reused.
    fn poll(&mut self) -> (r: Result<(), ReadError<D::FatalError>>)
        requires
            old(self).wf(),
        ensures
            // Before taking each reply it looks for room to hand back what it
            // replaces; it stops for want of room exactly when a look finds
            // the channel full.
            old(self).spec_channel_looks().is_prefix_of(final(self).spec_channel_looks()),
            ({
                let looks = final(self).spec_channel_looks().skip(old(self).spec_channel_looks().len() as int);
                &&& forall|i: int| 0 <= i < looks.len() - 1 ==> !#[trigger] looks[i]
                &&& (r == Err::<(), ReadError<D::FatalError>>(ReadError::IOServerChannelFull)) <==> (looks.len() > 0
                    && looks.last())
            }),
            final(self).spec_slot_looks() == old(self).spec_slot_looks(),
            final(self).polled_from(*old(self)),
            old(self).spec_fatal_error() ==> r == Err::<(), ReadError<D::FatalError>>(
                ReadError::FatalError(FatalReadError::StreamClosed),
            ) && final(self).same_state(*old(self)),
            r is Ok ==> !final(self).spec_fatal_error(),
            r matches Err(e) ==> (e is FatalError && final(self).spec_fatal_error())
                || e is IOServerChannelFull,
            old(self).spec_received().is_prefix_of(final(self).spec_received()),
            ({
                let got = final(self).spec_received().skip(old(self).spec_received().len() as int);
                !old(self).spec_fatal_error() ==> {
                    // A fatal error of the server ends the poll and is reported.
                    &&& (r is Err && !(r->Err_0 is IOServerChannelFull)) <==> (got.len() > 0
                        && got.last() is FatalError)
                    &&& (got.len() > 0 && got.last() is FatalError) ==> r == Err::<(), ReadError<D::FatalError>>(
                        ReadError::FatalError(FatalReadError::DecoderError(got.last()->FatalError_0)),
                    )
                    // Each slot holds the last block or cache answering its latest
                    // request, if one arrived.
                    &&& forall|i: int|
                        0 <= i < old(self).spec_num_prefetch_blocks() ==> (#[trigger] final(self).spec_entries()[i]).block
                            == match old(self).last_answer(got, i) {
                            Some(b) => Some(b),
                            None => old(self).spec_entries()[i].block,
                        }
                    &&& forall|c: int|
                        0 <= c < old(self).spec_caches().len() ==> (#[trigger] final(self).spec_caches()[c]).cache
                            == match old(self).last_cache_answer(got, c) {
                            Some(cb) => Some(cb),
                            None => old(self).spec_caches()[c].cache,
                        }
                    // Whatever is not kept, or is replaced, goes back.
                    &&& returned_after(old(self).spec_requests(), final(self).spec_requests())
                        == old(self).handed_back(got)
                }
            }),
    {
        let ghost lk0 = self.spec_channel_looks();
        proof {
            assert(lk0.subrange(0, lk0.len() as int) =~= lk0);
            assert(lk0.skip(lk0.len() as int) =~= Seq::<bool>::empty());
        }
        if self.fatal_error {
            return Err(ReadError::FatalError(FatalReadError::StreamClosed));
        }
        let nc = self.file_info.num_channels as usize;
        let npb = self.num_prefetch_blocks;
        let ghost r0 = old(self).from_server_rx.spec_received();
        let ghost o = *old(self);
        assert(r0.skip(r0.len() as int) =~= Seq::<ServerToClientMsg<D>>::empty());
        assert(returned_after(o.spec_requests(), self.spec_requests()) =~= Seq::<Returned<D::T>>::empty());
        let available = self.from_server_rx.available();
        let mut k: usize = 0;
        while k < available
            invariant
                self.polled_from(*old(self)),
                lk0 == old(self).spec_channel_looks(),
                lk0.is_prefix_of(self.spec_channel_looks()),
                forall|i: int| lk0.len() <= i < self.spec_channel_looks().len() ==> !#[trigger] self.spec_channel_looks()[i],
                self.spec_slot_looks() == old(self).spec_slot_looks(),
                !self.fatal_error,
                nc == self.file_info.num_channels,
                npb == self.num_prefetch_blocks,
                o == *old(self),
                r0 == old(self).from_server_rx.spec_received(),
                r0.is_prefix_of(self.from_server_rx.spec_received()),
                ({
                    let got = self.from_server_rx.spec_received().skip(r0.len() as int);
                    &&& got.len() == 0 || !(got.last() is FatalError)
                    &&& forall|i: int|
                        0 <= i < o.spec_num_prefetch_blocks() ==> (#[trigger] self.spec_entries()[i]).block
                            == match o.last_answer(got, i) {
                            Some(b) => Some(b),
                            None => o.spec_entries()[i].block,
                        }
                    &&& forall|c: int|
                        0 <= c < o.spec_caches().len() ==> (#[trigger] self.spec_caches()[c]).cache
                            == match o.last_cache_answer(got, c) {
                            Some(cb) => Some(cb),
                            None => o.spec_caches()[c].cache,
                        }
                    &&& returned_after(o.spec_requests(), self.spec_requests()) == o.handed_back(got)
                }),
            decreases available - k,
        {
            k += 1;
            let ghost prev = self.from_server_rx.spec_received().skip(r0.len() as int);
            // Check that there is at-least one slot open before popping the next message.
            let ghost lk1 = self.spec_channel_looks();
            let full = self.to_server_tx.look_full();
            proof {
                let lk = self.spec_channel_looks();
                assert(lk =~= lk1.push(full));
                assert(lk.subrange(0, lk0.len() as int) =~= lk1.subrange(0, lk0.len() as int));
                assert forall|i: int| lk0.len() <= i < lk.len() - 1 implies !lk[i] by {
                    assert(lk[i] == lk1[i]);
                }
            }
            if full {
                proof {
                    let lk = self.spec_channel_looks();
                    let looks = lk.skip(lk0.len() as int);
                    assert forall|i: int| 0 <= i < looks.len() - 1 implies !#[trigger] looks[i] by {
                        assert(looks[i] == lk[lk0.len() + i]);
                    }
                }
                return Err(ReadError::IOServerChannelFull);
            }
            let msg = match self.from_server_rx.pop() {
                Some(msg) => msg,
                None => break,
            };
            let ghost before = *self;
            let ghost got = self.from_server_rx.spec_received().skip(r0.len() as int);
            proof {
                assert(got =~= prev.push(msg));
                assert(got.drop_last() =~= prev);
                assert(got.last() == msg);
                channel::lemma_prefix_trans(r0, old(self).from_server_rx.spec_received(), self.from_server_rx.spec_received());
            }
            match msg {
                ServerToClientMsg::ReadIntoBlockRes { block_index, block, wanted_start_frame } => {
                    let ghost reqs0 = self.to_server_tx.spec_handed();
                    proof {
                        assert(o.handed_back(got) == o.handed_back(prev) + if o.answers_slot(msg, block_index as int) {
                            match o.slot_block_after(prev, block_index as int) {
                                Some(b) => seq![Returned::Block(b)],
                                None => Seq::<Returned<D::T>>::empty(),
                            }
                        } else {
                            seq![Returned::<D::T>::Block(block_view(block))]
                        });
                    }
                    let heap = self.heap_data.as_mut().unwrap();
                    if block_index < npb && block.block.len() == nc
                        && wanted_start_frame == heap.prefetch_buffer[block_index].wanted_start_frame {
                        proof {
                            assert(entry_view(heap.prefetch_buffer@[block_index as int]) == before.spec_entries()[block_index as int]);
                            assert(o.answers_slot(msg, block_index as int));
                        }
                        // Only use results from the latest request.
                        let entry = &mut heap.prefetch_buffer[block_index];
                        if let Some(old_block) = entry.block.take() {
                            let _ = self.to_server_tx.push(ClientToServerMsg::DisposeBlock { block: old_block },
                            );
                            proof {
                                lemma_returned_push(o.spec_requests(), reqs0, ClientToServerMsg::DisposeBlock { block: old_block });
                            }
                        } else {
                            assert(returned_after(o.spec_requests(), self.to_server_tx.spec_handed()) =~= o.handed_back(got));
                        }
                        entry.block = Some(block);
                    } else {
                        proof {
                            if block_index < npb {
                                assert(entry_view(heap.prefetch_buffer@[block_index as int]) == before.spec_entries()[block_index as int]);
                            }
                            assert(!o.answers_slot(msg, block_index as int));
                        }
                        let ghost bv = block_view(block);
                        let _ = self.to_server_tx.push(ClientToServerMsg::DisposeBlock { block },
                        );
                        proof {
                            lemma_returned_push(o.spec_requests(), reqs0, self.to_server_tx.spec_handed().last());
                            assert(self.to_server_tx.spec_handed() =~= reqs0.push(self.to_server_tx.spec_handed().last()));
                        }
                    }
                    proof {
                        assert(self.spec_caches() =~= before.spec_caches());
                        assert forall|i: int| 0 <= i < before.spec_entries().len() implies {
                            &&& (#[trigger] self.spec_entries()[i]).use_cache_index
                                == before.spec_entries()[i].use_cache_index
                            &&& self.spec_entries()[i].wanted_start_frame
                                == before.spec_entries()[i].wanted_start_frame
                            &&& before.spec_entries()[i].block is Some ==> self.spec_entries()[i].block is Some
                        } by {}
                        lemma_polled_trans(*old(self), before, *self);
                    }
                },
                ServerToClientMsg::CacheRes { cache_index, cache, wanted_start_frame } => {
                    let ghost reqs0 = self.to_server_tx.spec_handed();
                    proof {
                        assert(o.handed_back(got) == o.handed_back(prev) + if o.answers_cache(msg, cache_index as int) {
                            match o.slot_cache_after(prev, cache_index as int) {
                                Some(cb) => seq![Returned::Cache(cb)],
                                None => Seq::<Returned<D::T>>::empty(),
                            }
                        } else {
                            seq![Returned::<D::T>::Cache(cache_blocks_view(cache))]
                        });
                    }
                    let heap = self.heap_data.as_mut().unwrap();
                    if cache_index < heap.caches.len() && cache_shape_ok(&cache, npb, nc)
                        && wanted_start_frame == heap.caches[cache_index].wanted_start_frame {
                        proof {
                            assert(cache_view(heap.caches@[cache_index as int]) == before.spec_caches()[cache_index as int]);
                            assert(o.answers_cache(msg, cache_index as int));
                        }
                        // Only use results from the latest request.
                        let entry = &mut heap.caches[cache_index];
                        if let Some(old_cache) = entry.cache.take() {
                            let _ = self.to_server_tx.push(ClientToServerMsg::DisposeCache { cache: old_cache },
                            );
                            proof {
                                lemma_returned_push(o.spec_requests(), reqs0, ClientToServerMsg::DisposeCache { cache: old_cache });
                            }
                        } else {
                            assert(returned_after(o.spec_requests(), self.to_server_tx.spec_handed()) =~= o.handed_back(got));
                        }
                        entry.cache = Some(cache);
                    } else {
                        proof {
                            if cache_index < heap.caches@.len() {
                                assert(cache_view(heap.caches@[cache_index as int]) == before.spec_caches()[cache_index as int]);
                            }
                            assert(!o.answers_cache(msg, cache_index as int));
                        }
                        let _ = self.to_server_tx.push(ClientToServerMsg::DisposeCache { cache },
                        );
                        proof {
                            lemma_returned_push(o.spec_requests(), reqs0, self.to_server_tx.spec_handed().last());
                            assert(self.to_server_tx.spec_handed() =~= reqs0.push(self.to_server_tx.spec_handed().last()));
                        }
                    }
                    proof {
                        assert(self.spec_entries() =~= before.spec_entries());
                        assert forall|c: int| 0 <= c < before.spec_caches().len() implies {
                            &&& (#[trigger] self.spec_caches()[c]).wanted_start_frame
                                == before.spec_caches()[c].wanted_start_frame
                            &&& before.spec_caches()[c].cache is Some ==> self.spec_caches()[c].cache is Some
                        } by {}
                        lemma_polled_trans(*old(self), before, *self);
                    }
                },
                ServerToClientMsg::FatalError(e) => {
                    assert(o.handed_back(got) =~= o.handed_back(prev));
                    self.fatal_error = true;
                    return Err(ReadError::FatalError(FatalReadError::DecoderError(e)));
                },
            }
        }
        Ok(())
    }

    /// Returns whether a cache can be moved seamlessly without silencing current playback (true)
    /// or not (false): it cannot when a prefetch slot relies on the cache
    /// while another relies on the temporary cache.
    ///
    /// This is realtime-safe.
    pub fn can_move_cache(&mut self, cache_index: usize) -> (r: bool)
        requires
            old(self).wf(),
        ensures
            *final(self) == *old(self),
            r == !((exists|i: int|
                0 <= i < old(self).spec_entries().len()
                    && #[trigger] old(self).spec_entries()[i].use_cache_index == Some(cache_index))
                && (exists|i: int|
                0 <= i < old(self).spec_entries().len()
                    && #[trigger] old(self).spec_entries()[i].use_cache_index == Some(
                    old(self).spec_temp_cache_index() as usize,
                ) && cache_index != old(self).spec_temp_cache_index())),
    {
        let heap = self.heap_data.as_ref().unwrap();
        let temp = self.temp_cache_index;
        let n = heap.prefetch_buffer.len();
        let mut using_cache = false;
        let mut using_temp_cache = false;
        let mut i: usize = 0;
        while i < n
            invariant
                n == self.spec_entries().len(),
                i <= n,
                temp == self.spec_temp_cache_index(),
                heap == self.heap_data->0,
                using_cache == exists|j: int|
                    0 <= j < i && #[trigger] self.spec_entries()[j].use_cache_index == Some(cache_index),
                using_temp_cache == exists|j: int|
                    0 <= j < i && #[trigger] self.spec_entries()[j].use_cache_index == Some(temp)
                        && cache_index != temp,
            decreases n - i,
        {
            if let Some(index) = heap.prefetch_buffer[i].use_cache_index {
                if index == cache_index {
                    using_cache = true;
                } else if index == temp {
                    using_temp_cache = true;
                }
            }
            proof {
                let e = self.spec_entries()[i as int];
                assert(e == entry_view(heap.prefetch_buffer@[i as int]));
                if e.use_cache_index == Some(cache_index) {
                    assert(exists|j: int|
                        0 <= j < i + 1 && #[trigger] self.spec_entries()[j].use_cache_index == Some(cache_index));
                }
                if e.use_cache_index == Some(temp) && cache_index != temp {
                    assert(exists|j: int|
                        0 <= j < i + 1 && #[trigger] self.spec_entries()[j].use_cache_index == Some(temp)
                            && cache_index != temp);
                }
                assert((exists|j: int|
                    0 <= j < i + 1 && #[trigger] self.spec_entries()[j].use_cache_index == Some(cache_index))
                    ==> ((exists|j: int|
                    0 <= j < i && #[trigger] self.spec_entries()[j].use_cache_index == Some(cache_index))
                    || e.use_cache_index == Some(cache_index)));
                assert((exists|j: int|
                    0 <= j < i + 1 && #[trigger] self.spec_entries()[j].use_cache_index == Some(temp)
                        && cache_index != temp)
                    ==> ((exists|j: int|
                    0 <= j < i && #[trigger] self.spec_entries()[j].use_cache_index == Some(temp)
                        && cache_index != temp) || (e.use_cache_index == Some(temp) && cache_index != temp)));
            }
            i += 1;
        }
        !(using_cache && using_temp_cache)
    }

    /// Request to cache a new area in the file.
    ///
    /// This is realtime-safe.
    ///
    /// * `cache_index` - The index of the cache to use. Use `ReadDiskStream::num_caches()` to see
    ///    how many caches have been assigned to this stream.
    /// * `start_frame` - The frame in the file to start filling in the cache from. If any portion lies
    ///    outside the end of the file, then that portion will be ignored.
    ///
    /// If the cache already exists, then it will be overwritten. If the cache already starts from this
    /// position, then nothing will be done and (false) will be returned. Otherwise, (true) will be
    /// returned.
    ///
    /// In the case where the position of a cache is changed while the playback stream is currently
    /// relying on it, then it will attempt to store the cache in a temporary buffer to allow playback
    /// to resume seamlessly; if the temporary buffer is itself still relied on, the slots relying on
    /// it are silenced.
    pub fn cache(&mut self, cache_index: usize, start_frame: usize) -> (r: Result<bool, ReadError<D::FatalError>>)
        requires
            old(self).wf(),
        ensures
            final(self).wf(),
            ({
                let o = *old(self);
                let ci = cache_index as int;
                let temp = o.spec_temp_cache_index();
                if o.spec_fatal_error() {
                    r == Err::<bool, ReadError<D::FatalError>>(ReadError::FatalError(FatalReadError::StreamClosed))
                        && final(self).same_state(o)
                } else if ci >= o.spec_num_caches() {
                    r == Err::<bool, ReadError<D::FatalError>>(ReadError::CacheIndexOutOfRange {
                        index: cache_index,
                        num_caches: o.spec_num_caches() as usize,
                    }) && final(self).same_state(o)
                } else if start_frame == o.spec_caches()[ci].wanted_start_frame
                    && o.spec_caches()[ci].cache is Some {
                    r == Ok::<bool, ReadError<D::FatalError>>(false) && final(self).same_state(o)
                } else {
                    match r {
                        Ok(b) => {
                            let using_cache = some_slot_uses(o.spec_entries(), ci);
                            let silence_temp = using_cache && some_slot_uses(o.spec_entries(), temp)
                                && o.spec_caches()[temp].cache is Some;
                            &&& b
                            // Blocks and caches no longer used go back, then the cache is
                            // asked for.
                            &&& final(self).spec_requests().len() > o.spec_requests().len()
                            &&& only_disposals_after(o.spec_requests(), final(self).spec_requests().drop_last())
                            &&& is_cache_request(
                                final(self).spec_requests().last(),
                                cache_index,
                                if using_cache {
                                    None
                                } else {
                                    o.spec_caches()[ci].cache
                                },
                                start_frame,
                            )
                            &&& final(self).spec_fatal_error() == o.spec_fatal_error()
                            &&& final(self).spec_playhead() == o.spec_playhead()
                            &&& final(self).spec_current_block_index() == o.spec_current_block_index()
                            &&& final(self).spec_current_frame_in_block() == o.spec_current_frame_in_block()
                            &&& final(self).spec_current_block_start_frame() == o.spec_current_block_start_frame()
                            &&& final(self).spec_num_frames() == o.spec_num_frames()
                            &&& final(self).spec_block_size() == o.spec_block_size()
                            &&& final(self).spec_cache_size() == o.spec_cache_size()
                            &&& final(self).spec_prefetch_size() == o.spec_prefetch_size()
                            &&& final(self).spec_num_prefetch_blocks() == o.spec_num_prefetch_blocks()
                            &&& final(self).spec_silence() == o.spec_silence()
                            &&& final(self).spec_entries() == entries_after_cache_move(
                                o.spec_entries(),
                                ci,
                                temp,
                                silence_temp,
                            )
                            &&& final(self).spec_caches() == o.spec_caches().update(
                                ci,
                                CacheView { cache: None, wanted_start_frame: start_frame },
                            ).update(
                                temp,
                                if using_cache {
                                    CacheView {
                                        cache: o.spec_caches()[ci].cache,
                                        wanted_start_frame: o.spec_caches()[temp].wanted_start_frame,
                                    }
                                } else {
                                    o.spec_caches()[temp]
                                },
                            )
                        },
                        Err(e) => e is IOServerChannelFull && final(self).same_state(o),
                    }
                }
            }),
            // One look at the free slots of the channel decides whether there
            // is room for the request.
            final(self).spec_slot_looks().len() == old(self).spec_slot_looks().len() + 1,
            final(self).spec_slot_looks().drop_last() == old(self).spec_slot_looks(),
            final(self).spec_channel_looks() == old(self).spec_channel_looks(),
            !old(self).spec_fatal_error() && cache_index < old(self).spec_num_caches() && !(start_frame
                == old(self).spec_caches()[cache_index as int].wanted_start_frame
                && old(self).spec_caches()[cache_index as int].cache is Some) ==> (r is Ok <==> final(self).spec_slot_looks().last()
                >= 2 + old(self).spec_num_prefetch_blocks()),
    {
        let ghost sl0 = self.spec_slot_looks();
        let slots = self.to_server_tx.look_slots();
        let r = self.cache_with_slots(slots, cache_index, start_frame);
        proof {
            assert(self.spec_slot_looks() == sl0.push(slots));
            assert(sl0.push(slots).drop_last() =~= sl0);
        }
        r
    }

    /// [`ReadDiskStream::cache`], given the number of free `slots` in the
    /// channel to the IO server as just looked at.
    pub fn cache_with_slots(&mut self, slots: usize, cache_index: usize, start_frame: usize) -> (r: Result<bool, ReadError<D::FatalError>>)
        requires
            old(self).wf(),
        ensures
            final(self).spec_channel_looks() == old(self).spec_channel_looks(),
            final(self).spec_slot_looks() == old(self).spec_slot_looks(),
            // A cache request goes through exactly when the channel to the IO
            // server has room for it.
            !old(self).spec_fatal_error() && cache_index < old(self).spec_num_caches() && !(start_frame
                == old(self).spec_caches()[cache_index as int].wanted_start_frame
                && old(self).spec_caches()[cache_index as int].cache is Some) ==> (r is Ok <==> slots >= 2
                + old(self).spec_num_prefetch_blocks()),
            final(self).wf(),
            ({
                let o = *old(self);
                let ci = cache_index as int;
                let temp = o.spec_temp_cache_index();
                if o.spec_fatal_error() {
                    r == Err::<bool, ReadError<D::FatalError>>(ReadError::FatalError(FatalReadError::StreamClosed))
                        && final(self).same_state(o)
                } else if ci >= o.spec_num_caches() {
                    r == Err::<bool, ReadError<D::FatalError>>(ReadError::CacheIndexOutOfRange {
                        index: cache_index,
                        num_caches: o.spec_num_caches() as usize,
                    }) && final(self).same_state(o)
                } else if start_frame == o.spec_caches()[ci].wanted_start_frame
                    && o.spec_caches()[ci].cache is Some {
                    r == Ok::<bool, ReadError<D::FatalError>>(false) && final(self).same_state(o)
                } else {
                    match r {
                        Ok(b) => {
                            let using_cache = some_slot_uses(o.spec_entries(), ci);
                            let silence_temp = using_cache && some_slot_uses(o.spec_entries(), temp)
                                && o.spec_caches()[temp].cache is Some;
                            &&& b
                            // Blocks and caches no longer used go back, then the cache is
                            // asked for.
                            &&& final(self).spec_requests().len() > o.spec_requests().len()
                            &&& only_disposals_after(o.spec_requests(), final(self).spec_requests().drop_last())
                            &&& is_cache_request(
                                final(self).spec_requests().last(),
                                cache_index,
                                if using_cache {
                                    None
                                } else {
                                    o.spec_caches()[ci].cache
                                },
                                start_frame,
                            )
                            &&& final(self).spec_fatal_error() == o.spec_fatal_error()
                            &&& final(self).spec_playhead() == o.spec_playhead()
                            &&& final(self).spec_current_block_index() == o.spec_current_block_index()
                            &&& final(self).spec_current_frame_in_block() == o.spec_current_frame_in_block()
                            &&& final(self).spec_current_block_start_frame() == o.spec_current_block_start_frame()
                            &&& final(self).spec_num_frames() == o.spec_num_frames()
                            &&& final(self).spec_block_size() == o.spec_block_size()
                            &&& final(self).spec_cache_size() == o.spec_cache_size()
                            &&& final(self).spec_prefetch_size() == o.spec_prefetch_size()
                            &&& final(self).spec_num_prefetch_blocks() == o.spec_num_prefetch_blocks()
                            &&& final(self).spec_silence() == o.spec_silence()
                            &&& final(self).spec_entries() == entries_after_cache_move(
                                o.spec_entries(),
                                ci,
                                temp,
                                silence_temp,
                            )
                            &&& final(self).spec_caches() == o.spec_caches().update(
                                ci,
                                CacheView { cache: None, wanted_start_frame: start_frame },
                            ).update(
                                temp,
                                if using_cache {
                                    CacheView {
                                        cache: o.spec_caches()[ci].cache,
                                        wanted_start_frame: o.spec_caches()[temp].wanted_start_frame,
                                    }
                                } else {
                                    o.spec_caches()[temp]
                                },
                            )
                        },
                        Err(e) => e is IOServerChannelFull && final(self).same_state(o),
                    }
                }
            }),
    {
        if self.fatal_error {
            return Err(ReadError::FatalError(FatalReadError::StreamClosed));
        }
        let temp = self.temp_cache_index;
        let npb = self.num_prefetch_blocks;
        let ghost o = *self;
        let ghost oe = o.spec_entries();
        let ghost oc = o.spec_caches();
        {
            let heap = self.heap_data.as_ref().unwrap();
            if cache_index >= heap.caches.len() - 2 {
                return Err(ReadError::CacheIndexOutOfRange { index: cache_index, num_caches: heap.caches.len() - 2 });
            }
            if start_frame == heap.caches[cache_index].wanted_start_frame && heap.caches[cache_index].cache.is_some() {
                return Ok(false);
            }
        }
        // Check that enough message slots are open.
        if slots < 2 + npb {
            return Err(ReadError::IOServerChannelFull);
        }
        let mut heap_owned = self.heap_data.take().unwrap();
        let heap = &mut heap_owned;
        let ghost ci = cache_index as int;
        let mut cache = {
            let entry = &mut heap.caches[cache_index];
            entry.wanted_start_frame = start_frame;
            entry.cache.take()
        };
        assert(heap_caches(*heap) =~= oc.update(ci, CacheView { cache: None, wanted_start_frame: start_frame }));

        // If any blocks are currently using this cache, then set this cache as the
        // temporary cache and tell each block to use that instead.
        let n = heap.prefetch_buffer.len();
        let ghost caches0 = heap.caches@;
        let mut using_cache = false;
        let mut using_temp_cache = false;
        let mut i: usize = 0;
        while i < n
            invariant
                self.to_server_tx.spec_looks() == old(self).to_server_tx.spec_looks(),
                self.to_server_tx.spec_slot_looks() == old(self).to_server_tx.spec_slot_looks(),
                n == oe.len() == heap.prefetch_buffer@.len(),
                i <= n,
                heap.caches@ == caches0,
                heap.read_buffer == o.heap_data->0.read_buffer,
                cache_index + 1 < temp,
                heap_entries(*heap).len() == n,
                forall|j: int| 0 <= j < i ==> #[trigger] heap_entries(*heap)[j] == if oe[j].use_cache_index
                    == Some(cache_index) {
                    EntryView { use_cache_index: Some(temp), ..oe[j] }
                } else {
                    oe[j]
                },
                forall|j: int| i <= j < n ==> #[trigger] heap_entries(*heap)[j] == oe[j],
                using_cache == exists|j: int| 0 <= j < i && #[trigger] oe[j].use_cache_index == Some(cache_index),
                using_temp_cache == exists|j: int| 0 <= j < i && #[trigger] oe[j].use_cache_index == Some(temp),
            decreases n - i,
        {
            let ghost e = oe[i as int];
            let ghost before = heap_entries(*heap);
            if let Some(index) = heap.prefetch_buffer[i].use_cache_index {
                if index == cache_index {
                    let entry = &mut heap.prefetch_buffer[i];
                    entry.use_cache_index = Some(temp);
                    using_cache = true;
                } else if index == temp {
                    using_temp_cache = true;
                }
            }
            proof {
                assert forall|j: int| 0 <= j < n && j != i implies #[trigger] heap_entries(*heap)[j] == before[j] by {}
                assert(before[i as int] == e);
                assert(heap_entries(*heap)[i as int] == if e.use_cache_index == Some(cache_index) {
                    EntryView { use_cache_index: Some(temp), ..e }
                } else {
                    e
                });
                if e.use_cache_index == Some(cache_index) {
                    assert(exists|j: int| 0 <= j < i + 1 && #[trigger] oe[j].use_cache_index == Some(cache_index));
                }
                if e.use_cache_index == Some(temp) {
                    assert(exists|j: int| 0 <= j < i + 1 && #[trigger] oe[j].use_cache_index == Some(temp));
                }
                assert((exists|j: int| 0 <= j < i + 1 && #[trigger] oe[j].use_cache_index == Some(cache_index))
                    ==> ((exists|j: int| 0 <= j < i && #[trigger] oe[j].use_cache_index == Some(cache_index))
                    || e.use_cache_index == Some(cache_index)));
                assert((exists|j: int| 0 <= j < i + 1 && #[trigger] oe[j].use_cache_index == Some(temp))
                    ==> ((exists|j: int| 0 <= j < i && #[trigger] oe[j].use_cache_index == Some(temp))
                    || e.use_cache_index == Some(temp)));
            }
            i += 1;
        }
        assert(using_cache == some_slot_uses(oe, ci));
        assert(using_temp_cache == some_slot_uses(oe, temp as int));
        let ghost redirected = heap_entries(*heap);
        let ghost silence_temp = using_cache && using_temp_cache && oc[temp as int].cache is Some;

        if using_cache {
            let old_temp = {
                let entry = &mut heap.caches[temp];
                entry.cache.take()
            };
            if let Some(old_cache) = old_temp {
                // If any blocks are currently using the old temporary cache, dispose those blocks.
                if using_temp_cache {
                    let ghost caches1 = heap.caches@;
                    let mut i: usize = 0;
                    while i < n
                        invariant
                            self.to_server_tx.spec_looks() == old(self).to_server_tx.spec_looks(),
                            self.to_server_tx.spec_slot_looks() == old(self).to_server_tx.spec_slot_looks(),
                            n == heap.prefetch_buffer@.len() == redirected.len(),
                            i <= n,
                            heap.caches@ == caches1,
                            self.same_fields_but_heap(o),
                            only_disposals_after(o.spec_requests(), self.to_server_tx.spec_handed()),
                            heap.read_buffer == o.heap_data->0.read_buffer,
                            heap_entries(*heap).len() == n,
                            forall|j: int| 0 <= j < i ==> #[trigger] heap_entries(*heap)[j] == if redirected[j].use_cache_index
                                == Some(temp) {
                                EntryView { use_cache_index: None, block: None, ..redirected[j] }
                            } else {
                                redirected[j]
                            },
                            forall|j: int| i <= j < n ==> #[trigger] heap_entries(*heap)[j] == redirected[j],
                        decreases n - i,
                    {
                        let ghost before = heap_entries(*heap);
                        if heap.prefetch_buffer[i].use_cache_index == Some(temp) {
                            let entry = &mut heap.prefetch_buffer[i];
                            entry.use_cache_index = None;
                            if let Some(block) = entry.block.take() {
                                // Tell the server to deallocate the old block.
                                let _ = self.to_server_tx.push(ClientToServerMsg::DisposeBlock { block });
                            }
                        }
                        proof {
                            assert forall|j: int| 0 <= j < n && j != i implies #[trigger] heap_entries(*heap)[j] == before[j] by {}
                            assert(before[i as int] == redirected[i as int]);
                            assert(heap_entries(*heap)[i as int] == if redirected[i as int].use_cache_index == Some(temp) {
                                EntryView { use_cache_index: None, block: None, ..redirected[i as int] }
                            } else {
                                redirected[i as int]
                            });
                        }
                        i += 1;
                    }
                }
                // Tell the server to deallocate the old temporary cache.
                let _ = self.to_server_tx.push(ClientToServerMsg::DisposeCache { cache: old_cache });
            }
            let moved = cache.take();
            let entry = &mut heap.caches[temp];
            entry.cache = moved;
        }
        let ghost before_cache_req = self.to_server_tx.spec_handed();
        assert(only_disposals_after(o.spec_requests(), before_cache_req));
        assert(opt_cache_view(cache) == if using_cache { None } else { oc[ci].cache });
        let _ = self.to_server_tx.push(ClientToServerMsg::Cache { cache_index, cache, start_frame });
        assert(self.to_server_tx.spec_handed().drop_last() =~= before_cache_req);
        proof {
            assert(heap_entries(*heap) =~= entries_after_cache_move(oe, ci, temp as int, silence_temp));
            let target = oc.update(ci, CacheView { cache: None, wanted_start_frame: start_frame }).update(
                temp as int,
                if using_cache {
                    CacheView { cache: oc[ci].cache, wanted_start_frame: oc[temp as int].wanted_start_frame }
                } else {
                    oc[temp as int]
                },
            );
            assert(heap_caches(*heap) =~= target);
        }
        self.heap_data = Some(heap_owned);
        proof {
            let h = self.heap_data->0;
            let nc = self.file_info.num_channels as int;
            assert(self.spec_entries() == entries_after_cache_move(oe, ci, temp as int, silence_temp));
            assert forall|j: int| 0 <= j < npb implies {
                &&& ((#[trigger] h.prefetch_buffer@[j]).use_cache_index matches Some(c) ==> c < h.caches@.len())
                &&& (h.prefetch_buffer@[j].block matches Some(b) ==> block_view(b).len() == nc)
            } by {
                let e = entries_after_cache_move(oe, ci, temp as int, silence_temp)[j];
                assert(entry_view(h.prefetch_buffer@[j]) == self.spec_entries()[j]);
                assert(self.spec_entries()[j] == e);
                assert(entry_view(o.heap_data->0.prefetch_buffer@[j]) == oe[j]);
                assert(e.use_cache_index matches Some(c) ==> c < h.caches@.len());
                assert(h.prefetch_buffer@[j].use_cache_index == e.use_cache_index);
                let ob = o.heap_data->0.prefetch_buffer@[j];
                assert(o.wf());
                assert(o.file_info.num_channels == self.file_info.num_channels);
                assert(0 <= j < o.num_prefetch_blocks);
                assert(ob.block matches Some(bb) ==> block_view(bb).len() == nc);
                assert(oe[j].block matches Some(b) ==> b.len() == nc);
                assert(e.block matches Some(b) ==> b.len() == nc);
            }
            assert forall|c: int| 0 <= c < h.caches@.len() implies
                ((#[trigger] h.caches@[c]).cache matches Some(cb) ==> {
                    &&& cb.blocks@.len() == npb
                    &&& forall|j: int| 0 <= j < npb ==> block_view(#[trigger] cb.blocks@[j]).len() == nc
                }) by {
                assert(cache_view(h.caches@[c]) == self.spec_caches()[c]);
            }
            assert(h.prefetch_buffer@.len() == npb);
            assert(h.caches@.len() == o.heap_data->0.caches@.len());
            assert(block_view(h.read_buffer).len() == nc);
            assert(self.wf());
        }
        Ok(true)
    }

    /// The buffers of `self` are well formed when they are those of `old`
    /// with slots redirected to existing caches, blocks dropped and caches
    /// emptied, and the position is in range.
    proof fn lemma_heap_wf(self, old: Self)
        requires
            old.wf(),
            self.heap_data is Some,
            self.temp_cache_index == old.temp_cache_index,
            self.temp_seek_cache_index == old.temp_seek_cache_index,
            self.num_prefetch_blocks == old.num_prefetch_blocks,
            self.prefetch_size == old.prefetch_size,
            self.cache_size == old.cache_size,
            self.block_size == old.block_size,
            self.file_info == old.file_info,
            self.num_cache_blocks == old.num_cache_blocks,
            block_view(self.heap_data->0.read_buffer).len() == block_view(old.heap_data->0.read_buffer).len(),
            self.spec_entries().len() == old.spec_entries().len(),
            self.spec_caches().len() == old.spec_caches().len(),
            forall|i: int| 0 <= i < old.spec_entries().len() ==> {
                &&& ((#[trigger] self.spec_entries()[i]).use_cache_index matches Some(c) ==> c < old.spec_caches().len())
                &&& (self.spec_entries()[i].block is None || self.spec_entries()[i].block == old.spec_entries()[i].block)
            },
            forall|c: int| 0 <= c < old.spec_caches().len() ==>
                (#[trigger] self.spec_caches()[c]).cache is None || self.spec_caches()[c].cache == old.spec_caches()[c].cache,
            self.current_block_index < self.num_prefetch_blocks,
            self.next_block_index == (self.current_block_index + 1) % (self.num_prefetch_blocks as int),
            self.current_frame_in_block < self.block_size,
            self.current_block_start_frame <= self.spec_frame_limit(),
        ensures
            self.wf(),
    {
        let h = self.heap_data->0;
        let oh = old.heap_data->0;
        let nc = self.file_info.num_channels as int;
        let npb = self.num_prefetch_blocks as int;
        assert forall|j: int| 0 <= j < npb implies {
            &&& ((#[trigger] h.prefetch_buffer@[j]).use_cache_index matches Some(c) ==> c < h.caches@.len())
            &&& (h.prefetch_buffer@[j].block matches Some(b) ==> block_view(b).len() == nc)
        } by {
            assert(entry_view(h.prefetch_buffer@[j]) == self.spec_entries()[j]);
            assert(entry_view(oh.prefetch_buffer@[j]) == old.spec_entries()[j]);
            assert(oh.prefetch_buffer@[j].block matches Some(b) ==> block_view(b).len() == nc);
        }
        assert forall|c: int| 0 <= c < h.caches@.len() implies
            ((#[trigger] h.caches@[c]).cache matches Some(cb) ==> {
                &&& cb.blocks@.len() == npb
                &&& forall|j: int| 0 <= j < npb ==> block_view(#[trigger] cb.blocks@[j]).len() == nc
            }) by {
            assert(cache_view(h.caches@[c]) == self.spec_caches()[c]);
            assert(cache_view(oh.caches@[c]) == old.spec_caches()[c]);
            if h.caches@[c].cache is Some {
                let cb = h.caches@[c].cache->0;
                let ocb = oh.caches@[c].cache->0;
                assert(cache_blocks_view(cb) == cache_blocks_view(ocb));
                assert(cb.blocks@.len() == ocb.blocks@.len());
                assert forall|j: int| 0 <= j < npb implies block_view(#[trigger] cb.blocks@[j]).len() == nc by {
                    assert(cache_blocks_view(cb)[j] == cache_blocks_view(ocb)[j]);
                    assert(block_view(ocb.blocks@[j]).len() == nc);
                }
            }
        }
    }

    /// The prefetch slot `i` of a well-formed stream can be copied from.
    proof fn lemma_copy_ok(self, i: int)
        requires
            self.wf(),
            0 <= i < self.spec_num_prefetch_blocks(),
        ensures
            self.spec_source(i) == heap_source(self.heap_data->0, i),
            ({
                let h = self.heap_data->0;
                &&& i < h.prefetch_buffer@.len()
                &&& h.prefetch_buffer@[i].use_cache_index matches Some(c) ==> {
                    &&& c < h.caches@.len()
                    &&& h.caches@[c as int].cache matches Some(cb) ==> {
                        &&& i < cb.blocks@.len()
                        &&& block_view(cb.blocks@[i]).len() == block_view(h.read_buffer).len()
                    }
                }
                &&& h.prefetch_buffer@[i].block matches Some(b) ==> block_view(b).len() == block_view(
                    h.read_buffer,
                ).len()
            }),
    {
        let h = self.heap_data->0;
        let e = h.prefetch_buffer@[i];
        if let Some(c) = e.use_cache_index {
            if let Some(cb) = h.caches@[c as int].cache {
                assert(block_view(cb.blocks@[i]).len() == self.file_info.num_channels);
            }
        }
    }

    /// The read buffer holds `n` frames in each channel once it holds a read
    /// of `n` frames from `m`.
    proof fn lemma_read_buffer_len(self, m: Self, n: int)
        requires
            self.heap_data is Some,
            block_view(self.heap_data->0.read_buffer) == m.read_frames(n),
            0 <= n,
            0 <= m.spec_current_frame_in_block() < m.spec_block_size(),
            m.spec_num_channels() >= 0,
        ensures
            forall|i: int| 0 <= i < self.heap_data->0.read_buffer.block@.len()
                ==> n <= (#[trigger] self.heap_data->0.read_buffer.block@[i])@.len(),
            forall|i: int| 0 <= i < m.read_frames(n).len() ==> (#[trigger] m.read_frames(n)[i]).len() == n,
    {
        let rb = self.heap_data->0.read_buffer;
        let f = m.spec_current_frame_in_block();
        let bs = m.spec_block_size();
        let nc = m.spec_num_channels();
        let z = m.spec_silence();
        let cur = m.spec_current_block_index();
        let nx = m.spec_next_block_index();
        lemma_frames_from_len(m.spec_source(cur), nc, f, n, z);
        if f + n > bs {
            lemma_frames_from_len(m.spec_source(cur), nc, f, bs - f, z);
            lemma_frames_from_len(m.spec_source(nx), nc, 0, f + n - bs, z);
        }
        let rf = m.read_frames(n);
        assert forall|i: int| 0 <= i < rf.len() implies (#[trigger] rf[i]).len() == n by {
            if f + n > bs {
                let a = frames_from(m.spec_source(cur), nc, f, bs - f, z);
                let b = frames_from(m.spec_source(nx), nc, 0, f + n - bs, z);
                assert(rf[i] == a[i] + b[i]);
                assert(a[i].len() == bs - f);
                assert(b[i].len() == f + n - bs);
            } else {
                assert(rf[i] == frames_from(m.spec_source(cur), nc, f, n, z)[i]);
            }
        }
        assert forall|i: int| 0 <= i < rb.block@.len() implies n <= (#[trigger] rb.block@[i])@.len() by {
            assert(block_view(rb)[i] == rb.block@[i]@);
            assert(rf[i].len() == n);
        }
    }

    /// Request to seek playback to a new position in the file.
    ///
    /// This is realtime-safe.
    ///
    /// * `frame` - The position in the file to seek to. If this lies outside of the end of
    ///    the file, then playback will return silence.
    /// * `seek_mode` - Describes how to search for a suitable cache to use.
    ///
    /// If a suitable cache is found, then (true) is returned meaning that playback can resume immediately
    /// without any buffering: the slots from the one holding `frame` on use the cache, and the
    /// slots before it are requested from the file, ahead of the cache. Otherwise (false) is
    /// returned: the temporary seek cache is requested at `frame` and every slot uses it.
    pub fn seek(&mut self, frame: usize, seek_mode: SeekMode) -> (r: Result<bool, ReadError<D::FatalError>>)
        requires
            old(self).wf(),
            !old(self).spec_fatal_error() ==> frame <= old(self).spec_frame_limit(),
            !old(self).spec_fatal_error() ==> (seek_mode matches SeekMode::TryOne(c) ==> c < old(self).spec_caches().len()),
            !old(self).spec_fatal_error() ==> (seek_mode matches SeekMode::TryOneThenAuto(c) ==> c
                < old(self).spec_caches().len()),
        ensures
            final(self).wf(),
            ({
                let o = *old(self);
                let bs = o.spec_block_size();
                let npb = o.spec_num_prefetch_blocks();
                if o.spec_fatal_error() {
                    r == Err::<bool, ReadError<D::FatalError>>(ReadError::FatalError(FatalReadError::StreamClosed))
                        && final(self).same_state(o)
                } else {
                    match r {
                        Ok(b) => {
                            &&& final(self).spec_playhead() == frame
                            &&& (b ==> final(self).spec_ready())
                            &&& final(self).spec_fatal_error() == o.spec_fatal_error()
                            &&& final(self).spec_num_frames() == o.spec_num_frames()
                            &&& final(self).spec_block_size() == bs
                            &&& final(self).spec_num_prefetch_blocks() == npb
                            &&& final(self).spec_prefetch_size() == o.spec_prefetch_size()
                            &&& final(self).spec_cache_size() == o.spec_cache_size()
                            &&& final(self).spec_silence() == o.spec_silence()
                            &&& b == (o.found_cache(frame as int, seek_mode) is Some)
                            &&& match o.found_cache(frame as int, seek_mode) {
                                Some(c) => {
                                    let start = o.spec_caches()[c].wanted_start_frame as int;
                                    let bi = (frame - start) / bs;
                                    &&& final(self).spec_current_block_index() == bi
                                    &&& final(self).spec_current_frame_in_block() == (frame - start) % bs
                                    &&& final(self).spec_current_block_start_frame() == start + bi * bs
                                    &&& final(self).spec_caches() == o.spec_caches()
                                    // Read ahead of the cache, then refill the slots before the
                                    // frame's block.
                                    &&& final(self).spec_requests().len() == o.spec_requests().len() + 1 + bi
                                    &&& final(self).spec_requests().subrange(0, o.spec_requests().len() as int)
                                        == o.spec_requests()
                                    &&& final(self).spec_requests()[o.spec_requests().len() as int]
                                        == (ClientToServerMsg::<D>::SeekTo { frame: (start + o.spec_prefetch_size()) as usize })
                                    &&& forall|i: int|
                                        0 <= i < bi ==> is_read_request(
                                            #[trigger] final(self).spec_requests()[o.spec_requests().len() + 1 + i],
                                            i as usize,
                                            o.spec_entries()[i].block,
                                            (start + o.spec_prefetch_size() + i * bs) as usize,
                                        )
                                    &&& final(self).spec_entries() == Seq::new(
                                        npb as nat,
                                        |i: int|
                                            if i >= bi {
                                                EntryView { use_cache_index: Some(c as usize), ..o.spec_entries()[i] }
                                            } else {
                                                EntryView {
                                                    use_cache_index: None,
                                                    block: None,
                                                    wanted_start_frame: (start + o.spec_prefetch_size() + i * bs) as usize,
                                                }
                                            },
                                    )
                                },
                                None => {
                                    let t = o.spec_temp_seek_cache_index();
                                    &&& final(self).spec_current_block_index() == 0
                                    &&& final(self).spec_current_frame_in_block() == 0
                                    // Fill a cache from the frame on, and read ahead of it.
                                    &&& final(self).spec_requests().len() == o.spec_requests().len() + 2
                                    &&& final(self).spec_requests().subrange(0, o.spec_requests().len() as int)
                                        == o.spec_requests()
                                    &&& is_cache_request(
                                        final(self).spec_requests()[o.spec_requests().len() as int],
                                        t as usize,
                                        o.spec_caches()[t].cache,
                                        frame,
                                    )
                                    &&& final(self).spec_requests()[o.spec_requests().len() + 1int]
                                        == (ClientToServerMsg::<D>::SeekTo { frame: (frame + o.spec_prefetch_size()) as usize })
                                    &&& final(self).spec_caches() == o.spec_caches().update(
                                        t,
                                        CacheView { cache: None, wanted_start_frame: frame },
                                    )
                                    &&& final(self).spec_entries() == Seq::new(
                                        npb as nat,
                                        |i: int| EntryView { use_cache_index: Some(t as usize), ..o.spec_entries()[i] },
                                    )
                                },
                            }
                        },
                        Err(e) => e is IOServerChannelFull && final(self).same_state(o),
                    }
                }
            }),
            // One look at the free slots of the channel decides whether there
            // is room for the requests.
            final(self).spec_slot_looks().len() == old(self).spec_slot_looks().len() + 1,
            final(self).spec_slot_looks().drop_last() == old(self).spec_slot_looks(),
            final(self).spec_channel_looks() == old(self).spec_channel_looks(),
            !old(self).spec_fatal_error() ==> (r is Ok <==> final(self).spec_slot_looks().last() >= 3
                + old(self).spec_num_prefetch_blocks()),
    {
        let ghost sl0 = self.spec_slot_looks();
        let slots = self.to_server_tx.look_slots();
        proof {
            let o = *old(self);
            assert(self.spec_entries() == o.spec_entries());
            assert(self.spec_caches() == o.spec_caches());
            assert(self.spec_requests() == o.spec_requests());
            assert(self.spec_temp_seek_cache_index() == o.spec_temp_seek_cache_index());
            self.lemma_first_suitable_same(o, frame as int, 0);
            assert(self.found_cache(frame as int, seek_mode) == o.found_cache(frame as int, seek_mode));
            assert(self.same_state(o));
        }
        let r = self.seek_with_slots(slots, frame, seek_mode);
        proof {
            assert(self.spec_slot_looks() == sl0.push(slots));
            assert(sl0.push(slots).drop_last() =~= sl0);
        }
        r
    }

    /// [`ReadDiskStream::seek`], given the number of free `slots` in the
    /// channel to the IO server as just looked at.
    pub fn seek_with_slots(&mut self, slots: usize, frame: usize, seek_mode: SeekMode) -> (r: Result<bool, ReadError<D::FatalError>>)
        requires
            old(self).wf(),
            !old(self).spec_fatal_error() ==> frame <= old(self).spec_frame_limit(),
            !old(self).spec_fatal_error() ==> (seek_mode matches SeekMode::TryOne(c) ==> c < old(self).spec_caches().len()),
            !old(self).spec_fatal_error() ==> (seek_mode matches SeekMode::TryOneThenAuto(c) ==> c
                < old(self).spec_caches().len()),
        ensures
            final(self).spec_channel_looks() == old(self).spec_channel_looks(),
            final(self).spec_slot_looks() == old(self).spec_slot_looks(),
            // The seek goes through exactly when the channel to the IO server
            // has room for its requests.
            !old(self).spec_fatal_error() ==> (r is Ok <==> slots >= 3 + old(self).spec_num_prefetch_blocks()),
            !old(self).spec_fatal_error() && slots < 3 + old(self).spec_num_prefetch_blocks() ==> r == Err::<
                bool,
                ReadError<D::FatalError>,
            >(ReadError::IOServerChannelFull),
            final(self).wf(),
            ({
                let o = *old(self);
                let bs = o.spec_block_size();
                let npb = o.spec_num_prefetch_blocks();
                if o.spec_fatal_error() {
                    r == Err::<bool, ReadError<D::FatalError>>(ReadError::FatalError(FatalReadError::StreamClosed))
                        && final(self).same_state(o)
                } else {
                    match r {
                        Ok(b) => {
                            &&& final(self).spec_playhead() == frame
                            &&& (b ==> final(self).spec_ready())
                            &&& final(self).spec_fatal_error() == o.spec_fatal_error()
                            &&& final(self).spec_num_frames() == o.spec_num_frames()
                            &&& final(self).spec_block_size() == bs
                            &&& final(self).spec_num_prefetch_blocks() == npb
                            &&& final(self).spec_prefetch_size() == o.spec_prefetch_size()
                            &&& final(self).spec_cache_size() == o.spec_cache_size()
                            &&& final(self).spec_silence() == o.spec_silence()
                            &&& b == (o.found_cache(frame as int, seek_mode) is Some)
                            &&& match o.found_cache(frame as int, seek_mode) {
                                Some(c) => {
                                    let start = o.spec_caches()[c].wanted_start_frame as int;
                                    let bi = (frame - start) / bs;
                                    &&& final(self).spec_current_block_index() == bi
                                    &&& final(self).spec_current_frame_in_block() == (frame - start) % bs
                                    &&& final(self).spec_current_block_start_frame() == start + bi * bs
                                    &&& final(self).spec_caches() == o.spec_caches()
                                    // Read ahead of the cache, then refill the slots before the
                                    // frame's block.
                                    &&& final(self).spec_requests().len() == o.spec_requests().len() + 1 + bi
                                    &&& final(self).spec_requests().subrange(0, o.spec_requests().len() as int)
                                        == o.spec_requests()
                                    &&& final(self).spec_requests()[o.spec_requests().len() as int]
                                        == (ClientToServerMsg::<D>::SeekTo { frame: (start + o.spec_prefetch_size()) as usize })
                                    &&& forall|i: int|
                                        0 <= i < bi ==> is_read_request(
                                            #[trigger] final(self).spec_requests()[o.spec_requests().len() + 1 + i],
                                            i as usize,
                                            o.spec_entries()[i].block,
                                            (start + o.spec_prefetch_size() + i * bs) as usize,
                                        )
                                    &&& final(self).spec_entries() == Seq::new(
                                        npb as nat,
                                        |i: int|
                                            if i >= bi {
                                                EntryView { use_cache_index: Some(c as usize), ..o.spec_entries()[i] }
                                            } else {
                                                EntryView {
                                                    use_cache_index: None,
                                                    block: None,
                                                    wanted_start_frame: (start + o.spec_prefetch_size() + i * bs) as usize,
                                                }
                                            },
                                    )
                                },
                                None => {
                                    let t = o.spec_temp_seek_cache_index();
                                    &&& final(self).spec_current_block_index() == 0
                                    &&& final(self).spec_current_frame_in_block() == 0
                                    // Fill a cache from the frame on, and read ahead of it.
                                    &&& final(self).spec_requests().len() == o.spec_requests().len() + 2
                                    &&& final(self).spec_requests().subrange(0, o.spec_requests().len() as int)
                                        == o.spec_requests()
                                    &&& is_cache_request(
                                        final(self).spec_requests()[o.spec_requests().len() as int],
                                        t as usize,
                                        o.spec_caches()[t].cache,
                                        frame,
                                    )
                                    &&& final(self).spec_requests()[o.spec_requests().len() + 1int]
                                        == (ClientToServerMsg::<D>::SeekTo { frame: (frame + o.spec_prefetch_size()) as usize })
                                    &&& final(self).spec_caches() == o.spec_caches().update(
                                        t,
                                        CacheView { cache: None, wanted_start_frame: frame },
                                    )
                                    &&& final(self).spec_entries() == Seq::new(
                                        npb as nat,
                                        |i: int| EntryView { use_cache_index: Some(t as usize), ..o.spec_entries()[i] },
                                    )
                                },
                            }
                        },
                        Err(e) => e is IOServerChannelFull && final(self).same_state(o),
                    }
                }
            }),
    {
        if self.fatal_error {
            return Err(ReadError::FatalError(FatalReadError::StreamClosed));
        }
        let npb = self.num_prefetch_blocks;
        // Check that enough message slots are open.
        if slots < 3 + npb {
            return Err(ReadError::IOServerChannelFull);
        }
        let ghost o = *self;
        let ghost oe = o.spec_entries();
        let ghost oc = o.spec_caches();
        let bs = self.block_size;
        let cache_size = self.cache_size;
        let prefetch_size = self.prefetch_size;
        let temp_seek = self.temp_seek_cache_index;
        let mut heap = self.heap_data.take().unwrap();
        let num_caches = heap.caches.len() - 2;

        let mut found_cache: Option<usize> = None;
        let tried = match seek_mode {
            SeekMode::TryOne(cache_index) => Some(cache_index),
            SeekMode::TryOneThenAuto(cache_index) => Some(cache_index),
            _ => None,
        };
        if let Some(cache_index) = tried {
            if heap.caches[cache_index].cache.is_some() {
                let cache_start_frame = heap.caches[cache_index].wanted_start_frame;
                if frame == cache_start_frame || (frame > cache_start_frame && frame - cache_start_frame
                    < cache_size) {
                    found_cache = Some(cache_index);
                }
            }
            assert(found_cache is Some <==> o.cache_suitable(cache_index as int, frame as int));
        }
        if found_cache.is_none() {
            let auto_search = match seek_mode {
                SeekMode::Auto | SeekMode::TryOneThenAuto(_) => true,
                SeekMode::NoCache | SeekMode::TryOne(_) => false,
            };
            if auto_search {
                // Check previous caches.
                let mut i: usize = 0;
                while i < num_caches
                    invariant_except_break
                        self.to_server_tx.spec_looks() == old(self).to_server_tx.spec_looks(),
                        self.to_server_tx.spec_slot_looks() == old(self).to_server_tx.spec_slot_looks(),
                        found_cache is None,
                        o.first_suitable_from(frame as int, 0) == o.first_suitable_from(frame as int, i as int),
                    invariant
                        self.to_server_tx.spec_looks() == old(self).to_server_tx.spec_looks(),
                        self.to_server_tx.spec_slot_looks() == old(self).to_server_tx.spec_slot_looks(),
                        i <= num_caches == oc.len() - 2,
                        heap_caches(heap) == oc,
                        heap.caches@.len() == oc.len(),
                        oc == o.spec_caches(),
                        cache_size == o.spec_cache_size(),
                    ensures
                        match found_cache {
                            Some(c) => o.first_suitable_from(frame as int, 0) == Some(c as int) && c < num_caches
                                && o.cache_suitable(c as int, frame as int),
                            None => o.first_suitable_from(frame as int, 0) is None,
                        },
                    decreases num_caches - i,
                {
                    assert(cache_view(heap.caches@[i as int]) == oc[i as int]);
                    if heap.caches[i].cache.is_some() {
                        let cache_start_frame = heap.caches[i].wanted_start_frame;
                        if frame == cache_start_frame || (frame > cache_start_frame && frame
                            - cache_start_frame < cache_size) {
                            found_cache = Some(i);
                            break;
                        }
                    }
                    i += 1;
                }
            }
        }
        assert(match found_cache {
            Some(c) => o.found_cache(frame as int, seek_mode) == Some(c as int) && c < oc.len()
                && o.cache_suitable(c as int, frame as int),
            None => o.found_cache(frame as int, seek_mode) is None,
        });
        let n = heap.prefetch_buffer.len();
        if let Some(cache_index) = found_cache {
            // Find the position in the old cache.
            let cache_start_frame = heap.caches[cache_index].wanted_start_frame;
            let ghost start = cache_start_frame as int;
            let delta = frame - cache_start_frame;
            let block_i = delta / bs;
            let frame_in_block = delta % bs;
            proof {
                assert(o.cache_suitable(cache_index as int, frame as int));
                assert(cache_view(heap.caches@[cache_index as int]) == oc[cache_index as int]);
                lemma_block_of(delta as int, bs as int, o.num_cache_blocks@ as int, npb as int);
            }

            // Tell remaining blocks to use the cache.
            let mut i: usize = block_i;
            while i < n
                invariant
                    self.to_server_tx.spec_looks() == old(self).to_server_tx.spec_looks(),
                    self.to_server_tx.spec_slot_looks() == old(self).to_server_tx.spec_slot_looks(),
                    block_i <= i <= n == npb == oe.len() == heap.prefetch_buffer@.len(),
                    heap.caches@ == o.heap_data->0.caches@,
                    heap.read_buffer == o.heap_data->0.read_buffer,
                    heap_entries(heap).len() == n,
                    forall|j: int| 0 <= j < n ==> #[trigger] heap_entries(heap)[j] == if block_i <= j < i {
                        EntryView { use_cache_index: Some(cache_index), ..oe[j] }
                    } else {
                        oe[j]
                    },
                decreases n - i,
            {
                let ghost before = heap_entries(heap);
                let entry = &mut heap.prefetch_buffer[i];
                entry.use_cache_index = Some(cache_index);
                proof {
                    assert forall|j: int| 0 <= j < n && j != i implies #[trigger] heap_entries(heap)[j] == before[j] by {}
                    assert(before[i as int] == oe[i as int]);
                    assert(heap_entries(heap)[i as int] == EntryView { use_cache_index: Some(cache_index), ..oe[i as int] });
                }
                i += 1;
            }

            // Request the server to start fetching blocks ahead of the cache.
            // This cannot fail because we made sure that a slot is available in
            // the previous step.
            let mut wanted_start_frame = cache_start_frame + prefetch_size;
            let ghost req0 = o.spec_requests();
            let _ = self.to_server_tx.push(ClientToServerMsg::SeekTo { frame: wanted_start_frame });
            assert(self.to_server_tx.spec_handed().subrange(0, req0.len() as int) =~= req0);

            // Fetch remaining blocks.
            let mut i: usize = 0;
            while i < block_i
                invariant
                    self.to_server_tx.spec_looks() == old(self).to_server_tx.spec_looks(),
                    self.to_server_tx.spec_slot_looks() == old(self).to_server_tx.spec_slot_looks(),
                    i <= block_i < n == npb == oe.len() == heap.prefetch_buffer@.len(),
                    heap.caches@ == o.heap_data->0.caches@,
                    heap.read_buffer == o.heap_data->0.read_buffer,
                    self.same_fields_but_heap(o),
                    bs == o.block_size,
                    wanted_start_frame == start + prefetch_size + i * bs,
                    start + prefetch_size + npb * bs <= usize::MAX,
                    self.to_server_tx.spec_handed().len() == req0.len() + 1 + i,
                    self.to_server_tx.spec_handed().subrange(0, req0.len() as int) == req0,
                    self.to_server_tx.spec_handed()[req0.len() as int] == (ClientToServerMsg::<D>::SeekTo { frame: (start + prefetch_size) as usize }),
                    forall|j: int|
                        0 <= j < i ==> is_read_request(
                            #[trigger] self.to_server_tx.spec_handed()[req0.len() + 1 + j],
                            j as usize,
                            oe[j].block,
                            (start + prefetch_size + j * bs) as usize,
                        ),
                    heap_entries(heap).len() == n,
                    forall|j: int| 0 <= j < n ==> #[trigger] heap_entries(heap)[j] == if j >= block_i {
                        EntryView { use_cache_index: Some(cache_index), ..oe[j] }
                    } else if j < i {
                        EntryView {
                            use_cache_index: None,
                            block: None,
                            wanted_start_frame: (start + prefetch_size + j * bs) as usize,
                        }
                    } else {
                        oe[j]
                    },
                decreases block_i - i,
            {
                let ghost before = heap_entries(heap);
                let ghost handed0 = self.to_server_tx.spec_handed();
                assert(before[i as int] == oe[i as int]);
                let entry = &mut heap.prefetch_buffer[i];
                let block = entry.block.take();
                assert(opt_block_view(block) == oe[i as int].block);
                entry.use_cache_index = None;
                entry.wanted_start_frame = wanted_start_frame;
                // This cannot fail because we made sure there are enough slots available
                // in the previous step.
                let _ = self.to_server_tx.push(ClientToServerMsg::ReadIntoBlock { block_index: i, block, start_frame: wanted_start_frame },
                );
                proof {
                    assert(self.to_server_tx.spec_handed().subrange(0, req0.len() as int) =~= req0);
                    assert forall|j: int|
                        0 <= j < i + 1 implies is_read_request(
                            #[trigger] self.to_server_tx.spec_handed()[req0.len() + 1 + j],
                            j as usize,
                            oe[j].block,
                            (start + prefetch_size + j * bs) as usize,
                        ) by {
                        if j < i {
                            assert(self.to_server_tx.spec_handed()[req0.len() + 1 + j] == handed0[req0.len() + 1 + j]);
                        }
                    }
                    assert forall|j: int| 0 <= j < n && j != i implies #[trigger] heap_entries(heap)[j] == before[j] by {}
                    assert(start + prefetch_size + (i + 1) * bs <= start + prefetch_size + npb * bs) by (nonlinear_arith)
                        requires i + 1 <= npb, bs >= 0;
                    assert(start + prefetch_size + (i + 1) * bs == start + prefetch_size + i * bs + bs) by (nonlinear_arith);
                }
                wanted_start_frame = wanted_start_frame + bs;
                i += 1;
            }

            self.current_block_start_frame = cache_start_frame + block_i * bs;
            self.current_frame_in_block = frame_in_block;
            self.current_block_index = block_i;
            self.next_block_index = if block_i + 1 >= npb { 0 } else { block_i + 1 };
            self.heap_data = Some(heap);
            proof {
                let nc = self.file_info.num_channels as int;
                let target = Seq::new(
                    npb as nat,
                    |i: int|
                        if i >= block_i {
                            EntryView { use_cache_index: Some(cache_index), ..oe[i] }
                        } else {
                            EntryView {
                                use_cache_index: None,
                                block: None,
                                wanted_start_frame: (start + prefetch_size + i * bs) as usize,
                            }
                        },
                );
                assert(self.spec_entries() =~= target);
                assert(self.spec_caches() =~= oc);
                if block_i + 1 >= npb {
                    vstd::arithmetic::div_mod::lemma_mod_self_0(npb as int);
                } else {
                    vstd::arithmetic::div_mod::lemma_small_mod((block_i + 1) as nat, npb as nat);
                }
                self.lemma_heap_wf(o);
                assert(self.spec_entries()[block_i as int].use_cache_index == Some(cache_index));
                assert(self.spec_entries()[block_i + 1].use_cache_index == Some(cache_index));
                assert(self.spec_caches()[cache_index as int].cache is Some);
                assert(self.spec_ready());
            }
            Ok(true)
        } else {
            // Create a new temporary seek cache.
            let old_cache = {
                let entry = &mut heap.caches[temp_seek];
                entry.wanted_start_frame = frame;
                entry.cache.take()
            };
            assert(heap_caches(heap) =~= oc.update(temp_seek as int, CacheView { cache: None, wanted_start_frame: frame }));
            // This cannot fail because we made sure that a slot is available in
            // the previous step.
            assert(opt_cache_view(old_cache) == oc[temp_seek as int].cache);
            let _ = self.to_server_tx.push(ClientToServerMsg::Cache { cache_index: temp_seek, cache: old_cache, start_frame: frame },
            );

            // Request the server to start fetching blocks ahead of the cache.
            let _ = self.to_server_tx.push(ClientToServerMsg::SeekTo { frame: frame + prefetch_size });
            assert(self.to_server_tx.spec_handed().subrange(0, o.spec_requests().len() as int) =~= o.spec_requests());

            // Tell each prefetch block to use the cache.
            let ghost caches1 = heap.caches@;
            let mut i: usize = 0;
            while i < n
                invariant
                    self.to_server_tx.spec_looks() == old(self).to_server_tx.spec_looks(),
                    self.to_server_tx.spec_slot_looks() == old(self).to_server_tx.spec_slot_looks(),
                    i <= n == npb == oe.len() == heap.prefetch_buffer@.len(),
                    heap.caches@ == caches1,
                    heap.read_buffer == o.heap_data->0.read_buffer,
                    heap_entries(heap).len() == n,
                    forall|j: int| 0 <= j < n ==> #[trigger] heap_entries(heap)[j] == if j < i {
                        EntryView { use_cache_index: Some(temp_seek), ..oe[j] }
                    } else {
                        oe[j]
                    },
                decreases n - i,
            {
                let ghost before = heap_entries(heap);
                let entry = &mut heap.prefetch_buffer[i];
                entry.use_cache_index = Some(temp_seek);
                proof {
                    assert forall|j: int| 0 <= j < n && j != i implies #[trigger] heap_entries(heap)[j] == before[j] by {}
                    assert(before[i as int] == oe[i as int]);
                    assert(heap_entries(heap)[i as int] == EntryView { use_cache_index: Some(temp_seek), ..oe[i as int] });
                }
                i += 1;
            }

            // Start from beginning of new cache.
            self.current_block_start_frame = frame;
            self.current_frame_in_block = 0;
            self.current_block_index = 0;
            self.next_block_index = 1;
            self.heap_data = Some(heap);
            proof {
                assert(self.spec_entries() =~= Seq::new(
                    npb as nat,
                    |i: int| EntryView { use_cache_index: Some(temp_seek), ..oe[i] },
                ));
                vstd::arithmetic::div_mod::lemma_small_mod(1, npb as nat);
                assert(self.spec_caches() =~= oc.update(temp_seek as int, CacheView { cache: None, wanted_start_frame: frame }));
                self.lemma_heap_wf(o);
            }
            Ok(false)
        }
    }

    /// Whether the data of the current and the next prefetch slots has arrived.
    pub open spec fn spec_ready(self) -> bool {
        self.spec_slot_ready(self.spec_current_block_index()) && self.spec_slot_ready(
            self.spec_next_block_index(),
        )
    }

    /// Returns true if the stream is finished buffering and there is data can be read
    /// right now, false otherwise.
    ///
    /// This is realtime-safe.
    ///
    /// In the case where `false` is returned, then you may choose to continue reading
    /// (which will return silence), or to pause playback temporarily. `false` is also
    /// returned while the IO server's message channel is full.
    pub fn is_ready(&mut self) -> (r: Result<bool, ReadError<D::FatalError>>)
        requires
            old(self).wf(),
        ensures
            final(self).polled_from(*old(self)),
            old(self).spec_fatal_error() ==> r == Err::<bool, ReadError<D::FatalError>>(
                ReadError::FatalError(FatalReadError::StreamClosed),
            ) && final(self).same_state(*old(self)),
            r matches Ok(b) ==> !final(self).spec_fatal_error() && (b ==> final(self).spec_ready()),
            r matches Err(e) ==> (e is FatalError && final(self).spec_fatal_error())
                || e is IOServerChannelFull,
            // A fatal error of the IO server is reported as the decoder's error.
            ({
                let got = final(self).spec_received().skip(old(self).spec_received().len() as int);
                !old(self).spec_fatal_error() && got.len() > 0 && got.last() is FatalError ==> r
                    == Err::<bool, ReadError<D::FatalError>>(
                    ReadError::FatalError(FatalReadError::DecoderError(got.last()->FatalError_0)),
                )
            }),
            // Each look at the channel found room but the last; when that one
            // found it full, the stream is not ready.
            old(self).spec_channel_looks().is_prefix_of(final(self).spec_channel_looks()),
            final(self).spec_slot_looks() == old(self).spec_slot_looks(),
            ({
                let looks = final(self).spec_channel_looks().skip(old(self).spec_channel_looks().len() as int);
                &&& forall|i: int| 0 <= i < looks.len() - 1 ==> !#[trigger] looks[i]
                &&& (r matches Err(ReadError::IOServerChannelFull)) ==> looks.len() > 0 && looks.last()
                &&& r is Ok ==> looks.len() > 0 && r == Ok::<bool, ReadError<D::FatalError>>(
                    !looks.last() && final(self).spec_ready(),
                )
            }),
    {
        if let Err(e) = self.poll() {
            return Err(e);
        }
        let ghost lk = self.spec_channel_looks();
        let full = self.to_server_tx.look_full();
        proof { Self::lemma_one_more_look(old(self).spec_channel_looks(), lk, full); }
        self.is_ready_polled(full)
    }

    /// The part of [`ReadDiskStream::is_ready`] after polling, given whether
    /// the channel to the IO server was `full` when looked at: the stream is
    /// ready when the channel has room and the data of the current and the
    /// next prefetch slots has arrived.
    pub fn is_ready_polled(&mut self, full: bool) -> (r: Result<bool, ReadError<D::FatalError>>)
        requires
            old(self).wf(),
            !old(self).spec_fatal_error(),
        ensures
            *final(self) == *old(self),
            r == Ok::<bool, ReadError<D::FatalError>>(!full && old(self).spec_ready()),
    {
        if full {
            return Ok(false);
        }
        let heap = self.heap_data.as_ref().unwrap();
        let cur = self.current_block_index;
        let next = self.next_block_index;
        proof {
            assert(entry_view(heap.prefetch_buffer@[cur as int]) == self.spec_entries()[cur as int]);
            assert(entry_view(heap.prefetch_buffer@[next as int]) == self.spec_entries()[next as int]);
        }

        // Check if the next two blocks are ready.
        if let Some(cache_index) = heap.prefetch_buffer[cur].use_cache_index {
            assert(cache_view(heap.caches@[cache_index as int]) == self.spec_caches()[cache_index as int]);
            if heap.caches[cache_index].cache.is_none() {
                // Cache has not been received yet.
                return Ok(false);
            }
        } else if heap.prefetch_buffer[cur].block.is_none() {
            // Block has not been received yet.
            return Ok(false);
        }
        if let Some(cache_index) = heap.prefetch_buffer[next].use_cache_index {
            assert(cache_view(heap.caches@[cache_index as int]) == self.spec_caches()[cache_index as int]);
            if heap.caches[cache_index].cache.is_none() {
                // Cache has not been received yet.
                return Ok(false);
            }
        } else if heap.prefetch_buffer[next].block.is_none() {
            // Block has not been received yet.
            return Ok(false);
        }
        Ok(true)
    }

    /// Hands the current prefetch slot to the IO server to be refilled with
    /// the block one prefetch buffer ahead, and moves to the next slot.
    fn advance_to_next_block(&mut self)
        requires
            old(self).wf(),
            old(self).spec_current_block_start_frame() + old(self).spec_block_size()
                <= old(self).spec_frame_limit(),
        ensures
            final(self).wf(),
            final(self).advanced_from(*old(self)),
            final(self).heap_data->0.read_buffer == old(self).heap_data->0.read_buffer,
            final(self).from_server_rx == old(self).from_server_rx,
            final(self).spec_channel_looks() == old(self).spec_channel_looks(),
            final(self).spec_slot_looks() == old(self).spec_slot_looks(),
    {
        let ghost o = *self;
        let cur = self.current_block_index;
        // Request a new block of data that is one block ahead of the
        // latest block in the prefetch buffer.
        let wanted_start_frame = self.current_block_start_frame + self.prefetch_size;
        let heap = self.heap_data.as_mut().unwrap();
        let entry = &mut heap.prefetch_buffer[cur];
        entry.use_cache_index = None;
        entry.wanted_start_frame = wanted_start_frame;
        let block = entry.block.take();
        assert(opt_block_view(block) == o.spec_entries()[cur as int].block);
        // This cannot fail because the caller makes sure there is at least
        // one slot open before calling this function.
        let _ = self.to_server_tx.push(ClientToServerMsg::ReadIntoBlock { block_index: cur, block, start_frame: wanted_start_frame },
        );

        assert(self.to_server_tx.spec_handed().drop_last() =~= o.spec_requests());
        self.current_block_index = if cur + 1 >= self.num_prefetch_blocks { 0 } else { cur + 1 };
        self.next_block_index = if self.next_block_index + 1 >= self.num_prefetch_blocks {
            0
        } else {
            self.next_block_index + 1
        };
        self.current_block_start_frame = self.current_block_start_frame + self.block_size;
        proof {
            let npb = o.num_prefetch_blocks as int;
            if cur + 1 >= npb {
                vstd::arithmetic::div_mod::lemma_mod_self_0(npb);
            } else {
                vstd::arithmetic::div_mod::lemma_small_mod((cur + 1) as nat, npb as nat);
            }
            let nx = o.next_block_index as int;
            if nx + 1 >= npb {
                vstd::arithmetic::div_mod::lemma_mod_self_0(npb);
            } else {
                vstd::arithmetic::div_mod::lemma_small_mod((nx + 1) as nat, npb as nat);
            }
            assert(self.spec_entries() =~= o.spec_entries().update(
                cur as int,
                EntryView { use_cache_index: None, block: None, wanted_start_frame: wanted_start_frame },
            ));
            assert(self.spec_caches() =~= o.spec_caches());
            self.lemma_heap_wf(o);
        }
    }

    /// The file, the sizes, the silence sample and the error state of
    /// `self` are those of `old`.
    pub open spec fn same_config(self, old: Self) -> bool {
        &&& self.spec_num_frames() == old.spec_num_frames()
        &&& self.spec_num_channels() == old.spec_num_channels()
        &&& self.spec_block_size() == old.spec_block_size()
        &&& self.spec_num_prefetch_blocks() == old.spec_num_prefetch_blocks()
        &&& self.spec_prefetch_size() == old.spec_prefetch_size()
        &&& self.spec_cache_size() == old.spec_cache_size()
        &&& self.spec_silence() == old.spec_silence()
        &&& self.spec_fatal_error() == old.spec_fatal_error()
    }

    /// The requests of `self` are those of `old`, then the request to refill
    /// the current slot of `old` one prefetch buffer ahead, handing back the
    /// block it held.
    pub open spec fn refill_requested(self, old: Self) -> bool {
        let cur = old.spec_current_block_index();
        &&& self.spec_requests().len() == old.spec_requests().len() + 1
        &&& self.spec_requests().drop_last() == old.spec_requests()
        &&& is_read_request(
            self.spec_requests().last(),
            cur as usize,
            old.spec_entries()[cur].block,
            (old.spec_current_block_start_frame() + old.spec_prefetch_size()) as usize,
        )
    }

    /// The prefetch slots after the current one of `self` is handed back to
    /// be refilled one prefetch buffer ahead.
    pub open spec fn entries_after_advance(self) -> Seq<EntryView<D::T>> {
        self.spec_entries().update(
            self.spec_current_block_index(),
            EntryView {
                use_cache_index: None,
                block: None,
                wanted_start_frame: (self.spec_current_block_start_frame() + self.spec_prefetch_size()) as usize,
            },
        )
    }

    /// `self` is `old` after moving to the next prefetch slot, the slot left
    /// behind having been handed back to be refilled one prefetch buffer ahead.
    pub open spec fn advanced_from(self, old: Self) -> bool {
        let npb = old.spec_num_prefetch_blocks();
        &&& self.same_config(old)
        &&& self.refill_requested(old)
        &&& self.spec_caches() == old.spec_caches()
        &&& self.spec_entries() == old.entries_after_advance()
        &&& self.spec_current_block_index() == (old.spec_current_block_index() + 1) % npb
        &&& self.spec_next_block_index() == (old.spec_next_block_index() + 1) % npb
        &&& self.spec_current_block_start_frame() == old.spec_current_block_start_frame() + old.spec_block_size()
        &&& self.spec_current_frame_in_block() == old.spec_current_frame_in_block()
    }

    /// The number of frames a read asking for `frames` frames yields: at
    /// most a block, and no further than the end of the file.
    pub open spec fn read_len(self, frames: int) -> int {
        let want = if frames < self.spec_block_size() { frames } else { self.spec_block_size() };
        if self.spec_playhead() + want >= self.spec_num_frames() {
            self.spec_num_frames() - self.spec_playhead()
        } else {
            want
        }
    }

    /// The frames a read of `n` frames yields: from the current block on,
    /// into the next block where it runs past the end of the current one.
    pub open spec fn read_frames(self, n: int) -> Seq<Seq<D::T>> {
        let cur = self.spec_current_block_index();
        let f = self.spec_current_frame_in_block();
        let bs = self.spec_block_size();
        let nc = self.spec_num_channels();
        let z = self.spec_silence();
        if f + n > bs {
            concat_channels(
                frames_from(self.spec_source(cur), nc, f, bs - f, z),
                frames_from(self.spec_source(self.spec_next_block_index()), nc, 0, f + n - bs, z),
            )
        } else {
            frames_from(self.spec_source(cur), nc, f, n, z)
        }
    }

    /// `self` is `old` after reading `n` frames: the playhead has moved by
    /// `n`, and if that reached the end of the current block, the stream has
    /// moved to the next one.
    pub open spec fn read_from(self, old: Self, n: int) -> bool {
        let f = old.spec_current_frame_in_block();
        let bs = old.spec_block_size();
        let npb = old.spec_num_prefetch_blocks();
        &&& self.wf()
        &&& self.same_config(old)
        &&& self.spec_caches() == old.spec_caches()
        &&& self.spec_playhead() == old.spec_playhead() + n
        &&& if f + n >= bs {
            &&& self.refill_requested(old)
            &&& self.spec_entries() == old.entries_after_advance()
            &&& self.spec_current_block_index() == (old.spec_current_block_index() + 1) % npb
            &&& self.spec_next_block_index() == (old.spec_next_block_index() + 1) % npb
            &&& self.spec_current_block_start_frame() == old.spec_current_block_start_frame() + bs
            &&& self.spec_current_frame_in_block() == f + n - bs
        } else {
            &&& self.spec_requests() == old.spec_requests()
            &&& self.spec_entries() == old.spec_entries()
            &&& self.spec_current_block_index() == old.spec_current_block_index()
            &&& self.spec_next_block_index() == old.spec_next_block_index()
            &&& self.spec_current_block_start_frame() == old.spec_current_block_start_frame()
            &&& self.spec_current_frame_in_block() == f + n
        }
    }

    /// `d` is what a read asking for `frames` frames returns in state `m`,
    /// and `self` the state it leaves.
    pub open spec fn read_result<'a>(self, m: Self, frames: int, d: ReadData<'a, D::T>) -> bool {
        let want = if frames < m.spec_block_size() { frames } else { m.spec_block_size() };
        let n = m.read_len(frames);
        &&& !m.spec_fatal_error()
        &&& m.spec_playhead() < m.spec_num_frames()
        &&& d.wf()
        &&& d.spec_num_frames() == n
        &&& d.spec_reached_end_of_file() == (m.spec_playhead() + want >= m.spec_num_frames())
        &&& d.spec_channels() == m.read_frames(n)
        &&& self.read_from(m, n)
    }

    /// Once a read reaches the end of the file, the playhead stands at the
    /// end of the file, so every later read is refused with
    /// `ReadError::EndOfFile` until the stream is seeked.
    pub proof fn law_read_to_end<'a>(after: Self, m: Self, frames: int, d: ReadData<'a, D::T>)
        requires
            after.read_result(m, frames, d),
            d.spec_reached_end_of_file(),
        ensures
            after.spec_playhead() == after.spec_num_frames(),
    {
    }

    /// A read moves the playhead by exactly the frames it returns, which are
    /// at most the frames asked for and at most a block.
    pub proof fn law_read_advances_playhead<'a>(after: Self, m: Self, frames: int, d: ReadData<'a, D::T>)
        requires
            after.read_result(m, frames, d),
            frames >= 0,
        ensures
            after.spec_playhead() == m.spec_playhead() + d.spec_num_frames(),
            d.spec_num_frames() <= frames,
            d.spec_num_frames() <= m.spec_block_size(),
            d.spec_num_frames() > 0 || frames == 0,
    {
    }

    /// Polling the IO server, and the errors of reading, seeking, caching and
    /// filling a buffer (which leave the stream polled at most), do not move
    /// the playhead.
    pub proof fn law_polling_keeps_playhead(before: Self, after: Self)
        requires
            after.polled_from(before),
        ensures
            after.spec_playhead() == before.spec_playhead(),
    {
    }

    /// Polling never makes a ready stream buffer again: the slots keep what
    /// they read from, and blocks and caches only arrive. With the `seek`
    /// contract (a seek that finds a cache leaves the stream ready), a read
    /// right after such a seek reads from the cache.
    pub proof fn law_polling_keeps_ready(before: Self, after: Self)
        requires
            after.polled_from(before),
            before.wf(),
            before.spec_ready(),
        ensures
            after.spec_ready(),
    {
    }

    /// Read the next chunk of `frames` in the stream from the current playhead position.
    ///
    /// This is realtime-safe.
    ///
    /// This is *streaming*, meaning the next call to `read()` will pick up where the
    /// previous call left off.
    ///
    /// If the stream is currently buffering, the playhead will still
    /// advance but will output silence. To check
    /// if the stream is ready beforehand, call `ReadDiskStream::is_ready()`.
    ///
    /// If the end of a file is reached, then only the amount of frames up to the end will be returned,
    /// and each subsequent call to `read()` returns `ReadError::EndOfFile`.
    ///
    /// NOTE: If the number of `frames` exceeds the block size of the decoder, then that block size
    /// will be used instead. This can be retrieved using `ReadDiskStream::block_size()`.
    #[verifier::rlimit(60)]
    #[verifier::spinoff_prover]
    pub fn read(&mut self, frames: usize) -> (r: Result<ReadData<'_, D::T>, ReadError<D::FatalError>>)
        requires
            old(self).wf(),
        ensures
            final(self).wf(),
            old(self).spec_fatal_error() ==> r is Err && final(self).same_state(*old(self)),
            old(self).spec_playhead() >= old(self).spec_num_frames() ==> r is Err,
            match r {
                Ok(d) => {
                    &&& exists|m: Self| #[trigger] m.polled_from(*old(self)) && final(self).read_result(
                        m,
                        frames as int,
                        d,
                    )
                    &&& d.spec_channels().len() == old(self).spec_num_channels()
                    &&& d.spec_num_frames() <= frames
                    &&& d.spec_num_frames() <= old(self).spec_block_size()
                    &&& forall|ch: int| 0 <= ch < d.spec_channels().len() ==> (#[trigger] d.spec_channels()[ch]).len()
                        == d.spec_num_frames()
                },
                Err(e) => {
                    &&& final(self).polled_from(*old(self))
                    &&& (old(self).spec_fatal_error() ==> e == ReadError::<D::FatalError>::FatalError(
                        FatalReadError::StreamClosed,
                    ))
                    &&& (e is EndOfFile ==> old(self).spec_playhead() >= old(self).spec_num_frames())
                    &&& (e is FatalError ==> final(self).spec_fatal_error())
                    &&& (e is EndOfFile || e is FatalError || e is IOServerChannelFull)
                },
            },
            // A fatal error of the IO server is reported as the decoder's error.
            ({
                let got = final(self).spec_received().skip(old(self).spec_received().len() as int);
                !old(self).spec_fatal_error() && got.len() > 0 && got.last() is FatalError ==> r
                    == Err::<ReadData<'_, D::T>, ReadError<D::FatalError>>(
                    ReadError::FatalError(FatalReadError::DecoderError(got.last()->FatalError_0)),
                )
            }),
            // Each look at the channel found room but the last; the read is
            // refused for want of room exactly when that one found it full.
            old(self).spec_channel_looks().is_prefix_of(final(self).spec_channel_looks()),
            final(self).spec_slot_looks() == old(self).spec_slot_looks(),
            ({
                let looks = final(self).spec_channel_looks().skip(old(self).spec_channel_looks().len() as int);
                &&& forall|i: int| 0 <= i < looks.len() - 1 ==> !#[trigger] looks[i]
                &&& (r matches Err(ReadError::IOServerChannelFull)) <==> (looks.len() > 0 && looks.last())
            }),
    {
        if self.fatal_error {
            proof {
                let a = self.spec_channel_looks();
                assert(a.subrange(0, a.len() as int) =~= a);
                assert(a.skip(a.len() as int) =~= Seq::<bool>::empty());
            }
            return Err(ReadError::FatalError(FatalReadError::StreamClosed));
        }
        if let Err(e) = self.poll() {
            return Err(e);
        }
        let ghost lk = self.spec_channel_looks();
        let full = self.to_server_tx.look_full();
        proof { Self::lemma_one_more_look(old(self).spec_channel_looks(), lk, full); }
        self.read_polled(frames, full)
    }

    /// The part of [`ReadDiskStream::read`] after polling, given whether the
    /// channel to the IO server was `full` when looked at: a full channel
    /// refuses the read; otherwise it goes through unless the playhead is at
    /// the end of the file.
    #[verifier::rlimit(40)]
    #[verifier::spinoff_prover]
    pub fn read_polled(&mut self, frames: usize, full: bool) -> (r: Result<ReadData<'_, D::T>, ReadError<D::FatalError>>)
        requires
            old(self).wf(),
            !old(self).spec_fatal_error(),
        ensures
            final(self).spec_channel_looks() == old(self).spec_channel_looks(),
            final(self).spec_slot_looks() == old(self).spec_slot_looks(),
            final(self).wf(),
            final(self).spec_received() == old(self).spec_received(),
            full ==> r matches Err(ReadError::IOServerChannelFull),
            !full && old(self).spec_playhead() >= old(self).spec_num_frames() ==> r matches Err(ReadError::EndOfFile),
            !full && old(self).spec_playhead() < old(self).spec_num_frames() ==> r is Ok,
            match r {
                Ok(d) => {
                    &&& final(self).read_result(*old(self), frames as int, d)
                    &&& d.spec_channels().len() == old(self).spec_num_channels()
                    &&& d.spec_num_frames() <= frames
                    &&& d.spec_num_frames() <= old(self).spec_block_size()
                    &&& forall|ch: int| 0 <= ch < d.spec_channels().len() ==> (#[trigger] d.spec_channels()[ch]).len()
                        == d.spec_num_frames()
                },
                Err(_) => final(self).same_state(*old(self)),
            },
    {
        let ghost want = frames;
        let mut frames = if frames < self.block_size { frames } else { self.block_size };
        let ghost m = *self;

        // Check that there is at-least one slot open for when `advance_to_next_block()` is called.
        if full {
            return Err(ReadError::IOServerChannelFull);
        }

        // Check if the end of the file was reached.
        let playhead = self.playhead();
        if playhead >= self.file_info.num_frames {
            return Err(ReadError::EndOfFile);
        }
        let mut reached_end_of_file = false;
        if playhead + frames >= self.file_info.num_frames {
            frames = self.file_info.num_frames - playhead;
            reached_end_of_file = true;
        }
        let z = self.silence;
        let cur = self.current_block_index;
        let next = self.next_block_index;
        let f = self.current_frame_in_block;
        let bs = self.block_size;
        let ghost nc = self.spec_num_channels();
        proof {
            assert(frames == m.read_len(want as int));
            self.lemma_copy_ok(cur as int);
            self.lemma_copy_ok(next as int);
            lemma_frames_from_len(m.spec_source(cur as int), nc, f as int, frames as int, z);
        }

        let end_frame_in_block = f + frames;
        if end_frame_in_block > bs {
            // Data spans between two blocks, so two copies need to be performed.
            let first_len = bs - f;
            let second_len = frames - first_len;

            // Copy from first block.
            let mut heap = self.heap_data.take().unwrap();
            heap.read_buffer.clear();
            copy_block_into_read_buffer(&mut heap, cur, f, first_len, z);
            let ghost first = frames_from(m.spec_source(cur as int), nc, f as int, first_len as int, z);
            proof {
                lemma_frames_from_len(m.spec_source(cur as int), nc, f as int, first_len as int, z);
                assert(block_view(heap.read_buffer) =~= first);
            }
            self.heap_data = Some(heap);
            proof {
                assert(self.spec_entries() == m.spec_entries());
                assert(self.spec_caches() == m.spec_caches());
                self.lemma_heap_wf(m);
            }
            let ghost m1 = *self;

            self.advance_to_next_block();
            let ghost m2 = *self;

            // Copy from second block
            let mut heap = self.heap_data.take().unwrap();
            proof {
                let npb = m.spec_num_prefetch_blocks();
                if cur + 1 >= npb {
                    vstd::arithmetic::div_mod::lemma_mod_self_0(npb);
                } else {
                    vstd::arithmetic::div_mod::lemma_small_mod((cur + 1) as nat, npb as nat);
                }
                assert(next != cur);
                assert(m1.spec_entries() == m.spec_entries());
                assert(m2.spec_entries()[next as int] == m.spec_entries()[next as int]);
                assert(heap_entries(heap)[next as int] == m2.spec_entries()[next as int]);
                assert(heap_caches(heap) == m.spec_caches());
                assert(heap_source(heap, next as int) == m.spec_source(next as int));
                assert(entry_view(heap.prefetch_buffer@[next as int]) == heap_entries(heap)[next as int]);
                m2.lemma_copy_ok(next as int);
                assert(block_view(heap.read_buffer) == first);
                lemma_frames_from_len(m.spec_source(next as int), nc, 0, second_len as int, z);
            }
            copy_block_into_read_buffer(&mut heap, next, 0, second_len, z);
            self.heap_data = Some(heap);
            self.current_frame_in_block = second_len;
            proof {
                let second = frames_from(m.spec_source(next as int), nc, 0, second_len as int, z);
                let rb = block_view(self.heap_data->0.read_buffer);
                assert(rb =~= concat_channels(first, second));
                assert(rb =~= m.read_frames(frames as int));
                assert(self.spec_entries() == m2.spec_entries());
                assert(self.spec_caches() == m2.spec_caches());
                self.lemma_heap_wf(m2);
            }
        } else {
            // Only need to copy from current block.
            let mut heap = self.heap_data.take().unwrap();
            heap.read_buffer.clear();
            copy_block_into_read_buffer(&mut heap, cur, f, frames, z);
            proof {
                assert(block_view(heap.read_buffer) =~= m.read_frames(frames as int));
            }
            self.heap_data = Some(heap);
            proof {
                assert(self.spec_entries() == m.spec_entries());
                assert(self.spec_caches() == m.spec_caches());
                self.lemma_heap_wf(m);
            }
            if end_frame_in_block == bs {
                self.advance_to_next_block();
                self.current_frame_in_block = 0;
                proof {
                    let m2 = *self;
                    assert(self.spec_entries() == m2.spec_entries());
                    self.lemma_heap_wf(m2);
                }
            } else {
                self.current_frame_in_block = end_frame_in_block;
                proof {
                    let m2 = *self;
                    self.lemma_heap_wf(m2);
                }
            }
        }
        let heap = self.heap_data.as_ref().unwrap();
        proof {
            assert(block_view(heap.read_buffer) == m.read_frames(frames as int));
            self.lemma_read_buffer_len(m, frames as int);
        }
        let d = ReadData::new(&heap.read_buffer, frames, reached_end_of_file);
        proof {
            let rf = m.read_frames(frames as int);
            assert forall|i: int| 0 <= i < rf.len() implies #[trigger] d.spec_channels()[i] =~= rf[i] by {
                assert(rf[i].len() == frames);
                assert(block_view(heap.read_buffer)[i] == rf[i]);
            }
            assert(d.spec_channels() =~= m.read_frames(frames as int));
            assert(m.polled_from(*old(self)));
            assert(self.read_result(m, want as int, d));
        }
        Ok(d)
    }

    /// One round of filling `buffer` from frame `frames_written` on: if the
    /// buffer is not full and the stream is ready, reads the next frames (at
    /// most a block, and no more than the buffer has room for) into it.
    ///
    /// ## Error
    /// `ReadError::InvalidBuffer` if the number of channels in the buffer
    /// does not equal the number of channels in the stream or the channels
    /// differ in length; any error of [`ReadDiskStream::read`].
    pub fn fill_buffer_step(&mut self, buffer: &mut Vec<Vec<D::T>>, frames_written: usize) -> (r: Result<
        FillStep,
        ReadError<D::FatalError>,
    >)
        requires
            old(self).wf(),
        ensures
            final(self).wf(),
            ({
                let o = *old(self);
                let len = old(buffer)@[0]@.len() as int;
                if !valid_buffer(old(buffer)@, o.spec_num_channels()) {
                    r == Err::<FillStep, ReadError<D::FatalError>>(ReadError::InvalidBuffer)
                        && final(self).same_state(o) && *final(buffer) == *old(buffer)
                } else if frames_written >= len {
                    r == Ok::<FillStep, ReadError<D::FatalError>>(FillStep::Full) && final(self).same_state(o)
                        && *final(buffer) == *old(buffer)
                } else {
                    match r {
                        Ok(FillStep::Read { frames_written: fw, reached_end_of_file }) => exists|m: Self|
                            #[trigger] m.polled_from(o) && {
                                let want = if len - frames_written < o.spec_block_size() {
                                    len - frames_written
                                } else {
                                    o.spec_block_size()
                                };
                                let n = m.read_len(want);
                                &&& !m.spec_fatal_error()
                                &&& m.spec_playhead() < m.spec_num_frames()
                                &&& fw == frames_written + n
                                &&& reached_end_of_file == (m.spec_playhead() + want >= m.spec_num_frames())
                                &&& final(self).read_from(m, n)
                                &&& final(buffer)@.len() == old(buffer)@.len()
                                &&& forall|ch: int| 0 <= ch < old(buffer)@.len() ==> (#[trigger] final(buffer)@[ch])@
                                    == overwrite(old(buffer)@[ch]@, frames_written as int, m.read_frames(n)[ch])
                            },
                        Ok(FillStep::NotReady) => final(self).polled_from(o) && *final(buffer) == *old(buffer),
                        Ok(FillStep::Full) => false,
                        Err(e) => {
                            &&& final(self).polled_from(o)
                            &&& *final(buffer) == *old(buffer)
                            &&& (o.spec_fatal_error() ==> e == ReadError::<D::FatalError>::FatalError(
                                FatalReadError::StreamClosed,
                            ))
                            &&& (e is EndOfFile ==> o.spec_playhead() >= o.spec_num_frames())
                            &&& (e is FatalError ==> final(self).spec_fatal_error())
                            &&& (e is EndOfFile || e is FatalError || e is IOServerChannelFull)
                        },
                    }
                }
            }),
    {
        let nc = self.file_info.num_channels as usize;
        if buffer.len() != nc || nc == 0 {
            return Err(ReadError::InvalidBuffer);
        }
        let buffer_len = buffer[0].len();
        // Sanity check that all channels are the same length.
        let mut ch: usize = 1;
        while ch < nc
            invariant
                1 <= ch <= nc == buffer@.len() == old(self).spec_num_channels(),
                *self == *old(self),
                *buffer == *old(buffer),
                old(self).wf(),
                buffer_len == buffer@[0]@.len(),
                forall|c: int| 0 <= c < ch ==> (#[trigger] buffer@[c])@.len() == buffer_len,
            decreases nc - ch,
        {
            if buffer[ch].len() != buffer_len {
                assert(!valid_buffer(old(buffer)@, old(self).spec_num_channels()));
                return Err(ReadError::InvalidBuffer);
            }
            ch += 1;
        }
        assert(valid_buffer(old(buffer)@, old(self).spec_num_channels()));
        if frames_written >= buffer_len {
            return Ok(FillStep::Full);
        }
        let ghost o = *self;
        if !self.is_ready()? {
            return Ok(FillStep::NotReady);
        }
        let ghost m0 = *self;
        let read_frames = if buffer_len - frames_written < self.block_size {
            buffer_len - frames_written
        } else {
            self.block_size
        };
        let ghost old_buffer = *buffer;
        let data = match self.read(read_frames) {
            Ok(data) => data,
            Err(e) => {
                proof { lemma_polled_trans(o, m0, *self); }
                return Err(e);
            },
        };
        let n = data.num_frames();
        let reached_end_of_file = data.reached_end_of_file();
        let ghost chs = data.spec_channels();
        let mut ch: usize = 0;
        while ch < nc
            invariant
                ch <= nc == buffer@.len(),
                frames_written + n <= buffer_len,
                data.wf(),
                data.spec_num_frames() == n,
                forall|c: int| 0 <= c < nc ==> (#[trigger] old_buffer@[c])@.len() == buffer_len,
                old_buffer == *old(buffer),
                data.spec_channels().len() == nc,
                chs == data.spec_channels(),
                forall|c: int| 0 <= c < nc ==> (#[trigger] data.spec_channels()[c]).len() == n,
                forall|c: int| 0 <= c < ch ==> (#[trigger] buffer@[c])@ == overwrite(
                    old_buffer@[c]@,
                    frames_written as int,
                    data.spec_channels()[c],
                ),
                forall|c: int| ch <= c < nc ==> #[trigger] buffer@[c] == old_buffer@[c],
            decreases nc - ch,
        {
            let src = data.read_channel(ch);
            let ghost before = buffer@;
            let mut i: usize = 0;
            while i < n
                invariant
                    i <= n,
                    ch < nc == buffer@.len(),
                    frames_written + n <= buffer_len,
                    src@.len() == n,
                    old_buffer@[ch as int]@.len() == buffer_len,
                    buffer@[ch as int]@.len() == buffer_len,
                    forall|k: int| 0 <= k < buffer_len ==> #[trigger] buffer@[ch as int]@[k] == if frames_written <= k
                        < frames_written + i {
                        src@[k - frames_written]
                    } else {
                        old_buffer@[ch as int]@[k]
                    },
                    forall|c: int| 0 <= c < nc && c != ch ==> #[trigger] buffer@[c] == before[c],
                decreases n - i,
            {
                let ghost b1 = buffer@;
                buffer[ch].set(frames_written + i, src[i]);
                proof {
                    assert forall|c: int| 0 <= c < nc && c != ch implies #[trigger] buffer@[c] == before[c] by {
                        assert(buffer@[c] == b1[c]);
                    }
                }
                i += 1;
            }
            proof {
                assert(buffer@[ch as int]@ =~= overwrite(old_buffer@[ch as int]@, frames_written as int, src@));
                assert forall|c: int| ch < c < nc implies #[trigger] buffer@[c] == old_buffer@[c] by {
                    assert(buffer@[c] == before[c]);
                }
                assert forall|c: int| 0 <= c < ch implies (#[trigger] buffer@[c])@ == overwrite(
                    old_buffer@[c]@,
                    frames_written as int,
                    data.spec_channels()[c],
                ) by {
                    assert(buffer@[c] == before[c]);
                }
            }
            ch += 1;
        }
        proof {
            let want = read_frames as int;
            let m = choose|m: Self|
                #[trigger] m.polled_from(m0) && {
                    &&& !m.spec_fatal_error()
                    &&& m.spec_playhead() < m.spec_num_frames()
                    &&& n == m.read_len(want)
                    &&& reached_end_of_file == (m.spec_playhead() + want >= m.spec_num_frames())
                    &&& chs == m.read_frames(n as int)
                    &&& self.read_from(m, n as int)
                };
            lemma_polled_trans(o, m0, m);
            assert forall|c: int| 0 <= c < nc implies (#[trigger] buffer@[c])@ == overwrite(
                old(buffer)@[c]@,
                frames_written as int,
                m.read_frames(n as int)[c],
            ) by {
                assert(chs[c] == m.read_frames(n as int)[c]);
            }
        }
        Ok(FillStep::Read { frames_written: frames_written + n, reached_end_of_file })
    }
}

impl<D: Decoder> Drop for ReadDiskStream<D> {
    /// Hands the stream's buffers to the IO server to be deallocated there,
    /// which also tells it that the stream has closed.
    fn drop(&mut self)
        opens_invariants none
        no_unwind
    {
        let mut heap_data = None;
        std::mem::swap(&mut heap_data, &mut self.heap_data);
        let _ = channel::push(&mut self.close_signal_tx, heap_data);
    }
}

} // verus!
