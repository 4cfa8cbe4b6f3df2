//! The client side of a write stream: it fills blocks on the realtime
//! thread and hands them to the IO server.
use vstd::prelude::*;

use super::data::{empty_channels, HeapData};
use super::error::{FatalWriteError, WriteError};
use super::{ClientToServerMsg, Encoder, ServerToClientMsg, WriteBlock};
use crate::channel::{self, lemma_prefix_trans};
use crate::FileInfo;

verus! {

/// A block of the stream is well formed: it has one channel per stream
/// channel and all channels hold the same number of frames, fewer than a
/// whole block.
pub open spec fn block_ok<T: Copy + Default + Send>(b: WriteBlock<T>, nc: int, block_size: int) -> bool {
    &&& b.spec_channels().len() == nc
    &&& b.is_rectangular()
    &&& nc > 0 ==> b.spec_channels()[0].len() < block_size
    &&& nc > 0 ==> b.spec_capacity() == block_size
}

/// A spare block of the stream: empty, with one buffer of the block size
/// per stream channel.
pub open spec fn spare_ok<T: Copy + Default + Send>(b: WriteBlock<T>, nc: int, block_size: int) -> bool {
    &&& b.spec_channels() == empty_channels::<T>(nc)
    &&& nc > 0 ==> b.spec_capacity() == block_size
}

/// The channels of `buffer` as sequences.
pub open spec fn buffer_view<T>(buffer: &[&[T]]) -> Seq<Seq<T>> {
    Seq::new(buffer@.len(), |i: int| buffer@[i]@)
}

/// `buffer` has `nc` channels of equal length.
pub open spec fn buffer_ok<T>(buffer: Seq<Seq<T>>, nc: int) -> bool {
    &&& buffer.len() == nc
    &&& forall|i: int| 0 <= i < nc ==> #[trigger] buffer[i].len() == buffer[0].len()
}

/// Each pending channel with the matching buffer channel appended.
pub open spec fn appended<T>(pending: Seq<Seq<T>>, buffer: Seq<Seq<T>>) -> Seq<Seq<T>> {
    Seq::new(pending.len(), |i: int| pending[i] + buffer[i])
}

/// What stays pending after appending `buffer`: whenever a block fills up it
/// is handed to the IO server, and the rest starts the next block.
pub open spec fn pending_after_write<T>(
    pending: Seq<Seq<T>>,
    buffer: Seq<Seq<T>>,
    block_size: int,
) -> Seq<Seq<T>> {
    let a = appended(pending, buffer);
    if a.len() > 0 && a[0].len() >= block_size {
        Seq::new(a.len(), |i: int| a[i].subrange(block_size, a[i].len() as int))
    } else {
        a
    }
}

/// The block cut from the pending frames with `buffer` appended: the first
/// `block_size` frames of each channel.
pub open spec fn filled_block<T>(pending: Seq<Seq<T>>, buffer: Seq<Seq<T>>, block_size: int) -> Seq<Seq<T>> {
    let a = appended(pending, buffer);
    Seq::new(a.len(), |i: int| a[i].subrange(0, block_size))
}

/// `m` hands the IO server a block holding the frames `chans`, per channel,
/// written in the take numbered `restart_count`.
pub open spec fn is_block_msg<E: Encoder>(m: ClientToServerMsg<E>, chans: Seq<Seq<E::T>>, restart_count: usize) -> bool {
    &&& m matches ClientToServerMsg::WriteBlock { block }
    &&& block.spec_channels() == chans
    &&& block.spec_restart_count() == restart_count
}

/// The number of files after the IO server's replies `msgs`, starting from
/// `n`: that of the last report of a new file, if any.
pub open spec fn files_reported<E: Encoder>(msgs: Seq<ServerToClientMsg<E>>, n: u32) -> u32
    decreases msgs.len(),
{
    if msgs.len() == 0 {
        n
    } else {
        match msgs.last() {
            ServerToClientMsg::ReachedMaxSize { num_files } => num_files,
            _ => files_reported(msgs.drop_last(), n),
        }
    }
}

/// Adding at most one modulus to a number moves its remainder by that
/// amount, wrapping around once.
pub proof fn lemma_mod_step(a: int, n: int, d: int)
    requires
        a >= 0,
        0 <= n <= d,
        d > 0,
    ensures
        (a + n) % d == if a % d + n >= d {
            a % d + n - d
        } else {
            a % d + n
        },
{
    let q = a / d;
    let r = a % d;
    assert(a == q * d + r && 0 <= r < d) by (nonlinear_arith)
        requires q == a / d, r == a % d, d > 0, a >= 0;
    if r + n >= d {
        assert(a + n == (q + 1) * d + (r + n - d)) by (nonlinear_arith)
            requires a == q * d + r;
        vstd::arithmetic::div_mod::lemma_fundamental_div_mod_converse_mod(a + n, d, q + 1, r + n - d);
    } else {
        assert(a + n == q * d + (r + n)) by (nonlinear_arith)
            requires a == q * d + r;
        vstd::arithmetic::div_mod::lemma_fundamental_div_mod_converse_mod(a + n, d, q, r + n);
    }
}

/// Handing over a full block that is the start of the pending frames with
/// the buffer appended keeps, per channel, what was handed followed by what
/// is pending equal to what was handed before followed by the pending frames
/// and the buffer.
proof fn lemma_split_block<T>(
    handed: Seq<Seq<T>>,
    pending: Seq<Seq<T>>,
    buf: Seq<Seq<T>>,
    full: Seq<Seq<T>>,
    rest: Seq<Seq<T>>,
    bs: int,
)
    requires
        handed.len() == pending.len(),
        full.len() == pending.len(),
        rest.len() == pending.len(),
        forall|c: int| 0 <= c < pending.len() ==> #[trigger] full[c] == appended(pending, buf)[c].subrange(0, bs),
        forall|c: int| 0 <= c < pending.len() ==> #[trigger] rest[c] == appended(pending, buf)[c].subrange(bs, appended(pending, buf)[c].len() as int),
        forall|c: int| 0 <= c < pending.len() ==> 0 <= bs <= #[trigger] appended(pending, buf)[c].len(),
    ensures
        forall|c: int| 0 <= c < pending.len() ==> #[trigger] appended(handed, full)[c] + rest[c]
            == handed[c] + appended(pending, buf)[c],
{
    assert forall|c: int| 0 <= c < pending.len() implies #[trigger] appended(handed, full)[c] + rest[c]
        == handed[c] + appended(pending, buf)[c] by {
        let a = appended(pending, buf)[c];
        assert(full[c] + rest[c] =~= a);
        assert(handed[c] + full[c] + rest[c] =~= handed[c] + (full[c] + rest[c]));
    }
}

/// A realtime-safe disk-streaming writer of audio files.
#[verifier::reject_recursive_types(E)]
pub struct WriteDiskStream<E: Encoder> {
    to_server_tx: channel::Sender<ClientToServerMsg<E>>,
    from_server_rx: channel::Receiver<ServerToClientMsg<E>>,
    close_signal_tx: rtrb::Producer<Option<HeapData<E::T>>>,
    heap_data: Option<HeapData<E::T>>,
    block_size: usize,
    file_info: FileInfo<E::FileParams>,
    restart_count: usize,
    finished: bool,
    finish_complete: bool,
    fatal_error: bool,
    num_files: u32,
    /// The frame count at which the current run of blocks started.
    base_frames: Ghost<int>,
    /// The frames written in the current take, per channel.
    taken: Ghost<Seq<Seq<E::T>>>,
    /// The frames of the blocks handed to the IO server in the current
    /// take, per channel.
    handed: Ghost<Seq<Seq<E::T>>>,
}

impl<E: Encoder> WriteDiskStream<E> {
    /// The stream's blocks are all shaped for its channels, the spare blocks
    /// are empty, and the current block holds exactly the frames written
    /// since the last full block was handed to the IO server.
    pub closed spec fn wf(self) -> bool {
        let nc = self.file_info.num_channels as int;
        let bs = self.block_size as int;
        &&& self.heap_data is Some
        &&& bs > 0
        &&& nc > 0
        &&& (self.heap_data->0.current_block matches Some(b) ==> block_ok(b, nc, bs))
        &&& (self.heap_data->0.next_block matches Some(b) ==> spare_ok(b, nc, bs))
        &&& forall|i: int|
            0 <= i < self.heap_data->0.block_pool@.len() ==> spare_ok(
                #[trigger] self.heap_data->0.block_pool@[i],
                nc,
                bs,
            )
        &&& !self.finished ==> {
            &&& self.heap_data->0.current_block is Some
            &&& 0 <= self.base_frames@ <= self.file_info.num_frames
            &&& self.heap_data->0.current_block->0.spec_channels()[0].len() == (
            self.file_info.num_frames - self.base_frames@) % bs
            &&& self.taken@.len() == nc
            &&& self.handed@.len() == nc
            &&& forall|ch: int|
                0 <= ch < nc ==> #[trigger] self.taken@[ch] == self.handed@[ch]
                    + self.heap_data->0.current_block->0.spec_channels()[ch]
        }
    }

    /// The frames written in the current take (since the stream was created
    /// or last restarted), per channel.
    pub closed spec fn spec_taken(self) -> Seq<Seq<E::T>> {
        self.taken@
    }

    /// The frames of the blocks handed to the IO server in the current take,
    /// per channel, in the order they were handed over.
    pub closed spec fn spec_handed(self) -> Seq<Seq<E::T>> {
        self.handed@
    }

    /// The requests handed to the IO server so far, in order.
    pub closed spec fn spec_requests(self) -> Seq<ClientToServerMsg<E>> {
        self.to_server_tx.spec_handed()
    }

    /// What each look at whether the channel to the IO server is full found,
    /// in order.
    pub closed spec fn spec_channel_looks(self) -> Seq<bool> {
        self.to_server_tx.spec_looks()
    }

    /// The replies taken from the IO server so far, in order.
    pub closed spec fn spec_received(self) -> Seq<ServerToClientMsg<E>> {
        self.from_server_rx.spec_received()
    }

    pub closed spec fn spec_num_channels(self) -> int {
        self.file_info.num_channels as int
    }

    pub closed spec fn spec_block_size(self) -> int {
        self.block_size as int
    }

    /// The number of frames written since the stream was created or
    /// restarted (plus those the encoder reported at creation).
    pub closed spec fn spec_num_frames(self) -> int {
        self.file_info.num_frames as int
    }

    pub closed spec fn spec_finished(self) -> bool {
        self.finished
    }

    pub closed spec fn spec_fatal_error(self) -> bool {
        self.fatal_error
    }

    pub closed spec fn spec_finish_complete(self) -> bool {
        self.finish_complete
    }

    pub closed spec fn spec_num_files(self) -> u32 {
        self.num_files
    }

    pub closed spec fn spec_restart_count(self) -> usize {
        self.restart_count
    }

    /// The frame count at which the current take started: when the stream
    /// was created, or last restarted.
    pub closed spec fn spec_take_start(self) -> int {
        self.base_frames@
    }

    /// Until the stream is finished, the frames waiting in the current block
    /// are the frames written in this take that do not fill a whole block:
    /// every full block has been handed to the IO server.
    pub proof fn law_pending_is_remainder(self)
        requires
            self.wf(),
            !self.spec_finished(),
        ensures
            self.spec_pending() is Some,
            self.spec_pending()->0.len() == self.spec_num_channels(),
            self.spec_pending()->0[0].len() == (self.spec_num_frames() - self.spec_take_start())
                % self.spec_block_size(),
            0 <= self.spec_take_start() <= self.spec_num_frames(),
            self.spec_num_channels() > 0,
            self.spec_block_size() > 0,
    {
    }

    /// Until the stream is finished, the frames written in the current take
    /// are, per channel, those of the blocks handed to the IO server, in
    /// order, followed by those waiting in the current block: no frame is
    /// lost, repeated or reordered on its way to the server.
    pub proof fn law_frames_handed_in_order(self)
        requires
            self.wf(),
            !self.spec_finished(),
        ensures
            self.spec_pending() is Some,
            self.spec_taken().len() == self.spec_num_channels(),
            self.spec_handed().len() == self.spec_num_channels(),
            forall|ch: int|
                0 <= ch < self.spec_num_channels() ==> #[trigger] self.spec_taken()[ch]
                    == self.spec_handed()[ch] + self.spec_pending()->0[ch],
    {
    }

    /// The frames written to the current block that have not been handed to
    /// the IO server yet, per channel.
    pub closed spec fn spec_pending(self) -> Option<Seq<Seq<E::T>>> {
        match self.heap_data {
            Some(heap) => match heap.current_block {
                Some(b) => Some(b.spec_channels()),
                None => None,
            },
            None => None,
        }
    }

    /// Whether both the current and the next block are available.
    pub closed spec fn spec_blocks_ready(self) -> bool {
        &&& self.heap_data is Some
        &&& self.heap_data->0.current_block is Some
        &&& self.heap_data->0.next_block is Some
    }

    /// Everything the contracts observe, except the spare blocks.
    pub open spec fn same_state(self, other: Self) -> bool {
        &&& self.spec_num_channels() == other.spec_num_channels()
        &&& self.spec_block_size() == other.spec_block_size()
        &&& self.spec_num_frames() == other.spec_num_frames()
        &&& self.spec_finished() == other.spec_finished()
        &&& self.spec_fatal_error() == other.spec_fatal_error()
        &&& self.spec_finish_complete() == other.spec_finish_complete()
        &&& self.spec_num_files() == other.spec_num_files()
        &&& self.spec_restart_count() == other.spec_restart_count()
        &&& self.spec_pending() == other.spec_pending()
        &&& self.spec_taken() == other.spec_taken()
        &&& self.spec_handed() == other.spec_handed()
        &&& self.spec_requests() == other.spec_requests()
    }

    /// What polling the IO server keeps: everything but the spare blocks,
    /// the completion flag (which can only turn on), the number of files and
    /// the error flag; the current block is only filled in when it is
    /// missing.
    pub open spec fn polled_from(self, old: Self) -> bool {
        &&& self.wf()
        &&& self.spec_num_channels() == old.spec_num_channels()
        &&& self.spec_block_size() == old.spec_block_size()
        &&& self.spec_num_frames() == old.spec_num_frames()
        &&& self.spec_finished() == old.spec_finished()
        &&& self.spec_restart_count() == old.spec_restart_count()
        &&& old.spec_finish_complete() ==> self.spec_finish_complete()
        &&& old.spec_fatal_error() ==> self.spec_fatal_error()
        &&& old.spec_pending() is Some ==> self.spec_pending() == old.spec_pending()
        &&& self.spec_taken() == old.spec_taken()
        &&& self.spec_handed() == old.spec_handed()
        &&& self.spec_requests() == old.spec_requests()
    }

    /// Builds the client side of a stream whose IO server is already running
    /// and has opened the file.
    pub fn create(
        to_server_tx: rtrb::Producer<ClientToServerMsg<E>>,
        from_server_rx: rtrb::Consumer<ServerToClientMsg<E>>,
        close_signal_tx: rtrb::Producer<Option<HeapData<E::T>>>,
        num_write_blocks: usize,
        block_size: usize,
        file_info: FileInfo<E::FileParams>,
    ) -> (s: Self)
        requires
            num_write_blocks >= 2,
            block_size > 0,
            file_info.num_channels > 0,
        ensures
            s.wf(),
            s.spec_num_channels() == file_info.num_channels,
            s.spec_block_size() == block_size,
            s.spec_num_frames() == file_info.num_frames,
            !s.spec_finished(),
            !s.spec_fatal_error(),
            !s.spec_finish_complete(),
            s.spec_num_files() == 1,
            s.spec_restart_count() == 0,
            s.spec_pending() == Some(empty_channels::<E::T>(file_info.num_channels as int)),
            s.spec_blocks_ready(),
            s.spec_taken() == empty_channels::<E::T>(file_info.num_channels as int),
            s.spec_handed() == empty_channels::<E::T>(file_info.num_channels as int),
            s.spec_requests() == Seq::<ClientToServerMsg<E>>::empty(),
    {
        let nc = file_info.num_channels as usize;
        let mut block_pool: Vec<WriteBlock<E::T>> = Vec::with_capacity(num_write_blocks);
        let mut i: usize = 0;
        while i < num_write_blocks - 2
            invariant
                i <= num_write_blocks - 2,
                block_pool@.len() == i,
                forall|j: int| 0 <= j < i ==> spare_ok(#[trigger] block_pool@[j], nc as int, block_size as int),
            decreases num_write_blocks - 2 - i,
        {
            block_pool.push(WriteBlock::new(nc, block_size));
            i += 1;
        }
        let current = WriteBlock::new(nc, block_size);
        let next = WriteBlock::new(nc, block_size);
        let s = Self {
            to_server_tx: channel::Sender::new(to_server_tx),
            from_server_rx: channel::Receiver::new(from_server_rx),
            close_signal_tx,
            heap_data: Some(HeapData { block_pool, current_block: Some(current), next_block: Some(next) }),
            block_size,
            base_frames: Ghost(file_info.num_frames as int),
            taken: Ghost(empty_channels::<E::T>(nc as int)),
            handed: Ghost(empty_channels::<E::T>(nc as int)),
            file_info,
            restart_count: 0,
            finished: false,
            finish_complete: false,
            fatal_error: false,
            num_files: 1,
        };
        assert(s.heap_data->0.current_block->0.spec_channels()[0].len() == 0);
        assert forall|ch: int| 0 <= ch < nc implies #[trigger] s.taken@[ch] == s.handed@[ch]
            + s.heap_data->0.current_block->0.spec_channels()[ch] by {
            assert(s.heap_data->0.current_block->0.spec_channels()[ch] =~= Seq::<E::T>::empty());
            assert(s.handed@[ch] + Seq::<E::T>::empty() =~= s.handed@[ch]);
        }
        s
    }

    /// Poll for messages from the server.
    ///
    /// This is realtime-safe.
    pub fn poll(&mut self) -> (r: Result<(), WriteError<E::FatalError>>)
        requires
            old(self).wf(),
        ensures
            final(self).polled_from(*old(self)),
            final(self).spec_channel_looks() == old(self).spec_channel_looks(),
            old(self).spec_fatal_error() ==> r == Err::<(), WriteError<E::FatalError>>(
                WriteError::FatalError(FatalWriteError::StreamClosed),
            ) && final(self).same_state(*old(self)),
            r is Ok <==> !final(self).spec_fatal_error(),
            r matches Err(e) ==> e is FatalError,
            old(self).spec_received().is_prefix_of(final(self).spec_received()),
            ({
                let got = final(self).spec_received().skip(old(self).spec_received().len() as int);
                !old(self).spec_fatal_error() ==> {
                    // A fatal error of the server ends the poll and is reported.
                    &&& r is Err <==> (got.len() > 0 && got.last() is FatalError)
                    &&& (got.len() > 0 && got.last() is FatalError) ==> r == Err::<(), WriteError<E::FatalError>>(
                        WriteError::FatalError(FatalWriteError::EncoderError(got.last()->FatalError_0)),
                    )
                    // Completion and new files are recorded.
                    &&& final(self).spec_finish_complete() == (old(self).spec_finish_complete()
                        || got.contains(ServerToClientMsg::<E>::Finished))
                    &&& final(self).spec_num_files() == files_reported(got, old(self).spec_num_files())
                }
            }),
    {
        if self.fatal_error {
            return Err(WriteError::FatalError(FatalWriteError::StreamClosed));
        }
        let nc = self.file_info.num_channels as usize;
        // Retrieve the messages the server has sent so far.
        let available = self.from_server_rx.available();
        let ghost r0 = old(self).from_server_rx.spec_received();
        assert(r0.skip(r0.len() as int) =~= Seq::<ServerToClientMsg<E>>::empty());
        let mut k: usize = 0;
        while k < available
            invariant
                self.polled_from(*old(self)),
                self.spec_channel_looks() == old(self).spec_channel_looks(),
                !self.fatal_error,
                nc == self.file_info.num_channels,
                r0 == old(self).from_server_rx.spec_received(),
                r0.is_prefix_of(self.from_server_rx.spec_received()),
                ({
                    let got = self.from_server_rx.spec_received().skip(r0.len() as int);
                    &&& got.len() == 0 || !(got.last() is FatalError)
                    &&& self.finish_complete == (old(self).finish_complete || got.contains(ServerToClientMsg::<E>::Finished))
                    &&& self.num_files == files_reported(got, old(self).num_files)
                }),
            decreases available - k,
        {
            k += 1;
            let ghost prev = self.from_server_rx.spec_received().skip(r0.len() as int);
            let msg = match self.from_server_rx.pop() {
                Some(msg) => msg,
                None => break,
            };
            proof {
                let got = self.from_server_rx.spec_received().skip(r0.len() as int);
                assert(got =~= prev.push(msg));
                assert(got.drop_last() =~= prev);
                assert(got.last() == msg);
                assert forall|m: ServerToClientMsg<E>| #[trigger] got.contains(m) <==> (prev.contains(m) || m == msg) by {
                    if got.contains(m) {
                        let i = choose|i: int| 0 <= i < got.len() && got[i] == m;
                        if i < prev.len() {
                            assert(prev[i] == m);
                        }
                    }
                    if prev.contains(m) {
                        let i = choose|i: int| 0 <= i < prev.len() && prev[i] == m;
                        assert(got[i] == m);
                    }
                    if m == msg {
                        assert(got[got.len() - 1] == m);
                    }
                }
                lemma_prefix_trans(r0, old(self).from_server_rx.spec_received(), self.from_server_rx.spec_received());
            }
            match msg {
                ServerToClientMsg::NewWriteBlock { mut block } => {
                    if block.num_channels() == nc && block.capacity() == self.block_size {
                        // Blocks are reused empty.
                        block.clear();
                        assert(block.spec_channels() == empty_channels::<E::T>(nc as int));
                        assert(block_ok(block, nc as int, self.block_size as int)) by {
                            assert(block.spec_channels()[0].len() == 0);
                        }
                        let heap = self.heap_data.as_mut().unwrap();
                        if heap.current_block.is_none() {
                            heap.current_block = Some(block);
                        } else if heap.next_block.is_none() {
                            heap.next_block = Some(block);
                        } else {
                            // Store the block in the pool.
                            heap.block_pool.push(block);
                        }
                    }
                },
                ServerToClientMsg::Finished => {
                    self.finish_complete = true;
                },
                ServerToClientMsg::ReachedMaxSize { num_files } => {
                    self.num_files = num_files;
                },
                ServerToClientMsg::FatalError(e) => {
                    self.fatal_error = true;
                    return Err(WriteError::FatalError(FatalWriteError::EncoderError(e)));
                },
            }
        }
        Ok(())
    }

    /// Write the buffer of frames into the file.
    ///
    /// This is realtime-safe.
    ///
    /// The frames are appended to the current block; whenever a block fills
    /// up it is handed to the IO server and the rest of the buffer starts the
    /// next block. `buffer` must hold one slice per channel, all of the same
    /// length, and no longer than the block size.
    pub fn write(&mut self, buffer: &[&[E::T]]) -> (r: Result<(), WriteError<E::FatalError>>)
        requires
            old(self).wf(),
            buffer@.len() > 0 ==> old(self).spec_num_frames() + buffer@[0]@.len() <= usize::MAX,
        ensures
            final(self).wf(),
            ({
                let nc = old(self).spec_num_channels();
                let bs = old(self).spec_block_size();
                let buf = buffer_view(buffer);
                if old(self).spec_fatal_error() || old(self).spec_finished() {
                    &&& r == Err::<(), WriteError<E::FatalError>>(
                        WriteError::FatalError(FatalWriteError::StreamClosed),
                    )
                    &&& final(self).same_state(*old(self))
                } else if buf.len() != nc {
                    &&& r == Err::<(), WriteError<E::FatalError>>(WriteError::InvalidBuffer)
                    &&& final(self).same_state(*old(self))
                } else if buf[0].len() > bs {
                    &&& r == Err::<(), WriteError<E::FatalError>>(
                        WriteError::BufferTooLong {
                            buffer_len: buf[0].len() as usize,
                            block_size: bs as usize,
                        },
                    )
                    &&& final(self).same_state(*old(self))
                } else if !buffer_ok(buf, nc) {
                    &&& r == Err::<(), WriteError<E::FatalError>>(WriteError::InvalidBuffer)
                    &&& final(self).same_state(*old(self))
                } else {
                    &&& final(self).spec_num_channels() == nc
                    &&& final(self).spec_block_size() == bs
                    &&& final(self).spec_restart_count() == old(self).spec_restart_count()
                    &&& !final(self).spec_finished()
                    &&& match r {
                        Ok(()) => {
                            &&& final(self).spec_num_frames() == old(self).spec_num_frames()
                                + buf[0].len()
                            &&& final(self).spec_pending() == Some(
                                pending_after_write(old(self).spec_pending()->0, buf, bs),
                            )
                            &&& final(self).spec_taken() == appended(old(self).spec_taken(), buf)
                            &&& !final(self).spec_fatal_error()
                            &&& if appended(old(self).spec_pending()->0, buf)[0].len() >= bs {
                                &&& final(self).spec_requests().len() == old(self).spec_requests().len() + 1
                                &&& final(self).spec_requests().drop_last() == old(self).spec_requests()
                                &&& is_block_msg(
                                    final(self).spec_requests().last(),
                                    filled_block(old(self).spec_pending()->0, buf, bs),
                                    old(self).spec_restart_count(),
                                )
                            } else {
                                final(self).spec_requests() == old(self).spec_requests()
                            }
                        },
                        Err(e) => {
                            &&& final(self).spec_num_frames() == old(self).spec_num_frames()
                            &&& final(self).spec_pending() == old(self).spec_pending()
                            &&& final(self).spec_taken() == old(self).spec_taken()
                            &&& final(self).spec_handed() == old(self).spec_handed()
                            &&& final(self).spec_requests() == old(self).spec_requests()
                            &&& (e is IOServerChannelFull || e is Underflow || (e is FatalError
                                && final(self).spec_fatal_error()))
                        },
                    }
                }
            }),
            // The look at the channel decides whether it refuses for want of room.
            ({
                let looks = final(self).spec_channel_looks().skip(old(self).spec_channel_looks().len() as int);
                &&& old(self).spec_channel_looks().is_prefix_of(final(self).spec_channel_looks())
                &&& looks.len() <= 1
                &&& (r == Err::<(), WriteError<E::FatalError>>(WriteError::IOServerChannelFull) <==> (looks.len() == 1
                    && looks[0]))
                
            }),
    {
        if self.fatal_error || self.finished {
            proof { self.lemma_no_new_look(*old(self)); }
            return Err(WriteError::FatalError(FatalWriteError::StreamClosed));
        }
        // Check that the buffer is valid.
        let nc = self.file_info.num_channels as usize;
        if buffer.len() != nc {
            proof { self.lemma_no_new_look(*old(self)); }
            return Err(WriteError::InvalidBuffer);
        }
        // Check buffer sizes.
        let buffer_len = buffer[0].len();
        if buffer_len > self.block_size {
            proof { self.lemma_no_new_look(*old(self)); }
            return Err(WriteError::BufferTooLong { buffer_len, block_size: self.block_size });
        }
        let mut i: usize = 1;
        while i < nc
            invariant
                1 <= i <= nc == buffer@.len(),
                self.wf(),
                *self == *old(self),
                !old(self).fatal_error,
                !old(self).finished,
                buffer_len <= self.block_size,
                buffer_len == buffer@[0]@.len(),
                forall|j: int| 0 <= j < i ==> (#[trigger] buffer@[j])@.len() == buffer_len,
            decreases nc - i,
        {
            if buffer[i].len() != buffer_len {
                proof {
                    assert(buffer_view(buffer)[i as int].len() != buffer_view(buffer)[0].len());
                }
                proof { self.lemma_no_new_look(*old(self)); }
            return Err(WriteError::InvalidBuffer);
            }
            i += 1;
        }
        assert(buffer_ok(buffer_view(buffer), nc as int));

        if let Err(e) = self.poll() {
            proof { self.lemma_no_new_look(*old(self)); }
            return Err(e);
        }
        let ghost polled = *self;
        let full = self.to_server_tx.look_full();
        let r = self.write_polled(buffer, full);
        proof { self.lemma_one_new_look(*old(self), full); }
        r
    }

    /// The part of [`WriteDiskStream::write`] after polling, given whether
    /// the channel to the IO server was `full` when looked at: a full
    /// channel refuses the write, which otherwise goes through when both
    /// the current and the next block are at hand.
    pub fn write_polled(&mut self, buffer: &[&[E::T]], full: bool) -> (r: Result<(), WriteError<E::FatalError>>)
        requires
            old(self).wf(),
            !old(self).spec_fatal_error(),
            !old(self).spec_finished(),
            buffer_view(buffer).len() == old(self).spec_num_channels(),
            buffer_view(buffer)[0].len() <= old(self).spec_block_size(),
            buffer_ok(buffer_view(buffer), old(self).spec_num_channels()),
            old(self).spec_num_frames() + buffer@[0]@.len() <= usize::MAX,
        ensures
            final(self).spec_channel_looks() == old(self).spec_channel_looks(),
            final(self).wf(),
            ({
                let bs = old(self).spec_block_size();
                let buf = buffer_view(buffer);
                &&& final(self).spec_num_channels() == old(self).spec_num_channels()
                &&& final(self).spec_block_size() == bs
                &&& final(self).spec_restart_count() == old(self).spec_restart_count()
                &&& !final(self).spec_finished()
                &&& full ==> r == Err::<(), WriteError<E::FatalError>>(WriteError::IOServerChannelFull)
                &&& !full ==> (r is Ok <==> old(self).spec_blocks_ready())
                &&& !full && !old(self).spec_blocks_ready() ==> r == Err::<(), WriteError<E::FatalError>>(
                    WriteError::Underflow,
                )
                &&& match r {
                    Ok(()) => {
                        &&& final(self).spec_num_frames() == old(self).spec_num_frames() + buf[0].len()
                        &&& final(self).spec_pending() == Some(
                            pending_after_write(old(self).spec_pending()->0, buf, bs),
                        )
                        &&& final(self).spec_taken() == appended(old(self).spec_taken(), buf)
                        &&& !final(self).spec_fatal_error()
                        &&& if appended(old(self).spec_pending()->0, buf)[0].len() >= bs {
                            &&& final(self).spec_requests().len() == old(self).spec_requests().len() + 1
                            &&& final(self).spec_requests().drop_last() == old(self).spec_requests()
                            &&& is_block_msg(
                                final(self).spec_requests().last(),
                                filled_block(old(self).spec_pending()->0, buf, bs),
                                old(self).spec_restart_count(),
                            )
                        } else {
                            final(self).spec_requests() == old(self).spec_requests()
                        }
                    },
                    Err(_) => final(self).same_state(*old(self)),
                }
            }),
    {
        let nc = self.file_info.num_channels as usize;
        assert(buffer_view(buffer)[0] == buffer@[0]@);
        let buffer_len = buffer[0].len();
        assert forall|i: int| 0 <= i < buffer@.len() implies (#[trigger] buffer@[i])@.len() == buffer_len by {
            assert(buffer_view(buffer)[i] == buffer@[i]@);
        }
        // Check that there is at-least one slot open.
        if full {
            return Err(WriteError::IOServerChannelFull);
        }

        let bs = self.block_size;
        let restart_count = self.restart_count;
        let ghost pending = self.spec_pending()->0;
        let ghost buf = buffer_view(buffer);
        let ghost taken0 = self.taken@;
        let ghost handed0 = self.handed@;
        let heap = self.heap_data.as_mut().unwrap();

        // Check that there are available blocks to write to.
        let mut current_block = match heap.current_block.take() {
            Some(b) => b,
            None => {
                return Err(WriteError::Underflow);
            },
        };
        let mut next_block = match heap.next_block.take() {
            Some(b) => b,
            None => {
                heap.current_block = Some(current_block);
                return Err(WriteError::Underflow);
            },
        };
        let written = current_block.written_frames();
        proof {
            let a = appended(pending, buf);
            assert(a.len() == nc);
        }
        if buffer_len > bs - written {
            // Need to copy to two blocks.
            let first_len = bs - written;
            current_block.append_frames(buffer, 0, first_len);
            let ghost full = current_block.spec_channels();
            let ghost reqs0 = self.to_server_tx.spec_handed();
            // Send the now filled block to the IO server for writing.
            current_block.set_restart_count(restart_count);
            let _ = self.to_server_tx.push(ClientToServerMsg::WriteBlock { block: current_block });
            // Copy the remaining data into the second block.
            next_block.append_frames(buffer, first_len, buffer_len);
            proof {
                let a = appended(pending, buf);
                assert forall|c: int| 0 <= c < nc implies #[trigger] next_block.spec_channels()[c]
                    =~= a[c].subrange(bs as int, a[c].len() as int) by {
                    assert(next_block.spec_channels()[c] =~= Seq::<E::T>::empty() + buf[c].subrange(first_len as int, buffer_len as int));
                }
                assert(next_block.spec_channels() =~= pending_after_write(pending, buf, bs as int));
                assert forall|c: int| 0 <= c < nc implies #[trigger] full[c]
                    =~= a[c].subrange(0, bs as int) by {}
                lemma_split_block(handed0, pending, buf, full, next_block.spec_channels(), bs as int);
                assert(full =~= filled_block(pending, buf, bs as int));
                assert(self.to_server_tx.spec_handed().drop_last() =~= reqs0);
            }
            self.handed = Ghost(appended(handed0, full));
            let heap = self.heap_data.as_mut().unwrap();
            heap.current_block = Some(next_block);
            heap.next_block = heap.block_pool.pop();
        } else {
            // Only need to copy to first block.
            current_block.append_frames(buffer, 0, buffer_len);
            if buffer_len == bs - written {
                let ghost full = current_block.spec_channels();
                let ghost reqs0 = self.to_server_tx.spec_handed();
                // Block is filled. Send it to the IO server for writing.
                current_block.set_restart_count(restart_count);
                let _ = self.to_server_tx.push(ClientToServerMsg::WriteBlock { block: current_block });
                proof {
                    let a = appended(pending, buf);
                    assert forall|c: int| 0 <= c < nc implies #[trigger] next_block.spec_channels()[c]
                        =~= a[c].subrange(bs as int, a[c].len() as int) by {}
                    assert(next_block.spec_channels() =~= pending_after_write(pending, buf, bs as int));
                    assert forall|c: int| 0 <= c < nc implies #[trigger] full[c]
                        =~= a[c].subrange(0, bs as int) by {}
                    lemma_split_block(handed0, pending, buf, full, next_block.spec_channels(), bs as int);
                    assert(full =~= filled_block(pending, buf, bs as int));
                    assert(self.to_server_tx.spec_handed().drop_last() =~= reqs0);
                }
                self.handed = Ghost(appended(handed0, full));
                let heap = self.heap_data.as_mut().unwrap();
                heap.current_block = Some(next_block);
                heap.next_block = heap.block_pool.pop();
            } else {
                proof {
                    let a = appended(pending, buf);
                    assert forall|c: int| 0 <= c < nc implies #[trigger] current_block.spec_channels()[c]
                        == a[c] by {}
                    assert(current_block.spec_channels() =~= pending_after_write(pending, buf, bs as int));
                }
                let heap = self.heap_data.as_mut().unwrap();
                heap.current_block = Some(current_block);
                heap.next_block = Some(next_block);
            }
        }
        proof {
            lemma_mod_step(
                self.file_info.num_frames - self.base_frames@,
                buffer_len as int,
                bs as int,
            );
            assert forall|ch: int| 0 <= ch < nc implies #[trigger] appended(taken0, buf)[ch]
                == self.handed@[ch] + self.heap_data->0.current_block->0.spec_channels()[ch] by {
                assert(taken0[ch] == handed0[ch] + pending[ch]);
                assert(appended(taken0, buf)[ch] == taken0[ch] + buf[ch]);
                assert(appended(pending, buf)[ch] == pending[ch] + buf[ch]);
                assert(handed0[ch] + pending[ch] + buf[ch] =~= handed0[ch] + (pending[ch] + buf[ch]));
            }
        }
        self.taken = Ghost(appended(taken0, buf));
        self.file_info.num_frames = self.file_info.num_frames + buffer_len;
        Ok(())
    }

    /// Returns true if the stream is ready for writing, false otherwise.
    ///
    /// This is realtime-safe.
    pub fn is_ready(&mut self) -> (r: Result<bool, WriteError<E::FatalError>>)
        requires
            old(self).wf(),
        ensures
            final(self).polled_from(*old(self)),
            old(self).spec_fatal_error() || old(self).spec_finished() ==> r == Err::<
                bool,
                WriteError<E::FatalError>,
            >(WriteError::FatalError(FatalWriteError::StreamClosed)) && final(self).same_state(
                *old(self),
            ),
            r == Ok::<bool, WriteError<E::FatalError>>(true) ==> final(self).spec_blocks_ready(),
            r is Ok ==> !final(self).spec_fatal_error(),
            r matches Err(e) ==> e is FatalError,
            // The look at the channel decides whether it refuses for want of room.
            ({
                let looks = final(self).spec_channel_looks().skip(old(self).spec_channel_looks().len() as int);
                &&& old(self).spec_channel_looks().is_prefix_of(final(self).spec_channel_looks())
                &&& looks.len() <= 1
                &&& r is Ok ==> looks.len() == 1 && r == Ok::<bool, WriteError<E::FatalError>>(
                    final(self).spec_blocks_ready() && !looks[0],
                )
            }),
    {
        if self.fatal_error || self.finished {
            proof { self.lemma_no_new_look(*old(self)); }
            return Err(WriteError::FatalError(FatalWriteError::StreamClosed));
        }
        if let Err(e) = self.poll() {
            proof { self.lemma_no_new_look(*old(self)); }
            return Err(e);
        }
        let full = self.to_server_tx.look_full();
        proof { self.lemma_one_new_look(*old(self), full); }
        self.is_ready_polled(full)
    }

    /// The part of [`WriteDiskStream::is_ready`] after polling, given whether
    /// the channel to the IO server was `full` when looked at: the stream is
    /// ready when the current and the next block are at hand and the channel
    /// has room.
    pub fn is_ready_polled(&self, full: bool) -> (r: Result<bool, WriteError<E::FatalError>>)
        requires
            self.wf(),
        ensures
            r == Ok::<bool, WriteError<E::FatalError>>(self.spec_blocks_ready() && !full),
    {
        let heap = self.heap_data.as_ref().unwrap();
        Ok(heap.current_block.is_some() && heap.next_block.is_some() && !full)
    }


    /// No look at the channel was made between `before` and `self`.
    proof fn lemma_no_new_look(self, before: Self)
        requires
            self.spec_channel_looks() == before.spec_channel_looks(),
        ensures
            before.spec_channel_looks().is_prefix_of(self.spec_channel_looks()),
            self.spec_channel_looks().skip(before.spec_channel_looks().len() as int) == Seq::<bool>::empty(),
    {
        let a = self.spec_channel_looks();
        assert(a.subrange(0, a.len() as int) =~= a);
        assert(a.skip(a.len() as int) =~= Seq::<bool>::empty());
    }

    /// One look at the channel, which found `full`, was made between
    /// `before` and `self`.
    proof fn lemma_one_new_look(self, before: Self, full: bool)
        requires
            self.spec_channel_looks() == before.spec_channel_looks().push(full),
        ensures
            before.spec_channel_looks().is_prefix_of(self.spec_channel_looks()),
            self.spec_channel_looks().skip(before.spec_channel_looks().len() as int) == seq![full],
    {
        let a = before.spec_channel_looks();
        assert(a.push(full).subrange(0, a.len() as int) =~= a);
        assert(a.push(full).skip(a.len() as int) =~= seq![full]);
    }

    /// What [`WriteDiskStream::finish_and_close`] does to the open stream
    /// `self`, leaving `after`, with the answer `r`: it looks at whether the
    /// channel to the IO server is full before handing the frames waiting in
    /// the current block, and again before requesting the end of the file;
    /// it refuses with `IOServerChannelFull` when the look that decides
    /// found the channel full (the first only matters when frames wait),
    /// and otherwise hands the waiting frames, if any, then `FinishFile`.
    pub open spec fn finish_outcome(self, after: Self, r: Result<(), WriteError<E::FatalError>>) -> bool {
        let looks = after.spec_channel_looks().skip(self.spec_channel_looks().len() as int);
        let waiting = self.spec_pending()->0[0].len() > 0;
        let reqs = self.spec_requests();
        &&& self.spec_channel_looks().is_prefix_of(after.spec_channel_looks())
        &&& looks.len() >= 1
        &&& if waiting && looks[0] {
            &&& looks.len() == 1
            &&& r == Err::<(), WriteError<E::FatalError>>(WriteError::IOServerChannelFull)
            &&& after.spec_requests() == reqs
        } else {
            &&& looks.len() == 2
            &&& looks[1] ==> r == Err::<(), WriteError<E::FatalError>>(WriteError::IOServerChannelFull)
            &&& !looks[1] ==> r is Ok && if waiting {
                &&& after.spec_requests().len() == reqs.len() + 2
                &&& after.spec_requests().subrange(0, reqs.len() as int) == reqs
                &&& is_block_msg(after.spec_requests()[reqs.len() as int], self.spec_pending()->0, self.spec_restart_count())
                &&& after.spec_requests().last() == ClientToServerMsg::<E>::FinishFile
            } else {
                after.spec_requests() == reqs.push(ClientToServerMsg::<E>::FinishFile)
            }
        }
    }

    /// Finishing an open stream is refused only for want of room: it answers
    /// `IOServerChannelFull` only when one of its looks found the channel to
    /// the IO server full, and when every look found room it succeeds,
    /// handing the frames waiting in the current block, if any, and then the
    /// request to finish the file, after the requests made before.
    pub proof fn law_finish_refused_only_when_full(before: Self, after: Self, r: Result<(), WriteError<E::FatalError>>)
        requires
            before.finish_outcome(after, r),
        ensures
            ({
                let looks = after.spec_channel_looks().skip(before.spec_channel_looks().len() as int);
                let reqs = before.spec_requests();
                &&& r is Ok || r == Err::<(), WriteError<E::FatalError>>(WriteError::IOServerChannelFull)
                &&& r is Err ==> exists|i: int| 0 <= i < looks.len() && #[trigger] looks[i]
                &&& (forall|i: int| 0 <= i < looks.len() ==> !#[trigger] looks[i]) ==> {
                    &&& r is Ok
                    &&& after.spec_requests().len() > reqs.len()
                    &&& after.spec_requests().subrange(0, reqs.len() as int) == reqs
                    &&& after.spec_requests().last() == ClientToServerMsg::<E>::FinishFile
                    &&& before.spec_pending()->0[0].len() > 0 ==> {
                        &&& after.spec_requests().len() == reqs.len() + 2
                        &&& is_block_msg(
                            after.spec_requests()[reqs.len() as int],
                            before.spec_pending()->0,
                            before.spec_restart_count(),
                        )
                    }
                    &&& before.spec_pending()->0[0].len() == 0 ==> after.spec_requests().len() == reqs.len() + 1
                }
            }),
    {
        let looks = after.spec_channel_looks().skip(before.spec_channel_looks().len() as int);
        let reqs = before.spec_requests();
        if r is Err {
            if before.spec_pending()->0[0].len() > 0 && looks[0] {
                assert(looks[0]);
            } else {
                assert(looks[1]);
            }
        }
        if forall|i: int| 0 <= i < looks.len() ==> !#[trigger] looks[i] {
            assert(!looks[0]);
            assert(!looks[1]);
            if before.spec_pending()->0[0].len() == 0 {
                assert(after.spec_requests().subrange(0, reqs.len() as int) =~= reqs);
            }
        }
    }

    /// Finish the file and close the stream. `WriteDiskStream::write()` cannot be used
    /// after calling this.
    ///
    /// This is realtime-safe. The frames of the current block are handed to
    /// the IO server first, then the request to finish the file.
    pub fn finish_and_close(&mut self) -> (r: Result<(), WriteError<E::FatalError>>)
        requires
            old(self).wf(),
        ensures
            final(self).wf(),
            old(self).spec_fatal_error() || old(self).spec_finished() ==> r == Err::<
                (),
                WriteError<E::FatalError>,
            >(WriteError::FatalError(FatalWriteError::StreamClosed)) && final(self).same_state(
                *old(self),
            ),
            !(old(self).spec_fatal_error() || old(self).spec_finished()) ==> {
                &&& final(self).spec_finished()
                &&& (r is Ok || r == Err::<(), WriteError<E::FatalError>>(
                    WriteError::IOServerChannelFull,
                ))
                &&& final(self).spec_num_frames() == old(self).spec_num_frames()
                &&& final(self).spec_num_files() == old(self).spec_num_files()
                &&& final(self).spec_fatal_error() == old(self).spec_fatal_error()
                &&& final(self).spec_restart_count() == old(self).spec_restart_count()
                &&& final(self).spec_taken() == old(self).spec_taken()
                &&& r is Ok ==> final(self).spec_handed() == old(self).spec_taken()
                &&& r is Ok ==> if old(self).spec_pending()->0[0].len() > 0 {
                    // The frames still waiting, then the request to finish.
                    &&& final(self).spec_requests().len() == old(self).spec_requests().len() + 2
                    &&& final(self).spec_requests().subrange(0, old(self).spec_requests().len() as int)
                        == old(self).spec_requests()
                    &&& is_block_msg(
                        final(self).spec_requests()[old(self).spec_requests().len() as int],
                        old(self).spec_pending()->0,
                        old(self).spec_restart_count(),
                    )
                    &&& final(self).spec_requests().last() == ClientToServerMsg::<E>::FinishFile
                } else {
                    final(self).spec_requests() == old(self).spec_requests().push(ClientToServerMsg::<E>::FinishFile)
                }
            },
            !(old(self).spec_fatal_error() || old(self).spec_finished()) ==> old(self).finish_outcome(
                *final(self),
                r,
            ),
    {
        if self.fatal_error || self.finished {
            return Err(WriteError::FatalError(FatalWriteError::StreamClosed));
        }
        let full = self.to_server_tx.look_full();
        let ghost looked = *self;
        if let Err(e) = self.finish_hand_pending(full) {
            proof {
                assert(self.spec_channel_looks().skip(old(self).spec_channel_looks().len() as int) =~= seq![full]);
            }
            return Err(e);
        }
        // Check that there is at-least one slot open.
        let full2 = self.to_server_tx.look_full();
        let full = full2;
        proof {
            assert(self.spec_channel_looks().skip(old(self).spec_channel_looks().len() as int) =~= seq![
                looked.spec_channel_looks().last(),
                full2,
            ]);
        }
        let ghost mid = *self;
        let r = self.finish_request(full);
        proof {
            if r is Ok {
                assert(self.spec_requests().subrange(0, old(self).spec_requests().len() as int)
                    =~= mid.spec_requests().subrange(0, old(self).spec_requests().len() as int));
            }
        }
        r
    }

    /// The first part of [`WriteDiskStream::finish_and_close`], given
    /// whether the channel to the IO server was `full` when looked at: the
    /// stream is closed, and the frames waiting in the current block, if
    /// any, are handed to the IO server unless the channel is full.
    pub fn finish_hand_pending(&mut self, full: bool) -> (r: Result<(), WriteError<E::FatalError>>)
        requires
            old(self).wf(),
            !old(self).spec_fatal_error(),
            !old(self).spec_finished(),
        ensures
            final(self).wf(),
            final(self).spec_finished(),
            final(self).spec_num_frames() == old(self).spec_num_frames(),
            final(self).spec_num_files() == old(self).spec_num_files(),
            final(self).spec_fatal_error() == old(self).spec_fatal_error(),
            final(self).spec_restart_count() == old(self).spec_restart_count(),
            final(self).spec_taken() == old(self).spec_taken(),
            final(self).spec_channel_looks() == old(self).spec_channel_looks(),
            if old(self).spec_pending()->0[0].len() > 0 {
                &&& full ==> r == Err::<(), WriteError<E::FatalError>>(WriteError::IOServerChannelFull)
                    && final(self).spec_requests() == old(self).spec_requests()
                &&& !full ==> {
                    &&& r is Ok
                    &&& final(self).spec_handed() == old(self).spec_taken()
                    &&& final(self).spec_requests().len() == old(self).spec_requests().len() + 1
                    &&& final(self).spec_requests().drop_last() == old(self).spec_requests()
                    &&& is_block_msg(
                        final(self).spec_requests().last(),
                        old(self).spec_pending()->0,
                        old(self).spec_restart_count(),
                    )
                }
            } else {
                &&& r is Ok
                &&& final(self).spec_handed() == old(self).spec_taken()
                &&& final(self).spec_requests() == old(self).spec_requests()
            },
    {
        self.finished = true;
        let restart_count = self.restart_count;
        let heap = self.heap_data.as_mut().unwrap();
        if let Some(mut current_block) = heap.current_block.take() {
            if current_block.written_frames() > 0 {
                // Send the last bit of remaining samples to be encoded.
                if full {
                    return Err(WriteError::IOServerChannelFull);
                }
                current_block.set_restart_count(restart_count);
                let _ = self.to_server_tx.push(ClientToServerMsg::WriteBlock { block: current_block });
                assert(self.to_server_tx.spec_handed().drop_last() =~= old(self).to_server_tx.spec_handed());
            } else {
                heap.current_block = Some(current_block);
            }
            self.handed = Ghost(self.taken@);
        }
        Ok(())
    }

    /// The last part of [`WriteDiskStream::finish_and_close`], given whether
    /// the channel to the IO server was `full` when looked at: the request
    /// to finish the file is handed to the IO server unless the channel is
    /// full.
    pub fn finish_request(&mut self, full: bool) -> (r: Result<(), WriteError<E::FatalError>>)
        requires
            old(self).wf(),
            old(self).spec_finished(),
        ensures
            final(self).wf(),
            final(self).spec_finished(),
            final(self).spec_num_frames() == old(self).spec_num_frames(),
            final(self).spec_num_files() == old(self).spec_num_files(),
            final(self).spec_fatal_error() == old(self).spec_fatal_error(),
            final(self).spec_restart_count() == old(self).spec_restart_count(),
            final(self).spec_taken() == old(self).spec_taken(),
            final(self).spec_handed() == old(self).spec_handed(),
            final(self).spec_channel_looks() == old(self).spec_channel_looks(),
            full ==> r == Err::<(), WriteError<E::FatalError>>(WriteError::IOServerChannelFull)
                && final(self).spec_requests() == old(self).spec_requests(),
            !full ==> r is Ok && final(self).spec_requests() == old(self).spec_requests().push(
                ClientToServerMsg::<E>::FinishFile,
            ),
    {
        if full {
            return Err(WriteError::IOServerChannelFull);
        }
        let _ = self.to_server_tx.push(ClientToServerMsg::FinishFile);
        Ok(())
    }


    /// Delete all files created by this stream and close the stream.
    /// `WriteDiskStream::write()` cannot be used after calling this.
    ///
    /// This is realtime-safe.
    pub fn discard_and_close(&mut self) -> (r: Result<(), WriteError<E::FatalError>>)
        requires
            old(self).wf(),
        ensures
            final(self).wf(),
            old(self).spec_fatal_error() || old(self).spec_finished() ==> r == Err::<
                (),
                WriteError<E::FatalError>,
            >(WriteError::FatalError(FatalWriteError::StreamClosed)) && final(self).same_state(
                *old(self),
            ),
            !(old(self).spec_fatal_error() || old(self).spec_finished()) ==> {
                &&& final(self).spec_finished()
                &&& final(self).spec_num_frames() == old(self).spec_num_frames()
                &&& final(self).spec_restart_count() == old(self).spec_restart_count()
                &&& final(self).spec_pending() == old(self).spec_pending()
                &&& match r {
                    Ok(()) => final(self).spec_num_files() == 0 && final(self).spec_requests()
                        == old(self).spec_requests().push(ClientToServerMsg::<E>::DiscardFile),
                    Err(e) => e is IOServerChannelFull && final(self).spec_num_files()
                        == old(self).spec_num_files() && final(self).spec_requests() == old(self).spec_requests(),
                }
            },
            // The look at the channel decides whether it refuses for want of room.
            ({
                let looks = final(self).spec_channel_looks().skip(old(self).spec_channel_looks().len() as int);
                &&& old(self).spec_channel_looks().is_prefix_of(final(self).spec_channel_looks())
                &&& looks.len() <= 1
                &&& !(old(self).spec_fatal_error() || old(self).spec_finished()) ==> looks.len() == 1 && (r is Ok
                    <==> !looks[0])
            }),
    {
        if self.fatal_error || self.finished {
            proof { self.lemma_no_new_look(*old(self)); }
            return Err(WriteError::FatalError(FatalWriteError::StreamClosed));
        }
        let full = self.to_server_tx.look_full();
        let r = self.discard_and_close_with_room(full);
        proof { self.lemma_one_new_look(*old(self), full); }
        r
    }

    /// [`WriteDiskStream::discard_and_close`], given whether the channel to
    /// the IO server was `full` when looked at.
    pub fn discard_and_close_with_room(&mut self, full: bool) -> (r: Result<(), WriteError<E::FatalError>>)
        requires
            old(self).wf(),
        ensures
            final(self).spec_channel_looks() == old(self).spec_channel_looks(),
            // It goes through exactly when the channel to the IO server has room.
            !(old(self).spec_fatal_error() || old(self).spec_finished()) ==> (r is Ok <==> !full),
            final(self).wf(),
            old(self).spec_fatal_error() || old(self).spec_finished() ==> r == Err::<
                (),
                WriteError<E::FatalError>,
            >(WriteError::FatalError(FatalWriteError::StreamClosed)) && final(self).same_state(
                *old(self),
            ),
            !(old(self).spec_fatal_error() || old(self).spec_finished()) ==> {
                &&& final(self).spec_finished()
                &&& final(self).spec_num_frames() == old(self).spec_num_frames()
                &&& final(self).spec_restart_count() == old(self).spec_restart_count()
                &&& final(self).spec_pending() == old(self).spec_pending()
                &&& match r {
                    Ok(()) => final(self).spec_num_files() == 0 && final(self).spec_requests()
                        == old(self).spec_requests().push(ClientToServerMsg::<E>::DiscardFile),
                    Err(e) => e is IOServerChannelFull && final(self).spec_num_files()
                        == old(self).spec_num_files() && final(self).spec_requests() == old(self).spec_requests(),
                }
            },
    {
        if self.fatal_error || self.finished {
            return Err(WriteError::FatalError(FatalWriteError::StreamClosed));
        }
        self.finished = true;
        if full {
            return Err(WriteError::IOServerChannelFull);
        }
        let _ = self.to_server_tx.push(ClientToServerMsg::DiscardFile);
        self.num_files = 0;
        Ok(())
    }

    /// Delete all files created by this stream and start over. This stream can
    /// continue to be written to after calling this.
    ///
    /// This is realtime-safe.
    pub fn discard_and_restart(&mut self) -> (r: Result<(), WriteError<E::FatalError>>)
        requires
            old(self).wf(),
            !(old(self).spec_fatal_error() || old(self).spec_finished()) ==> old(self).spec_restart_count()
                < usize::MAX,
        ensures
            final(self).wf(),
            old(self).spec_fatal_error() || old(self).spec_finished() ==> r == Err::<
                (),
                WriteError<E::FatalError>,
            >(WriteError::FatalError(FatalWriteError::StreamClosed)) && final(self).same_state(
                *old(self),
            ),
            !(old(self).spec_fatal_error() || old(self).spec_finished()) ==> match r {
                Ok(()) => {
                    &&& final(self).spec_num_channels() == old(self).spec_num_channels()
                    &&& final(self).spec_block_size() == old(self).spec_block_size()
                    &&& !final(self).spec_finished()
                    &&& !final(self).spec_fatal_error()
                    &&& final(self).spec_finish_complete() == old(self).spec_finish_complete()
                    &&& final(self).spec_restart_count() == old(self).spec_restart_count() + 1
                    &&& final(self).spec_num_frames() == 0
                    &&& final(self).spec_num_files() == 1
                    &&& final(self).spec_pending() == Some(
                        empty_channels::<E::T>(old(self).spec_num_channels()),
                    )
                    &&& final(self).spec_taken() == empty_channels::<E::T>(
                        old(self).spec_num_channels(),
                    )
                    &&& final(self).spec_handed() == empty_channels::<E::T>(
                        old(self).spec_num_channels(),
                    )
                    &&& final(self).spec_requests() == old(self).spec_requests().push(
                        ClientToServerMsg::<E>::DiscardAndRestart,
                    )
                },
                Err(e) => e is IOServerChannelFull && final(self).same_state(*old(self)),
            },
            // The look at the channel decides whether it refuses for want of room.
            ({
                let looks = final(self).spec_channel_looks().skip(old(self).spec_channel_looks().len() as int);
                &&& old(self).spec_channel_looks().is_prefix_of(final(self).spec_channel_looks())
                &&& looks.len() <= 1
                &&& !(old(self).spec_fatal_error() || old(self).spec_finished()) ==> looks.len() == 1 && (r is Ok
                    <==> !looks[0])
            }),
    {
        if self.fatal_error || self.finished {
            proof { self.lemma_no_new_look(*old(self)); }
            return Err(WriteError::FatalError(FatalWriteError::StreamClosed));
        }
        let full = self.to_server_tx.look_full();
        let r = self.discard_and_restart_with_room(full);
        proof { self.lemma_one_new_look(*old(self), full); }
        r
    }

    /// [`WriteDiskStream::discard_and_restart`], given whether the channel
    /// to the IO server was `full` when looked at.
    pub fn discard_and_restart_with_room(&mut self, full: bool) -> (r: Result<(), WriteError<E::FatalError>>)
        requires
            old(self).wf(),
            !(old(self).spec_fatal_error() || old(self).spec_finished()) ==> old(self).spec_restart_count()
                < usize::MAX,
        ensures
            final(self).spec_channel_looks() == old(self).spec_channel_looks(),
            // It goes through exactly when the channel to the IO server has room.
            !(old(self).spec_fatal_error() || old(self).spec_finished()) ==> (r is Ok <==> !full),
            final(self).wf(),
            old(self).spec_fatal_error() || old(self).spec_finished() ==> r == Err::<
                (),
                WriteError<E::FatalError>,
            >(WriteError::FatalError(FatalWriteError::StreamClosed)) && final(self).same_state(
                *old(self),
            ),
            !(old(self).spec_fatal_error() || old(self).spec_finished()) ==> match r {
                Ok(()) => {
                    &&& final(self).spec_num_channels() == old(self).spec_num_channels()
                    &&& final(self).spec_block_size() == old(self).spec_block_size()
                    &&& !final(self).spec_finished()
                    &&& !final(self).spec_fatal_error()
                    &&& final(self).spec_finish_complete() == old(self).spec_finish_complete()
                    &&& final(self).spec_restart_count() == old(self).spec_restart_count() + 1
                    &&& final(self).spec_num_frames() == 0
                    &&& final(self).spec_num_files() == 1
                    &&& final(self).spec_pending() == Some(
                        empty_channels::<E::T>(old(self).spec_num_channels()),
                    )
                    &&& final(self).spec_taken() == empty_channels::<E::T>(
                        old(self).spec_num_channels(),
                    )
                    &&& final(self).spec_handed() == empty_channels::<E::T>(
                        old(self).spec_num_channels(),
                    )
                    &&& final(self).spec_requests() == old(self).spec_requests().push(
                        ClientToServerMsg::<E>::DiscardAndRestart,
                    )
                },
                Err(e) => e is IOServerChannelFull && final(self).same_state(*old(self)),
            },
    {
        if self.fatal_error || self.finished {
            return Err(WriteError::FatalError(FatalWriteError::StreamClosed));
        }
        if full {
            return Err(WriteError::IOServerChannelFull);
        }
        let _ = self.to_server_tx.push(ClientToServerMsg::DiscardAndRestart);
        let heap = self.heap_data.as_mut().unwrap();
        if let Some(block) = &mut heap.current_block {
            block.clear();
        }
        self.restart_count = self.restart_count + 1;
        self.file_info.num_frames = 0;
        self.base_frames = Ghost(0);
        self.taken = Ghost(empty_channels::<E::T>(self.file_info.num_channels as int));
        self.handed = Ghost(empty_channels::<E::T>(self.file_info.num_channels as int));
        self.num_files = 1;
        proof {
            let nc = self.file_info.num_channels as int;
            let b = self.heap_data->0.current_block->0;
            assert(b.spec_channels() == empty_channels::<E::T>(nc));
            assert(b.spec_channels()[0].len() == 0);
            assert(block_ok(b, nc, self.block_size as int));
            vstd::arithmetic::div_mod::lemma_small_mod(0, self.block_size as nat);
            assert(self.file_info.num_frames - self.base_frames@ == 0);
            assert forall|ch: int| 0 <= ch < nc implies #[trigger] self.taken@[ch] == self.handed@[ch]
                + self.heap_data->0.current_block->0.spec_channels()[ch] by {
                assert(self.handed@[ch] + Seq::<E::T>::empty() =~= self.handed@[ch]);
            }
        }
        Ok(())
    }

    /// Returns true when the file has been successfully finished and closed, false
    /// otherwise.
    ///
    /// Be sure to call `WriteDiskStream::poll()` first, or else this may not be
    /// accurate.
    ///
    /// This is realtime-safe.
    pub fn finish_complete(&self) -> (r: bool)
        ensures
            r == self.spec_finish_complete(),
    {
        self.finish_complete
    }

    /// Return info about the file.
    ///
    /// This is realtime-safe.
    pub fn info(&self) -> (r: &FileInfo<E::FileParams>)
        ensures
            r.num_frames == self.spec_num_frames(),
            r.num_channels == self.spec_num_channels(),
    {
        &self.file_info
    }

    /// Returns the total number of files created by this stream. This can be more
    /// than one depending on the codec and the number of written frames.
    ///
    /// This is realtime-safe.
    pub fn num_files(&self) -> (r: u32)
        ensures
            r == self.spec_num_files(),
    {
        self.num_files
    }
}

impl<E: Encoder> Drop for WriteDiskStream<E> {
    /// Hands the stream's blocks to the IO server to be deallocated there,
    /// which also tells it that the stream has closed.
    fn drop(&mut self)
        opens_invariants none
        no_unwind
    {
        let mut heap_data = None;
        std::mem::swap(&mut heap_data, &mut self.heap_data);
        let _ = channel::push(&mut self.close_signal_tx, heap_data);
    }
}

} // verus!
