//! The IO server of a read stream: it decodes the blocks and caches the
//! stream asks for.
use vstd::prelude::*;

use super::data::{block_view, DataBlockCache, HeapData};
use super::decoder::DecoderCall;
use super::{ClientToServerMsg, DataBlock, Decoder, ServerToClientMsg};
use crate::channel::{self, is_suffix_of, lemma_prefix_trans};
use crate::write::data::empty_channels;
use crate::ServerStatus;

verus! {

/// The number of channels of each block of `c`.
pub open spec fn cache_channels<T: Copy + Default + Send>(c: DataBlockCache<T>) -> Seq<int> {
    Seq::new(c.blocks@.len(), |i: int| block_view(c.blocks@[i]).len() as int)
}

/// The number of channels of each block of the cache a request is served
/// with: the one it brings, else the last one kept for reuse, else a new one.
pub open spec fn served_cache_channels<T: Copy + Default + Send>(
    cache: Option<DataBlockCache<T>>,
    pool: Seq<DataBlockCache<T>>,
    num_prefetch_blocks: int,
    num_channels: int,
) -> Seq<int> {
    match cache {
        Some(c) => cache_channels(c),
        None => if pool.len() > 0 {
            cache_channels(pool.last())
        } else {
            Seq::new(num_prefetch_blocks as nat, |i: int| num_channels)
        },
    }
}

/// The number of channels of the block a read request is served with: the
/// one it brings, else the last one kept for reuse, else a new one.
pub open spec fn served_block_channels<T: Copy + Default + Send>(
    block: Option<DataBlock<T>>,
    pool: Seq<DataBlock<T>>,
    num_channels: int,
) -> int {
    match block {
        Some(b) => block_view(b).len() as int,
        None => if pool.len() > 0 {
            block_view(pool.last()).len() as int
        } else {
            num_channels
        },
    }
}

/// The decoder calls `added` fill a cache whose blocks hold `chans`
/// channels: a seek to `start`, then a decode into each block, emptied,
/// which left it holding the channels of `filled`, then a seek back to
/// `back`, all of them succeeding.
pub open spec fn is_cache_fill<T, E>(
    added: Seq<DecoderCall<T, E>>,
    start: usize,
    back: usize,
    chans: Seq<int>,
    filled: Seq<Seq<Seq<T>>>,
) -> bool {
    &&& added.len() == chans.len() + 2
    &&& filled.len() == chans.len()
    &&& is_ok_seek(added[0], start)
    &&& is_ok_seek(added.last(), back)
    &&& forall|i: int|
        0 <= i < chans.len() ==> is_ok_decode(#[trigger] added[i + 1], empty_channels::<T>(chans[i]), filled[i])
}

/// `c` is a successful seek to `frame`.
pub open spec fn is_ok_seek<T, E>(c: DecoderCall<T, E>, frame: usize) -> bool {
    &&& c matches DecoderCall::Seek(f, res)
    &&& f == frame
    &&& res is Ok
}

/// `c` is a successful decode into a block holding `before`, which it left
/// holding `after`.
pub open spec fn is_ok_decode<T, E>(c: DecoderCall<T, E>, before: Seq<Seq<T>>, after: Seq<Seq<T>>) -> bool {
    &&& c matches DecoderCall::Decode(b, a, res)
    &&& b == before
    &&& a == after
    &&& res is Ok
}

/// The error a decoder call returned, if it failed.
pub open spec fn call_error<T, E>(c: DecoderCall<T, E>) -> Option<E> {
    match c {
        DecoderCall::Seek(_, Err(e)) => Some(e),
        DecoderCall::Decode(_, _, Err(e)) => Some(e),
        _ => None,
    }
}

/// `reply` reports the error of one of the decoder calls `calls` from the
/// `from`-th on.
pub open spec fn reports_call_error<D: Decoder>(
    reply: ServerToClientMsg<D>,
    calls: Seq<DecoderCall<D::T, D::FatalError>>,
    from: int,
) -> bool {
    &&& reply matches ServerToClientMsg::FatalError(e)
    &&& exists|k: int| from <= k < calls.len() && call_error(#[trigger] calls[k]) == Some(e)
}

/// `reply` answers a request to read the block starting at `start_frame`
/// into slot `block_index`, served by the decoder call `call` on an emptied
/// block of `chans` channels: the block it filled, or the error it
/// returned.
pub open spec fn block_read_reply<D: Decoder>(
    call: DecoderCall<D::T, D::FatalError>,
    reply: ServerToClientMsg<D>,
    block_index: usize,
    start_frame: usize,
    chans: int,
) -> bool {
    match call {
        DecoderCall::Decode(before, after, res) => {
            &&& before == empty_channels::<D::T>(chans)
            &&& match res {
                Ok(_) => {
                    &&& reply matches ServerToClientMsg::ReadIntoBlockRes { block_index: bi, block: b, wanted_start_frame: w }
                    &&& bi == block_index
                    &&& w == start_frame
                    &&& block_view(b) == after
                },
                Err(e) => reply == ServerToClientMsg::<D>::FatalError(e),
            }
        },
        _ => false,
    }
}

/// The cache `c` by its blocks.
pub open spec fn cache_blocks<T: Copy + Default + Send>(c: DataBlockCache<T>) -> Seq<Seq<Seq<T>>> {
    Seq::new(c.blocks@.len(), |i: int| block_view(c.blocks@[i]))
}

/// Handling the message `msg` gave the replies `reps`, in the order they
/// are sent, and made the decoder calls `calls`: a read request is answered
/// with the block read or with the error of the decode into it; a seek
/// request with nothing, or with the error of the seek; the other requests
/// with nothing, and without a decoder call.
pub open spec fn handled_as<D: Decoder>(
    msg: ClientToServerMsg<D>,
    reps: Seq<ServerToClientMsg<D>>,
    calls: Seq<DecoderCall<D::T, D::FatalError>>,
) -> bool {
    match msg {
        ClientToServerMsg::ReadIntoBlock { block_index, start_frame, .. } => {
            &&& reps.len() == 1
            &&& match reps[0] {
                ServerToClientMsg::ReadIntoBlockRes { block_index: bi, wanted_start_frame: w, .. } => {
                    bi == block_index && w == start_frame
                },
                ServerToClientMsg::FatalError(_) => true,
                _ => false,
            }
            &&& D::obeys_call_log() ==> {
                &&& calls.len() == 1
                &&& calls[0] matches DecoderCall::Decode(_, after, res)
                &&& match res {
                    Ok(_) => reps[0] matches ServerToClientMsg::ReadIntoBlockRes { block: b, .. } && block_view(b)
                        == after,
                    Err(e) => reps[0] == ServerToClientMsg::<D>::FatalError(e),
                }
            }
        },
        ClientToServerMsg::SeekTo { frame } => {
            &&& (reps.len() == 0 || (reps.len() == 1 && reps[0] is FatalError))
            &&& D::obeys_call_log() ==> {
                &&& calls.len() == 1
                &&& calls[0] matches DecoderCall::Seek(f, res)
                &&& f == frame
                &&& match res {
                    Ok(_) => reps.len() == 0,
                    Err(e) => reps == seq![ServerToClientMsg::<D>::FatalError(e)],
                }
            }
        },
        _ => reps.len() == 0 && calls.len() == 0,
    }
}

/// The requests to fill a cache among `msgs`, in order.
pub open spec fn cache_requests_in<D: Decoder>(msgs: Seq<ClientToServerMsg<D>>) -> Seq<CacheRequest<D::T>>
    decreases msgs.len(),
{
    if msgs.len() == 0 {
        Seq::empty()
    } else {
        let rest = cache_requests_in(msgs.drop_last());
        match msgs.last() {
            ClientToServerMsg::Cache { cache_index, cache, start_frame } => rest.push(
                CacheRequest { cache_index, cache, start_frame },
            ),
            _ => rest,
        }
    }
}

/// The blocks kept for reuse after the messages `msgs`, from `pool`: a
/// disposed block is kept, and a read request that brings no block takes the
/// last one kept.
pub open spec fn block_pool_after<D: Decoder>(
    pool: Seq<DataBlock<D::T>>,
    msgs: Seq<ClientToServerMsg<D>>,
) -> Seq<DataBlock<D::T>>
    decreases msgs.len(),
{
    if msgs.len() == 0 {
        pool
    } else {
        let p = block_pool_after(pool, msgs.drop_last());
        match msgs.last() {
            ClientToServerMsg::DisposeBlock { block } => p.push(block),
            ClientToServerMsg::ReadIntoBlock { block: None, .. } => if p.len() > 0 {
                p.drop_last()
            } else {
                p
            },
            _ => p,
        }
    }
}

/// The caches kept for reuse after the messages `msgs`, from `pool`: a
/// disposed cache is kept.
pub open spec fn cache_pool_after<D: Decoder>(
    pool: Seq<DataBlockCache<D::T>>,
    msgs: Seq<ClientToServerMsg<D>>,
) -> Seq<DataBlockCache<D::T>>
    decreases msgs.len(),
{
    if msgs.len() == 0 {
        pool
    } else {
        let p = cache_pool_after(pool, msgs.drop_last());
        match msgs.last() {
            ClientToServerMsg::DisposeCache { cache } => p.push(cache),
            _ => p,
        }
    }
}

/// The caches kept for reuse after serving the cache requests `served`, in
/// order, from `pool`: a request that brings no cache takes the last one
/// kept.
pub open spec fn cache_pool_after_fills<T: Copy + Default + Send>(
    pool: Seq<DataBlockCache<T>>,
    served: Seq<CacheRequest<T>>,
) -> Seq<DataBlockCache<T>>
    decreases served.len(),
{
    if served.len() == 0 {
        pool
    } else {
        let p = cache_pool_after_fills(pool, served.drop_last());
        if served.last().cache is None && p.len() > 0 {
            p.drop_last()
        } else {
            p
        }
    }
}

/// `reply` answers the request to fill a cache `req`: the cache filled
/// from its start frame, or an error.
pub open spec fn answers_cache_request<D: Decoder>(reply: ServerToClientMsg<D>, req: CacheRequest<D::T>) -> bool {
    match reply {
        ServerToClientMsg::CacheRes { cache_index, wanted_start_frame, .. } => {
            cache_index == req.cache_index && wanted_start_frame == req.start_frame
        },
        ServerToClientMsg::FatalError(_) => true,
        _ => false,
    }
}

/// A request to fill a cache, waiting for the blocks asked for to be read.
pub struct CacheRequest<T: Copy + Default + Send> {
    pub cache_index: usize,
    pub cache: Option<DataBlockCache<T>>,
    pub start_frame: usize,
}

/// The IO server of a read stream. The thread that owns it calls
/// [`ReadServer::step`] until it returns [`ServerStatus::Closed`], sleeping
/// whenever it returns [`ServerStatus::Idle`].
#[verifier::reject_recursive_types(D)]
pub struct ReadServer<D: Decoder> {
    to_client_tx: channel::Sender<ServerToClientMsg<D>>,
    from_client_rx: channel::Receiver<ClientToServerMsg<D>>,
    close_signal_rx: rtrb::Consumer<Option<HeapData<D::T>>>,
    decoder: D,
    block_pool: Vec<DataBlock<D::T>>,
    cache_pool: Vec<DataBlockCache<D::T>>,
    /// Cache requests wait until the block requests are served; the last
    /// one is served first.
    cache_requests: Vec<CacheRequest<D::T>>,
    num_channels: usize,
    num_prefetch_blocks: usize,
    block_size: usize,
    run: bool,
    client_closed: bool,
    /// Replies waiting for room in the channel to the stream; the next one
    /// to send is the last.
    pending: Vec<ServerToClientMsg<D>>,
}

impl<D: Decoder> ReadServer<D> {
    pub closed spec fn spec_run(self) -> bool {
        self.run
    }

    pub closed spec fn spec_client_closed(self) -> bool {
        self.client_closed
    }

    /// The replies still waiting to be sent, in the order they go out.
    pub closed spec fn spec_pending(self) -> Seq<ServerToClientMsg<D>> {
        self.pending@.reverse()
    }

    /// The calls made on the decoder so far, in order.
    pub closed spec fn spec_decoder_calls(self) -> Seq<DecoderCall<D::T, D::FatalError>> {
        self.decoder.spec_calls()
    }

    /// The decoder's read position.
    pub closed spec fn spec_decoder_position(self) -> usize {
        self.decoder.spec_position()
    }

    /// The replies accepted by the channel to the stream so far, in order.
    pub closed spec fn spec_sent(self) -> Seq<ServerToClientMsg<D>> {
        self.to_client_tx.spec_sent()
    }

    /// The messages taken from the channel from the stream so far, in order.
    pub closed spec fn spec_received(self) -> Seq<ClientToServerMsg<D>> {
        self.from_client_rx.spec_received()
    }

    /// The blocks kept for reuse.
    pub closed spec fn spec_block_pool(self) -> Seq<DataBlock<D::T>> {
        self.block_pool@
    }

    /// The caches kept for reuse.
    pub closed spec fn spec_cache_pool(self) -> Seq<DataBlockCache<D::T>> {
        self.cache_pool@
    }

    /// The cache requests waiting, the next one to serve last.
    pub closed spec fn spec_cache_requests(self) -> Seq<CacheRequest<D::T>> {
        self.cache_requests@
    }

    pub closed spec fn spec_num_channels(self) -> usize {
        self.num_channels
    }

    pub closed spec fn spec_num_prefetch_blocks(self) -> usize {
        self.num_prefetch_blocks
    }

    pub closed spec fn spec_block_size(self) -> usize {
        self.block_size
    }

    pub closed spec fn wf(self) -> bool {
        self.client_closed ==> !self.run && self.pending@.len() == 0
    }

    /// A server for a stream whose file `decoder` has opened.
    pub fn new(
        decoder: D,
        num_channels: u16,
        num_prefetch_blocks: usize,
        block_size: usize,
        to_client_tx: rtrb::Producer<ServerToClientMsg<D>>,
        from_client_rx: rtrb::Consumer<ClientToServerMsg<D>>,
        close_signal_rx: rtrb::Consumer<Option<HeapData<D::T>>>,
    ) -> (s: Self)
        ensures
            s.wf(),
            s.spec_run(),
            !s.spec_client_closed(),
            s.spec_pending().len() == 0,
            s.spec_block_pool().len() == 0,
            s.spec_cache_pool().len() == 0,
            s.spec_cache_requests().len() == 0,
            s.spec_num_channels() == num_channels,
            s.spec_decoder_calls() == decoder.spec_calls(),
            s.spec_sent() == Seq::<ServerToClientMsg<D>>::empty(),
            s.spec_received() == Seq::<ClientToServerMsg<D>>::empty(),
    {
        ReadServer {
            to_client_tx: channel::Sender::new(to_client_tx),
            from_client_rx: channel::Receiver::new(from_client_rx),
            close_signal_rx,
            decoder,
            block_pool: Vec::new(),
            cache_pool: Vec::new(),
            cache_requests: Vec::new(),
            num_channels: num_channels as usize,
            num_prefetch_blocks,
            block_size,
            run: true,
            client_closed: false,
            pending: Vec::new(),
        }
    }

    /// `block` if given, else one from the pool, else a new one.
    fn take_block(&mut self, block: Option<DataBlock<D::T>>) -> (b: DataBlock<D::T>)
        ensures
            final(self).cache_pool == old(self).cache_pool,
            final(self).cache_requests == old(self).cache_requests,
            final(self).same_flags(*old(self)),
            match block {
                Some(given) => b == given && final(self).block_pool == old(self).block_pool,
                None => if old(self).block_pool@.len() > 0 {
                    &&& b == old(self).block_pool@.last()
                    &&& final(self).block_pool@ == old(self).block_pool@.drop_last()
                } else {
                    &&& block_view(b) == empty_channels::<D::T>(old(self).num_channels as int)
                    &&& final(self).block_pool == old(self).block_pool
                },
            },
    {
        if let Some(b) = block {
            return b;
        }
        if self.block_pool.len() > 0 {
            self.block_pool.pop().unwrap()
        } else {
            DataBlock::new(self.num_channels, self.block_size)
        }
    }

    /// `cache` if given, else one from the pool, else a new one.
    fn take_cache(&mut self, cache: Option<DataBlockCache<D::T>>) -> (c: DataBlockCache<D::T>)
        ensures
            final(self).block_pool == old(self).block_pool,
            final(self).cache_requests == old(self).cache_requests,
            final(self).same_flags(*old(self)),
            match cache {
                Some(given) => c == given && final(self).cache_pool == old(self).cache_pool,
                None => if old(self).cache_pool@.len() > 0 {
                    &&& c == old(self).cache_pool@.last()
                    &&& final(self).cache_pool@ == old(self).cache_pool@.drop_last()
                } else {
                    &&& c.blocks@.len() == old(self).num_prefetch_blocks
                    &&& forall|i: int| 0 <= i < c.blocks@.len() ==> block_view(#[trigger] c.blocks@[i])
                        == empty_channels::<D::T>(old(self).num_channels as int)
                    &&& final(self).cache_pool == old(self).cache_pool
                },
            },
    {
        if let Some(c) = cache {
            return c;
        }
        if self.cache_pool.len() > 0 {
            self.cache_pool.pop().unwrap()
        } else {
            DataBlockCache::new(self.num_channels, self.num_prefetch_blocks, self.block_size)
        }
    }

    /// The flags and the sizes are those of `other`.
    pub closed spec fn same_flags(self, other: Self) -> bool {
        &&& self.run == other.run
        &&& self.client_closed == other.client_closed
        &&& self.pending == other.pending
        &&& self.num_channels == other.num_channels
        &&& self.num_prefetch_blocks == other.num_prefetch_blocks
        &&& self.block_size == other.block_size
        &&& self.decoder == other.decoder
        &&& self.to_client_tx == other.to_client_tx
        &&& self.from_client_rx == other.from_client_rx
    }

    /// Does what the stream asks in `msg`, but for filling caches, which is
    /// only queued; returns the replies in the order they are to be sent.
    pub fn handle_msg(&mut self, msg: ClientToServerMsg<D>) -> (r: Vec<ServerToClientMsg<D>>)
        ensures
            final(self).spec_received() == old(self).spec_received(),
            final(self).spec_client_closed() == old(self).spec_client_closed(),
            final(self).spec_pending() == old(self).spec_pending(),
            final(self).spec_num_channels() == old(self).spec_num_channels(),
            final(self).spec_num_prefetch_blocks() == old(self).spec_num_prefetch_blocks(),
            final(self).spec_block_size() == old(self).spec_block_size(),
            !old(self).spec_run() ==> !final(self).spec_run(),
            final(self).spec_sent() == old(self).spec_sent(),
            match msg {
                ClientToServerMsg::ReadIntoBlock { block_index, block, start_frame } => {
                    &&& D::obeys_call_log() ==> {
                        &&& final(self).spec_decoder_calls().len() == old(self).spec_decoder_calls().len() + 1
                        &&& final(self).spec_decoder_calls().drop_last() == old(self).spec_decoder_calls()
                        &&& block_read_reply(
                            final(self).spec_decoder_calls().last(),
                            r@[0],
                            block_index,
                            start_frame,
                            served_block_channels(block, old(self).spec_block_pool(), old(self).spec_num_channels() as int),
                        )
                    }
                    &&& final(self).spec_cache_pool() == old(self).spec_cache_pool()
                    &&& final(self).spec_cache_requests() == old(self).spec_cache_requests()
                    &&& r@.len() == 1
                    &&& (block is None && old(self).spec_block_pool().len() > 0 ==> final(self).spec_block_pool()
                        == old(self).spec_block_pool().drop_last())
                    &&& (block is Some || old(self).spec_block_pool().len() == 0 ==> final(self).spec_block_pool()
                        == old(self).spec_block_pool())
                    &&& match r@[0] {
                        ServerToClientMsg::ReadIntoBlockRes { block_index: bi, wanted_start_frame: w, .. } => {
                            &&& bi == block_index
                            &&& w == start_frame
                            &&& final(self).spec_run() == old(self).spec_run()
                        },
                        ServerToClientMsg::FatalError(_) => !final(self).spec_run(),
                        _ => false,
                    }
                },
                ClientToServerMsg::DisposeBlock { block } => {
                    &&& final(self).spec_decoder_calls() == old(self).spec_decoder_calls()
                    &&& final(self).spec_block_pool() == old(self).spec_block_pool().push(block)
                    &&& final(self).spec_cache_pool() == old(self).spec_cache_pool()
                    &&& final(self).spec_cache_requests() == old(self).spec_cache_requests()
                    &&& final(self).spec_run() == old(self).spec_run()
                    &&& r@.len() == 0
                },
                ClientToServerMsg::SeekTo { frame } => {
                    &&& D::obeys_call_log() ==> {
                        &&& final(self).spec_decoder_calls().len() == old(self).spec_decoder_calls().len() + 1
                        &&& final(self).spec_decoder_calls().drop_last() == old(self).spec_decoder_calls()
                        &&& final(self).spec_decoder_calls().last() matches DecoderCall::Seek(f, res)
                        &&& f == frame
                        &&& match res {
                            Ok(_) => r@.len() == 0 && final(self).spec_run() == old(self).spec_run(),
                            Err(e) => r@ == seq![ServerToClientMsg::<D>::FatalError(e)] && !final(self).spec_run(),
                        }
                    }
                    &&& final(self).spec_block_pool() == old(self).spec_block_pool()
                    &&& final(self).spec_cache_pool() == old(self).spec_cache_pool()
                    &&& final(self).spec_cache_requests() == old(self).spec_cache_requests()
                    &&& ((r@.len() == 0 && final(self).spec_run() == old(self).spec_run()) || (r@.len() == 1
                        && r@[0] is FatalError && !final(self).spec_run()))
                },
                ClientToServerMsg::Cache { cache_index, cache, start_frame } => {
                    &&& final(self).spec_decoder_calls() == old(self).spec_decoder_calls()
                    &&& final(self).spec_cache_requests() == old(self).spec_cache_requests().push(
                        CacheRequest { cache_index, cache, start_frame },
                    )
                    &&& final(self).spec_block_pool() == old(self).spec_block_pool()
                    &&& final(self).spec_cache_pool() == old(self).spec_cache_pool()
                    &&& final(self).spec_run() == old(self).spec_run()
                    &&& r@.len() == 0
                },
                ClientToServerMsg::DisposeCache { cache } => {
                    &&& final(self).spec_decoder_calls() == old(self).spec_decoder_calls()
                    &&& final(self).spec_cache_pool() == old(self).spec_cache_pool().push(cache)
                    &&& final(self).spec_block_pool() == old(self).spec_block_pool()
                    &&& final(self).spec_cache_requests() == old(self).spec_cache_requests()
                    &&& final(self).spec_run() == old(self).spec_run()
                    &&& r@.len() == 0
                },
            },
    {
        let mut replies: Vec<ServerToClientMsg<D>> = Vec::new();
        match msg {
            ClientToServerMsg::ReadIntoBlock { block_index, block, start_frame } => {
                let mut block = self.take_block(block);
                block.clear();
                let res = self.decoder.decode(&mut block);
                match res {
                    Ok(()) => {
                        replies.push(
                            ServerToClientMsg::ReadIntoBlockRes { block_index, block, wanted_start_frame: start_frame },
                        );
                    },
                    Err(e) => {
                        replies.push(ServerToClientMsg::FatalError(e));
                        self.run = false;
                    },
                }
            },
            ClientToServerMsg::DisposeBlock { block } => {
                // Store the block to be reused.
                self.block_pool.push(block);
            },
            ClientToServerMsg::SeekTo { frame } => {
                let res = self.decoder.seek(frame);
                if let Err(e) = res {
                    replies.push(ServerToClientMsg::FatalError(e));
                    self.run = false;
                }
            },
            ClientToServerMsg::Cache { cache_index, cache, start_frame } => {
                // Prioritize read blocks over caching.
                self.cache_requests.push(CacheRequest { cache_index, cache, start_frame });
            },
            ClientToServerMsg::DisposeCache { cache } => {
                // Store the cache to be reused.
                self.cache_pool.push(cache);
            },
        }
        replies
    }
}

impl<D: Decoder> ReadServer<D> {
    /// Fills the cache `req` asks for with the blocks from its start frame
    /// on, then seeks back to where reading was. Returns the replies and
    /// whether serving caches must stop (a seek failed).
    pub fn fill_cache(&mut self, req: CacheRequest<D::T>) -> (r: (Vec<ServerToClientMsg<D>>, bool))
        ensures
            final(self).spec_received() == old(self).spec_received(),
            final(self).spec_client_closed() == old(self).spec_client_closed(),
            final(self).spec_pending() == old(self).spec_pending(),
            final(self).spec_num_channels() == old(self).spec_num_channels(),
            final(self).spec_num_prefetch_blocks() == old(self).spec_num_prefetch_blocks(),
            final(self).spec_block_size() == old(self).spec_block_size(),
            final(self).spec_block_pool() == old(self).spec_block_pool(),
            final(self).spec_cache_requests() == old(self).spec_cache_requests(),
            req.cache is Some || old(self).spec_cache_pool().len() == 0 ==> final(self).spec_cache_pool() == old(self).spec_cache_pool(),
            req.cache is None && old(self).spec_cache_pool().len() > 0 ==> final(self).spec_cache_pool()
                == old(self).spec_cache_pool().drop_last(),
            final(self).spec_sent() == old(self).spec_sent(),
            D::obeys_call_log() ==> old(self).spec_decoder_calls().is_prefix_of(final(self).spec_decoder_calls()),
            r.0@.len() == 1,
            match r.0@[0] {
                ServerToClientMsg::CacheRes { cache_index, cache, wanted_start_frame } => {
                    // Seek to the start, decode into each block of the cache, then seek
                    // back to where reading was.
                    &&& D::obeys_call_log() ==> is_cache_fill(
                        final(self).spec_decoder_calls().skip(old(self).spec_decoder_calls().len() as int),
                        req.start_frame,
                        old(self).spec_decoder_position(),
                        served_cache_channels(
                            req.cache,
                            old(self).spec_cache_pool(),
                            old(self).spec_num_prefetch_blocks() as int,
                            old(self).spec_num_channels() as int,
                        ),
                        cache_blocks(cache),
                    )
                    &&& cache_index == req.cache_index
                    &&& wanted_start_frame == req.start_frame
                    &&& final(self).spec_run() == old(self).spec_run()
                    &&& !r.1
                },
                ServerToClientMsg::FatalError(_) => {
                    // The error one of the calls returned.
                    &&& D::obeys_call_log() ==> reports_call_error(
                        r.0@[0],
                        final(self).spec_decoder_calls(),
                        old(self).spec_decoder_calls().len() as int,
                    )
                    &&& !final(self).spec_run()
                },
                _ => false,
            },
    {
        let ghost calls0 = self.decoder.spec_calls();
        let ghost obeys = D::obeys_call_log();
        let ghost chans = served_cache_channels(
            req.cache,
            self.cache_pool@,
            self.num_prefetch_blocks as int,
            self.num_channels as int,
        );
        let mut cache = self.take_cache(req.cache);
        assert(cache_channels(cache) =~= chans);
        let current_frame = self.decoder.current_frame();
        let mut replies: Vec<ServerToClientMsg<D>> = Vec::new();

        // Seek to the position the client wants to cache.
        let res = self.decoder.seek(req.start_frame);
        if let Err(e) = res {
            replies.push(ServerToClientMsg::FatalError(e));
            self.run = false;
            proof {
                if obeys {
                    assert(call_error(self.decoder.spec_calls()[calls0.len() as int]) == Some(e));
                }
            }
            return (replies, true);
        }
        proof {
            if obeys {
                assert(is_ok_seek(self.decoder.spec_calls()[calls0.len() as int], req.start_frame));
            }
        }

        // Fill the cache.
        let n = cache.blocks.len();
        let mut i: usize = 0;
        let ghost run0 = self.run;
        let ghost o = *self;
        let ghost blocks0 = cache.blocks@;
        let ghost k0 = calls0.len() as int;
        while i < n
            invariant_except_break
                replies@.len() == 0,
                self.run == run0,
                obeys ==> self.decoder.spec_calls().len() == k0 + 1 + i,
                forall|j: int| i <= j < n ==> #[trigger] cache.blocks@[j] == blocks0[j],
            invariant
                i <= n == cache.blocks@.len() == blocks0.len() == chans.len(),
                forall|j: int| 0 <= j < n ==> #[trigger] chans[j] == block_view(blocks0[j]).len(),
                self.to_client_tx == o.to_client_tx,
                self.from_client_rx == o.from_client_rx,
                self.client_closed == o.client_closed,
                self.pending == o.pending,
                self.num_channels == o.num_channels,
                self.num_prefetch_blocks == o.num_prefetch_blocks,
                self.block_size == o.block_size,
                self.block_pool == o.block_pool,
                self.cache_pool == o.cache_pool,
                self.cache_requests == o.cache_requests,
                k0 == calls0.len(),
                obeys == D::obeys_call_log(),
                obeys ==> calls0.is_prefix_of(self.decoder.spec_calls()),
                obeys ==> self.decoder.spec_calls().len() > k0,
                obeys ==> is_ok_seek(self.decoder.spec_calls()[k0], req.start_frame),
                obeys ==> forall|j: int|
                    0 <= j < i ==> is_ok_decode(
                        #[trigger] self.decoder.spec_calls()[k0 + 1 + j],
                        empty_channels::<D::T>(chans[j]),
                        block_view(cache.blocks@[j]),
                    ),
            ensures
                (replies@.len() == 0 && self.run == run0 && i == n) || (replies@.len() == 1 && !self.run
                    && replies@[0] is FatalError),
                obeys && replies@.len() == 0 ==> self.decoder.spec_calls().len() == k0 + 1 + n,
                obeys && replies@.len() == 1 ==> reports_call_error(replies@[0], self.decoder.spec_calls(), k0),
            decreases n - i,
        {
            let ghost bl0 = cache.blocks@;
            cache.blocks[i].clear();
            let ghost v = block_view(cache.blocks@[i as int]);
            assert(v =~= empty_channels::<D::T>(chans[i as int]));
            let ghost before = self.decoder.spec_calls();
            let decode_res = self.decoder.decode(&mut cache.blocks[i]);
            proof {
                assert forall|j: int| 0 <= j < n && j != i implies #[trigger] cache.blocks@[j] == bl0[j] by {}
                if obeys {
                    let after = self.decoder.spec_calls();
                    assert(after.subrange(0, k0) =~= before.subrange(0, k0));
                    assert forall|j: int| 0 <= j < i implies #[trigger] after[k0 + 1 + j] == before[k0 + 1 + j] by {}
                    assert(after[k0 + 1 + i] == DecoderCall::<D::T, D::FatalError>::Decode(v, block_view(cache.blocks@[i as int]), decode_res));
                    assert(after[k0] == before[k0]);
                }
            }
            if let Err(e) = decode_res {
                replies.push(ServerToClientMsg::FatalError(e));
                self.run = false;
                proof {
                    if obeys {
                        assert(call_error(self.decoder.spec_calls()[k0 + 1 + i]) == Some(e));
                    }
                }
                break;
            }
            i += 1;
        }

        // Seek back to the previous position.
        let ghost before_back = self.decoder.spec_calls();
        let res = self.decoder.seek(current_frame);
        proof {
            if obeys {
                let after = self.decoder.spec_calls();
                assert(after.subrange(0, k0) =~= before_back.subrange(0, k0));
                assert(calls0.is_prefix_of(after));
            }
        }
        if let Err(e) = res {
            if replies.len() == 0 {
                replies.push(ServerToClientMsg::FatalError(e));
                proof {
                    if obeys {
                        assert(call_error(self.decoder.spec_calls()[before_back.len() as int]) == Some(e));
                    }
                }
            } else {
                proof {
                    if obeys {
                        assert(forall|k: int| 0 <= k < before_back.len() ==> self.decoder.spec_calls()[k] == before_back[k]);
                    }
                }
            }
            self.run = false;
            return (replies, true);
        }
        proof {
            if obeys && replies@.len() == 1 {
                assert(forall|k: int| 0 <= k < before_back.len() ==> self.decoder.spec_calls()[k] == before_back[k]);
            }
        }
        if replies.len() == 0 {
            proof {
                if obeys {
                    let added = self.decoder.spec_calls().skip(k0);
                    assert(cache_blocks(cache).len() == chans.len());
                    assert forall|j: int| 0 <= j < chans.len() implies is_ok_decode(
                        #[trigger] added[j + 1],
                        empty_channels::<D::T>(chans[j]),
                        cache_blocks(cache)[j],
                    ) by {
                        assert(added[j + 1] == self.decoder.spec_calls()[k0 + 1 + j]);
                    }
                    assert(added[0] == self.decoder.spec_calls()[k0]);
                    assert(is_cache_fill(added, req.start_frame, current_frame, chans, cache_blocks(cache)));
                }
            }
            replies.push(
                ServerToClientMsg::CacheRes {
                    cache_index: req.cache_index,
                    cache,
                    wanted_start_frame: req.start_frame,
                },
            );
        }
        (replies, false)
    }

    /// Sends `replies` in order after any reply still queued; those there is
    /// no room for are queued. Replies made after the server stopped are not
    /// sent: `running` says whether it was running when they were made.
    fn send_all(&mut self, running: bool, replies: Vec<ServerToClientMsg<D>>)
        ensures
            final(self).same_but_channels(*old(self)),
            !running ==> final(self).pending == old(self).pending,
            running ==> is_suffix_of(final(self).spec_pending(), old(self).spec_pending() + replies@),
            running ==> final(self).spec_sent() + final(self).spec_pending() == old(self).spec_sent()
                + old(self).spec_pending() + replies@,
            !running ==> final(self).spec_sent() == old(self).spec_sent(),
            old(self).spec_sent().is_prefix_of(final(self).spec_sent()),
            final(self).decoder == old(self).decoder,
            final(self).from_client_rx == old(self).from_client_rx,
    {
        if running {
            channel::send_in_order(&mut self.to_client_tx, &mut self.pending, replies);
        }
    }

    /// Everything but the channels and the queued replies is unchanged.
    pub closed spec fn same_but_channels(self, other: Self) -> bool {
        &&& self.run == other.run
        &&& self.client_closed == other.client_closed
        &&& self.num_channels == other.num_channels
        &&& self.num_prefetch_blocks == other.num_prefetch_blocks
        &&& self.block_size == other.block_size
        &&& self.block_pool == other.block_pool
        &&& self.cache_pool == other.cache_pool
        &&& self.cache_requests == other.cache_requests
    }

    /// Stops serving because the stream has closed; what the stream held is
    /// dropped here.
    fn close(&mut self)
        ensures
            final(self).client_closed,
            !final(self).run,
            final(self).pending@.len() == 0,
            final(self).num_channels == old(self).num_channels,
            final(self).block_pool == old(self).block_pool,
            final(self).cache_pool == old(self).cache_pool,
            final(self).cache_requests == old(self).cache_requests,
            final(self).to_client_tx == old(self).to_client_tx,
            final(self).decoder == old(self).decoder,
            final(self).from_client_rx == old(self).from_client_rx,
    {
        self.run = false;
        self.client_closed = true;
        self.pending.clear();
    }

    /// Between `self` and `after` the server took the messages that came
    /// after those it had taken before, handled each of them as
    /// [`handled_as`] says, with the replies `reps` and the decoder calls
    /// `calls`, then served the cache requests `served`, the latest first,
    /// with the replies `fills`. All these replies went out in this order,
    /// after those that were waiting; the blocks and caches disposed of were
    /// kept for reuse, and requests that brought none took the last kept.
    pub open spec fn handled_round(
        self,
        after: Self,
        reps: Seq<Seq<ServerToClientMsg<D>>>,
        calls: Seq<Seq<DecoderCall<D::T, D::FatalError>>>,
        served: Seq<CacheRequest<D::T>>,
        fills: Seq<ServerToClientMsg<D>>,
    ) -> bool {
        let msgs = after.spec_received().skip(self.spec_received().len() as int);
        &&& self.spec_received().is_prefix_of(after.spec_received())
        &&& reps.len() == msgs.len()
        &&& calls.len() == msgs.len()
        &&& forall|i: int| 0 <= i < msgs.len() ==> handled_as::<D>(#[trigger] msgs[i], reps[i], calls[i])
        &&& served.len() == fills.len()
        &&& forall|j: int| 0 <= j < fills.len() ==> answers_cache_request::<D>(#[trigger] fills[j], served[j])
        &&& self.spec_cache_requests() + cache_requests_in(msgs) == after.spec_cache_requests() + served.reverse()
        &&& after.spec_block_pool() == block_pool_after(self.spec_block_pool(), msgs)
        &&& after.spec_cache_pool() == cache_pool_after_fills(cache_pool_after(self.spec_cache_pool(), msgs), served)
        &&& after.spec_sent() + after.spec_pending() == self.spec_sent() + self.spec_pending() + reps.flatten()
            + fills
        &&& D::obeys_call_log() ==> (self.spec_decoder_calls() + calls.flatten()).is_prefix_of(
            after.spec_decoder_calls(),
        )
        &&& D::obeys_call_log() && fills.len() == 0 ==> after.spec_decoder_calls() == self.spec_decoder_calls()
            + calls.flatten()
    }

    proof fn lemma_round(
        self,
        after: Self,
        msgs: Seq<ClientToServerMsg<D>>,
        reps: Seq<Seq<ServerToClientMsg<D>>>,
        calls: Seq<Seq<DecoderCall<D::T, D::FatalError>>>,
        served: Seq<CacheRequest<D::T>>,
        fills: Seq<ServerToClientMsg<D>>,
    )
        requires
            after.spec_received() == self.spec_received() + msgs,
            reps.len() == msgs.len(),
            calls.len() == msgs.len(),
            forall|i: int| 0 <= i < msgs.len() ==> handled_as::<D>(#[trigger] msgs[i], reps[i], calls[i]),
            served.len() == fills.len(),
            forall|j: int| 0 <= j < fills.len() ==> answers_cache_request::<D>(#[trigger] fills[j], served[j]),
            self.spec_cache_requests() + cache_requests_in(msgs) == after.spec_cache_requests() + served.reverse(),
            after.spec_block_pool() == block_pool_after(self.spec_block_pool(), msgs),
            after.spec_cache_pool() == cache_pool_after_fills(cache_pool_after(self.spec_cache_pool(), msgs), served),
            after.spec_sent() + after.spec_pending() == self.spec_sent() + self.spec_pending() + reps.flatten()
                + fills,
            D::obeys_call_log() ==> (self.spec_decoder_calls() + calls.flatten()).is_prefix_of(
                after.spec_decoder_calls(),
            ),
            D::obeys_call_log() && fills.len() == 0 ==> after.spec_decoder_calls() == self.spec_decoder_calls()
                + calls.flatten(),
        ensures
            self.handled_round(after, reps, calls, served, fills),
    {
        assert(after.spec_received().skip(self.spec_received().len() as int) =~= msgs);
        assert(after.spec_received().subrange(0, self.spec_received().len() as int) =~= self.spec_received());
    }

    /// The round so far has handled the messages `msgs` and served no cache.
    proof fn lemma_messages_round(
        self,
        after: Self,
        msgs: Seq<ClientToServerMsg<D>>,
        reps: Seq<Seq<ServerToClientMsg<D>>>,
        calls: Seq<Seq<DecoderCall<D::T, D::FatalError>>>,
    )
        requires
            after.spec_received() == self.spec_received() + msgs,
            reps.len() == msgs.len(),
            calls.len() == msgs.len(),
            forall|i: int| 0 <= i < msgs.len() ==> handled_as::<D>(#[trigger] msgs[i], reps[i], calls[i]),
            after.spec_cache_requests() == self.spec_cache_requests() + cache_requests_in(msgs),
            after.spec_block_pool() == block_pool_after(self.spec_block_pool(), msgs),
            after.spec_cache_pool() == cache_pool_after(self.spec_cache_pool(), msgs),
            after.spec_sent() + after.spec_pending() == self.spec_sent() + self.spec_pending() + reps.flatten(),
            D::obeys_call_log() ==> after.spec_decoder_calls() == self.spec_decoder_calls() + calls.flatten(),
        ensures
            self.handled_round(after, reps, calls, Seq::empty(), Seq::empty()),
    {
        let served = Seq::<CacheRequest<D::T>>::empty();
        let fills = Seq::<ServerToClientMsg<D>>::empty();
        assert(after.spec_cache_requests() + served.reverse() =~= after.spec_cache_requests());
        assert(self.spec_sent() + self.spec_pending() + reps.flatten() + fills =~= self.spec_sent()
            + self.spec_pending() + reps.flatten());
        if D::obeys_call_log() {
            let c = self.spec_decoder_calls() + calls.flatten();
            assert(c.subrange(0, c.len() as int) =~= c);
        }
        self.lemma_round(after, msgs, reps, calls, served, fills);
    }

    /// The round took no message and sent nothing new.
    proof fn lemma_quiet_round(self, after: Self)
        requires
            after.spec_received() == self.spec_received(),
            after.spec_cache_requests() == self.spec_cache_requests(),
            after.spec_block_pool() == self.spec_block_pool(),
            after.spec_cache_pool() == self.spec_cache_pool(),
            after.spec_sent() + after.spec_pending() == self.spec_sent() + self.spec_pending(),
            after.spec_decoder_calls() == self.spec_decoder_calls(),
        ensures
            self.handled_round(after, Seq::empty(), Seq::empty(), Seq::empty(), Seq::empty()),
    {
        let msgs = Seq::<ClientToServerMsg<D>>::empty();
        let reps = Seq::<Seq<ServerToClientMsg<D>>>::empty();
        let calls = Seq::<Seq<DecoderCall<D::T, D::FatalError>>>::empty();
        assert(self.spec_received() + msgs =~= self.spec_received());
        assert(self.spec_cache_requests() + cache_requests_in(msgs) =~= self.spec_cache_requests());
        assert(self.spec_sent() + self.spec_pending() + reps.flatten() =~= self.spec_sent() + self.spec_pending());
        assert(self.spec_decoder_calls() + calls.flatten() =~= self.spec_decoder_calls());
        self.lemma_messages_round(after, msgs, reps, calls);
    }

    /// Does one round of the server's work: sends the replies still queued,
    /// checks whether the stream has closed, handles the messages the stream
    /// has sent, then fills the caches asked for, the latest request first,
    /// as long as no new message arrives.
    ///
    /// Once the server has stopped on an error, it only waits for the stream
    /// to close.
    pub fn step(&mut self) -> (r: ServerStatus)
        requires
            old(self).wf(),
        ensures
            final(self).wf(),
            old(self).spec_client_closed() ==> r == ServerStatus::Closed && final(self).same_but_channels(
                *old(self),
            ),
            (r == ServerStatus::Closed) == final(self).spec_client_closed(),
            !old(self).spec_run() ==> !final(self).spec_run(),
            final(self).spec_pending().len() > 0 ==> r == ServerStatus::Idle,
            final(self).spec_num_channels() == old(self).spec_num_channels(),
            !old(self).spec_run() ==> {
                &&& final(self).spec_block_pool() == old(self).spec_block_pool()
                &&& final(self).spec_cache_pool() == old(self).spec_cache_pool()
                &&& final(self).spec_cache_requests() == old(self).spec_cache_requests()
                &&& final(self).spec_decoder_calls() == old(self).spec_decoder_calls()
            },
            old(self).spec_sent().is_prefix_of(final(self).spec_sent()),
            final(self).spec_client_closed() ==> final(self).spec_received() == old(self).spec_received(),
            // Every message taken is handled, and its replies go out in order.
            !final(self).spec_client_closed() ==> exists|
                reps: Seq<Seq<ServerToClientMsg<D>>>,
                calls: Seq<Seq<DecoderCall<D::T, D::FatalError>>>,
                served: Seq<CacheRequest<D::T>>,
                fills: Seq<ServerToClientMsg<D>>,
            | #[trigger] old(self).handled_round(*final(self), reps, calls, served, fills),
    {
        if self.client_closed {
            return ServerStatus::Closed;
        }
        let ghost o = *self;
        if !channel::send_queued(&mut self.to_client_tx, &mut self.pending) {
            // Wait for room, unless the stream has closed.
            if channel::pop(&mut self.close_signal_rx).is_some() {
                self.close();
                return ServerStatus::Closed;
            }
            proof { o.lemma_quiet_round(*self); }
            return ServerStatus::Idle;
        }
        if !self.run {
            // Wait until the stream closes before ending.
            if channel::pop(&mut self.close_signal_rx).is_some() {
                self.close();
                return ServerStatus::Closed;
            }
            proof { o.lemma_quiet_round(*self); }
            return ServerStatus::Idle;
        }
        // Check for close signal.
        if channel::pop(&mut self.close_signal_rx).is_some() {
            self.close();
            return ServerStatus::Closed;
        }
        let ghost nc = self.num_channels;
        let ghost obeys = D::obeys_call_log();
        let ghost mut msgs: Seq<ClientToServerMsg<D>> = Seq::empty();
        let ghost mut reps: Seq<Seq<ServerToClientMsg<D>>> = Seq::empty();
        let ghost mut calls: Seq<Seq<DecoderCall<D::T, D::FatalError>>> = Seq::empty();
        proof {
            assert(self.spec_received() =~= old(self).spec_received() + msgs);
            assert(self.spec_sent() + self.spec_pending() =~= old(self).spec_sent() + old(self).spec_pending()
                + reps.flatten());
            assert(self.spec_cache_requests() =~= old(self).spec_cache_requests() + cache_requests_in(msgs));
            assert(self.spec_decoder_calls() =~= old(self).spec_decoder_calls() + calls.flatten());
        }
        let available = self.from_client_rx.available();
        let mut k: usize = 0;
        while k < available && self.run
            invariant
                old(self).spec_sent().is_prefix_of(self.spec_sent()),
                !self.client_closed,
                !old(self).client_closed,
                self.pending@.len() == 0,
                self.num_channels == nc == old(self).num_channels,
                old(self).run,
                o == *old(self),
                obeys == D::obeys_call_log(),
                self.spec_received() == old(self).spec_received() + msgs,
                reps.len() == msgs.len(),
                calls.len() == msgs.len(),
                forall|i: int| 0 <= i < msgs.len() ==> handled_as::<D>(#[trigger] msgs[i], reps[i], calls[i]),
                self.spec_sent() + self.spec_pending() == old(self).spec_sent() + old(self).spec_pending()
                    + reps.flatten(),
                self.spec_cache_requests() == old(self).spec_cache_requests() + cache_requests_in(msgs),
                self.spec_block_pool() == block_pool_after(old(self).spec_block_pool(), msgs),
                self.spec_cache_pool() == cache_pool_after(old(self).spec_cache_pool(), msgs),
                obeys ==> self.spec_decoder_calls() == old(self).spec_decoder_calls() + calls.flatten(),
            decreases available - k,
        {
            k += 1;
            let msg = match self.from_client_rx.pop() {
                Some(msg) => msg,
                None => break,
            };
            let ghost m = msg;
            let ghost c0 = self.spec_decoder_calls();
            let ghost cr0 = self.spec_cache_requests();
            let ghost sent0 = self.spec_sent();
            let replies = self.handle_msg(msg);
            proof {
                let step_calls = self.spec_decoder_calls().skip(c0.len() as int);
                if obeys {
                    match m {
                        ClientToServerMsg::ReadIntoBlock { .. } => {
                            assert(self.spec_decoder_calls() =~= c0.push(self.spec_decoder_calls().last()));
                        },
                        ClientToServerMsg::SeekTo { .. } => {
                            assert(self.spec_decoder_calls() =~= c0.push(self.spec_decoder_calls().last()));
                        },
                        _ => {},
                    }
                    assert(self.spec_decoder_calls() =~= c0 + step_calls);
                    assert(c0 + step_calls =~= old(self).spec_decoder_calls() + calls.push(step_calls).flatten()) by {
                        calls.lemma_flatten_push(step_calls);
                    }
                }
                match m {
                    ClientToServerMsg::ReadIntoBlock { .. } => {},
                    ClientToServerMsg::SeekTo { .. } => {},
                    _ => {
                        assert(step_calls =~= Seq::<DecoderCall<D::T, D::FatalError>>::empty());
                    },
                }
                assert(handled_as::<D>(m, replies@, step_calls));
                reps.lemma_flatten_push(replies@);
                assert(msgs.push(m).drop_last() =~= msgs);
                assert(self.spec_cache_requests() =~= old(self).spec_cache_requests() + cache_requests_in(
                    msgs.push(m),
                ));
                assert(self.spec_received() =~= old(self).spec_received() + msgs.push(m));
                msgs = msgs.push(m);
                reps = reps.push(replies@);
                calls = calls.push(step_calls);
            }
            self.send_all(true, replies);
            proof {
                lemma_prefix_trans(old(self).spec_sent(), sent0, self.spec_sent());
                assert(self.spec_sent() + self.spec_pending() =~= old(self).spec_sent() + old(self).spec_pending()
                    + reps.flatten());
            }
            if self.pending.len() > 0 {
                proof { o.lemma_messages_round(*self, msgs, reps, calls); }
                return ServerStatus::Idle;
            }
        }
        if !self.run {
            proof { o.lemma_messages_round(*self, msgs, reps, calls); }
            return ServerStatus::Busy;
        }
        let ghost mut served: Seq<CacheRequest<D::T>> = Seq::empty();
        let ghost mut fills: Seq<ServerToClientMsg<D>> = Seq::empty();
        proof {
            assert(old(self).spec_cache_requests() + cache_requests_in(msgs) =~= self.spec_cache_requests()
                + served.reverse());
            assert(self.spec_sent() + self.spec_pending() =~= old(self).spec_sent() + old(self).spec_pending()
                + reps.flatten() + fills);
            if obeys {
                let c = self.spec_decoder_calls();
                assert(c.subrange(0, c.len() as int) =~= c);
            }
        }
        while self.cache_requests.len() > 0
            invariant
                old(self).spec_sent().is_prefix_of(self.spec_sent()),
                !self.client_closed,
                !old(self).client_closed,
                self.pending@.len() == 0,
                self.num_channels == nc == old(self).num_channels,
                old(self).run,
                self.run,
                o == *old(self),
                obeys == D::obeys_call_log(),
                self.spec_received() == old(self).spec_received() + msgs,
                reps.len() == msgs.len(),
                calls.len() == msgs.len(),
                forall|i: int| 0 <= i < msgs.len() ==> handled_as::<D>(#[trigger] msgs[i], reps[i], calls[i]),
                served.len() == fills.len(),
                forall|j: int| 0 <= j < fills.len() ==> answers_cache_request::<D>(#[trigger] fills[j], served[j]),
                old(self).spec_cache_requests() + cache_requests_in(msgs) == self.spec_cache_requests()
                    + served.reverse(),
                self.spec_block_pool() == block_pool_after(old(self).spec_block_pool(), msgs),
                self.spec_cache_pool() == cache_pool_after_fills(
                    cache_pool_after(old(self).spec_cache_pool(), msgs),
                    served,
                ),
                self.spec_sent() + self.spec_pending() == old(self).spec_sent() + old(self).spec_pending()
                    + reps.flatten() + fills,
                obeys ==> (old(self).spec_decoder_calls() + calls.flatten()).is_prefix_of(
                    self.spec_decoder_calls(),
                ),
                obeys && fills.len() == 0 ==> self.spec_decoder_calls() == old(self).spec_decoder_calls()
                    + calls.flatten(),
            decreases self.cache_requests@.len(),
        {
            let ghost cr0 = self.cache_requests@;
            let ghost c0 = self.spec_decoder_calls();
            let ghost sent0 = self.spec_sent();
            let ghost before = self.spec_sent() + self.spec_pending();
            let req = self.cache_requests.pop().unwrap();
            let ghost rq = req;
            let (replies, stop) = self.fill_cache(req);
            self.send_all(true, replies);
            proof {
                lemma_prefix_trans(old(self).spec_sent(), sent0, self.spec_sent());
                if obeys {
                    lemma_prefix_trans(old(self).spec_decoder_calls() + calls.flatten(), c0, self.spec_decoder_calls());
                }
                assert(replies@ =~= seq![replies@[0]]);
                assert(served.push(rq).reverse() =~= seq![rq] + served.reverse());
                assert(served.push(rq).drop_last() =~= served);
                assert(cr0 =~= self.cache_requests@ + seq![rq]);
                assert(old(self).spec_cache_requests() + cache_requests_in(msgs) =~= self.spec_cache_requests()
                    + served.push(rq).reverse());
                assert(self.spec_sent() + self.spec_pending() =~= old(self).spec_sent()
                    + old(self).spec_pending() + reps.flatten() + fills.push(replies@[0]));
                served = served.push(rq);
                fills = fills.push(replies@[0]);
            }
            if self.pending.len() > 0 {
                // Wait for room in the channel.
                proof { o.lemma_round(*self, msgs, reps, calls, served, fills); }
                return ServerStatus::Idle;
            }
            if stop || !self.run {
                proof { o.lemma_round(*self, msgs, reps, calls, served, fills); }
                return ServerStatus::Busy;
            }
            // If any new messages have been received while caching, prioritize those
            // over filling any additional caches.
            if !self.from_client_rx.is_empty() {
                proof { o.lemma_round(*self, msgs, reps, calls, served, fills); }
                return ServerStatus::Busy;
            }
        }
        proof { o.lemma_round(*self, msgs, reps, calls, served, fills); }
        ServerStatus::Idle
    }
}

} // verus!
