//! Realtime-safe disk-streaming reading of audio files.
use vstd::prelude::*;

pub mod data;
pub mod decoder;
pub mod error;
pub mod read_stream;
pub mod server;

pub use data::{DataBlock, ReadData};
pub use decoder::Decoder;
pub use error::{FatalReadError, ReadError};
pub use read_stream::{FillStep, ReadDiskStream, SeekMode};

use data::DataBlockCache;

verus! {

/// A message from the IO server to a read stream.
#[verifier::reject_recursive_types(D)]
#[allow(inconsistent_fields)]
pub enum ServerToClientMsg<D: Decoder> {
    ReadIntoBlockRes { block_index: usize, block: DataBlock<D::T>, wanted_start_frame: usize },
    CacheRes { cache_index: usize, cache: DataBlockCache<D::T>, wanted_start_frame: usize },
    FatalError(D::FatalError),
}

/// A message from a read stream to its IO server.
#[verifier::reject_recursive_types(D)]
#[allow(inconsistent_fields)]
pub enum ClientToServerMsg<D: Decoder> {
    ReadIntoBlock { block_index: usize, block: Option<DataBlock<D::T>>, start_frame: usize },
    DisposeBlock { block: DataBlock<D::T> },
    SeekTo { frame: usize },
    Cache { cache_index: usize, cache: Option<DataBlockCache<D::T>>, start_frame: usize },
    DisposeCache { cache: DataBlockCache<D::T> },
}

/// Options for a read stream.
#[verifier::reject_recursive_types(D)]
pub struct ReadStreamOptions<D: Decoder> {
    /// The number of prefetch blocks in a cache block. This will cause a cache to be
    /// used whenever the stream is seeked to a frame in the range:
    ///
    /// `[cache_start, cache_start + (num_cache_blocks * block_size))`
    ///
    /// If this is 0, then the cache is only used when seeked to exactly `cache_start`.
    pub num_cache_blocks: usize,
    /// The maximum number of caches that can be active in this stream.
    ///
    /// The default is `1`.
    pub num_caches: usize,
    /// Any additional decoder-specific options.
    pub additional_opts: D::AdditionalOpts,
    /// The number of prefetch blocks to store ahead of the cache block.
    pub num_look_ahead_blocks: usize,
    /// The number of frames in a prefetch block.
    pub block_size: usize,
    /// The size of the realtime ring buffer that sends data to and from the stream the the
    /// internal IO server. `None` finds a generous size from the other options.
    ///
    /// The default is `None`.
    pub server_msg_channel_size: Option<usize>,
}

impl<D: Decoder> Default for ReadStreamOptions<D> {
    fn default() -> (r: Self)
        ensures
            r.block_size == D::DEFAULT_BLOCK_SIZE,
            r.num_cache_blocks == D::DEFAULT_NUM_CACHE_BLOCKS,
            r.num_look_ahead_blocks == D::DEFAULT_NUM_LOOK_AHEAD_BLOCKS,
            r.num_caches == 1,
            r.server_msg_channel_size is None,
    {
        ReadStreamOptions {
            block_size: D::DEFAULT_BLOCK_SIZE,
            num_cache_blocks: D::DEFAULT_NUM_CACHE_BLOCKS,
            additional_opts: D::AdditionalOpts::default(),
            num_look_ahead_blocks: D::DEFAULT_NUM_LOOK_AHEAD_BLOCKS,
            num_caches: 1,
            server_msg_channel_size: None,
        }
    }
}

/// The size of the message channels between a read stream and its IO server
/// for the given options: the requested size, or enough for every message
/// the stream can have in flight.
pub fn msg_channel_size(
    num_cache_blocks: usize,
    num_look_ahead_blocks: usize,
    num_caches: usize,
    server_msg_channel_size: Option<usize>,
) -> (r: usize)
    requires
        server_msg_channel_size is None ==> (num_cache_blocks + num_look_ahead_blocks) * 4
            + num_caches * 4 + 8 <= usize::MAX,
    ensures
        r == match server_msg_channel_size {
            Some(n) => n as int,
            None => (num_cache_blocks + num_look_ahead_blocks) * 4 + num_caches * 4 + 8,
        },
{
    match server_msg_channel_size {
        Some(n) => n,
        None => ((num_cache_blocks + num_look_ahead_blocks) * 4) + (num_caches * 4) + 8,
    }
}

} // verus!
