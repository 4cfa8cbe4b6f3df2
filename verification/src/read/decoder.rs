//! The trait a file decoder implements to be used by a read stream.
use vstd::prelude::*;

use super::data::block_view;
use super::DataBlock;
use crate::FileInfo;

verus! {

/// A call made on a decoder, with what it returned.
pub enum DecoderCall<T, E> {
    /// `seek` to a frame.
    Seek(usize, Result<(), E>),
    /// `decode` into a block holding the first channels, which it left
    /// holding the second.
    Decode(Seq<Seq<T>>, Seq<Seq<T>>, Result<(), E>),
}

/// A type that decodes a file in a read stream.
pub trait Decoder: Sized {
    /// The data type of a single sample. (i.e. `f32`)
    type T: Copy + Default + Send;

    /// Any additional options for opening a file with this decoder.
    type AdditionalOpts: Send + Default;

    /// Any additional information on the file.
    type FileParams: Clone + Send;

    /// The error type while opening the file.
    type OpenError: Send;

    /// The error type when a fatal error occurs.
    type FatalError: Send;

    /// The default number of frames in a prefetch block.
    const DEFAULT_BLOCK_SIZE: usize;

    /// The default number of prefetch blocks in a cache block. This will cause a cache to be
    /// used whenever the stream is seeked to a frame in the range:
    ///
    /// `[cache_start, cache_start + (num_cache_blocks * block_size))`
    ///
    /// If this is 0, then the cache is only used when seeked to exactly `cache_start`.
    const DEFAULT_NUM_CACHE_BLOCKS: usize;

    /// The number of prefetch blocks to store ahead of the cache block.
    const DEFAULT_NUM_LOOK_AHEAD_BLOCKS: usize;

    /// Open the file and start reading from `start_frame`.
    ///
    /// Please note this algorithm depends on knowing the exact number of frames in a file.
    /// Do **not** return an approximate length in the returned `FileInfo`.
    fn new(
        file: std::path::PathBuf,
        start_frame: usize,
        block_size: usize,
        additional_opts: Self::AdditionalOpts,
    ) -> Result<(Self, FileInfo<Self::FileParams>), Self::OpenError>;

    /// Whether [`Decoder::spec_calls`] and [`Decoder::spec_position`] model
    /// this decoder: its history of calls and its read position. A decoder
    /// that does not model them (the default) is promised nothing by the
    /// contracts of its methods.
    closed spec fn obeys_call_log() -> bool {
        false
    }

    /// The calls made on this decoder so far, in order, with their results.
    closed spec fn spec_calls(&self) -> Seq<DecoderCall<Self::T, Self::FatalError>> {
        Seq::empty()
    }

    /// The current read position.
    closed spec fn spec_position(&self) -> usize {
        0
    }

    /// Seek to a frame in the file. If a frame lies outside of the end of the file,
    /// set the read position the end of the file instead of returning an error.
    fn seek(&mut self, frame: usize) -> (r: Result<(), Self::FatalError>)
        ensures
            Self::obeys_call_log() ==> final(self).spec_calls() == old(self).spec_calls().push(
                DecoderCall::Seek(frame, r),
            ),
    ;

    /// Decode data into the `block` starting from the read position. This is streaming,
    /// meaning the next call to `decode()` should pick up where the previous left off.
    ///
    /// If the end of the file is reached, fill data up to the end of the file, then set the
    /// read position to the last frame in the file and do nothing.
    fn decode(&mut self, block: &mut DataBlock<Self::T>) -> (r: Result<(), Self::FatalError>)
        ensures
            Self::obeys_call_log() ==> final(self).spec_calls() == old(self).spec_calls().push(
                DecoderCall::Decode(block_view(*old(block)), block_view(*final(block)), r),
            ),
    ;

    /// Return the current read position.
    fn current_frame(&self) -> (r: usize)
        ensures
            Self::obeys_call_log() ==> r == self.spec_position(),
    ;
}

} // verus!
