//! Errors of a read stream.
use vstd::prelude::*;

verus! {

/// A fatal error occurred and the stream cannot continue.
#[derive(Debug)]
pub enum FatalReadError<FatalDecoderError> {
    /// The stream is closed and thus cannot continue.
    StreamClosed,
    /// A fatal decoder error occurred. The stream cannot continue.
    DecoderError(FatalDecoderError),
}

/// An error reading the file.
#[derive(Debug)]
pub enum ReadError<FatalDecoderError> {
    /// A fatal error occurred. The stream cannot continue.
    FatalError(FatalReadError<FatalDecoderError>),
    /// The end of the file was reached. The stream must be seeked to
    /// an earlier position to continue reading data. Until then, output
    /// silence.
    ///
    /// If this is returned, then the playhead of the stream did not
    /// advance.
    EndOfFile,
    /// The given cache with index `index` is out of range of the number
    /// of caches assigned to this stream. Please try a
    /// different index.
    ///
    /// If this is returned, then the playhead of the stream did not
    /// advance.
    CacheIndexOutOfRange { index: usize, num_caches: usize },
    /// The message channel to the IO server was full.
    ///
    /// If this is returned, then the playhead of the stream did not
    /// advance.
    IOServerChannelFull,
    /// The given buffer does not match the internal layout of the stream. Check
    /// that the number of channels in both are the same.
    ///
    /// If this is returned, then the playhead of the stream did not
    /// advance.
    InvalidBuffer,
}

} // verus!
