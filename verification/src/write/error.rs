//! Errors of a write stream.
use vstd::prelude::*;

verus! {

/// A fatal error occurred and the stream cannot continue.
#[derive(Debug)]
pub enum FatalWriteError<FatalEncoderError> {
    /// The stream is closed and thus cannot continue.
    StreamClosed,
    /// A fatal encoder error occured. The stream cannot continue.
    EncoderError(FatalEncoderError),
}

/// An error writing the file.
#[derive(Debug)]
pub enum WriteError<FatalEncoderError> {
    /// A fatal error occured. The stream cannot continue.
    FatalError(FatalWriteError<FatalEncoderError>),
    /// There are no more blocks left in the buffer because the server was
    /// too slow writing previous ones. Make sure there are enough write blocks
    /// available to the stream.
    ///
    /// If this is returned, then no data in the given buffer will be written
    /// to the file.
    Underflow,
    /// The given buffer is too long. The length of the buffer cannot exceed
    /// `block_size`.
    ///
    /// If this is returned, then no data in the given buffer will be written
    /// to the file.
    BufferTooLong { buffer_len: usize, block_size: usize },
    /// The given buffer does not match the internal layout of the stream. Check
    /// that the number of channels in both are the same.
    ///
    /// If this is returned, then no data in the given buffer will be written
    /// to the file.
    InvalidBuffer,
    /// The message channel to the IO server was full.
    ///
    /// If this is returned, then no data in the given buffer will be written
    /// to the file.
    IOServerChannelFull,
}

} // verus!
