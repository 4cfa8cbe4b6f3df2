use vstd::prelude::*;

pub mod audio_block;
pub mod bytes;
pub mod channel;
pub mod decode;
pub mod path;
pub mod read;
pub mod wav;
pub mod write;


verus! {

#[verifier::external_type_specification]
#[verifier::external_body]
pub struct ExPathBuf(std::path::PathBuf);

/// Info about the file/files.
#[derive(Clone)]
pub struct FileInfo<FileParams> {
    /// The total number of frames in the file/files.
    pub num_frames: usize,
    /// The number of channels in the file/files.
    pub num_channels: u16,
    /// The sample rate of the file/files (if it exists).
    pub sample_rate: Option<u32>,
    /// Additional info provided by the encoder/decoder.
    pub params: FileParams,
}

/// What an IO server asks of the thread that runs it after a step.
#[derive(Debug, Clone, Copy, PartialEq, Eq, Structural)]
pub enum ServerStatus {
    /// There may be more work right away: step again.
    Busy,
    /// Nothing to do for now: sleep for the poll interval, then step again.
    Idle,
    /// The stream has closed: the thread can end.
    Closed,
}

} // verus!
