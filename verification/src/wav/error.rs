//! Errors of a WAV write stream.
use vstd::prelude::*;

use super::Format;

verus! {

#[verifier::external_type_specification]
#[verifier::external_body]
pub struct ExIoError(std::io::Error);

/// An error while opening a WAV file for writing.
#[derive(Debug)]
pub enum WavOpenError {
    /// IO error
    Io(std::io::Error),
    /// The given codec parameters are not currently supported in creek.
    CodecParamsNotSupported { num_channels: u16, format: Format },
}

impl From<std::io::Error> for WavOpenError {
    fn from(e: std::io::Error) -> (r: Self) {
        WavOpenError::Io(e)
    }
}

impl vstd::std_specs::convert::FromSpecImpl<std::io::Error> for WavOpenError {
    open spec fn obeys_from_spec() -> bool {
        true
    }

    open spec fn from_spec(e: std::io::Error) -> Self {
        WavOpenError::Io(e)
    }
}

/// A fatal error while running a WAV write stream.
#[derive(Debug)]
pub enum WavFatalError {
    /// IO error
    Io(std::io::Error),
    /// The maximum size for a WAV file was reached.
    ReachedMaxSize,
    /// There was an error reading the name of the file.
    CouldNotGetFileName,
}

impl From<std::io::Error> for WavFatalError {
    fn from(e: std::io::Error) -> (r: Self) {
        WavFatalError::Io(e)
    }
}

impl vstd::std_specs::convert::FromSpecImpl<std::io::Error> for WavFatalError {
    open spec fn obeys_from_spec() -> bool {
        true
    }

    open spec fn from_spec(e: std::io::Error) -> Self {
        WavFatalError::Io(e)
    }
}

} // verus!
