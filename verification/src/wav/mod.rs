//! WAV encoding: sample formats, the RIFF/WAVE header and the bookkeeping
//! of a WAV write stream.
use vstd::prelude::*;

pub mod bit_depth;
pub mod encoder_state;
pub mod error;
pub mod header;
pub mod wav_bit_depth;

verus! {

/// The kind of samples stored in a WAV file.
#[derive(Debug, Clone, Copy, PartialEq, Eq, Structural)]
pub enum FormatType {
    Pcm,
    Float,
}

/// The sample format of a WAV file.
#[derive(Debug, Clone, Copy, PartialEq, Eq, Structural)]
pub enum Format {
    Uint8,
    Int16,
    Int24,
    Float32,
    Float64,
}

impl Format {
    pub open spec fn spec_bits_per_sample(self) -> u16 {
        match self {
            Format::Uint8 => 8,
            Format::Int16 => 16,
            Format::Int24 => 24,
            Format::Float32 => 32,
            Format::Float64 => 64,
        }
    }

    pub open spec fn spec_bytes_per_sample(self) -> u16 {
        match self {
            Format::Uint8 => 1,
            Format::Int16 => 2,
            Format::Int24 => 3,
            Format::Float32 => 4,
            Format::Float64 => 8,
        }
    }

    pub open spec fn spec_format_type(self) -> FormatType {
        match self {
            Format::Uint8 | Format::Int16 | Format::Int24 => FormatType::Pcm,
            Format::Float32 | Format::Float64 => FormatType::Float,
        }
    }

    /// The number of bits in one sample.
    pub fn bits_per_sample(&self) -> (r: u16)
        ensures
            r == self.spec_bits_per_sample(),
    {
        match self {
            Format::Uint8 => 8,
            Format::Int16 => 16,
            Format::Int24 => 24,
            Format::Float32 => 32,
            Format::Float64 => 64,
        }
    }

    /// The number of bytes one sample takes in the file.
    pub fn bytes_per_sample(&self) -> (r: u16)
        ensures
            r == self.spec_bytes_per_sample(),
    {
        match self {
            Format::Uint8 => 1,
            Format::Int16 => 2,
            Format::Int24 => 3,
            Format::Float32 => 4,
            Format::Float64 => 8,
        }
    }

    /// Whether the samples are integers (PCM) or floating point.
    pub fn format_type(&self) -> (r: FormatType)
        ensures
            r == self.spec_format_type(),
    {
        match self {
            Format::Uint8 => FormatType::Pcm,
            Format::Int16 => FormatType::Pcm,
            Format::Int24 => FormatType::Pcm,
            Format::Float32 => FormatType::Float,
            Format::Float64 => FormatType::Float,
        }
    }
}

/// The sample bits are eight times the sample bytes, for every format.
pub proof fn lemma_bits_are_eight_times_bytes(format: Format)
    ensures
        format.spec_bits_per_sample() == 8 * format.spec_bytes_per_sample(),
{
}

/// Additional info about a WAV file.
#[derive(Clone)]
pub struct Params {
    pub _format: Format,
}

} // verus!
