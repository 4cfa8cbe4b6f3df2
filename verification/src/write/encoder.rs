//! Naming of the extra files a write stream creates.
use vstd::prelude::*;
use vstd::string::*;

use super::WriteBlock;
use crate::FileInfo;

verus! {

/// The return status of writing to a file.
#[derive(Debug, Clone, Copy)]
pub enum WriteStatus {
    /// Written ok.
    WrittenOk,
    /// Written ok, but the file has (or is about to) reach
    /// the maximum file size for this codec. A new file
    /// will be created to hold more data.
    ///
    /// This returns the total number of files.
    /// (Including the one created with this stream and the new one that
    /// is being created right now).
    ReachedMaxSize { num_files: u32 },
}

/// A call made on an encoder, with what it returned.
pub enum EncoderCall<T, E> {
    /// `encode` of a block holding these frames, per channel.
    Encode(Seq<Seq<T>>, Result<WriteStatus, E>),
    /// `finish_file`.
    FinishFile(Result<(), E>),
    /// `discard_file`.
    DiscardFile(Result<(), E>),
    /// `discard_and_restart`.
    DiscardAndRestart(Result<(), E>),
}

/// A type that encodes a file in a write stream.
pub trait Encoder: Sized {
    /// The data type of a single sample. (i.e. `f32`)
    type T: Copy + Default + Send;

    /// Any additional options for creating a file with this encoder.
    type AdditionalOpts: Send + Default;

    /// Any additional information on the file.
    type FileParams: Clone + Send;

    /// The error type while opening the file.
    type OpenError: Send;

    /// The error type when a fatal error occurs.
    type FatalError: Send;

    /// The default number of frames in a write block.
    const DEFAULT_BLOCK_SIZE: usize;

    /// The default number of write blocks.
    const DEFAULT_NUM_WRITE_BLOCKS: usize;

    /// Open the file for writing.
    fn new(
        file: std::path::PathBuf,
        num_channels: u16,
        sample_rate: u32,
        block_size: usize,
        num_write_blocks: usize,
        additional_opts: Self::AdditionalOpts,
    ) -> Result<(Self, FileInfo<Self::FileParams>), Self::OpenError>;

    /// Whether [`Encoder::spec_calls`] models this encoder's history of
    /// calls. An encoder that does not model it (the default) is promised
    /// nothing by the contracts of its methods.
    closed spec fn obeys_call_log() -> bool {
        false
    }

    /// The calls made on this encoder so far, in order, with their results.
    closed spec fn spec_calls(&self) -> Seq<EncoderCall<Self::T, Self::FatalError>> {
        Seq::empty()
    }

    /// Write a block of data to the file. Only the first
    /// `write_block.written_frames()` frames of the block are valid.
    fn encode(&mut self, write_block: &WriteBlock<Self::T>) -> (r: Result<WriteStatus, Self::FatalError>)
        ensures
            Self::obeys_call_log() ==> final(self).spec_calls() == old(self).spec_calls().push(
                EncoderCall::Encode(write_block.spec_channels(), r),
            ),
    ;

    /// Finish up the file and then close it.
    fn finish_file(&mut self) -> (r: Result<(), Self::FatalError>)
        ensures
            Self::obeys_call_log() ==> final(self).spec_calls() == old(self).spec_calls().push(EncoderCall::FinishFile(r)),
    ;

    /// Delete all created files. Do not start over.
    fn discard_file(&mut self) -> (r: Result<(), Self::FatalError>)
        ensures
            Self::obeys_call_log() ==> final(self).spec_calls() == old(self).spec_calls().push(EncoderCall::DiscardFile(r)),
    ;

    /// Delete all created files and start over from the beginning.
    fn discard_and_restart(&mut self) -> (r: Result<(), Self::FatalError>)
        ensures
            Self::obeys_call_log() ==> final(self).spec_calls() == old(self).spec_calls().push(EncoderCall::DiscardAndRestart(r)),
    ;
}

/// The ASCII digit for `d`.
pub open spec fn digit_char(d: int) -> char {
    if d == 0 {
        '0'
    } else if d == 1 {
        '1'
    } else if d == 2 {
        '2'
    } else if d == 3 {
        '3'
    } else if d == 4 {
        '4'
    } else if d == 5 {
        '5'
    } else if d == 6 {
        '6'
    } else if d == 7 {
        '7'
    } else if d == 8 {
        '8'
    } else {
        '9'
    }
}

/// The decimal digits of `n`, most significant first, without leading zeros.
pub open spec fn decimal(n: nat) -> Seq<char>
    decreases n,
{
    if n < 10 {
        seq![digit_char(n as int)]
    } else {
        decimal(n / 10).push(digit_char((n % 10) as int))
    }
}

/// The extension that is appended to the file name of the `num_files`-th
/// file of a stream: nothing for the first file, then "_001", "_002", ...,
/// "_099", "_100", ...
pub open spec fn file_name_extension(num_files: u32) -> Seq<char> {
    if num_files <= 1 {
        Seq::empty()
    } else {
        let n = (num_files - 1) as nat;
        if n < 10 {
            seq!['_', '0', '0'] + decimal(n)
        } else if n < 100 {
            seq!['_', '0'] + decimal(n)
        } else {
            seq!['_'] + decimal(n)
        }
    }
}

fn digit_str(d: u32) -> (r: &'static str)
    requires
        d < 10,
    ensures
        r@ == seq![digit_char(d as int)],
{
    if d == 0 {
        proof { reveal_strlit("0"); }
        "0"
    } else if d == 1 {
        proof { reveal_strlit("1"); }
        "1"
    } else if d == 2 {
        proof { reveal_strlit("2"); }
        "2"
    } else if d == 3 {
        proof { reveal_strlit("3"); }
        "3"
    } else if d == 4 {
        proof { reveal_strlit("4"); }
        "4"
    } else if d == 5 {
        proof { reveal_strlit("5"); }
        "5"
    } else if d == 6 {
        proof { reveal_strlit("6"); }
        "6"
    } else if d == 7 {
        proof { reveal_strlit("7"); }
        "7"
    } else if d == 8 {
        proof { reveal_strlit("8"); }
        "8"
    } else {
        proof { reveal_strlit("9"); }
        "9"
    }
}

fn append_decimal(s: &mut String, n: u32)
    ensures
        final(s)@ == old(s)@ + decimal(n as nat),
    decreases n,
{
    if n >= 10 {
        append_decimal(s, n / 10);
    }
    s.append(digit_str(n % 10));
    proof {
        if n >= 10 {
            assert(final(s)@ =~= old(s)@ + decimal(n as nat));
        } else {
            assert(final(s)@ =~= old(s)@ + decimal(n as nat));
        }
    }
}

/// Converts the current total number of files created (including the one created
/// with this stream and the new one that is being created right now) to the extension
/// to append to the end of the file name.
///
/// This extension is in the format "_XXX". (i.e. "_001", "_002", etc.)
pub fn num_files_to_file_name_extension(num_files: u32) -> (r: String)
    ensures
        r@ == file_name_extension(num_files),
{
    let mut s = String::new();
    if num_files <= 1 {
        return s;
    }
    let extension_num = num_files - 1;
    if extension_num < 10 {
        proof { reveal_strlit("_00"); }
        s.append("_00");
    } else if extension_num < 100 {
        proof { reveal_strlit("_0"); }
        s.append("_0");
    } else {
        proof { reveal_strlit("_"); }
        s.append("_");
    }
    append_decimal(&mut s, extension_num);
    s
}

/// For the second to the thousandth file, the extension has the format
/// "_XXX": an underscore and three digits.
pub proof fn law_extension_format(num_files: u32)
    requires
        1 < num_files <= 1000,
    ensures
        file_name_extension(num_files).len() == 4,
        file_name_extension(num_files)[0] == '_',
{
    let n = (num_files - 1) as nat;
    reveal_with_fuel(decimal, 3);
    if n >= 100 {
        assert(n / 10 >= 10 && n / 10 < 100);
        assert(n / 100 < 10);
        assert(n / 10 / 10 == n / 100);
    } else if n >= 10 {
        assert(n / 10 < 10);
    }
}

} // verus!
