//! A file path held in a fixed buffer, so that the realtime side of a
//! stream can take one without allocating.
use vstd::prelude::*;
use vstd::string::*;

verus! {

/// An error building a [`PathBuffer`].
#[derive(Debug)]
pub enum PathError<'a> {
    /// The path does not fit in the buffer.
    PathTooLong(&'a str),
}

/// A null-terminated path of at most [`PathBuffer::MAX_LEN`] bytes.
pub struct PathBuffer {
    buffer: [u8; 512],
}

impl PathBuffer {
    /// The longest path, in bytes, that a buffer holds.
    pub const MAX_LEN: usize = 511;

    /// The bytes of the buffer.
    pub closed spec fn spec_buffer(self) -> Seq<u8> {
        self.buffer@
    }

    /// The bytes of the buffer.
    pub fn buffer(&self) -> (r: &[u8])
        ensures
            r@ == self.spec_buffer(),
    {
        self.buffer.as_slice()
    }

    /// The bytes of `path`, followed by a null byte.
    pub fn from(path: &str) -> (r: Result<Self, PathError<'_>>)
        ensures
            match r {
                Ok(b) => {
                    let n = path.spec_bytes().len() as int;
                    &&& n <= Self::MAX_LEN
                    &&& b.spec_buffer().len() == Self::MAX_LEN + 1
                    &&& b.spec_buffer().subrange(0, n) == path.spec_bytes()
                    &&& b.spec_buffer()[n] == 0
                },
                Err(PathError::PathTooLong(p)) => p == path && path.spec_bytes().len() > Self::MAX_LEN,
            },
    {
        let bytes = path.as_bytes();
        let n = bytes.len();
        if n > Self::MAX_LEN {
            return Err(PathError::PathTooLong(path));
        }
        let mut buffer = [0u8; 512];
        let mut i: usize = 0;
        while i < n
            invariant
                i <= n <= 511,
                bytes@ == path.spec_bytes(),
                bytes@.len() == n,
                buffer@.len() == 512,
                forall|j: int| 0 <= j < i ==> #[trigger] buffer@[j] == bytes@[j],
                forall|j: int| i <= j < 512 ==> #[trigger] buffer@[j] == 0,
            decreases n - i,
        {
            buffer[i] = bytes[i];
            i += 1;
        }
        // Null-terminate the string.
        buffer[n] = 0;
        let b = PathBuffer { buffer };
        assert(b.spec_buffer().subrange(0, n as int) =~= path.spec_bytes());
        Ok(b)
    }
}

} // verus!
