//! A compression byte of 127 or higher marks a custom compression: the byte
//! is followed by a length-prefixed id naming the algorithm and then by the
//! compressed chunk data. What the algorithm does is left to an
//! implementation of the traits below; `()` implements both and refuses
//! every custom format.

use crate::CompressionError;
use vstd::prelude::*;

verus! {

/// Defines how chunk data of custom compression formats is uncompressed.
///
/// One implementation can serve several formats, as the id of the format is
/// an argument.
pub trait CustomDecompression: Send + Sync {
    /// What decompressing `data` with the algorithm named `id` gives: the
    /// uncompressed bytes, or the error.
    spec fn decompressed(&self, data: Seq<u8>, id: Seq<char>) -> Result<Seq<u8>, CompressionError>;

    /// What decompressing `data` with the algorithm named `id` leaves
    /// appended to the output where it fails.
    spec fn left_on_error(&self, data: Seq<u8>, id: Seq<char>) -> Seq<u8>;

    /// Takes in the compressed chunk data (`data`) and the id of the
    /// algorithm used; the uncompressed data is appended to `out`, and
    /// where it fails, what `left_on_error` says.
    ///
    /// Can return the amount of bytes written but is not used.
    fn decompress(&self, data: &[u8], algorithm: &str, out: &mut Vec<u8>) -> (r: Result<
        usize,
        CompressionError,
    >)
        ensures
            match self.decompressed(data@, algorithm@) {
                Ok(d) => r is Ok && final(out)@ == old(out)@ + d,
                Err(e) => r == Err::<usize, CompressionError>(e) && final(out)@ == old(out)@
                    + self.left_on_error(data@, algorithm@),
            },
    ;
}

impl CustomDecompression for () {
    /// No custom format is supported.
    open spec fn decompressed(&self, data: Seq<u8>, id: Seq<char>) -> Result<Seq<u8>, CompressionError> {
        Err(CompressionError::Unsupported)
    }

    /// Nothing is written.
    open spec fn left_on_error(&self, data: Seq<u8>, id: Seq<char>) -> Seq<u8> {
        Seq::empty()
    }

    fn decompress(&self, data: &[u8], algorithm: &str, out: &mut Vec<u8>) -> (r: Result<
        usize,
        CompressionError,
    >)
        ensures
            final(out)@ == old(out)@,
    {
        Err(CompressionError::Unsupported)
    }
}

/// Defines how chunk data of custom compression formats is compressed.
///
/// One implementation can serve several formats, as the id of the format is
/// an argument.
pub trait CustomCompression: Send + Sync {
    /// What compressing `data` with the algorithm named `id` gives: the
    /// compressed bytes, or the error.
    spec fn compressed(&self, data: Seq<u8>, id: Seq<char>) -> Result<Seq<u8>, CompressionError>;

    /// Takes in raw uncompressed chunk data (`data`) and the id of the
    /// algorithm to use; the compressed data is appended to `out`.
    fn compress(&self, data: &[u8], algorithm: &str, out: &mut Vec<u8>) -> (r: Result<
        (),
        CompressionError,
    >)
        ensures
            match self.compressed(data@, algorithm@) {
                Ok(b) => r is Ok && final(out)@ == old(out)@ + b,
                Err(e) => r == Err::<(), CompressionError>(e),
            },
    ;
}

impl CustomCompression for () {
    /// No custom format is supported.
    open spec fn compressed(&self, data: Seq<u8>, id: Seq<char>) -> Result<Seq<u8>, CompressionError> {
        Err(CompressionError::Unsupported)
    }

    fn compress(&self, data: &[u8], algorithm: &str, out: &mut Vec<u8>) -> (r: Result<
        (),
        CompressionError,
    >)
        ensures
            final(out)@ == old(out)@,
    {
        Err(CompressionError::Unsupported)
    }
}

} // verus!
