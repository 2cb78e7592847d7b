use std::string::FromUtf8Error;
use vstd::prelude::*;

verus! {

/// An I/O error, as reported by the compression backends.
#[verifier::external_type_specification]
#[verifier::external_body]
pub struct ExIoError(std::io::Error);

/// The error of a failed UTF-8 conversion of a custom compression id.
#[verifier::external_type_specification]
#[verifier::external_body]
pub struct ExFromUtf8Error(FromUtf8Error);

/// Errors of reading and writing regions.
#[derive(Debug)]
pub enum McaError {
    /// Region is too small to even include the headers.
    MissingHeaders(usize),
    /// No chunk offset found in location header.
    MissingOffset,
    /// No data length found in chunk data.
    MissingDataLen,
    /// The chunk data referenced by its data length lies outside the region.
    FailedToCreateChunkView,
    /// Chunk view was empty.
    NoChunkView,
    /// No compression byte found.
    MissingCompression,
    /// No compressed chunk data found.
    MissingChunkData,
    /// No timestamp for specified chunk in timestamp header.
    MissingTimestamp,
    /// Chunk coordinates are outside of the region, both must be below 32.
    InvalidChunkPosition(u8, u8),
    /// Got an invalid chunk coordinate while iterating a region.
    InvalidRegionIterChunk(Vec<(u8, u8)>, u8, u8),
    /// Failed to write data.
    WriteError(std::io::Error),
    /// Failed to create custom compression id.
    InvalidUtf8(FromUtf8Error),
    /// A compression or decompression failed.
    Compression(CompressionError),
}

/// Errors of compressing and decompressing chunk data.
#[derive(Debug)]
pub enum CompressionError {
    /// Failed to compress/uncompress Gzip.
    Gzip(std::io::Error),
    /// Failed to compress/uncompress ZLib.
    ZLib(std::io::Error),
    /// Failed to compress/uncompress LZ4.
    LZ4(std::io::Error),
    /// Failed to compress/uncompress a custom format, with its message.
    Custom(String),
    /// A custom compression id can't be longer than 255 bytes.
    CustomIdTooBig(String),
    /// Found an unsupported compression format; a [`crate::CustomDecompression`]
    /// or [`crate::CustomCompression`] handles the non-vanilla ones.
    Unsupported,
}

impl From<CompressionError> for McaError {
    fn from(e: CompressionError) -> (r: McaError) {
        McaError::Compression(e)
    }
}

impl vstd::std_specs::convert::FromSpecImpl<CompressionError> for McaError {
    open spec fn obeys_from_spec() -> bool {
        true
    }

    open spec fn from_spec(e: CompressionError) -> McaError {
        McaError::Compression(e)
    }
}

impl From<std::io::Error> for McaError {
    fn from(e: std::io::Error) -> (r: McaError) {
        McaError::WriteError(e)
    }
}

impl vstd::std_specs::convert::FromSpecImpl<std::io::Error> for McaError {
    open spec fn obeys_from_spec() -> bool {
        true
    }

    open spec fn from_spec(e: std::io::Error) -> McaError {
        McaError::WriteError(e)
    }
}

impl From<FromUtf8Error> for McaError {
    fn from(e: FromUtf8Error) -> (r: McaError) {
        McaError::InvalidUtf8(e)
    }
}

impl vstd::std_specs::convert::FromSpecImpl<FromUtf8Error> for McaError {
    open spec fn obeys_from_spec() -> bool {
        true
    }

    open spec fn from_spec(e: FromUtf8Error) -> McaError {
        McaError::InvalidUtf8(e)
    }
}

} // verus!
