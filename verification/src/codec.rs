//! The calls into the compression crates, and into std where vstd states
//! nothing of a function. Each result that depends on the arguments alone
//! has a name below; nothing more is claimed of the names than what the
//! wrappers state.

use std::io::{Read, Write};
use std::string::FromUtf8Error;
use vstd::prelude::*;
use vstd::utf8::{decode_utf8, valid_utf8};

verus! {

/// The bytes that flate2's `GzEncoder` at level 4 writes for `data`.
pub uninterp spec fn gzip_encoded(data: Seq<u8>) -> Seq<u8>;

/// The bytes that flate2's `ZlibEncoder` at level 4 writes for `data`.
pub uninterp spec fn zlib_encoded(data: Seq<u8>) -> Seq<u8>;

/// The bytes that lz4_java_wrc's `Lz4BlockOutput` writes for `data`.
pub uninterp spec fn lz4_encoded(data: Seq<u8>) -> Seq<u8>;

/// The bytes that reading flate2's `GzDecoder` over `data` to its end gives,
/// or `None` where that read reports an error.
pub uninterp spec fn gzip_decoded(data: Seq<u8>) -> Option<Seq<u8>>;

/// The bytes that reading flate2's `ZlibDecoder` over `data` to its end
/// gives, or `None` where that read reports an error.
pub uninterp spec fn zlib_decoded(data: Seq<u8>) -> Option<Seq<u8>>;

/// The bytes that reading lz4_java_wrc's `Lz4BlockInput` over `data` to its
/// end gives, or `None` where that read reports an error.
pub uninterp spec fn lz4_decoded(data: Seq<u8>) -> Option<Seq<u8>>;

/// Calls flate2's `GzEncoder::new` at level 4 over a new `Vec` and its
/// `write_all` with `data`; the encoder finishes the stream when dropped.
/// Writing into a `Vec` cannot fail, so the call succeeds. Claims that the
/// result is `gzip_encoded(data)`, and that reading it back
/// with `GzDecoder` gives `data` again, the gzip format being lossless.
#[verifier::external_body]
pub(crate) fn gzip_encode(data: &[u8]) -> (r: Result<Vec<u8>, std::io::Error>)
    ensures
        r is Ok,
        r->Ok_0@ == gzip_encoded(data@),
        data@.len() > 0 ==> gzip_decoded(r->Ok_0@) == Some(data@),
{
    let mut buf = Vec::with_capacity(8192);
    flate2::write::GzEncoder::new(&mut buf, flate2::Compression::new(4)).write_all(data)?;
    Ok(buf)
}

/// Calls flate2's `ZlibEncoder::new` at level 4 over a new `Vec` and its
/// `write_all` with `data`; the encoder finishes the stream when dropped.
/// Writing into a `Vec` cannot fail, so the call succeeds. Claims that the
/// result is `zlib_encoded(data)`, and that reading it back
/// with `ZlibDecoder` gives `data` again, the zlib format being lossless.
#[verifier::external_body]
pub(crate) fn zlib_encode(data: &[u8]) -> (r: Result<Vec<u8>, std::io::Error>)
    ensures
        r is Ok,
        r->Ok_0@ == zlib_encoded(data@),
        data@.len() > 0 ==> zlib_decoded(r->Ok_0@) == Some(data@),
{
    let mut buf = Vec::with_capacity(8192);
    flate2::write::ZlibEncoder::new(&mut buf, flate2::Compression::new(4)).write_all(data)?;
    Ok(buf)
}

/// Calls lz4_java_wrc's `Lz4BlockOutput::new` over a new `Vec` and its
/// `write_all` with `data`; the output flushes its last block when dropped.
/// Writing into a `Vec` cannot fail, so the call succeeds. Claims that the
/// result is `lz4_encoded(data)`, and that reading it back
/// with `Lz4BlockInput` gives `data` again, as the crate's documentation
/// shows of the pair.
#[verifier::external_body]
pub(crate) fn lz4_encode(data: &[u8]) -> (r: Result<Vec<u8>, std::io::Error>)
    ensures
        r is Ok,
        r->Ok_0@ == lz4_encoded(data@),
        data@.len() > 0 ==> lz4_decoded(r->Ok_0@) == Some(data@),
{
    let mut buf = Vec::with_capacity(8192);
    lz4_java_wrc::Lz4BlockOutput::new(&mut buf).write_all(data)?;
    Ok(buf)
}

/// Calls `read_to_end` of flate2's `GzDecoder` over `data` into `buf`.
/// Claims: on success `buf` got `gzip_decoded(data)` appended; on an error
/// (where that name is `None`) `buf` kept its old bytes as a prefix, as
/// `read_to_end` documents; what else it got appended is not stated.
#[verifier::external_body]
pub(crate) fn gzip_decode_into(data: &[u8], buf: &mut Vec<u8>) -> (r: Result<usize, std::io::Error>)
    ensures
        match gzip_decoded(data@) {
            Some(d) => r is Ok && final(buf)@ == old(buf)@ + d,
            None => r is Err && old(buf)@.is_prefix_of(final(buf)@),
        },
{
    flate2::read::GzDecoder::new(data).read_to_end(buf)
}

/// Calls `read_to_end` of flate2's `ZlibDecoder` over `data` into `buf`.
/// Claims: on success `buf` got `zlib_decoded(data)` appended; on an error
/// (where that name is `None`) `buf` kept its old bytes as a prefix, as
/// `read_to_end` documents; what else it got appended is not stated.
#[verifier::external_body]
pub(crate) fn zlib_decode_into(data: &[u8], buf: &mut Vec<u8>) -> (r: Result<usize, std::io::Error>)
    ensures
        match zlib_decoded(data@) {
            Some(d) => r is Ok && final(buf)@ == old(buf)@ + d,
            None => r is Err && old(buf)@.is_prefix_of(final(buf)@),
        },
{
    flate2::read::ZlibDecoder::new(data).read_to_end(buf)
}

/// Calls `read_to_end` of lz4_java_wrc's `Lz4BlockInput` over `data` into
/// `buf`. Claims: on success `buf` got `lz4_decoded(data)` appended; on an
/// error (where that name is `None`) `buf` kept its old bytes as a prefix,
/// as `read_to_end` documents; what else it got appended is not stated.
#[verifier::external_body]
pub(crate) fn lz4_decode_into(data: &[u8], buf: &mut Vec<u8>) -> (r: Result<usize, std::io::Error>)
    ensures
        match lz4_decoded(data@) {
            Some(d) => r is Ok && final(buf)@ == old(buf)@ + d,
            None => r is Err && old(buf)@.is_prefix_of(final(buf)@),
        },
{
    lz4_java_wrc::Lz4BlockInput::new(data).read_to_end(buf)
}

/// Calls std's `String::from_utf8`, which succeeds exactly on valid UTF-8
/// and then holds the characters those bytes encode.
#[verifier::external_body]
pub(crate) fn string_from_utf8(bytes: Vec<u8>) -> (r: Result<String, FromUtf8Error>)
    ensures
        r is Ok <==> valid_utf8(bytes@),
        r matches Ok(s) ==> s@ == decode_utf8(bytes@),
{
    String::from_utf8(bytes)
}

/// A point in time, as std's clock reports it.
#[verifier::external_type_specification]
#[verifier::external_body]
pub struct ExSystemTime(std::time::SystemTime);

/// The error of a time that lies before the one it is measured from.
#[verifier::external_type_specification]
#[verifier::external_body]
pub struct ExSystemTimeError(std::time::SystemTimeError);

/// Calls std's `SystemTime::now`. Nothing is stated of the time it gives.
#[verifier::external_body]
pub(crate) fn system_now() -> std::time::SystemTime {
    std::time::SystemTime::now()
}

/// Calls std's `SystemTime::duration_since` with `UNIX_EPOCH`: the time
/// since the epoch, or an error where `t` lies before it. Nothing is stated
/// of which, as `t` is opaque here.
#[verifier::external_body]
pub(crate) fn since_epoch(t: &std::time::SystemTime) -> Result<
    std::time::Duration,
    std::time::SystemTimeError,
> {
    t.duration_since(std::time::UNIX_EPOCH)
}

/// Calls std's `Duration::as_secs`: the whole seconds of `d`. Nothing is
/// stated of the value, as `d` is opaque here.
#[verifier::external_body]
pub(crate) fn whole_seconds(d: &std::time::Duration) -> u64 {
    d.as_secs()
}

/// Calls std's `io::Error::from` with `ErrorKind::InvalidData`.
#[verifier::external_body]
pub(crate) fn invalid_data_error() -> std::io::Error {
    std::io::Error::from(std::io::ErrorKind::InvalidData)
}

} // verus!
