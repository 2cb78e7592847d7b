//! Reading and writing of Minecraft region files (`.mca`).
//!
//! A region holds 32 x 32 chunks. Its first 4096 bytes are the location
//! table, the next 4096 bytes the timestamp table, and every chunk payload
//! starts on a 4096 byte sector boundary after them.

mod codec;
mod compression;
mod custom_compression;
mod error;
mod format;
mod iter;
mod laws;
mod layout;
mod read;
mod write;

pub use codec::{
    gzip_decoded, gzip_encoded, lz4_decoded, lz4_encoded, zlib_decoded, zlib_encoded,
};
pub use compression::{Compression, CompressionModel};
pub use custom_compression::{CustomCompression, CustomDecompression};
pub use error::{CompressionError, McaError};
pub use format::{
    be16_at, be16_bytes, be24_at, be24_bytes, be32_at, be32_bytes, chunk_timestamp, chunk_view,
    coordinate_at, data_len, first_oversized, generated_list, generated_upto,
    has_location, location_table, lookup_chunk, packable, packable_until, payload_offset, payloads,
    region_bytes, region_bytes_until, sectors_total, stamp_of, timestamp_table,
    zeros, ChunkLookup, PackedModel, lemma_first_oversized_prefix, lemma_sectors_prefix,
    lemma_sectors_take,
};
pub use layout::{
    entry_unique, law_header_layout, law_packed_clock_time, law_write_clock_time, law_written_timestamp,
    offset_of,
};
pub use iter::{next_chunk_outcome, AvailableChunk, ChunkIter, RegionIter};
pub use laws::{
    consistent_entries, count_some, law_compression_byte, law_coordinates_one_to_one,
    law_generated_chunks, law_iteration_reads_chunks, law_decompress_codecs, law_decoded_codecs,
    law_compress_codecs, lemma_header_offsets_apart, lemma_payload_len, law_read_after_write, law_rewrite, rewrite_keeps, compression_reads_back,
    law_write_then_read, lemma_coordinate,
    lemma_be16_roundtrip, lemma_be24_roundtrip, lemma_be32_roundtrip,
    readable_back, reads_back_as_itself, reads_back_entry,
};
pub use read::{
    chunk_data_outcome, chunk_outcome, decoded_outcome, decompress_outcome, lookup_error, lookup_succeeds,
    reads_into, vanilla_decoded, ChunkDataRef, CompressedChunk,
    RegionReader,
};
pub use write::{
    chunk_index, clock_reading, compress_outcome, current_timestamp, stamp_seconds, timestamp_from_seconds, encoded, entry_bytes, lemma_outcome_stays, lemma_pack_empty, pack_outcome, PackOutcome, packed_models, packed_write_outcome,
    packs_bytes, packs_entry, packs_upto, pending_bytes, pending_compression, pending_model, region_written, same_entry, sectors_for,
    vanilla_encoded,
    PackedChunk, PendingCompressed, PendingData, PendingUncompressed, RegionWriter, WritableChunk,
};

use vstd::prelude::*;

verus! {

/// How many chunks exist in a direction, one region has a total of
/// [`REGION_SIZE`] * [`REGION_SIZE`] chunks.
pub const REGION_SIZE: usize = 32;

/// The size of one sector of a region file; the two header tables each take
/// one sector and every chunk payload is padded to whole sectors.
pub const SECTOR_SIZE: usize = 4096;

/// The byte offset of a chunk's entry in each of the two header tables.
///
/// Coordinates are taken modulo [`REGION_SIZE`].
pub open spec fn spec_header_offset(x: u8, z: u8) -> int {
    4 * ((x as int % 32) + (z as int % 32) * 32)
}

/// Returns the byte offset in each header based off a chunk position.
pub fn header_offset(x: u8, z: u8) -> (r: usize)
    ensures
        r == spec_header_offset(x, z),
        r + 4 <= SECTOR_SIZE,
{
    4 * ((x as usize % REGION_SIZE) + (z as usize % REGION_SIZE) * REGION_SIZE)
}

} // verus!
