use crate::codec::{gzip_decode_into, gzip_decoded, lz4_decode_into, lz4_decoded, string_from_utf8, zlib_decode_into, zlib_decoded};
use crate::compression::{Compression, CompressionModel};
use crate::custom_compression::{CustomCompression, CustomDecompression};
use crate::error::{CompressionError, McaError};
use crate::format::{
    chunk_timestamp, chunk_view, coordinate_at, generated_list, generated_upto, has_location,
    lookup_chunk, ChunkLookup,
};
use crate::iter::RegionIter;
use crate::write::{chunk_index, pending_bytes, pending_compression, PendingCompressed, PendingData, RegionWriter, WritableChunk};
use crate::{header_offset, spec_header_offset, REGION_SIZE, SECTOR_SIZE};
use std::borrow::Cow;
use vstd::prelude::*;
use vstd::slice::slice_to_vec;

verus! {

/// A Minecraft region, read and decompressed from its bytes.
#[derive(Debug)]
pub struct RegionReader<'a, D: CustomDecompression = ()> {
    data: &'a [u8],
    decompress_buf: Vec<u8>,
    pub(crate) custom_decompression: D,
}

/// A reference to a piece of compressed chunk data and the compression
/// format used.
#[derive(Clone, Debug)]
pub struct ChunkDataRef<'a> {
    /// The chunk's compressed nbt data.
    pub data: CompressedChunk<'a>,
    /// The compression format that was used to compress the chunk's data.
    pub compression: Compression,
}

/// Compressed chunk data; [`CompressedChunk::as_ref`] gives the bytes.
#[derive(Clone, Debug)]
pub struct CompressedChunk<'a>(&'a [u8]);

impl<'a> View for CompressedChunk<'a> {
    type V = Seq<u8>;

    closed spec fn view(&self) -> Seq<u8> {
        self.0@
    }
}

impl<'a> CompressedChunk<'a> {
    /// Wraps a buffer in a [`CompressedChunk`] to notify that the data isn't
    /// ready to be used yet.
    pub fn new(data: &'a [u8]) -> (r: CompressedChunk<'a>)
        ensures
            r@ == data@,
    {
        CompressedChunk(data)
    }

    /// The compressed bytes.
    pub fn as_ref(&self) -> (r: &'a [u8])
        ensures
            r@ == self@,
    {
        self.0
    }
}

/// The decompressed bytes of `payload` for the vanilla compressions; `None`
/// where the decoder reports an error, and for custom compressions, which
/// the library does not decode itself.
pub open spec fn vanilla_decoded(payload: Seq<u8>, c: CompressionModel) -> Option<Seq<u8>> {
    match c {
        CompressionModel::Gzip => gzip_decoded(payload),
        CompressionModel::ZLib => zlib_decoded(payload),
        CompressionModel::Uncompressed => Some(payload),
        CompressionModel::Lz4 => lz4_decoded(payload),
        CompressionModel::Custom(_, _) => None,
    }
}

/// `r` is what `RegionReader::decompress_data_ref` gives for the payload:
/// for a vanilla compression the decoded bytes appended to `buf`, or the
/// decoder's error with `buf`'s old bytes kept as a prefix; for a custom one
/// what `custom` gives for the payload and the compression's id.
pub open spec fn decompress_outcome<D: CustomDecompression>(
    payload: Seq<u8>,
    c: CompressionModel,
    custom: D,
    old_buf: Seq<u8>,
    new_buf: Seq<u8>,
    r: Result<(), CompressionError>,
) -> bool {
    match c {
        CompressionModel::Custom(_, id) => match custom.decompressed(payload, id) {
            Ok(d) => r is Ok && new_buf == old_buf + d,
            Err(e) => r == Err::<(), CompressionError>(e) && new_buf == old_buf + custom.left_on_error(
                payload,
                id,
            ),
        },
        _ => match vanilla_decoded(payload, c) {
            Some(d) => r is Ok && new_buf == old_buf + d,
            None => {
                &&& old_buf.is_prefix_of(new_buf)
                &&& match c {
                    CompressionModel::Gzip => r matches Err(CompressionError::Gzip(_)),
                    CompressionModel::ZLib => r matches Err(CompressionError::ZLib(_)),
                    _ => r matches Err(CompressionError::LZ4(_)),
                }
            },
        },
    }
}

/// `r` is what `RegionReader::chunk_data` gives for the chunk at `(x, z)`
/// of the region bytes `d`.
pub open spec fn chunk_data_outcome(
    d: Seq<u8>,
    x: u8,
    z: u8,
    r: Result<Option<ChunkDataRef>, McaError>,
) -> bool {
    match lookup_chunk(d, x, z) {
        ChunkLookup::OutOfRegion => r matches Err(McaError::InvalidChunkPosition(a, b)) && a == x
            && b == z,
        ChunkLookup::Absent => r matches Ok(None),
        ChunkLookup::NoDataLen => r matches Err(McaError::MissingDataLen),
        ChunkLookup::ViewOutOfBounds => r matches Err(McaError::FailedToCreateChunkView),
        ChunkLookup::EmptyView => r matches Err(McaError::NoChunkView),
        ChunkLookup::ShortCustomHeader => r matches Err(McaError::MissingChunkData),
        ChunkLookup::BadCustomId => r matches Err(McaError::InvalidUtf8(_)),
        ChunkLookup::Present(p, c) => r matches Ok(Some(cd)) && cd.data@ == p && cd.compression@
            == c,
    }
}

/// `r` is what decompressing the payload into a fresh buffer gives: for a
/// vanilla compression the decoded bytes, or the decoder's error wrapped in
/// [`McaError::Compression`]; for a custom one the bytes or the error that
/// `custom` gives for the payload and the compression's id.
pub open spec fn decoded_outcome<D: CustomDecompression>(
    payload: Seq<u8>,
    c: CompressionModel,
    custom: D,
    r: Result<&[u8], McaError>,
) -> bool {
    match c {
        CompressionModel::Custom(_, id) => match custom.decompressed(payload, id) {
            Ok(d) => r matches Ok(s) && s@ == d,
            Err(e) => r matches Err(McaError::Compression(e2)) && e2 == e,
        },
        _ => match vanilla_decoded(payload, c) {
            Some(d) => r matches Ok(s) && s@ == d,
            None => r matches Err(McaError::Compression(e)) && match c {
                CompressionModel::Gzip => e is Gzip,
                CompressionModel::ZLib => e is ZLib,
                _ => e is LZ4,
            },
        },
    }
}

/// `r` is what `RegionReader::chunk` gives for the chunk at `(x, z)` of the
/// region bytes `d`: the errors of `chunk_data`, `Ok(None)` for an absent
/// chunk, and for a present one its decompressed bytes.
pub open spec fn chunk_outcome<D: CustomDecompression>(
    d: Seq<u8>,
    x: u8,
    z: u8,
    custom: D,
    r: Result<Option<&[u8]>, McaError>,
) -> bool {
    match lookup_chunk(d, x, z) {
        ChunkLookup::OutOfRegion => r matches Err(McaError::InvalidChunkPosition(a, b)) && a == x
            && b == z,
        ChunkLookup::Absent => r matches Ok(None),
        ChunkLookup::NoDataLen => r matches Err(McaError::MissingDataLen),
        ChunkLookup::ViewOutOfBounds => r matches Err(McaError::FailedToCreateChunkView),
        ChunkLookup::EmptyView => r matches Err(McaError::NoChunkView),
        ChunkLookup::ShortCustomHeader => r matches Err(McaError::MissingChunkData),
        ChunkLookup::BadCustomId => r matches Err(McaError::InvalidUtf8(_)),
        ChunkLookup::Present(p, c) => match r {
            Ok(Some(s)) => decoded_outcome(p, c, custom, Ok(s)),
            Ok(None) => false,
            Err(e) => decoded_outcome(p, c, custom, Err(e)),
        },
    }
}

/// The writer entry `e` at index `i` holds what the region bytes `d` hold
/// for the chunk `coordinate_at(i)`: nothing for an absent chunk, and for a
/// present one its payload, still compressed, with its compression, its
/// coordinate and the timestamp of its header entry.
pub open spec fn reads_into(d: Seq<u8>, i: int, e: Option<WritableChunk>) -> bool {
    let (x, z) = coordinate_at(i);
    match lookup_chunk(d, x, z) {
        ChunkLookup::Absent => e is None,
        ChunkLookup::Present(p, c) => {
            &&& e matches Some(w)
            &&& w.chunk == (x, z)
            &&& w.timestamp == Some(chunk_timestamp(d, x, z) as u32)
            &&& w.data matches PendingData::Compressed(pc)
            &&& pc.buf@ == p
            &&& pc.compression@ == c
        },
        _ => false,
    }
}

/// The chunk at `(x, z)` is absent, or present with data that the format
/// lets the library take out.
pub open spec fn lookup_succeeds(d: Seq<u8>, x: u8, z: u8) -> bool {
    lookup_chunk(d, x, z) is Absent || lookup_chunk(d, x, z) is Present
}

/// `e` is the error that `RegionReader::chunk_data` gives for the chunk at
/// `(x, z)`.
pub open spec fn lookup_error(d: Seq<u8>, x: u8, z: u8, e: McaError) -> bool {
    match lookup_chunk(d, x, z) {
        ChunkLookup::OutOfRegion => e == McaError::InvalidChunkPosition(x, z),
        ChunkLookup::NoDataLen => e is MissingDataLen,
        ChunkLookup::ViewOutOfBounds => e is FailedToCreateChunkView,
        ChunkLookup::EmptyView => e is NoChunkView,
        ChunkLookup::ShortCustomHeader => e is MissingChunkData,
        ChunkLookup::BadCustomId => e is InvalidUtf8,
        _ => false,
    }
}

impl<'a> RegionReader<'a, ()> {
    /// Creates a new [`RegionReader`] with no [`CustomDecompression`]
    /// specified.
    ///
    /// Fails if the data given is less than 8192 bytes, the two headers.
    pub fn new(data: &'a [u8]) -> (r: Result<RegionReader<'a>, McaError>)
        ensures
            data@.len() < 8192 ==> (r matches Err(McaError::MissingHeaders(n)) && n == data@.len()),
            data@.len() >= 8192 ==> (r matches Ok(reg) && reg@ == data@),
    {
        Self::new_with_decompression(data, ())
    }
}

impl<'a, D: CustomDecompression> View for RegionReader<'a, D> {
    type V = Seq<u8>;

    closed spec fn view(&self) -> Seq<u8> {
        self.data@
    }
}

impl<'a, D: CustomDecompression + Clone> Clone for RegionReader<'a, D> {
    /// A reader of the same bytes, with a copy of the custom decompression.
    fn clone(&self) -> (r: Self)
        ensures
            r@ == self@,
    {
        proof {
            use_type_invariant(self);
        }
        RegionReader {
            data: self.data,
            decompress_buf: self.decompress_buf.clone(),
            custom_decompression: self.custom_decompression.clone(),
        }
    }
}

impl<'a, D: CustomDecompression> RegionReader<'a, D> {
    #[verifier::type_invariant]
    closed spec fn holds_headers(self) -> bool {
        self.data@.len() >= 8192
    }

    /// The custom decompression of the reader.
    pub closed spec fn custom(&self) -> D {
        self.custom_decompression
    }

    /// Creates a new [`RegionReader`] with a specified
    /// [`CustomDecompression`] scheme in case a non-vanilla compression byte
    /// appears.
    ///
    /// Fails if the data given is less than 8192 bytes, the two headers.
    pub fn new_with_decompression(data: &'a [u8], custom_decompression: D) -> (r: Result<
        RegionReader<'a, D>,
        McaError,
    >)
        ensures
            data@.len() < 8192 ==> (r matches Err(McaError::MissingHeaders(n)) && n == data@.len()),
            data@.len() >= 8192 ==> (r matches Ok(reg) && reg@ == data@ && reg.custom()
                == custom_decompression),
    {
        if data.len() < SECTOR_SIZE * 2 {
            return Err(McaError::MissingHeaders(data.len()));
        }
        Ok(RegionReader { data, decompress_buf: Vec::with_capacity(1_048_576), custom_decompression })
    }

    /// The custom decompression of the reader.
    pub(crate) fn custom_decompression_ref(&self) -> (r: &D)
        ensures
            *r == self.custom(),
    {
        &self.custom_decompression
    }

    /// The four location bytes of the chunk, `None` where they are all zero
    /// (the chunk is not generated).
    pub(crate) fn sector_offset(&self, x: u8, z: u8) -> (r: Result<Option<[u8; 4]>, McaError>)
        ensures
            r matches Ok(o) && (o is Some <==> has_location(self@, x, z)) && (o is Some
                ==> o->0@ == self@.subrange(
                spec_header_offset(x, z),
                spec_header_offset(x, z) + 4,
            )),
    {
        proof {
            use_type_invariant(self);
        }
        let chunk_offset = header_offset(x, z);
        let a = self.data[chunk_offset];
        let b = self.data[chunk_offset + 1];
        let c = self.data[chunk_offset + 2];
        let d = self.data[chunk_offset + 3];
        if a == 0 && b == 0 && c == 0 && d == 0 {
            return Ok(None);
        }
        let bytes = [a, b, c, d];
        assert(bytes@ =~= self@.subrange(
            spec_header_offset(x, z),
            spec_header_offset(x, z) + 4,
        ));
        Ok(Some(bytes))
    }

    /// Returns the compressed data of the chunk at `(x, z)`, `Ok(None)` if
    /// the chunk isn't present in the region (not generated yet).
    ///
    /// Fails where the region's bytes do not hold the chunk as the format
    /// lays it out, among them a custom compression id that does not fit in
    /// the chunk data ([`McaError::MissingChunkData`]).
    pub fn chunk_data(&self, x: u8, z: u8) -> (r: Result<Option<ChunkDataRef<'a>>, McaError>)
        ensures
            chunk_data_outcome(self@, x, z, r),
    {
        proof {
            use_type_invariant(self);
        }
        if x >= REGION_SIZE as u8 || z >= REGION_SIZE as u8 {
            return Err(McaError::InvalidChunkPosition(x, z));
        }
        let offset_data = match self.sector_offset(x, z) {
            Ok(Some(od)) => od,
            Ok(None) => return Ok(None),
            Err(e) => return Err(e),
        };
        let ghost h = spec_header_offset(x, z);
        assert(offset_data[0] == self@[h] && offset_data[1] == self@[h + 1] && offset_data[2]
            == self@[h + 2]);
        let sector: u64 = offset_data[0] as u64 * 0x10000 + offset_data[1] as u64 * 0x100
            + offset_data[2] as u64;
        let offset: u64 = sector * SECTOR_SIZE as u64;
        let total: u64 = self.data.len() as u64;
        if offset + 4 > total {
            return Err(McaError::MissingDataLen);
        }
        let o: usize = offset as usize;
        let data_len: u64 = self.data[o] as u64 * 0x1000000 + self.data[o + 1] as u64 * 0x10000
            + self.data[o + 2] as u64 * 0x100 + self.data[o + 3] as u64;
        if offset + 4 + data_len > total {
            return Err(McaError::FailedToCreateChunkView);
        }
        let view: &[u8] = &self.data[o + 4..o + 4 + data_len as usize];
        assert(view@ == chunk_view(self@, x, z));
        if view.len() == 0 {
            return Err(McaError::NoChunkView);
        }
        let compression_byte = view[0];
        let (compression, extra_c_bytes) = if compression_byte >= 127 {
            if view.len() < 3 {
                return Err(McaError::MissingChunkData);
            }
            let str_len: usize = view[1] as usize * 0x100 + view[2] as usize;
            if 3 + str_len > view.len() {
                return Err(McaError::MissingChunkData);
            }
            let algorithm_id = match string_from_utf8(slice_to_vec(&view[3..3 + str_len])) {
                Ok(s) => s,
                Err(e) => return Err(McaError::InvalidUtf8(e)),
            };
            (Compression::Custom((compression_byte, algorithm_id)), 2 + str_len)
        } else {
            (Compression::from_u8(compression_byte), 0)
        };
        let data: &'a [u8] = &view[1 + extra_c_bytes..view.len()];
        Ok(Some(ChunkDataRef { data: CompressedChunk(data), compression }))
    }

    /// Returns the raw, uncompressed data of the chunk at `(x, z)`, `Ok(None)`
    /// if the chunk isn't present in the region (not generated yet).
    pub fn chunk(&mut self, x: u8, z: u8) -> (r: Result<Option<&[u8]>, McaError>)
        ensures
            final(self)@ == old(self)@,
            final(self).custom() == old(self).custom(),
            chunk_outcome(old(self)@, x, z, old(self).custom(), r),
    {
        match self.chunk_data(x, z) {
            Ok(Some(c)) => match self.decompress_to_internal_buffer(c) {
                Ok(b) => Ok(Some(b)),
                Err(e) => Err(e),
            },
            Ok(None) => Ok(None),
            Err(e) => Err(e),
        }
    }

    /// Decompresses a compressed chunk into the reader's internal buffer to
    /// avoid an allocation for decompression.
    pub fn decompress_to_internal_buffer<'c>(&'c mut self, data: ChunkDataRef<'a>) -> (r: Result<
        &'c [u8],
        McaError,
    >)
        ensures
            final(self)@ == old(self)@,
            final(self).custom() == old(self).custom(),
            decoded_outcome(data.data@, data.compression@, old(self).custom(), r),
    {
        proof {
            use_type_invariant(&*self);
        }
        let mut buf: Vec<u8> = Vec::new();
        std::mem::swap(&mut buf, &mut self.decompress_buf);
        buf.clear();
        let res = Self::decompress_data_ref(
            data.data,
            data.compression,
            &mut buf,
            &self.custom_decompression,
        );
        self.decompress_buf = buf;
        match res {
            Ok(()) => Ok(self.decompress_buf.as_slice()),
            Err(e) => Err(McaError::Compression(e)),
        }
    }

    /// Returns the timestamp located within the region header for the chunk
    /// at `(x, z)`; coordinates are taken modulo 32.
    pub fn timestamp(&self, x: u8, z: u8) -> (r: Result<u32, McaError>)
        ensures
            r matches Ok(t) && t == chunk_timestamp(self@, x, z),
    {
        proof {
            use_type_invariant(self);
        }
        let o = SECTOR_SIZE + header_offset(x, z);
        Ok(self.data[o] as u32 * 0x1000000 + self.data[o + 1] as u32 * 0x10000 + self.data[o
            + 2] as u32 * 0x100 + self.data[o + 3] as u32)
    }

    /// Returns all chunk coordinates where data exists within this region,
    /// in iteration order.
    pub fn generated_chunks(&self) -> (r: Result<Vec<(u8, u8)>, McaError>)
        ensures
            r matches Ok(v) && v@ == generated_list(self@),
    {
        let mut chunks: Vec<(u8, u8)> = Vec::with_capacity(REGION_SIZE * REGION_SIZE);
        let mut x: u8 = 0;
        while x < REGION_SIZE as u8
            invariant
                x <= 32,
                chunks@ == generated_upto(self@, (x as int * 32) as nat),
            decreases 32 - x,
        {
            let mut z: u8 = 0;
            while z < REGION_SIZE as u8
                invariant
                    x < 32,
                    z <= 32,
                    chunks@ == generated_upto(self@, (x as int * 32 + z) as nat),
                decreases 32 - z,
            {
                let present = match self.sector_offset(x, z) {
                    Ok(o) => o.is_some(),
                    Err(e) => return Err(e),
                };
                assert(coordinate_at(x as int * 32 + z) == (x, z));
                if present {
                    chunks.push((x, z));
                }
                z = z + 1;
            }
            x = x + 1;
        }
        Ok(chunks)
    }

    /// Returns how many chunks have been generated / have data within this
    /// region.
    pub fn chunk_count(&self) -> (r: Result<u16, McaError>)
        ensures
            r matches Ok(n) && n == generated_list(self@).len(),
    {
        let mut count: u16 = 0;
        let mut x: u8 = 0;
        while x < REGION_SIZE as u8
            invariant
                x <= 32,
                count == generated_upto(self@, (x as int * 32) as nat).len(),
                count <= x as int * 32,
            decreases 32 - x,
        {
            let mut z: u8 = 0;
            while z < REGION_SIZE as u8
                invariant
                    x < 32,
                    z <= 32,
                    count == generated_upto(self@, (x as int * 32 + z) as nat).len(),
                    count <= x as int * 32 + z,
                decreases 32 - z,
            {
                let present = match self.sector_offset(x, z) {
                    Ok(o) => o.is_some(),
                    Err(e) => return Err(e),
                };
                assert(coordinate_at(x as int * 32 + z) == (x, z));
                if present {
                    count = count + 1;
                }
                z = z + 1;
            }
            x = x + 1;
        }
        Ok(count)
    }

    /// Creates an iterator over all generated chunks of the region.
    pub fn iter(&'a self) -> (r: Result<RegionIter<'a, D>, McaError>)
        ensures
            r matches Ok(it) && it.bytes() == self@ && it.position() == 0 && it.coordinates()
                == generated_list(self@) && it.custom() == self.custom(),
    {
        RegionIter::new(self)
    }

    /// Reads the chunk `coordinate_at(i)` of the region into entry `i` of `w`,
    /// still compressed.
    fn read_chunk_into<C: CustomCompression>(&self, w: &mut RegionWriter<'a, C>, i: usize) -> (r: Result<(), McaError>)
        requires
            i < 1024,
            old(w).well_formed(),
        ensures
            final(w).well_formed(),
            final(w).custom() == old(w).custom(),
            final(w).changed() == old(w).changed(),
            final(w).entries() == old(w).entries().update(i as int, final(w).entries()[i as int]),
            r is Ok <==> lookup_succeeds(self@, coordinate_at(i as int).0, coordinate_at(i as int).1),
            r is Ok ==> reads_into(self@, i as int, final(w).entries()[i as int]),
            r matches Err(e) ==> lookup_error(self@, coordinate_at(i as int).0, coordinate_at(i as int).1, e),
    {
        let x: u8 = (i / REGION_SIZE) as u8;
        let z: u8 = (i % REGION_SIZE) as u8;
        assert(coordinate_at(i as int) == (x, z));
        assert(chunk_index(x, z) == i);
        let data = match self.chunk_data(x, z) {
            Ok(Some(d)) => d,
            Ok(None) => {
                let slot = match w.chunk_mut(x, z) {
                    Ok(e) => e,
                    Err(e) => return Err(e),
                };
                *slot = None;
                return Ok(());
            },
            Err(e) => {
                assert(old(w).entries().update(i as int, w.entries()[i as int]) =~= old(w).entries());
                return Err(e);
            },
        };
        let timestamp = match self.timestamp(x, z) {
            Ok(t) => t,
            Err(e) => return Err(e),
        };
        let slot = match w.chunk_mut(x, z) {
            Ok(e) => e,
            Err(e) => return Err(e),
        };
        *slot = Some(WritableChunk {
            data: PendingData::Compressed(PendingCompressed { buf: Cow::Borrowed(data.data.as_ref()), compression: data.compression }),
            chunk: (x, z),
            timestamp: Some(timestamp),
        });
        Ok(())
    }

    /// Reads all chunks of the region into a new [`RegionWriter`] with the
    /// given custom compression; they stay compressed, so that a chunk that
    /// is not modified is written back as it was.
    ///
    /// Fails with the error of the first chunk, in iteration order, whose
    /// data the format does not let the library take out.
    pub fn into_writer<C: CustomCompression>(&self, custom_compression: C) -> (r: Result<
        RegionWriter<'a, C>,
        McaError,
    >)
        ensures
            r is Ok <==> forall|i: int| 0 <= i < 1024 ==> #[trigger] lookup_succeeds(
                self@,
                coordinate_at(i).0,
                coordinate_at(i).1,
            ),
            r matches Ok(w) ==> {
                &&& w.well_formed()
                &&& w.custom() == custom_compression
                &&& w.changed() == 0
                &&& forall|i: int| 0 <= i < 1024 ==> #[trigger] reads_into(self@, i, w.entries()[i])
            },
            r matches Err(e) ==> exists|i: int|
                0 <= i < 1024 && (forall|j: int| 0 <= j < i ==> #[trigger] lookup_succeeds(
                    self@,
                    coordinate_at(j).0,
                    coordinate_at(j).1,
                )) && #[trigger] lookup_error(self@, coordinate_at(i).0, coordinate_at(i).1, e),
    {
        let mut w = RegionWriter::new_with_compression(custom_compression);
        let mut i: usize = 0;
        while i < REGION_SIZE * REGION_SIZE
            invariant
                i <= 1024,
                w.well_formed(),
                w.custom() == custom_compression,
                w.changed() == 0,
                forall|j: int| 0 <= j < i ==> #[trigger] reads_into(self@, j, w.entries()[j]),
                forall|j: int| 0 <= j < i ==> #[trigger] lookup_succeeds(self@, coordinate_at(j).0, coordinate_at(j).1),
            decreases 1024 - i,
        {
            let ghost before = w.entries();
            let res = self.read_chunk_into(&mut w, i);
            if let Err(e) = res {
                assert(lookup_error(self@, coordinate_at(i as int).0, coordinate_at(i as int).1, e));
                assert(!lookup_succeeds(self@, coordinate_at(i as int).0, coordinate_at(i as int).1));
                return Err(e);
            }
            assert forall|j: int| 0 <= j < i + 1 implies #[trigger] reads_into(self@, j, w.entries()[j]) by {
                if j < i {
                    assert(w.entries()[j] == before[j]);
                }
            }
            i = i + 1;
        }
        Ok(w)
    }

    /// Decompresses `data` into `buf`, selecting a decompression scheme by
    /// the compression: the vanilla ones are decoded here, anything else is
    /// handed to [`CustomDecompression::decompress`].
    pub fn decompress_data_ref(
        data: CompressedChunk,
        compression: Compression,
        buf: &mut Vec<u8>,
        custom_decompression: &D,
    ) -> (r: Result<(), CompressionError>)
        ensures
            decompress_outcome(data@, compression@, *custom_decompression, old(buf)@, final(buf)@, r),
    {
        let data = data.as_ref();
        match compression {
            Compression::Gzip => {
                if let Err(e) = gzip_decode_into(data, buf) {
                    return Err(CompressionError::Gzip(e));
                }
            },
            Compression::ZLib => {
                if let Err(e) = zlib_decode_into(data, buf) {
                    return Err(CompressionError::ZLib(e));
                }
            },
            Compression::Uncompressed => {
                append_bytes(buf, data);
            },
            Compression::Lz4 => {
                if let Err(e) = lz4_decode_into(data, buf) {
                    return Err(CompressionError::LZ4(e));
                }
            },
            Compression::Custom((_, id)) => {
                if let Err(e) = custom_decompression.decompress(data, id.as_str(), buf) {
                    return Err(e);
                }
            },
        }
        Ok(())
    }
}

/// Appends the bytes of `s` to `v`.
pub(crate) fn append_bytes(v: &mut Vec<u8>, s: &[u8])
    ensures
        final(v)@ == old(v)@ + s@,
{
    let mut i: usize = 0;
    while i < s.len()
        invariant
            i <= s@.len(),
            v@ == old(v)@ + s@.subrange(0, i as int),
        decreases s@.len() - i,
    {
        v.push(s[i]);
        i = i + 1;
        assert(s@.subrange(0, i as int) =~= s@.subrange(0, i - 1).push(s@[i - 1]));
    }
    assert(s@.subrange(0, s@.len() as int) =~= s@);
}

} // verus!
