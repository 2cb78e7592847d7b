use crate::codec::{gzip_encode, gzip_encoded, invalid_data_error, lz4_encode, lz4_encoded, since_epoch, system_now, whole_seconds, zlib_encode, zlib_encoded};
use crate::compression::{Compression, CompressionModel};
use crate::custom_compression::{CustomCompression, CustomDecompression};
use crate::error::{CompressionError, McaError};
use crate::format::{
    first_oversized, location_table, packable, packable_until, payloads, region_bytes, region_bytes_until,
    sectors_total, timestamp_table, zeros, PackedModel, be16_bytes, be24_bytes, be32_bytes,
    stamp_of, lemma_first_oversized_prefix, lemma_sectors_prefix, lemma_sectors_take,
};
use crate::read::{append_bytes, vanilla_decoded, CompressedChunk, RegionReader};
use crate::{header_offset, spec_header_offset, REGION_SIZE, SECTOR_SIZE};
use std::borrow::Cow;
use vstd::prelude::*;
use vstd::std_specs::convert::IntoSpec;
use vstd::slice::slice_to_vec;
use vstd::utf8::encode_utf8;

verus! {

/// A chunk's data that is compressed, and the compression that was used.
#[derive(PartialEq, Eq, Debug)]
pub struct PendingCompressed<'d> {
    /// The compressed data
    pub buf: Cow<'d, [u8]>,
    /// Compression that was used to compress the buf
    pub compression: Compression,
}

/// A chunk's data that is uncompressed, alongside the compression to use.
#[derive(PartialEq, Eq, Debug)]
pub struct PendingUncompressed<'d> {
    /// The uncompressed data
    pub buf: Cow<'d, [u8]>,
    /// The compression format that should be used to compress the buffer
    pub compression: Compression,
}

/// A chunk's data that is either compressed or uncompressed.
#[derive(PartialEq, Eq, Debug)]
pub enum PendingData<'d> {
    /// A chunk's data in a compressed state
    Compressed(PendingCompressed<'d>),
    /// A chunk's data in an uncompressed state
    Uncompressed(PendingUncompressed<'d>),
}

/// A chunk in the state between being read or set and being written.
#[derive(PartialEq, Eq, Debug)]
pub struct WritableChunk<'d> {
    /// The chunk's data, either compressed or uncompressed; compressed data
    /// keeps its compression when written.
    pub data: PendingData<'d>,
    /// The chunk's region local coordinates.
    pub chunk: (u8, u8),
    /// A timestamp of when the chunk was updated last.
    pub timestamp: Option<u32>,
}

/// A chunk whose data is compressed, with how it should be written; the last
/// data structure used right before writing a region.
#[derive(Default, PartialEq, Eq, Debug)]
pub struct PackedChunk<'d> {
    /// The chunk's data in a compressed format
    pub compressed: Cow<'d, [u8]>,
    /// The format that was used to compress the chunk's data
    pub compression: Compression,
    /// The chunk's region local coordinates.
    pub chunk: (u8, u8),
    /// How many 4096 byte sectors the chunk data and its metadata take up in
    /// the region file; [`RegionWriter::sector_size`] computes it.
    pub sector_size: usize,
    /// The chunk's timestamp; the time of writing where it is `None`.
    pub timestamp: Option<u32>,
}

impl<'d> View for PackedChunk<'d> {
    type V = PackedModel;

    open spec fn view(&self) -> PackedModel {
        PackedModel {
            compressed: self.compressed@,
            compression: self.compression@,
            chunk: self.chunk,
            sector_size: self.sector_size as nat,
            timestamp: self.timestamp,
        }
    }
}

/// A copy of a `Cow` slice with the same bytes.
fn cow_copy<'y>(c: &Cow<'y, [u8]>) -> (r: Cow<'y, [u8]>)
    ensures
        r@ == c@,
{
    match c {
        Cow::Borrowed(b) => Cow::Borrowed(*b),
        Cow::Owned(v) => Cow::Owned(v.clone()),
    }
}

impl<'d> Clone for PendingCompressed<'d> {
    /// A copy with the same bytes and compression.
    fn clone(&self) -> (r: Self)
        ensures
            r.buf@ == self.buf@,
            r.compression@ == self.compression@,
    {
        PendingCompressed { buf: cow_copy(&self.buf), compression: self.compression.clone() }
    }
}

impl<'d> Clone for PendingUncompressed<'d> {
    /// A copy with the same bytes and compression.
    fn clone(&self) -> (r: Self)
        ensures
            r.buf@ == self.buf@,
            r.compression@ == self.compression@,
    {
        PendingUncompressed { buf: cow_copy(&self.buf), compression: self.compression.clone() }
    }
}

impl<'d> Clone for PendingData<'d> {
    /// A copy in the same state with the same bytes and compression.
    fn clone(&self) -> (r: Self)
        ensures
            pending_compression(r) == pending_compression(*self),
            r is Compressed <==> self is Compressed,
            pending_bytes(r) == pending_bytes(*self),
    {
        match self {
            PendingData::Compressed(c) => PendingData::Compressed(c.clone()),
            PendingData::Uncompressed(u) => PendingData::Uncompressed(u.clone()),
        }
    }
}

impl<'d> Clone for WritableChunk<'d> {
    /// A copy of the chunk.
    fn clone(&self) -> (r: Self)
        ensures
            r.chunk == self.chunk,
            r.timestamp == self.timestamp,
            pending_compression(r.data) == pending_compression(self.data),
            r.data is Compressed <==> self.data is Compressed,
            pending_bytes(r.data) == pending_bytes(self.data),
    {
        WritableChunk { data: self.data.clone(), chunk: self.chunk, timestamp: self.timestamp }
    }
}

impl<'d> Clone for PackedChunk<'d> {
    /// A copy of the chunk with the same value.
    fn clone(&self) -> (r: Self)
        ensures
            r@ == self@,
    {
        PackedChunk {
            compressed: cow_copy(&self.compressed),
            compression: self.compression.clone(),
            chunk: self.chunk,
            sector_size: self.sector_size,
            timestamp: self.timestamp,
        }
    }
}

/// Two writer entries hold the same chunk: both empty, or both with the
/// same coordinate, timestamp, state, compression and bytes.
pub open spec fn same_entry(a: Option<WritableChunk>, b: Option<WritableChunk>) -> bool {
    match (a, b) {
        (None, None) => true,
        (Some(x), Some(y)) => {
            &&& x.chunk == y.chunk
            &&& x.timestamp == y.timestamp
            &&& (x.data is Compressed <==> y.data is Compressed)
            &&& pending_compression(x.data) == pending_compression(y.data)
            &&& pending_bytes(x.data) == pending_bytes(y.data)
        },
        _ => false,
    }
}

/// The models of packed chunks.
pub open spec fn packed_models(cs: Seq<PackedChunk>) -> Seq<PackedModel> {
    cs.map_values(|c: PackedChunk| c@)
}

/// What `RegionWriter::write_packed_at` does with `time`: the whole region
/// and its length, or, where a custom id is too long, the bytes up to that
/// chunk's compression byte and the error.
pub open spec fn packed_write_outcome(
    ms: Seq<PackedModel>,
    time: u32,
    before: Seq<u8>,
    after: Seq<u8>,
    r: Result<usize, McaError>,
) -> bool {
    match first_oversized(ms) {
        None => r matches Ok(n) && after == before + region_bytes(ms, time) && n == region_bytes(
            ms,
            time,
        ).len(),
        Some(k) => {
            &&& r matches Err(McaError::Compression(CompressionError::CustomIdTooBig(id)))
            &&& ms[k].compression matches CompressionModel::Custom(_, cid)
            &&& r->Err_0->Compression_0->CustomIdTooBig_0@ == cid
            &&& after == before + region_bytes_until(ms, time, k)
        },
    }
}

/// The bytes the library compresses `data` into for a vanilla compression;
/// empty data stays empty; `None` for custom compressions.
pub open spec fn vanilla_encoded(data: Seq<u8>, c: CompressionModel) -> Option<Seq<u8>> {
    if data.len() == 0 {
        Some(Seq::empty())
    } else {
        match c {
            CompressionModel::Gzip => Some(gzip_encoded(data)),
            CompressionModel::ZLib => Some(zlib_encoded(data)),
            CompressionModel::Uncompressed => Some(data),
            CompressionModel::Lz4 => Some(lz4_encoded(data)),
            CompressionModel::Custom(_, _) => None,
        }
    }
}

/// The sectors that compressed data of `len` bytes needs with `c`.
pub open spec fn sectors_for(len: int, c: CompressionModel) -> nat {
    ((len + 4 + c.header_len() + 4095) / 4096) as nat
}

/// The compression a pending chunk's data is, or is to be, compressed with.
pub open spec fn pending_compression(p: PendingData) -> CompressionModel {
    match p {
        PendingData::Compressed(c) => c.compression@,
        PendingData::Uncompressed(u) => u.compression@,
    }
}

/// The bytes of a pending chunk's data, compressed or not.
pub open spec fn pending_bytes(p: PendingData) -> Seq<u8> {
    match p {
        PendingData::Compressed(c) => c.buf@,
        PendingData::Uncompressed(u) => u.buf@,
    }
}

/// How `RegionWriter::write` packs the chunk given its compressed bytes,
/// with the chunk's own timestamp (the time of writing where it has none).
pub open spec fn pending_model(w: WritableChunk, compressed: Seq<u8>) -> PackedModel {
    let c = pending_compression(w.data);
    PackedModel {
        compressed,
        compression: c,
        chunk: w.chunk,
        sector_size: sectors_for(compressed.len() as int, c),
        timestamp: w.timestamp,
    }
}

/// `m` is how the chunk is packed: its model with the packed bytes, which
/// `packs_bytes` describes.
pub open spec fn packs_entry(w: WritableChunk, m: PackedModel) -> bool {
    &&& m == pending_model(w, m.compressed)
    &&& packs_bytes(w, m.compressed)
}

/// `b` are the bytes the chunk is packed with: compressed data as it is;
/// uncompressed data compressed as the library does for vanilla
/// compressions, so that decoding gives the data back. For a custom
/// compression nothing is said here: `pack_outcome`, which takes the
/// custom compression, gives those bytes.
#[verifier::opaque]
pub open spec fn packs_bytes(w: WritableChunk, b: Seq<u8>) -> bool {
    match w.data {
        PendingData::Compressed(p) => b == p.buf@,
        PendingData::Uncompressed(u) => !(u.compression@ is Custom) ==> {
            &&& vanilla_encoded(u.buf@, u.compression@) == Some(b)
            &&& u.buf@.len() > 0 ==> vanilla_decoded(b, u.compression@) == Some(u.buf@)
        },
    }
}

/// `ms` packs the chunks among the first `n` entries, in entry order.
pub open spec fn packs_upto(entries: Seq<Option<WritableChunk>>, n: nat, ms: Seq<PackedModel>) -> bool
    decreases n,
{
    if n == 0 {
        ms.len() == 0
    } else {
        match entries[n - 1] {
            None => packs_upto(entries, (n - 1) as nat, ms),
            Some(w) => ms.len() > 0 && packs_upto(entries, (n - 1) as nat, ms.drop_last())
                && packs_entry(w, ms.last()),
        }
    }
}

/// What compressing `data` with `c` gives: empty data stays empty; a
/// vanilla compression the bytes the library compresses it into; a custom
/// one what `custom` gives for the data and the compression's id.
pub open spec fn encoded<C: CustomCompression>(custom: C, data: Seq<u8>, c: CompressionModel) -> Result<
    Seq<u8>,
    CompressionError,
> {
    if data.len() == 0 {
        Ok(Seq::empty())
    } else {
        match c {
            CompressionModel::Custom(_, id) => custom.compressed(data, id),
            _ => Ok(vanilla_encoded(data, c)->0),
        }
    }
}

/// The bytes that `RegionWriter::write` packs an entry's data with.
pub open spec fn entry_bytes<C: CustomCompression>(custom: C, w: WritableChunk) -> Result<
    Seq<u8>,
    CompressionError,
> {
    match w.data {
        PendingData::Compressed(p) => Ok(p.buf@),
        PendingData::Uncompressed(u) => encoded(custom, u.buf@, u.compression@),
    }
}

/// How packing the entries of a writer ends.
pub enum PackOutcome {
    /// Every chunk was packed, into these.
    Packed(Seq<PackedModel>),
    /// A custom compression failed with this error.
    Failed(CompressionError),
    /// A chunk does not fit the format's length fields, or the sectors do not
    /// fit a `usize`.
    Unfit,
}

/// Packing the first `n` entries in order, as `RegionWriter::write` does:
/// each chunk is compressed, then checked to fit; the first failure ends it.
pub open spec fn pack_outcome<C: CustomCompression>(
    entries: Seq<Option<WritableChunk>>,
    custom: C,
    n: nat,
) -> PackOutcome
    decreases n,
{
    if n == 0 {
        PackOutcome::Packed(Seq::empty())
    } else {
        match pack_outcome(entries, custom, (n - 1) as nat) {
            PackOutcome::Packed(ms) => match entries[n - 1] {
                None => PackOutcome::Packed(ms),
                Some(w) => match entry_bytes(custom, w) {
                    Err(e) => PackOutcome::Failed(e),
                    Ok(b) => {
                        let m = pending_model(w, b);
                        if !m.writable() || 2 + sectors_total(ms.push(m)) > usize::MAX {
                            PackOutcome::Unfit
                        } else {
                            PackOutcome::Packed(ms.push(m))
                        }
                    },
                },
            },
            other => other,
        }
    }
}

/// The entry index of the chunk at `(x, z)` in a [`RegionWriter`].
pub open spec fn chunk_index(x: u8, z: u8) -> int {
    x as int * 32 + z as int
}

/// The bytes of a `Cow` slice.
fn cow_bytes<'x, 'y>(c: &'x Cow<'y, [u8]>) -> (r: &'x [u8])
    ensures
        r@ == c@,
{
    match c {
        Cow::Borrowed(b) => b,
        Cow::Owned(v) => v.as_slice(),
    }
}

/// Appends the four big-endian bytes of `v`.
fn push_be32(out: &mut Vec<u8>, v: u32)
    ensures
        final(out)@ == old(out)@ + be32_bytes(v as int),
{
    out.push((v / 0x1000000 % 0x100) as u8);
    out.push((v / 0x10000 % 0x100) as u8);
    out.push((v / 0x100 % 0x100) as u8);
    out.push((v % 0x100) as u8);
    assert(final(out)@ =~= old(out)@ + be32_bytes(v as int));
}

/// Appends `n` zero bytes.
fn push_zeros(out: &mut Vec<u8>, n: usize)
    ensures
        final(out)@ == old(out)@ + zeros(n as int),
{
    let mut i: usize = 0;
    while i < n
        invariant
            i <= n,
            out@ == old(out)@ + zeros(i as int),
        decreases n - i,
    {
        out.push(0);
        i = i + 1;
        assert(zeros(i as int) =~= zeros(i - 1).push(0));
    }
}

impl<'p> PendingData<'p> {
    /// Creates a new [`PendingData`] whose buffer is **compressed**, with the
    /// format that was used.
    pub fn new_compressed<B: Into<Cow<'p, [u8]>>>(buf: B, compression: Compression) -> (r: Self)
        ensures
            r is Compressed,
            pending_compression(r) == compression@,
            <B as IntoSpec<Cow<'p, [u8]>>>::obeys_into_spec() ==> pending_bytes(r) == <B as IntoSpec<
                Cow<'p, [u8]>,
            >>::into_spec(buf)@,
    {
        Self::Compressed(PendingCompressed { buf: buf.into(), compression })
    }

    /// Creates a new [`PendingData`] whose buffer is **uncompressed**, with
    /// the format it should be compressed to later.
    pub fn new_uncompressed<B: Into<Cow<'p, [u8]>>>(buf: B, compression: Compression) -> (r: Self)
        ensures
            r is Uncompressed,
            pending_compression(r) == compression@,
            <B as IntoSpec<Cow<'p, [u8]>>>::obeys_into_spec() ==> pending_bytes(r) == <B as IntoSpec<
                Cow<'p, [u8]>,
            >>::into_spec(buf)@,
    {
        Self::Uncompressed(PendingUncompressed { buf: buf.into(), compression })
    }

    /// Returns the compression used, compressed or uncompressed.
    pub fn compression(&self) -> (r: &Compression)
        ensures
            r@ == pending_compression(*self),
    {
        match self {
            Self::Compressed(d) => &d.compression,
            Self::Uncompressed(d) => &d.compression,
        }
    }

    /// Returns a mutable reference to an owned, uncompressed variant of the
    /// chunk's data: compressed data is decompressed first, and borrowed
    /// bytes become owned.
    pub fn as_uncompressed_mut<D: CustomDecompression>(&mut self, custom_decompression: &D) -> (r: Result<
        &mut PendingUncompressed<'p>,
        McaError,
    >)
        ensures
            match *old(self) {
                PendingData::Uncompressed(u0) => r matches Ok(u) && u.buf@ == u0.buf@ && u.buf is Owned
                    && u.compression == u0.compression
                    && *final(self) == PendingData::Uncompressed(*final(u)),
                PendingData::Compressed(c0) => {
                    &&& r is Ok ==> (r matches Ok(u) && u.compression@ == c0.compression@ && u.buf is Owned
                        && *final(self) == PendingData::Uncompressed(*final(u)))
                    &&& r is Err ==> *final(self) == *old(self)
                    &&& c0.compression@ matches CompressionModel::Custom(_, id) ==> match custom_decompression.decompressed(c0.buf@, id) {
                        Ok(d) => r matches Ok(u) && u.buf@ == d,
                        Err(e) => r matches Err(McaError::Compression(e2)) && e2 == e,
                    }
                    &&& !(c0.compression@ is Custom) ==> match vanilla_decoded(c0.buf@, c0.compression@) {
                        Some(d) => r matches Ok(u) && u.buf@ == d,
                        None => r matches Err(McaError::Compression(e)) && match c0.compression@ {
                            CompressionModel::Gzip => e is Gzip,
                            CompressionModel::ZLib => e is ZLib,
                            _ => e is LZ4,
                        },
                    }
                },
            },
    {
        if let PendingData::Compressed(data) = self {
            let mut comp: Vec<u8> = Vec::new();
            let compression = data.compression.clone();
            if let Err(e) = RegionReader::decompress_data_ref(
                CompressedChunk::new(cow_bytes(&data.buf)),
                data.compression.clone(),
                &mut comp,
                custom_decompression,
            ) {
                return Err(McaError::Compression(e));
            }
            *self = PendingData::Uncompressed(PendingUncompressed { buf: Cow::Owned(comp), compression });
        }
        if let PendingData::Uncompressed(u) = self {
            if let Cow::Borrowed(b) = u.buf {
                u.buf = Cow::Owned(slice_to_vec(b));
            }
        }
        match self {
            PendingData::Uncompressed(buf) => Ok(buf),
            PendingData::Compressed(_) => {
                proof {
                    assert(false);
                }
                Err(McaError::MissingChunkData)
            },
        }
    }

    /// Compresses chunk data with the given compression; empty data stays
    /// empty.
    pub fn compress<C: CustomCompression>(data: &[u8], compression: &Compression, custom_compression: &C) -> (r: Result<
        Vec<u8>,
        McaError,
    >)
        ensures
            compress_outcome(data@, compression@, *custom_compression, r),
            data@.len() > 0 && !(compression@ is Custom) && r is Ok ==> vanilla_decoded(
                r->Ok_0@,
                compression@,
            ) == Some(data@),
    {
        if data.len() == 0 {
            return Ok(Vec::new());
        }
        match compression {
            Compression::Gzip => match gzip_encode(data) {
                Ok(v) => Ok(v),
                Err(e) => Err(McaError::WriteError(e)),
            },
            Compression::ZLib => match zlib_encode(data) {
                Ok(v) => Ok(v),
                Err(e) => Err(McaError::WriteError(e)),
            },
            Compression::Uncompressed => Ok(slice_to_vec(data)),
            Compression::Lz4 => match lz4_encode(data) {
                Ok(v) => Ok(v),
                Err(e) => Err(McaError::WriteError(e)),
            },
            Compression::Custom((_, id)) => {
                let mut buf: Vec<u8> = Vec::with_capacity(SECTOR_SIZE * 2);
                match custom_compression.compress(data, id.as_str(), &mut buf) {
                    Ok(()) => Ok(buf),
                    Err(e) => Err(McaError::Compression(e)),
                }
            },
        }
    }
}

/// `r` is what `PendingData::compress` gives: the bytes that `encoded`
/// gives, or the custom compression's error.
pub open spec fn compress_outcome<C: CustomCompression>(
    data: Seq<u8>,
    c: CompressionModel,
    custom: C,
    r: Result<Vec<u8>, McaError>,
) -> bool {
    match encoded(custom, data, c) {
        Ok(b) => r matches Ok(v) && v@ == b,
        Err(e) => r matches Err(McaError::Compression(e2)) && e2 == e,
    }
}

/// A writer that formats chunks into a region file.
#[derive(Debug)]
pub struct RegionWriter<'d, C: CustomCompression = ()> {
    chunks: Vec<Option<WritableChunk<'d>>>,
    changed_chunks: u16,
    custom_compression: C,
}

impl<'d> RegionWriter<'d, ()> {
    /// Creates a new [`RegionWriter`] with no custom compression specified.
    pub fn new() -> (r: Self)
        ensures
            r.well_formed(),
            r.entries() == Seq::new(1024, |i: int| None::<WritableChunk<'d>>),
            r.changed() == 0,
    {
        RegionWriter::new_with_compression(())
    }

    /// Calculates how many 4096 byte sectors a complete chunk data view is:
    /// data length, compression byte, custom compression id and compressed
    /// data, divided by 4096 and rounded up.
    pub fn sector_size(compressed_len: usize, compression: &Compression) -> (r: usize)
        requires
            compressed_len + 4 + compression@.header_len() <= usize::MAX,
        ensures
            r == sectors_for(compressed_len as int, compression@),
    {
        let len = Self::chunk_view_len(compressed_len, compression);
        if len % SECTOR_SIZE == 0 {
            len / SECTOR_SIZE
        } else {
            len / SECTOR_SIZE + 1
        }
    }

    /// Calculates how many bytes a complete chunk data view is: data length
    /// (4), compression (1, or 1 and a prefixed id) and compressed data.
    pub fn chunk_view_len(compressed_len: usize, compression: &Compression) -> (r: usize)
        requires
            compressed_len + 4 + compression@.header_len() <= usize::MAX,
        ensures
            r == compressed_len + 4 + compression@.header_len(),
    {
        compressed_len + 4 + compression.size()
    }

    /// Writes a list of [`PackedChunk`]s as a region onto `writer`, with the
    /// current time for the chunks without a timestamp. Returns how many
    /// bytes were written.
    pub fn write_packed(writer: &mut Vec<u8>, chunks: Vec<PackedChunk>) -> (r: Result<usize, McaError>)
        requires
            packable_until(packed_models(chunks@)),
        ensures
            exists|t: u32|
                clock_reading(t) && #[trigger] packed_write_outcome(
                    packed_models(chunks@),
                    t,
                    old(writer)@,
                    final(writer)@,
                    r,
                ),
    {
        let time = current_timestamp();
        let r = Self::write_packed_at(writer, chunks, time);
        assert(clock_reading(time));
        assert(packed_write_outcome(packed_models(chunks@), time, old(writer)@, writer@, r));
        r
    }

    /// Writes a list of [`PackedChunk`]s as a region onto `writer`, with
    /// `time` for the chunks without a timestamp. Returns how many bytes were
    /// written.
    pub fn write_packed_at(writer: &mut Vec<u8>, chunks: Vec<PackedChunk>, time: u32) -> (r: Result<usize, McaError>)
        requires
            packable_until(packed_models(chunks@)),
        ensures
            packed_write_outcome(packed_models(chunks@), time, old(writer)@, final(writer)@, r),
    {
        let ghost ms = packed_models(chunks@);
        let start = writer.len();
        let mut locations: Vec<u8> = vec![0u8; SECTOR_SIZE];
        let mut timestamps: Vec<u8> = vec![0u8; SECTOR_SIZE];
        proof {
            assert(locations@ =~= zeros(4096));
            assert(timestamps@ =~= zeros(4096));
            assert(ms.take(0) =~= Seq::<PackedModel>::empty());
        }
        let mut sectors: usize = 2;
        let mut i: usize = 0;
        while i < chunks.len()
            invariant
                ms == packed_models(chunks@),
                packable_until(ms),
                i <= chunks@.len(),
                locations@ == location_table(ms.take(i as int)),
                timestamps@ == timestamp_table(ms.take(i as int), time),
                locations@.len() == 4096,
                timestamps@.len() == 4096,
                sectors == 2 + sectors_total(ms.take(i as int)),
            decreases chunks@.len() - i,
        {
            let chunk = &chunks[i];
            let (x, z) = chunk.chunk;
            let h = header_offset(x, z);
            proof {
                lemma_sectors_take(ms, i as int);
                lemma_sectors_prefix(ms, i + 1);
                assert(ms.take(i + 1).drop_last() =~= ms.take(i as int));
                assert(ms[i as int] == chunk@);
            }
            locations.set(h, (sectors / 0x10000 % 0x100) as u8);
            locations.set(h + 1, (sectors / 0x100 % 0x100) as u8);
            locations.set(h + 2, (sectors % 0x100) as u8);
            locations.set(h + 3, (chunk.sector_size % 0x100) as u8);
            let stamp: u32 = match chunk.timestamp {
                Some(t) => t,
                None => time,
            };
            timestamps.set(h, (stamp / 0x1000000 % 0x100) as u8);
            timestamps.set(h + 1, (stamp / 0x10000 % 0x100) as u8);
            timestamps.set(h + 2, (stamp / 0x100 % 0x100) as u8);
            timestamps.set(h + 3, (stamp % 0x100) as u8);
            sectors = sectors + chunk.sector_size;
            i = i + 1;
        }
        proof {
            assert(ms.take(chunks@.len() as int) =~= ms);
        }
        append_bytes(writer, locations.as_slice());
        append_bytes(writer, timestamps.as_slice());
        let ghost tables = writer@;
        proof {
            assert(ms.take(0) =~= Seq::<PackedModel>::empty());
            assert(tables == old(writer)@ + location_table(ms) + timestamp_table(ms, time) + payloads(ms.take(0)));
        }
        let mut i: usize = 0;
        while i < chunks.len()
            invariant
                ms == packed_models(chunks@),
                packable_until(ms),
                i <= chunks@.len(),
                first_oversized(ms.take(i as int)) is None,
                writer@ == old(writer)@ + location_table(ms) + timestamp_table(ms, time) + payloads(ms.take(i as int)),
            decreases chunks@.len() - i,
        {
            let ghost m = ms[i as int];
            proof {
                assert(ms.take(i + 1).drop_last() =~= ms.take(i as int));
                assert(ms.take(i + 1).last() == m);
                assert(m == chunks@[i as int]@);
                assert(m.writable());
            }
            let ghost before = writer@;
            let written = write_payload(writer, &chunks[i]);
            if let Err(e) = written {
                proof {
                    assert(first_oversized(ms.take(i + 1)) == Some(i as int));
                    lemma_first_oversized_prefix(ms, i + 1);
                    assert(writer@ =~= old(writer)@ + region_bytes_until(ms, time, i as int));
                    assert(packed_write_outcome(ms, time, old(writer)@, writer@, Err(e)));
                }
                return Err(e);
            }
            proof {
                assert(payloads(ms.take(i + 1)) == payloads(ms.take(i as int)) + m.payload());
                assert(writer@ =~= old(writer)@ + location_table(ms) + timestamp_table(ms, time) + payloads(ms.take(i + 1)));
                assert(first_oversized(ms.take(i + 1)) is None);
            }
            i = i + 1;
        }
        proof {
            assert(ms.take(chunks@.len() as int) =~= ms);
            assert(writer@ =~= old(writer)@ + region_bytes(ms, time));
        }
        Ok(writer.len() - start)
    }
}

impl<'c, C: CustomCompression> RegionWriter<'c, C> {
    /// There is an entry for every chunk of the region.
    pub open spec fn well_formed(&self) -> bool {
        self.entries().len() == 1024
    }

    /// The chunk entries, the chunk at `(x, z)` at `chunk_index(x, z)`.
    pub closed spec fn entries(&self) -> Seq<Option<WritableChunk<'c>>> {
        self.chunks@
    }

    /// How many chunks were set, minus those cleared.
    pub closed spec fn changed(&self) -> u16 {
        self.changed_chunks
    }

    /// The custom compression used when writing chunks.
    pub closed spec fn custom(&self) -> C {
        self.custom_compression
    }

    /// Creates a new [`RegionWriter`] with a specified custom compression to
    /// use when writing chunks.
    pub fn new_with_compression(custom_compression: C) -> (r: Self)
        ensures
            r.entries() == Seq::new(1024, |i: int| None::<WritableChunk<'c>>),
            r.well_formed(),
            r.changed() == 0,
            r.custom() == custom_compression,
    {
        let mut chunks: Vec<Option<WritableChunk<'c>>> = Vec::with_capacity(REGION_SIZE * REGION_SIZE);
        let mut i: usize = 0;
        while i < REGION_SIZE * REGION_SIZE
            invariant
                i <= 1024,
                chunks@ == Seq::new(i as nat, |j: int| None::<WritableChunk<'c>>),
            decreases 1024 - i,
        {
            chunks.push(None);
            i = i + 1;
            assert(chunks@ =~= Seq::new(i as nat, |j: int| None::<WritableChunk<'c>>));
        }
        Self { chunks, changed_chunks: 0, custom_compression }
    }

    /// How many chunks were set, minus those cleared.
    pub fn changed_chunks(&self) -> (r: u16)
        ensures
            r == self.changed(),
    {
        self.changed_chunks
    }

    /// Returns a reference to the entry of the chunk at `(x, z)`.
    ///
    /// Fails for coordinates outside of the region (32 or more).
    pub fn chunk(&self, x: u8, z: u8) -> (r: Result<&Option<WritableChunk<'c>>, McaError>)
        requires
            self.well_formed(),
        ensures
            (x < 32 && z < 32) ==> (r matches Ok(e) && *e == self.entries()[chunk_index(x, z)]),
            (x >= 32 || z >= 32) ==> (r matches Err(McaError::InvalidChunkPosition(a, b)) && a == x && b == z),
    {
        if x >= REGION_SIZE as u8 || z >= REGION_SIZE as u8 {
            return Err(McaError::InvalidChunkPosition(x, z));
        }
        Ok(&self.chunks[x as usize * REGION_SIZE + z as usize])
    }

    /// Returns a mutable reference to the entry of the chunk at `(x, z)`.
    ///
    /// Fails for coordinates outside of the region (32 or more).
    pub fn chunk_mut(&mut self, x: u8, z: u8) -> (r: Result<&mut Option<WritableChunk<'c>>, McaError>)
        requires
            old(self).well_formed(),
        ensures
            final(self).well_formed(),
            final(self).custom() == old(self).custom(),
            final(self).changed() == old(self).changed(),
            (x < 32 && z < 32) ==> (r matches Ok(e) && *e == old(self).entries()[chunk_index(x, z)]
                && final(self).entries() == old(self).entries().update(chunk_index(x, z), *final(e))),
            (x >= 32 || z >= 32) ==> (r matches Err(McaError::InvalidChunkPosition(a, b)) && a == x && b == z
                && final(self).entries() == old(self).entries()),
    {
        if x >= REGION_SIZE as u8 || z >= REGION_SIZE as u8 {
            return Err(McaError::InvalidChunkPosition(x, z));
        }
        Ok(&mut self.chunks[x as usize * REGION_SIZE + z as usize])
    }

    /// Set the data of a specific chunk along side its compression; the
    /// chunk's timestamp is the time of the call. The count of changed
    /// chunks goes up by one, and stays at its maximum once there.
    pub fn set_chunk(&mut self, x: u8, z: u8, data: Vec<u8>, compression: Compression) -> (r: Result<(), McaError>)
        requires
            old(self).well_formed(),
        ensures
            final(self).well_formed(),
            final(self).custom() == old(self).custom(),
            (x >= 32 || z >= 32) ==> (r matches Err(McaError::InvalidChunkPosition(a, b)) && a == x && b == z
                && final(self).entries() == old(self).entries() && final(self).changed() == old(self).changed()),
            (x < 32 && z < 32) ==> {
                &&& r is Ok
                &&& final(self).changed() == if old(self).changed() < u16::MAX { old(self).changed() + 1 } else { u16::MAX as int }
                &&& final(self).entries() == old(self).entries().update(
                    chunk_index(x, z),
                    final(self).entries()[chunk_index(x, z)],
                )
                &&& final(self).entries()[chunk_index(x, z)] matches Some(w)
                &&& w.data matches PendingData::Uncompressed(u)
                &&& u.buf@ == data@
                &&& u.compression@ == compression@
                &&& w.chunk == (x, z)
                &&& w.timestamp matches Some(ts) && clock_reading(ts)
            },
    {
        if x >= REGION_SIZE as u8 || z >= REGION_SIZE as u8 {
            return Err(McaError::InvalidChunkPosition(x, z));
        }
        let i = x as usize * REGION_SIZE + z as usize;
        let stamp = current_timestamp();
        assert(clock_reading(stamp));
        let entry = WritableChunk {
            data: PendingData::Uncompressed(PendingUncompressed { buf: Cow::Owned(data), compression }),
            chunk: (x, z),
            timestamp: Some(stamp),
        };
        self.chunks.set(i, Some(entry));
        self.changed_chunks = self.changed_chunks.saturating_add(1);
        Ok(())
    }

    /// Marks this chunk as empty, so that it is not written; the count of
    /// changed chunks goes down by one, and stays at 0 once there.
    pub fn clear_chunk(&mut self, x: u8, z: u8) -> (r: Result<(), McaError>)
        requires
            old(self).well_formed(),
        ensures
            final(self).well_formed(),
            final(self).custom() == old(self).custom(),
            (x >= 32 || z >= 32) ==> (r matches Err(McaError::InvalidChunkPosition(a, b)) && a == x && b == z
                && final(self).entries() == old(self).entries() && final(self).changed() == old(self).changed()),
            (x < 32 && z < 32) ==> {
                &&& r is Ok
                &&& final(self).changed() == if old(self).changed() > 0 { old(self).changed() - 1 } else { 0 }
                &&& final(self).entries() == old(self).entries().update(chunk_index(x, z), None)
            },
    {
        if x >= REGION_SIZE as u8 || z >= REGION_SIZE as u8 {
            return Err(McaError::InvalidChunkPosition(x, z));
        }
        let i = x as usize * REGION_SIZE + z as usize;
        self.chunks.set(i, None);
        self.changed_chunks = self.changed_chunks.saturating_sub(1);
        Ok(())
    }
}

impl<'d> Default for RegionWriter<'d, ()> {
    /// A writer with no chunks and no custom compression.
    fn default() -> (r: Self)
        ensures
            r.well_formed(),
            r.entries() == Seq::new(1024, |i: int| None::<WritableChunk<'d>>),
            r.changed() == 0,
    {
        Self::new()
    }
}

impl<'c, C: CustomCompression + Clone> Clone for RegionWriter<'c, C> {
    /// A writer with copies of the chunks and of the custom compression.
    fn clone(&self) -> (r: Self)
        ensures
            r.entries().len() == self.entries().len(),
            forall|i: int| 0 <= i < self.entries().len() ==> same_entry(#[trigger] r.entries()[i], self.entries()[i]),
            r.changed() == self.changed(),
            self.well_formed() ==> r.well_formed(),
    {
        let mut chunks: Vec<Option<WritableChunk<'c>>> = Vec::with_capacity(self.chunks.len());
        let mut i: usize = 0;
        while i < self.chunks.len()
            invariant
                i <= self.chunks@.len(),
                chunks@.len() == i,
                forall|j: int| 0 <= j < i ==> same_entry(#[trigger] chunks@[j], self.chunks@[j]),
            decreases self.chunks@.len() - i,
        {
            let e = match &self.chunks[i] {
                Some(c) => Some(c.clone()),
                None => None,
            };
            chunks.push(e);
            i = i + 1;
        }
        RegionWriter {
            chunks,
            changed_chunks: self.changed_chunks,
            custom_compression: self.custom_compression.clone(),
        }
    }
}

impl<'c, C: CustomCompression> RegionWriter<'c, C> {
    /// Writes the chunks to `writer` as a region: compressed chunks as they
    /// are, uncompressed ones compressed with their compression; returns how
    /// many bytes were written.
    ///
    /// Fails where a compression fails, where a chunk does not fit the
    /// format's length fields, and where a custom id is longer than 255
    /// bytes.
    #[verifier::spinoff_prover]
    #[verifier::rlimit(40)]
    pub fn write(self, writer: &mut Vec<u8>) -> (r: Result<usize, McaError>)
        requires
            self.well_formed(),
        ensures
            r is Ok ==> exists|ms: Seq<PackedModel>, t: u32|
                clock_reading(t) && #[trigger] region_written(self.entries(), ms, t, old(writer)@, final(writer)@, r),
            pack_outcome(self.entries(), self.custom(), 1024) matches PackOutcome::Failed(e) ==> {
                &&& r matches Err(McaError::Compression(e2)) && e2 == e
                &&& final(writer)@ == old(writer)@
            },
            pack_outcome(self.entries(), self.custom(), 1024) is Unfit ==> {
                &&& r matches Err(McaError::WriteError(_))
                &&& final(writer)@ == old(writer)@
            },
            pack_outcome(self.entries(), self.custom(), 1024) matches PackOutcome::Packed(ms) ==> {
                &&& packable(ms)
                &&& packs_upto(self.entries(), 1024, ms)
                &&& first_oversized(ms) is None ==> r is Ok && exists|t: u32|
                    clock_reading(t) && #[trigger] region_written(self.entries(), ms, t, old(writer)@, final(writer)@, r)
                &&& first_oversized(ms) is Some ==> {
                    &&& r matches Err(McaError::Compression(CompressionError::CustomIdTooBig(id)))
                    &&& ms[first_oversized(ms)->0].compression matches CompressionModel::Custom(_, cid)
                    &&& r->Err_0->Compression_0->CustomIdTooBig_0@ == cid
                    &&& old(writer)@.is_prefix_of(final(writer)@)
                }
            },
    {
        let ghost orig = self.entries();
        let ghost custom = self.custom();
        let RegionWriter { chunks, changed_chunks: _, custom_compression } = self;
        let mut entries = chunks;
        let mut packed: Vec<PackedChunk<'c>> = Vec::new();
        let mut sectors: usize = 2;
        let mut i: usize = 0;
        assert(packed_models(packed@) =~= Seq::<PackedModel>::empty());
        while i < REGION_SIZE * REGION_SIZE
            invariant
                i <= 1024,
                entries@.len() == 1024,
                orig == self.entries(),
                custom == custom_compression,
                custom == self.custom(),
                orig.len() == 1024,
                forall|j: int| i <= j < 1024 ==> #[trigger] entries@[j] == orig[j],
                packs_upto(orig, i as nat, packed_models(packed@)),
                forall|j: int| 0 <= j < packed@.len() ==> #[trigger] packed_models(packed@)[j].writable(),
                sectors == 2 + sectors_total(packed_models(packed@)),
                pack_outcome(orig, custom, i as nat) == PackOutcome::Packed(packed_models(packed@)),
            decreases 1024 - i,
        {
            let ghost ms0 = packed_models(packed@);
            let entry = entries[i].take();
            assert(entry == orig[i as int]);
            match entry {
                None => {
                    assert(packs_upto(orig, (i + 1) as nat, ms0));
                },
                Some(chunk) => {
                    let ghost w = chunk;
                    let timestamp = chunk.timestamp;
                    let (compressed, compression) = match chunk.data {
                        PendingData::Compressed(data) => (data.buf, data.compression),
                        PendingData::Uncompressed(data) => {
                            let c = match PendingData::compress(cow_bytes(&data.buf), &data.compression, &custom_compression) {
                                Ok(c) => c,
                                Err(e) => {
                                    proof {
                                        assert(orig[i as int] == Some(w));
                                        assert(entry_bytes(custom, w) is Err);
                                        assert(pack_outcome(orig, custom, (i + 1) as nat) == PackOutcome::Failed(
                                            entry_bytes(custom, w)->Err_0,
                                        ));
                                        lemma_outcome_stays(orig, custom, (i + 1) as nat, 1024);
                                    }
                                    return Err(e);
                                },
                            };
                            (Cow::Owned(c), data.compression)
                        },
                    };
                    let ghost m_compressed: Seq<u8> = compressed@;
                    assert(entry_bytes(custom, w) == Ok::<Seq<u8>, CompressionError>(m_compressed));
                    let fits = packed_fits(cow_bytes(&compressed), &compression);
                    let sector_size = match fits {
                        Some(s) => s,
                        None => {
                            proof {
                                assert(orig[i as int] == Some(w));
                                assert(!pending_model(w, m_compressed).writable());
                                assert(pack_outcome(orig, custom, (i + 1) as nat) is Unfit);
                                lemma_outcome_stays(orig, custom, (i + 1) as nat, 1024);
                            }
                            return Err(McaError::WriteError(invalid_data_error()));
                        },
                    };
                    let pc = PackedChunk { compressed, compression, chunk: chunk.chunk, sector_size, timestamp };
                    assert(pc@ == pending_model(w, m_compressed));
                    proof {
                        lemma_sectors_push(ms0, pc@);
                    }
                    if sector_size > usize::MAX - sectors {
                        proof {
                            assert(orig[i as int] == Some(w));
                            assert(pack_outcome(orig, custom, (i + 1) as nat) is Unfit);
                            lemma_outcome_stays(orig, custom, (i + 1) as nat, 1024);
                        }
                        return Err(McaError::WriteError(invalid_data_error()));
                    }
                    sectors = sectors + sector_size;
                    packed.push(pc);
                    proof {
                        reveal(packs_bytes);
                    }
                    assert(packed_models(packed@) =~= ms0.push(pc@));
                    assert(packed_models(packed@).drop_last() =~= ms0);
                },
            }
            i = i + 1;
        }
        proof {
            assert(packable(packed_models(packed@)));
        }
        let ghost ms = packed_models(packed@);
        let r = RegionWriter::write_packed(writer, packed);
        proof {
            let t = choose|t: u32| clock_reading(t) && #[trigger] packed_write_outcome(ms, t, old(writer)@, writer@, r);
            if r is Ok {
                assert(region_written(orig, ms, t, old(writer)@, writer@, r));
            } else {
                let k = first_oversized(ms)->0;
                assert(old(writer)@.is_prefix_of(old(writer)@ + region_bytes_until(ms, t, k)));
            }
        }
        r
    }
}

/// `after` is `before` with a region holding `ms`, the packed chunks of
/// `entries`, with `t` for the chunks without a timestamp; `r` is its
/// length.
pub open spec fn region_written(
    entries: Seq<Option<WritableChunk>>,
    ms: Seq<PackedModel>,
    t: u32,
    before: Seq<u8>,
    after: Seq<u8>,
    r: Result<usize, McaError>,
) -> bool {
    &&& packs_upto(entries, 1024, ms)
    &&& packable(ms)
    &&& first_oversized(ms) is None
    &&& after == before + region_bytes(ms, t)
    &&& r matches Ok(n) && n == region_bytes(ms, t).len()
}

/// The sectors a chunk with these compressed bytes takes, where it fits the
/// format's length fields and its sectors fit a `usize` in bytes.
fn packed_fits(compressed: &[u8], compression: &Compression) -> (r: Option<usize>)
    ensures
        ({
            let m = PackedModel {
                compressed: compressed@,
                compression: compression@,
                chunk: (0, 0),
                sector_size: sectors_for(compressed@.len() as int, compression@),
                timestamp: None,
            };
            match r {
                Some(s) => s == m.sector_size && m.writable(),
                None => !m.writable(),
            }
        }),
{
    let header: usize = match compression {
        Compression::Custom((_, id)) => {
            let l = id.as_str().as_bytes().len();
            assert(l == encode_utf8(id@).len());
            if l > usize::MAX - 3 {
                return None;
            }
            3 + l
        },
        _ => 1,
    };
    assert(header == compression@.header_len());
    let len = compressed.len();
    if len > 0xFFFF_FFFF || header > 0xFFFF_FFFF - len {
        return None;
    }
    if len + header > usize::MAX - 4 {
        return None;
    }
    let sectors = RegionWriter::sector_size(len, compression);
    if sectors > usize::MAX / SECTOR_SIZE {
        return None;
    }
    Some(sectors)
}

/// Adding a chunk adds its sectors.
proof fn lemma_sectors_push(ms: Seq<PackedModel>, m: PackedModel)
    ensures
        sectors_total(ms.push(m)) == sectors_total(ms) + m.sector_size,
{
    assert(ms.push(m).drop_last() =~= ms);
}

/// Packing entries that are all empty packs nothing.
pub proof fn lemma_pack_empty<C: CustomCompression>(entries: Seq<Option<WritableChunk>>, custom: C, n: nat)
    requires
        forall|j: int| 0 <= j < n ==> #[trigger] entries[j] is None,
    ensures
        pack_outcome(entries, custom, n) == PackOutcome::Packed(Seq::<PackedModel>::empty()),
    decreases n,
{
    if n > 0 {
        lemma_pack_empty(entries, custom, (n - 1) as nat);
    }
}

/// Once packing fails, it stays failed the same way for every longer prefix:
/// the first failure, in entry order, is what `RegionWriter::write` reports.
pub proof fn lemma_outcome_stays<C: CustomCompression>(
    entries: Seq<Option<WritableChunk>>,
    custom: C,
    k: nat,
    n: nat,
)
    requires
        k <= n,
        !(pack_outcome(entries, custom, k) is Packed),
    ensures
        pack_outcome(entries, custom, n) == pack_outcome(entries, custom, k),
    decreases n - k,
{
    if k < n {
        lemma_outcome_stays(entries, custom, k, (n - 1) as nat);
    }
}

/// Appends the payload of one chunk: data length, compression byte, custom
/// id, compressed bytes and padding; stops after the compression byte with
/// an error where the custom id is longer than 255 bytes.
fn write_payload(writer: &mut Vec<u8>, chunk: &PackedChunk) -> (r: Result<(), McaError>)
    requires
        chunk@.writable(),
    ensures
        !chunk@.id_too_big() ==> (r is Ok && final(writer)@ == old(writer)@ + chunk@.payload()),
        chunk@.id_too_big() ==> {
            &&& final(writer)@ == old(writer)@ + chunk@.payload_head()
            &&& r matches Err(McaError::Compression(CompressionError::CustomIdTooBig(id)))
            &&& chunk@.compression matches CompressionModel::Custom(_, cid)
            &&& r->Err_0->Compression_0->CustomIdTooBig_0@ == cid
        },
{
    let ghost m = chunk@;
    let compressed = cow_bytes(&chunk.compressed);
    let data_len: u32 = (compressed.len() + chunk.compression.size()) as u32;
    push_be32(writer, data_len);
    writer.push(chunk.compression.to_u8());
    assert(writer@ =~= old(writer)@ + m.payload_head());
    let ghost head = writer@;
    if let Compression::Custom((_, id)) = &chunk.compression {
        let buf = id.as_str().as_bytes();
        if buf.len() > 255 {
            return Err(McaError::Compression(CompressionError::CustomIdTooBig(id.clone())));
        }
        writer.push(0);
        writer.push(buf.len() as u8);
        append_bytes(writer, buf);
        assert(writer@ =~= head + be16_bytes(m.compression.id_bytes().len() as int) + m.compression.id_bytes());
    } else {
        assert(writer@ =~= head + Seq::<u8>::empty());
    }
    let ghost with_id = writer@;
    append_bytes(writer, compressed);
    let len = RegionWriter::chunk_view_len(compressed.len(), &chunk.compression);
    let padded_size = (chunk.sector_size * SECTOR_SIZE).saturating_sub(len);
    push_zeros(writer, padded_size);
    proof {
        assert(writer@ =~= old(writer)@ + m.payload());
    }
    Ok(())
}

/// The seconds that a timestamp carries for a clock reading of `seconds`
/// since the epoch (`None` before it): the reading modulo 2^32, or 0.
pub open spec fn stamp_seconds(seconds: Option<u64>) -> u32 {
    match seconds {
        Some(s) => (s % 0x1_0000_0000) as u32,
        None => 0,
    }
}

/// The timestamp for a clock reading of `seconds` since the epoch (`None`
/// before it): the reading modulo 2^32, or 0.
pub fn timestamp_from_seconds(seconds: Option<u64>) -> (r: u32)
    ensures
        r == stamp_seconds(seconds),
{
    match seconds {
        Some(s) => (s % 0x1_0000_0000) as u32,
        None => 0,
    }
}

/// `t` is a time that `current_timestamp` can give: a reading of the clock.
pub open spec fn clock_reading(t: u32) -> bool {
    call_ensures(current_timestamp, (), t)
}

/// Gets the current time in unix epoch seconds; a clock before the epoch
/// reads as 0. The value depends on
/// the clock alone; `timestamp_from_seconds` states how it follows from the
/// clock's reading.
pub fn current_timestamp() -> u32 {
    let now = system_now();
    let seconds: Option<u64> = match since_epoch(&now) {
        Ok(d) => Some(whole_seconds(&d)),
        Err(_) => None,
    };
    timestamp_from_seconds(seconds)
}

} // verus!
