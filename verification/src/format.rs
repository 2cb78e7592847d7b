//! The region file format as mathematics: what a region's bytes say of a
//! chunk, and which bytes a list of packed chunks is written as.

use crate::compression::CompressionModel;
use crate::spec_header_offset;
use vstd::prelude::*;
use vstd::utf8::{decode_utf8, valid_utf8};

verus! {

/// The big-endian value of the two bytes at `p`.
pub open spec fn be16_at(d: Seq<u8>, p: int) -> int {
    d[p] as int * 0x100 + d[p + 1] as int
}

/// The big-endian value of the three bytes at `p`.
pub open spec fn be24_at(d: Seq<u8>, p: int) -> int {
    d[p] as int * 0x10000 + d[p + 1] as int * 0x100 + d[p + 2] as int
}

/// The big-endian value of the four bytes at `p`.
pub open spec fn be32_at(d: Seq<u8>, p: int) -> int {
    d[p] as int * 0x1000000 + d[p + 1] as int * 0x10000 + d[p + 2] as int * 0x100 + d[p
        + 3] as int
}

/// The two low bytes of `v`, big-endian.
pub open spec fn be16_bytes(v: int) -> Seq<u8> {
    seq![(v / 0x100 % 0x100) as u8, (v % 0x100) as u8]
}

/// The three low bytes of `v`, big-endian.
pub open spec fn be24_bytes(v: int) -> Seq<u8> {
    seq![(v / 0x10000 % 0x100) as u8, (v / 0x100 % 0x100) as u8, (v % 0x100) as u8]
}

/// The four low bytes of `v`, big-endian.
pub open spec fn be32_bytes(v: int) -> Seq<u8> {
    seq![
        (v / 0x1000000 % 0x100) as u8,
        (v / 0x10000 % 0x100) as u8,
        (v / 0x100 % 0x100) as u8,
        (v % 0x100) as u8,
    ]
}

/// `n` zero bytes.
pub open spec fn zeros(n: int) -> Seq<u8> {
    Seq::new(n as nat, |i: int| 0u8)
}

/// What a region's bytes say of one chunk: the cases of
/// `RegionReader::chunk_data`.
pub enum ChunkLookup {
    /// A coordinate is 32 or more.
    OutOfRegion,
    /// The location entry is all zeros: the chunk is not generated.
    Absent,
    /// The four byte data length lies outside the region.
    NoDataLen,
    /// The data that the length announces lies outside the region.
    ViewOutOfBounds,
    /// The announced data is empty.
    EmptyView,
    /// A custom compression byte whose two byte id length, or whose id,
    /// does not fit in the chunk data.
    ShortCustomHeader,
    /// A custom compression id that is not valid UTF-8.
    BadCustomId,
    /// The compressed payload and its compression.
    Present(Seq<u8>, CompressionModel),
}

/// The location entry of the chunk is not all zeros.
pub open spec fn has_location(d: Seq<u8>, x: u8, z: u8) -> bool {
    let o = spec_header_offset(x, z);
    !(d[o] == 0 && d[o + 1] == 0 && d[o + 2] == 0 && d[o + 3] == 0)
}

/// The byte offset where the chunk's payload starts: its sector number times
/// the sector size.
pub open spec fn payload_offset(d: Seq<u8>, x: u8, z: u8) -> int {
    be24_at(d, spec_header_offset(x, z)) * 4096
}

/// The announced length of the chunk's data (compression header and
/// compressed bytes).
pub open spec fn data_len(d: Seq<u8>, x: u8, z: u8) -> int {
    be32_at(d, payload_offset(d, x, z))
}

/// The chunk's data: compression header and compressed bytes.
pub open spec fn chunk_view(d: Seq<u8>, x: u8, z: u8) -> Seq<u8> {
    let p = payload_offset(d, x, z);
    d.subrange(p + 4, p + 4 + data_len(d, x, z))
}

/// What `RegionReader::chunk_data` finds for the chunk at `(x, z)`.
pub open spec fn lookup_chunk(d: Seq<u8>, x: u8, z: u8) -> ChunkLookup {
    let p = payload_offset(d, x, z);
    let n = data_len(d, x, z);
    let v = chunk_view(d, x, z);
    if x >= 32 || z >= 32 {
        ChunkLookup::OutOfRegion
    } else if !has_location(d, x, z) {
        ChunkLookup::Absent
    } else if p + 4 > d.len() {
        ChunkLookup::NoDataLen
    } else if p + 4 + n > d.len() {
        ChunkLookup::ViewOutOfBounds
    } else if n == 0 {
        ChunkLookup::EmptyView
    } else if v[0] >= 127 && (n < 3 || 3 + be16_at(v, 1) > n) {
        ChunkLookup::ShortCustomHeader
    } else if v[0] >= 127 {
        let k = be16_at(v, 1);
        let id = v.subrange(3, 3 + k);
        if !valid_utf8(id) {
            ChunkLookup::BadCustomId
        } else {
            ChunkLookup::Present(v.subrange(3 + k, n), CompressionModel::Custom(v[0], decode_utf8(id)))
        }
    } else {
        ChunkLookup::Present(v.subrange(1, n), CompressionModel::from_tag(v[0]))
    }
}

/// The timestamp entry of the chunk at `(x, z)`.
pub open spec fn chunk_timestamp(d: Seq<u8>, x: u8, z: u8) -> int {
    be32_at(d, 4096 + spec_header_offset(x, z))
}

/// The coordinate of the `i`th chunk in iteration order: `x` runs slowest.
pub open spec fn coordinate_at(i: int) -> (u8, u8) {
    ((i / 32) as u8, (i % 32) as u8)
}

/// The coordinates, in iteration order among the first `n`, of the chunks
/// that have a location entry.
pub open spec fn generated_upto(d: Seq<u8>, n: nat) -> Seq<(u8, u8)>
    decreases n,
{
    if n == 0 {
        Seq::empty()
    } else {
        let c = coordinate_at(n - 1);
        let before = generated_upto(d, (n - 1) as nat);
        if has_location(d, c.0, c.1) {
            before.push(c)
        } else {
            before
        }
    }
}

/// The coordinates of all chunks that have a location entry, in iteration
/// order.
pub open spec fn generated_list(d: Seq<u8>) -> Seq<(u8, u8)> {
    generated_upto(d, 1024)
}

/// A chunk as `RegionWriter::write_packed` writes it: compressed bytes,
/// compression, coordinate, sectors and an optional timestamp.
pub struct PackedModel {
    pub compressed: Seq<u8>,
    pub compression: CompressionModel,
    pub chunk: (u8, u8),
    pub sector_size: nat,
    pub timestamp: Option<u32>,
}

impl PackedModel {
    /// The length of the data field: compression header and compressed bytes.
    pub open spec fn data_len(self) -> int {
        self.compressed.len() + self.compression.header_len()
    }

    /// The bytes the chunk takes before padding, its length field included.
    pub open spec fn view_len(self) -> int {
        self.data_len() + 4
    }

    /// The zeros that pad the chunk to its sectors.
    pub open spec fn padding_len(self) -> int {
        if self.sector_size * 4096 > self.view_len() {
            self.sector_size * 4096 - self.view_len()
        } else {
            0
        }
    }

    /// Written before the custom id is checked: data length and compression byte.
    pub open spec fn payload_head(self) -> Seq<u8> {
        be32_bytes(self.data_len()) + seq![self.compression.tag()]
    }

    /// The custom id with its length, the compressed bytes and the padding.
    pub open spec fn payload_tail(self) -> Seq<u8> {
        let id = if self.compression.is_custom() {
            be16_bytes(self.compression.id_bytes().len() as int) + self.compression.id_bytes()
        } else {
            Seq::empty()
        };
        id + self.compressed + zeros(self.padding_len())
    }

    pub open spec fn payload(self) -> Seq<u8> {
        self.payload_head() + self.payload_tail()
    }

    /// A custom id longer than 255 bytes, which the format refuses.
    pub open spec fn id_too_big(self) -> bool {
        self.compression.is_custom() && self.compression.id_bytes().len() > 255
    }

    /// The sectors that the chunk's data needs, rounded up.
    pub open spec fn needed_sectors(self) -> int {
        (self.view_len() + 4095) / 4096
    }

    /// What writing the chunk demands: a data length that fits its four byte
    /// field and sizes that fit a `usize`, and at most one sector of
    /// padding.
    pub open spec fn writable(self) -> bool {
        &&& self.data_len() <= u32::MAX
        &&& self.view_len() <= usize::MAX
        &&& self.sector_size * 4096 <= usize::MAX
        &&& self.sector_size * 4096 <= self.view_len() + 4096
    }
}

/// The payloads of the chunks, one after another.
pub open spec fn payloads(ms: Seq<PackedModel>) -> Seq<u8>
    decreases ms.len(),
{
    if ms.len() == 0 {
        Seq::empty()
    } else {
        payloads(ms.drop_last()) + ms.last().payload()
    }
}

/// The sectors that the chunks take after the two header sectors.
pub open spec fn sectors_total(ms: Seq<PackedModel>) -> nat
    decreases ms.len(),
{
    if ms.len() == 0 {
        0
    } else {
        sectors_total(ms.drop_last()) + ms.last().sector_size
    }
}

/// The location table after the chunks: each chunk's entry holds the low
/// three bytes of its first sector and the low byte of its sector count;
/// later chunks overwrite earlier entries of the same coordinate.
pub open spec fn location_table(ms: Seq<PackedModel>) -> Seq<u8>
    decreases ms.len(),
{
    if ms.len() == 0 {
        zeros(4096)
    } else {
        let m = ms.last();
        let h = spec_header_offset(m.chunk.0, m.chunk.1);
        let s = (2 + sectors_total(ms.drop_last())) as int;
        let b = be24_bytes(s);
        location_table(ms.drop_last()).update(h, b[0]).update(h + 1, b[1]).update(h + 2, b[2]).update(
            h + 3,
            (m.sector_size % 256) as u8,
        )
    }
}

/// The timestamp a chunk is written with: its own, or `time`.
pub open spec fn stamp_of(m: PackedModel, time: u32) -> u32 {
    match m.timestamp {
        Some(t) => t,
        None => time,
    }
}

/// The timestamp table after the chunks.
pub open spec fn timestamp_table(ms: Seq<PackedModel>, time: u32) -> Seq<u8>
    decreases ms.len(),
{
    if ms.len() == 0 {
        zeros(4096)
    } else {
        let m = ms.last();
        let h = spec_header_offset(m.chunk.0, m.chunk.1);
        let b = be32_bytes(stamp_of(m, time) as int);
        timestamp_table(ms.drop_last(), time).update(h, b[0]).update(h + 1, b[1]).update(
            h + 2,
            b[2],
        ).update(h + 3, b[3])
    }
}

/// The index of the first chunk whose custom id is too long, if any.
pub open spec fn first_oversized(ms: Seq<PackedModel>) -> Option<int>
    decreases ms.len(),
{
    if ms.len() == 0 {
        None
    } else {
        match first_oversized(ms.drop_last()) {
            Some(i) => Some(i),
            None => if ms.last().id_too_big() {
                Some(ms.len() - 1)
            } else {
                None
            },
        }
    }
}

/// The bytes of a region holding the chunks, with `time` for the chunks
/// without a timestamp.
pub open spec fn region_bytes(ms: Seq<PackedModel>, time: u32) -> Seq<u8> {
    location_table(ms) + timestamp_table(ms, time) + payloads(ms)
}

/// The bytes written before the error when the `k`th chunk's id is too long.
pub open spec fn region_bytes_until(ms: Seq<PackedModel>, time: u32, k: int) -> Seq<u8> {
    location_table(ms) + timestamp_table(ms, time) + payloads(ms.take(k)) + ms[k].payload_head()
}

/// What `RegionWriter::write_packed` demands of the chunks: the sectors fit
/// a `usize`, and every chunk that writing reaches (none after a custom id
/// that is too long) fits the format's length fields with at most one
/// sector of padding.
pub open spec fn packable_until(ms: Seq<PackedModel>) -> bool {
    &&& forall|i: int|
        0 <= i < ms.len() && first_oversized(ms.take(i)) is None ==> #[trigger] ms[i].writable()
    &&& 2 + sectors_total(ms) <= usize::MAX
}

/// All chunks fit the format's length fields, with at most one sector of
/// padding, and the sectors fit a `usize`.
pub open spec fn packable(ms: Seq<PackedModel>) -> bool {
    &&& forall|i: int| 0 <= i < ms.len() ==> #[trigger] ms[i].writable()
    &&& 2 + sectors_total(ms) <= usize::MAX
}

} // verus!

verus! {

/// Taking one more chunk adds its sectors.
pub proof fn lemma_sectors_take(ms: Seq<PackedModel>, i: int)
    requires
        0 <= i < ms.len(),
    ensures
        sectors_total(ms.take(i + 1)) == sectors_total(ms.take(i)) + ms[i].sector_size,
{
    assert(ms.take(i + 1).drop_last() =~= ms.take(i));
}

/// The sectors of a prefix are at most those of all chunks.
pub proof fn lemma_sectors_prefix(ms: Seq<PackedModel>, k: int)
    requires
        0 <= k <= ms.len(),
    ensures
        sectors_total(ms.take(k)) <= sectors_total(ms),
    decreases ms.len(),
{
    if k < ms.len() {
        assert(ms.take(k) =~= ms.drop_last().take(k));
        lemma_sectors_prefix(ms.drop_last(), k);
    } else {
        assert(ms.take(k) =~= ms);
    }
}

/// Once a prefix has an oversized id, so does the whole list, at the same
/// index.
pub proof fn lemma_first_oversized_prefix(ms: Seq<PackedModel>, k: int)
    requires
        0 <= k <= ms.len(),
        first_oversized(ms.take(k)) is Some,
    ensures
        first_oversized(ms) == first_oversized(ms.take(k)),
    decreases ms.len(),
{
    if k < ms.len() {
        assert(ms.take(k) =~= ms.drop_last().take(k));
        lemma_first_oversized_prefix(ms.drop_last(), k);
    } else {
        assert(ms.take(k) =~= ms);
    }
}

} // verus!
