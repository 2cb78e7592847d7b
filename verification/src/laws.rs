//! What holds of the library as a whole: a region written from packed
//! chunks reads back as those chunks.

use crate::compression::CompressionModel;
use crate::format::{
    be16_at, be16_bytes, be24_at, be24_bytes, be32_at, be32_bytes, chunk_timestamp, has_location,
    location_table, lookup_chunk, payloads, region_bytes, sectors_total, stamp_of,
    timestamp_table, zeros, ChunkLookup, PackedModel, packable, first_oversized, chunk_view,
    data_len, payload_offset,
    lemma_sectors_prefix,
};
use crate::error::McaError;
use crate::format::{coordinate_at, generated_list, generated_upto};
use crate::custom_compression::CustomDecompression;
use crate::iter::{next_chunk_outcome, AvailableChunk};
use crate::codec::{gzip_decoded, gzip_encoded, lz4_decoded, lz4_encoded, zlib_decoded, zlib_encoded};
use crate::custom_compression::CustomCompression;
use crate::error::CompressionError;
use crate::read::{chunk_outcome, decoded_outcome, decompress_outcome, reads_into, vanilla_decoded};
use crate::write::compress_outcome;
use crate::spec_header_offset;
use crate::write::{
    chunk_index, packs_bytes, packs_entry, packs_upto, pending_bytes, pending_compression, region_written,
    vanilla_encoded, PendingData, WritableChunk,
};
use vstd::prelude::*;
use vstd::utf8::{decode_utf8, valid_utf8};

verus! {

/// Three big-endian bytes give back a value below 2^24.
pub proof fn lemma_be24_roundtrip(s: int)
    requires
        0 <= s < 0x1000000,
    ensures
        be24_at(be24_bytes(s), 0) == s,
{
    let b = be24_bytes(s);
    assert(b[0] as int == s / 0x10000) by (nonlinear_arith)
        requires 0 <= s < 0x1000000, b[0] as int == (s / 0x10000 % 0x100);
    assert(b[1] as int == s / 0x100 % 0x100);
    assert(b[2] as int == s % 0x100);
    assert((s / 0x10000) * 0x10000 + (s / 0x100 % 0x100) * 0x100 + s % 0x100 == s) by (nonlinear_arith)
        requires 0 <= s;
}

/// Four big-endian bytes give back a `u32`.
pub proof fn lemma_be32_roundtrip(v: int)
    requires
        0 <= v <= u32::MAX,
    ensures
        be32_at(be32_bytes(v), 0) == v,
{
    let b = be32_bytes(v);
    assert(b[0] as int == v / 0x1000000) by (nonlinear_arith)
        requires 0 <= v <= u32::MAX, b[0] as int == (v / 0x1000000 % 0x100);
    assert((v / 0x1000000) * 0x1000000 + (v / 0x10000 % 0x100) * 0x10000 + (v / 0x100 % 0x100) * 0x100 + v % 0x100 == v) by (nonlinear_arith)
        requires 0 <= v;
}

/// Two big-endian bytes give back a value below 2^16.
pub proof fn lemma_be16_roundtrip(v: int)
    requires
        0 <= v < 0x10000,
    ensures
        be16_at(be16_bytes(v), 0) == v,
{
    assert((v / 0x100 % 0x100) * 0x100 + v % 0x100 == v) by (nonlinear_arith)
        requires 0 <= v < 0x10000;
}

} // verus!

verus! {

/// A compression whose byte reads back as itself: a vanilla compression, or
/// a custom one with a byte of 127 or more.
pub open spec fn reads_back_as_itself(c: CompressionModel) -> bool {
    match c {
        CompressionModel::Custom(v, _) => v >= 127,
        _ => true,
    }
}

/// Chunks that a region reads back as they were written: coordinates inside
/// the region and distinct, sector counts as computed, compressions that
/// read back as themselves, ids of at most 255 bytes, first sectors that fit
/// the three bytes of a location entry, and what writing demands.
pub open spec fn readable_back(ms: Seq<PackedModel>) -> bool {
    &&& packable(ms)
    &&& forall|i: int| 0 <= i < ms.len() ==> #[trigger] ms[i].chunk.0 < 32 && ms[i].chunk.1 < 32
    &&& forall|i: int, j: int|
        0 <= i < ms.len() && 0 <= j < ms.len() && i != j ==> #[trigger] ms[i].chunk != #[trigger] ms[j].chunk
    &&& forall|i: int| 0 <= i < ms.len() ==> #[trigger] ms[i].sector_size == ms[i].needed_sectors()
    &&& forall|i: int| 0 <= i < ms.len() ==> #[trigger] reads_back_as_itself(ms[i].compression)
    &&& forall|i: int| 0 <= i < ms.len() ==> !(#[trigger] ms[i].id_too_big())
    &&& 2 + sectors_total(ms) < 0x1000000
}

/// **Header entries.** Distinct coordinates inside the region have header
/// entries that lie inside the table and four bytes apart or more.
pub proof fn lemma_header_offsets_apart(a: (u8, u8), b: (u8, u8))
    requires
        a.0 < 32 && a.1 < 32,
        b.0 < 32 && b.1 < 32,
        a != b,
    ensures
        0 <= spec_header_offset(a.0, a.1) && spec_header_offset(a.0, a.1) + 4 <= 4096,
        spec_header_offset(a.0, a.1) + 4 <= spec_header_offset(b.0, b.1) || spec_header_offset(b.0, b.1)
            + 4 <= spec_header_offset(a.0, a.1),
{
}

/// Both header tables are one sector long.
proof fn lemma_tables_len(ms: Seq<PackedModel>, t: u32)
    ensures
        location_table(ms).len() == 4096,
        timestamp_table(ms, t).len() == 4096,
    decreases ms.len(),
{
    if ms.len() > 0 {
        lemma_tables_len(ms.drop_last(), t);
    }
}

/// The entries of a coordinate that no chunk has stay zero.
proof fn lemma_tables_absent(ms: Seq<PackedModel>, t: u32, x: u8, z: u8, k: int)
    requires
        x < 32 && z < 32,
        0 <= k < 4,
        forall|i: int| 0 <= i < ms.len() ==> #[trigger] ms[i].chunk.0 < 32 && ms[i].chunk.1 < 32,
        forall|i: int| 0 <= i < ms.len() ==> #[trigger] ms[i].chunk != (x, z),
    ensures
        location_table(ms)[spec_header_offset(x, z) + k] == 0,
        timestamp_table(ms, t)[spec_header_offset(x, z) + k] == 0,
    decreases ms.len(),
{
    lemma_tables_len(ms, t);
    if ms.len() > 0 {
        let m = ms.last();
        assert(m == ms[ms.len() - 1]);
        lemma_header_offsets_apart(m.chunk, (x, z));
        assert forall|i: int| 0 <= i < ms.drop_last().len() implies #[trigger] ms.drop_last()[i].chunk.0 < 32
            && ms.drop_last()[i].chunk.1 < 32 by {
            assert(ms.drop_last()[i] == ms[i]);
        }
        assert forall|i: int| 0 <= i < ms.drop_last().len() implies #[trigger] ms.drop_last()[i].chunk != (x, z) by {
            assert(ms.drop_last()[i] == ms[i]);
        }
        lemma_tables_absent(ms.drop_last(), t, x, z, k);
        lemma_tables_len(ms.drop_last(), t);
    }
}

/// The entries of the `i`th chunk hold its first sector and sector count,
/// and its timestamp.
proof fn lemma_tables_entry(ms: Seq<PackedModel>, t: u32, i: int, k: int)
    requires
        0 <= i < ms.len(),
        0 <= k < 4,
        forall|a: int| 0 <= a < ms.len() ==> #[trigger] ms[a].chunk.0 < 32 && ms[a].chunk.1 < 32,
        forall|a: int, b: int|
            0 <= a < ms.len() && 0 <= b < ms.len() && a != b ==> #[trigger] ms[a].chunk != #[trigger] ms[b].chunk,
    ensures
        location_table(ms)[spec_header_offset(ms[i].chunk.0, ms[i].chunk.1) + k] == (be24_bytes(
            (2 + sectors_total(ms.take(i))) as int,
        ) + seq![(ms[i].sector_size % 256) as u8])[k],
        timestamp_table(ms, t)[spec_header_offset(ms[i].chunk.0, ms[i].chunk.1) + k] == be32_bytes(
            stamp_of(ms[i], t) as int,
        )[k],
    decreases ms.len(),
{
    lemma_tables_len(ms, t);
    lemma_tables_len(ms.drop_last(), t);
    let m = ms.last();
    assert(m == ms[ms.len() - 1]);
    if i == ms.len() - 1 {
        assert(ms.take(i) =~= ms.drop_last());
    } else {
        lemma_header_offsets_apart(m.chunk, ms[i].chunk);
        let d = ms.drop_last();
        assert(d[i] == ms[i]);
        assert forall|a: int| 0 <= a < d.len() implies #[trigger] d[a].chunk.0 < 32 && d[a].chunk.1 < 32 by {
            assert(d[a] == ms[a]);
        }
        assert forall|a: int, b: int|
            0 <= a < d.len() && 0 <= b < d.len() && a != b implies #[trigger] d[a].chunk != #[trigger] d[b].chunk by {
            assert(d[a] == ms[a]);
            assert(d[b] == ms[b]);
        }
        lemma_tables_entry(d, t, i, k);
        assert(d.take(i) =~= ms.take(i));
    }
}

} // verus!

verus! {

/// **Sector padding.** With its sectors as computed, a chunk's payload
/// fills them exactly, and its data takes more than all but the last.
pub proof fn lemma_payload_len(m: PackedModel)
    requires
        m.sector_size == m.needed_sectors(),
    ensures
        m.payload().len() == m.sector_size * 4096,
        m.view_len() <= m.sector_size * 4096,
        m.sector_size * 4096 < m.view_len() + 4096,
{
    let v = m.view_len();
    assert(v >= 5);
    assert(((v + 4095) / 4096) * 4096 >= v) by (nonlinear_arith)
        requires v >= 0;
    assert(((v + 4095) / 4096) * 4096 < v + 4096) by (nonlinear_arith)
        requires v >= 0;
    assert(m.payload_tail().len() == (if m.compression.is_custom() { 2 + m.compression.id_bytes().len() } else { 0 }) + m.compressed.len() + m.padding_len());
}

/// The payloads of chunks with sectors as computed fill their sectors.
proof fn lemma_payloads_len(ms: Seq<PackedModel>)
    requires
        forall|i: int| 0 <= i < ms.len() ==> #[trigger] ms[i].sector_size == ms[i].needed_sectors(),
    ensures
        payloads(ms).len() == 4096 * sectors_total(ms),
    decreases ms.len(),
{
    if ms.len() > 0 {
        let d = ms.drop_last();
        assert forall|i: int| 0 <= i < d.len() implies #[trigger] d[i].sector_size == d[i].needed_sectors() by {
            assert(d[i] == ms[i]);
        }
        lemma_payloads_len(d);
        assert(ms.last() == ms[ms.len() - 1]);
        lemma_payload_len(ms.last());
    }
}

/// The payloads of a prefix of the chunks start the payloads of all.
proof fn lemma_payloads_prefix(ms: Seq<PackedModel>, k: int)
    requires
        0 <= k <= ms.len(),
    ensures
        payloads(ms.take(k)).len() <= payloads(ms).len(),
        payloads(ms).subrange(0, payloads(ms.take(k)).len() as int) == payloads(ms.take(k)),
    decreases ms.len(),
{
    if k == ms.len() {
        assert(ms.take(k) =~= ms);
        assert(payloads(ms).subrange(0, payloads(ms).len() as int) =~= payloads(ms));
    } else {
        let d = ms.drop_last();
        assert(d.take(k) =~= ms.take(k));
        lemma_payloads_prefix(d, k);
        assert(payloads(ms).subrange(0, payloads(ms.take(k)).len() as int) =~= payloads(d).subrange(
            0,
            payloads(ms.take(k)).len() as int,
        ));
    }
}

/// The `i`th chunk's payload sits in the payloads right after those of the
/// chunks before it.
proof fn lemma_payload_at(ms: Seq<PackedModel>, i: int, j: int)
    requires
        0 <= i < ms.len(),
        0 <= j < ms[i].payload().len(),
    ensures
        payloads(ms.take(i)).len() + j < payloads(ms).len(),
        payloads(ms)[payloads(ms.take(i)).len() + j] == ms[i].payload()[j],
{
    lemma_payloads_prefix(ms, i + 1);
    assert(ms.take(i + 1).drop_last() =~= ms.take(i));
    assert(ms.take(i + 1).last() == ms[i]);
    let p = payloads(ms.take(i + 1));
    assert(p == payloads(ms.take(i)) + ms[i].payload());
    assert(payloads(ms)[payloads(ms.take(i)).len() + j] == payloads(ms).subrange(0, p.len() as int)[payloads(ms.take(i)).len() + j]);
}

} // verus!

verus! {
/// A chunk's payload parses back: its data length, its compression byte,
/// its custom id and its compressed bytes.
proof fn lemma_payload_parses(m: PackedModel)
    requires
        m.writable(),
        m.sector_size == m.needed_sectors(),
        !m.id_too_big(),
    ensures
        ({
            let pay = m.payload();
            let n = m.data_len();
            let v = pay.subrange(4, 4 + n);
            &&& 4 + n <= pay.len()
            &&& be32_at(pay, 0) == n
            &&& n > 0
            &&& v[0] == m.compression.tag()
            &&& m.compression.is_custom() ==> {
                let k = m.compression.id_bytes().len() as int;
                &&& 3 + k <= n
                &&& be16_at(v, 1) == k
                &&& v.subrange(3, 3 + k) == m.compression.id_bytes()
                &&& v.subrange(3 + k, n) == m.compressed
            }
            &&& !m.compression.is_custom() ==> v.subrange(1, n) == m.compressed
        }),
{
    let pay = m.payload();
    let n = m.data_len();
    let v = pay.subrange(4, 4 + n);
    lemma_payload_len(m);
    lemma_be32_roundtrip(n);
    assert(be32_at(pay, 0) == be32_at(be32_bytes(n), 0));
    let tail = m.payload_tail();
    assert(pay == m.payload_head() + tail);
    assert forall|k: int| 0 <= k < tail.len() && k + 1 < n implies #[trigger] tail[k] == v[k + 1] by {}
    if m.compression.is_custom() {
        let id = m.compression.id_bytes();
        let k = id.len() as int;
        lemma_be16_roundtrip(k);
        assert(be16_at(v, 1) == be16_at(be16_bytes(k), 0)) by {
            assert(v[1] == tail[0] && v[2] == tail[1]);
        }
        assert(v.subrange(3, 3 + k) =~= id) by {
            assert forall|a: int| 0 <= a < k implies #[trigger] v.subrange(3, 3 + k)[a] == id[a] by {
                assert(v[3 + a] == tail[2 + a]);
            }
        }
        assert(v.subrange(3 + k, n) =~= m.compressed) by {
            assert forall|a: int| 0 <= a < m.compressed.len() implies #[trigger] v.subrange(3 + k, n)[a]
                == m.compressed[a] by {
                assert(v[3 + k + a] == tail[2 + k + a]);
            }
        }
    } else {
        assert(v.subrange(1, n) =~= m.compressed) by {
            assert forall|a: int| 0 <= a < m.compressed.len() implies #[trigger] v.subrange(1, n)[a]
                == m.compressed[a] by {
                assert(v[1 + a] == tail[a]);
            }
        }
    }
}

/// Where the parts of a region sit in its bytes.
proof fn lemma_region_parts(l: Seq<u8>, tt: Seq<u8>, pl: Seq<u8>, k: int)
    requires
        l.len() == 4096,
        tt.len() == 4096,
    ensures
        (l + tt + pl).len() == 8192 + pl.len(),
        0 <= k < 4096 ==> (l + tt + pl)[k] == l[k] && (l + tt + pl)[4096 + k] == tt[k],
        0 <= k < pl.len() ==> (l + tt + pl)[8192 + k] == pl[k],
{
}

/// The location and timestamp entries of the `i`th chunk: it is present,
/// its payload starts after the two header sectors and the payloads before
/// it, and it has its timestamp.
#[verifier::rlimit(30)]
proof fn lemma_chunk_entries(ms: Seq<PackedModel>, t: u32, i: int)
    requires
        0 <= i < ms.len(),
        forall|a: int| 0 <= a < ms.len() ==> #[trigger] ms[a].chunk.0 < 32 && ms[a].chunk.1 < 32,
        forall|a: int, b: int|
            0 <= a < ms.len() && 0 <= b < ms.len() && a != b ==> #[trigger] ms[a].chunk != #[trigger] ms[b].chunk,
        forall|a: int| 0 <= a < ms.len() ==> #[trigger] ms[a].sector_size == ms[a].needed_sectors(),
        2 + sectors_total(ms) < 0x1000000,
    ensures
        ({
            let d = location_table(ms) + timestamp_table(ms, t) + payloads(ms);
            let (x, z) = ms[i].chunk;
            &&& has_location(d, x, z)
            &&& payload_offset(d, x, z) == 8192 + payloads(ms.take(i)).len()
            &&& chunk_timestamp(d, x, z) == stamp_of(ms[i], t)
        }),
{
    let l = location_table(ms);
    let tt = timestamp_table(ms, t);
    let pl = payloads(ms);
    let d = l + tt + pl;
    let m = ms[i];
    let (x, z) = m.chunk;
    let h = spec_header_offset(x, z);
    lemma_tables_len(ms, t);
    let s = (2 + sectors_total(ms.take(i))) as int;
    lemma_sectors_prefix(ms, i);
    lemma_tables_entry(ms, t, i, 0);
    lemma_tables_entry(ms, t, i, 1);
    lemma_tables_entry(ms, t, i, 2);
    lemma_tables_entry(ms, t, i, 3);
    lemma_region_parts(l, tt, pl, h);
    lemma_region_parts(l, tt, pl, h + 1);
    lemma_region_parts(l, tt, pl, h + 2);
    lemma_region_parts(l, tt, pl, h + 3);
    lemma_be24_roundtrip(s);
    assert(be24_at(d, h) == be24_at(be24_bytes(s), 0));
    lemma_be32_roundtrip(stamp_of(m, t) as int);
    assert(chunk_timestamp(d, x, z) == be32_at(be32_bytes(stamp_of(m, t) as int), 0));
    let pre = ms.take(i);
    assert forall|a: int| 0 <= a < pre.len() implies #[trigger] pre[a].sector_size == pre[a].needed_sectors() by {
        assert(pre[a] == ms[a]);
    }
    lemma_payloads_len(pre);
}

/// Bytes equal to those of `w` from `p` on are `w`'s window of `d`.
proof fn lemma_window(d: Seq<u8>, p: int, w: Seq<u8>)
    requires
        0 <= p,
        p + w.len() <= d.len(),
        forall|j: int| 0 <= j < w.len() ==> #[trigger] w[j] == d[p + j],
    ensures
        d.subrange(p, p + w.len()) == w,
{
    assert(d.subrange(p, p + w.len()) =~= w) by {
        assert forall|j: int| 0 <= j < w.len() implies #[trigger] d.subrange(p, p + w.len())[j] == w[j] by {
            assert(w[j] == d[p + j]);
        }
    }
}

/// A window of `d` equal to `pay`, whose first four bytes give the length
/// `n` of what follows them, gives that length and those bytes in `d` too.
proof fn lemma_window_len(d: Seq<u8>, p: int, pay: Seq<u8>, n: int)
    requires
        0 <= p,
        p + pay.len() <= d.len(),
        d.subrange(p, p + pay.len()) == pay,
        0 <= n,
        4 + n <= pay.len(),
        be32_at(pay, 0) == n,
    ensures
        be32_at(d, p) == n,
        d.subrange(p + 4, p + 4 + n) == pay.subrange(4, 4 + n),
{
    let w = d.subrange(p, p + pay.len());
    assert(w[0] == d[p] && w[1] == d[p + 1] && w[2] == d[p + 2] && w[3] == d[p + 3]);
    assert(d.subrange(p + 4, p + 4 + n) =~= pay.subrange(4, 4 + n)) by {
        assert forall|k: int| 0 <= k < n implies #[trigger] d.subrange(p + 4, p + 4 + n)[k]
            == pay.subrange(4, 4 + n)[k] by {
            assert(w[4 + k] == d[p + 4 + k]);
        }
    }
}

/// The data of a chunk whose payload stands in the region where its
/// location entry points.
proof fn lemma_view_of(d: Seq<u8>, x: u8, z: u8, m: PackedModel)
    requires
        m.writable(),
        m.sector_size == m.needed_sectors(),
        !m.id_too_big(),
        0 <= payload_offset(d, x, z),
        payload_offset(d, x, z) + m.payload().len() <= d.len(),
        d.subrange(payload_offset(d, x, z), payload_offset(d, x, z) + m.payload().len()) == m.payload(),
    ensures
        data_len(d, x, z) == m.data_len(),
        payload_offset(d, x, z) + 4 + m.data_len() <= d.len(),
        chunk_view(d, x, z) == m.payload().subrange(4, 4 + m.data_len()),
{
    lemma_payload_parses(m);
    lemma_window_len(d, payload_offset(d, x, z), m.payload(), m.data_len());
}

/// A chunk whose payload stands in the region where its location entry
/// points reads back as itself.
proof fn lemma_lookup_present(d: Seq<u8>, x: u8, z: u8, m: PackedModel)
    requires
        x < 32 && z < 32,
        has_location(d, x, z),
        m.writable(),
        m.sector_size == m.needed_sectors(),
        !m.id_too_big(),
        reads_back_as_itself(m.compression),
        0 <= payload_offset(d, x, z),
        payload_offset(d, x, z) + m.payload().len() <= d.len(),
        d.subrange(payload_offset(d, x, z), payload_offset(d, x, z) + m.payload().len()) == m.payload(),
    ensures
        lookup_chunk(d, x, z) == ChunkLookup::Present(m.compressed, m.compression),
{
    lemma_view_of(d, x, z, m);
    lemma_payload_parses(m);
    let v = chunk_view(d, x, z);
    let n = m.data_len();
    if let CompressionModel::Custom(tag, chars) = m.compression {
        vstd::utf8::encode_utf8_valid_utf8(chars);
        vstd::utf8::encode_utf8_decode_utf8(chars);
        let k = m.compression.id_bytes().len() as int;
        assert(v[0] >= 127);
        assert(valid_utf8(v.subrange(3, 3 + k)));
        assert(decode_utf8(v.subrange(3, 3 + k)) == chars);
    } else {
        assert(v[0] < 127);
        assert(CompressionModel::from_tag(v[0]) == m.compression);
    }
}

/// The location entry of the `i`th chunk points at the sector after the
/// chunks before it.
proof fn lemma_offset_of(ms: Seq<PackedModel>, t: u32, i: int)
    requires
        readable_back(ms),
        0 <= i < ms.len(),
    ensures
        payload_offset(region_bytes(ms, t), ms[i].chunk.0, ms[i].chunk.1) == 4096 * (2 + sectors_total(
            ms.take(i),
        )),
{
    lemma_chunk_entries(ms, t, i);
    let pre = ms.take(i);
    assert forall|a: int| 0 <= a < pre.len() implies #[trigger] pre[a].sector_size == pre[a].needed_sectors() by {
        assert(pre[a] == ms[a]);
    }
    lemma_payloads_len(pre);
}

/// The `i`th chunk of a region written from chunks that read back reads
/// back as itself, with its timestamp.
#[verifier::rlimit(40)]
proof fn lemma_chunk_reads_back(ms: Seq<PackedModel>, t: u32, i: int)
    requires
        readable_back(ms),
        0 <= i < ms.len(),
    ensures
        ({
            let d = region_bytes(ms, t);
            let (x, z) = ms[i].chunk;
            &&& lookup_chunk(d, x, z) == ChunkLookup::Present(ms[i].compressed, ms[i].compression)
            &&& chunk_timestamp(d, x, z) == stamp_of(ms[i], t)
        }),
{
    let l = location_table(ms);
    let tt = timestamp_table(ms, t);
    let pl = payloads(ms);
    let d = l + tt + pl;
    let m = ms[i];
    let (x, z) = m.chunk;
    lemma_tables_len(ms, t);
    lemma_chunk_entries(ms, t, i);
    let p = payload_offset(d, x, z);
    let q = payloads(ms.take(i)).len() as int;
    let pay = m.payload();
    assert(m.writable());
    assert forall|j: int| 0 <= j < pay.len() implies #[trigger] pay[j] == d[p + j] by {
        lemma_payload_at(ms, i, j);
        lemma_region_parts(l, tt, pl, q + j);
    }
    lemma_payload_len(m);
    lemma_payload_at(ms, i, pay.len() - 1);
    lemma_region_parts(l, tt, pl, 0);
    lemma_window(d, p, pay);
    lemma_lookup_present(d, x, z, m);
}

} // verus!

verus! {

/// Without an oversized id in the list, no chunk has one.
proof fn lemma_no_oversized(ms: Seq<PackedModel>)
    requires
        first_oversized(ms) is None,
    ensures
        forall|i: int| 0 <= i < ms.len() ==> !(#[trigger] ms[i].id_too_big()),
    decreases ms.len(),
{
    if ms.len() > 0 {
        lemma_no_oversized(ms.drop_last());
        assert forall|i: int| 0 <= i < ms.len() implies !(#[trigger] ms[i].id_too_big()) by {
            if i < ms.len() - 1 {
                assert(ms[i] == ms.drop_last()[i]);
            }
        }
    }
}

/// **Read after write.** A region written from chunks that read back
/// (coordinates inside the region and distinct, sector counts as computed,
/// compressions that read back as themselves, ids of at most 255 bytes and
/// a region under 2^24 sectors) holds both headers and whole sectors, gives
/// back each chunk's compressed bytes, compression and timestamp, has each
/// chunk's location entry point at the sector after the chunks before it,
/// and has no other chunk.
#[verifier::rlimit(40)]
pub proof fn law_read_after_write(ms: Seq<PackedModel>, t: u32)
    requires
        readable_back(ms),
    ensures
        region_bytes(ms, t).len() == 4096 * (2 + sectors_total(ms)),
        forall|i: int| 0 <= i < ms.len() ==> {
            &&& #[trigger] lookup_chunk(region_bytes(ms, t), ms[i].chunk.0, ms[i].chunk.1)
                == ChunkLookup::Present(ms[i].compressed, ms[i].compression)
            &&& chunk_timestamp(region_bytes(ms, t), ms[i].chunk.0, ms[i].chunk.1) == stamp_of(ms[i], t)
            &&& payload_offset(region_bytes(ms, t), ms[i].chunk.0, ms[i].chunk.1) == 4096 * (2
                + sectors_total(ms.take(i)))
        },
        forall|x: u8, z: u8|
            x < 32 && z < 32 && (forall|i: int| 0 <= i < ms.len() ==> ms[i].chunk != (x, z)) ==> {
                &&& #[trigger] lookup_chunk(region_bytes(ms, t), x, z) == ChunkLookup::Absent
                &&& chunk_timestamp(region_bytes(ms, t), x, z) == 0
            },
{
    let d = region_bytes(ms, t);
    lemma_tables_len(ms, t);
    lemma_payloads_len(ms);
    assert forall|i: int| 0 <= i < ms.len() implies {
        &&& #[trigger] lookup_chunk(d, ms[i].chunk.0, ms[i].chunk.1)
            == ChunkLookup::Present(ms[i].compressed, ms[i].compression)
        &&& chunk_timestamp(d, ms[i].chunk.0, ms[i].chunk.1) == stamp_of(ms[i], t)
        &&& payload_offset(d, ms[i].chunk.0, ms[i].chunk.1) == 4096 * (2 + sectors_total(ms.take(i)))
    } by {
        lemma_chunk_reads_back(ms, t, i);
        lemma_offset_of(ms, t, i);
    }
    assert forall|x: u8, z: u8|
        x < 32 && z < 32 && (forall|i: int| 0 <= i < ms.len() ==> ms[i].chunk != (x, z)) implies {
            &&& #[trigger] lookup_chunk(d, x, z) == ChunkLookup::Absent
            &&& chunk_timestamp(d, x, z) == 0
        } by {
        lemma_absent_reads_absent(ms, t, x, z);
    }
}

/// A coordinate that no chunk has reads as absent, with a zero timestamp.
proof fn lemma_absent_reads_absent(ms: Seq<PackedModel>, t: u32, x: u8, z: u8)
    requires
        x < 32 && z < 32,
        forall|i: int| 0 <= i < ms.len() ==> #[trigger] ms[i].chunk.0 < 32 && ms[i].chunk.1 < 32,
        forall|i: int| 0 <= i < ms.len() ==> ms[i].chunk != (x, z),
    ensures
        lookup_chunk(region_bytes(ms, t), x, z) == ChunkLookup::Absent,
        chunk_timestamp(region_bytes(ms, t), x, z) == 0,
{
    let l = location_table(ms);
    let tt = timestamp_table(ms, t);
    let pl = payloads(ms);
    let h = spec_header_offset(x, z);
    lemma_tables_len(ms, t);
    assert forall|i: int| 0 <= i < ms.len() implies #[trigger] ms[i].chunk != (x, z) by {}
    lemma_tables_absent(ms, t, x, z, 0);
    lemma_tables_absent(ms, t, x, z, 1);
    lemma_tables_absent(ms, t, x, z, 2);
    lemma_tables_absent(ms, t, x, z, 3);
    lemma_region_parts(l, tt, pl, h);
    lemma_region_parts(l, tt, pl, h + 1);
    lemma_region_parts(l, tt, pl, h + 2);
    lemma_region_parts(l, tt, pl, h + 3);
}

} // verus!

verus! {

/// Every entry of the writer that holds a chunk holds it at its own
/// coordinate, with a compression that reads back as itself.
pub open spec fn consistent_entries(entries: Seq<Option<WritableChunk>>) -> bool {
    &&& entries.len() == 1024
    &&& forall|j: int| 0 <= j < 1024 ==> (#[trigger] entries[j] matches Some(w) ==> w.chunk
        == coordinate_at(j) && reads_back_as_itself(pending_compression(w.data)))
}

/// How many of the first `n` entries hold a chunk.
pub open spec fn count_some(entries: Seq<Option<WritableChunk>>, n: nat) -> nat
    decreases n,
{
    if n == 0 {
        0
    } else {
        count_some(entries, (n - 1) as nat) + if entries[n - 1] is Some {
            1nat
        } else {
            0nat
        }
    }
}

/// The coordinate of an index inside the region lies inside the region and
/// has that index.
pub proof fn lemma_coordinate(j: int)
    requires
        0 <= j < 1024,
    ensures
        coordinate_at(j).0 < 32,
        coordinate_at(j).1 < 32,
        chunk_index(coordinate_at(j).0, coordinate_at(j).1) == j,
{
}

/// What the packed chunks of the entries look like: one per chunk, in entry
/// order, each at its entry's coordinate and packed from it.
proof fn lemma_packs_props(entries: Seq<Option<WritableChunk>>, n: nat, ms: Seq<PackedModel>)
    requires
        n <= 1024,
        consistent_entries(entries),
        packs_upto(entries, n, ms),
    ensures
        ms.len() == count_some(entries, n),
        forall|k: int| 0 <= k < ms.len() ==> {
            &&& #[trigger] ms[k].chunk.0 < 32
            &&& ms[k].chunk.1 < 32
            &&& chunk_index(ms[k].chunk.0, ms[k].chunk.1) < n
            &&& entries[chunk_index(ms[k].chunk.0, ms[k].chunk.1)] matches Some(w) && packs_entry(w, ms[k])
        },
        forall|a: int, b: int|
            0 <= a < b < ms.len() ==> chunk_index(#[trigger] ms[a].chunk.0, ms[a].chunk.1) < chunk_index(
                #[trigger] ms[b].chunk.0,
                ms[b].chunk.1,
            ),
        forall|j: int| 0 <= j < n && #[trigger] entries[j] is Some ==> count_some(entries, j as nat) < ms.len()
            && ms[count_some(entries, j as nat) as int].chunk == coordinate_at(j),
{
    lemma_packs_entries(entries, n, ms);
    lemma_packs_ordered(entries, n, ms);
    lemma_packs_count(entries, n, ms);
}

/// The last packed chunk of an entry sits at that entry's coordinate.
proof fn lemma_packed_at(entries: Seq<Option<WritableChunk>>, j: int, w: WritableChunk, m: PackedModel)
    requires
        consistent_entries(entries),
        0 <= j < 1024,
        entries[j] == Some(w),
        packs_entry(w, m),
    ensures
        m.chunk == coordinate_at(j),
        m.chunk.0 < 32,
        m.chunk.1 < 32,
        chunk_index(m.chunk.0, m.chunk.1) == j,
{
    lemma_coordinate(j);
}

/// Each packed chunk of the first `n` entries comes from the entry at its
/// coordinate, below `n`.
proof fn lemma_packs_entries(entries: Seq<Option<WritableChunk>>, n: nat, ms: Seq<PackedModel>)
    requires
        n <= 1024,
        consistent_entries(entries),
        packs_upto(entries, n, ms),
    ensures
        forall|k: int| 0 <= k < ms.len() ==> {
            &&& #[trigger] ms[k].chunk.0 < 32
            &&& ms[k].chunk.1 < 32
            &&& chunk_index(ms[k].chunk.0, ms[k].chunk.1) < n
            &&& entries[chunk_index(ms[k].chunk.0, ms[k].chunk.1)] matches Some(w) && packs_entry(w, ms[k])
        },
    decreases n,
{
    if n > 0 {
        let j = n - 1;
        if entries[j] is None {
            lemma_packs_entries(entries, j as nat, ms);
        } else {
            let w = entries[j]->0;
            let d = ms.drop_last();
            let m = ms.last();
            lemma_packs_entries(entries, j as nat, d);
            lemma_packed_at(entries, j, w, m);
            assert forall|k: int| 0 <= k < ms.len() implies {
                &&& #[trigger] ms[k].chunk.0 < 32
                &&& ms[k].chunk.1 < 32
                &&& chunk_index(ms[k].chunk.0, ms[k].chunk.1) < n
                &&& entries[chunk_index(ms[k].chunk.0, ms[k].chunk.1)] matches Some(e) && packs_entry(e, ms[k])
            } by {
                if k < d.len() {
                    assert(ms[k] == d[k]);
                    assert(d[k].chunk.0 < 32);
                } else {
                    assert(ms[k] == m);
                }
            }
        }
    }
}

/// The packed chunks of the first `n` entries come in entry order.
proof fn lemma_packs_ordered(entries: Seq<Option<WritableChunk>>, n: nat, ms: Seq<PackedModel>)
    requires
        n <= 1024,
        consistent_entries(entries),
        packs_upto(entries, n, ms),
    ensures
        forall|a: int, b: int|
            0 <= a < b < ms.len() ==> chunk_index(#[trigger] ms[a].chunk.0, ms[a].chunk.1) < chunk_index(
                #[trigger] ms[b].chunk.0,
                ms[b].chunk.1,
            ),
    decreases n,
{
    if n > 0 {
        let j = n - 1;
        if entries[j] is None {
            lemma_packs_ordered(entries, j as nat, ms);
        } else {
            let w = entries[j]->0;
            let d = ms.drop_last();
            let m = ms.last();
            lemma_packs_ordered(entries, j as nat, d);
            lemma_packs_entries(entries, j as nat, d);
            lemma_packed_at(entries, j, w, m);
            assert forall|a: int, b: int| 0 <= a < b < ms.len() implies chunk_index(
                #[trigger] ms[a].chunk.0,
                ms[a].chunk.1,
            ) < chunk_index(#[trigger] ms[b].chunk.0, ms[b].chunk.1) by {
                assert(ms[a] == d[a]);
                assert(d[a].chunk.0 < 32);
                if b < d.len() {
                    assert(ms[b] == d[b]);
                    assert(d[b].chunk.0 < 32);
                } else {
                    assert(ms[b] == m);
                }
            }
        }
    }
}

/// The entries below `n` that hold a chunk are packed one each, the `j`th
/// as packed chunk number `count_some(entries, j)`.
proof fn lemma_packs_count(entries: Seq<Option<WritableChunk>>, n: nat, ms: Seq<PackedModel>)
    requires
        n <= 1024,
        consistent_entries(entries),
        packs_upto(entries, n, ms),
    ensures
        ms.len() == count_some(entries, n),
        forall|j: int| 0 <= j < n && #[trigger] entries[j] is Some ==> count_some(entries, j as nat) < ms.len()
            && ms[count_some(entries, j as nat) as int].chunk == coordinate_at(j),
    decreases n,
{
    if n > 0 {
        let j = n - 1;
        if entries[j] is None {
            lemma_packs_count(entries, j as nat, ms);
        } else {
            let w = entries[j]->0;
            let d = ms.drop_last();
            let m = ms.last();
            lemma_packs_count(entries, j as nat, d);
            lemma_packed_at(entries, j, w, m);
            assert forall|i: int| 0 <= i < n && #[trigger] entries[i] is Some implies count_some(
                entries,
                i as nat,
            ) < ms.len() && ms[count_some(entries, i as nat) as int].chunk == coordinate_at(i) by {
                if i < j {
                    assert(ms[count_some(entries, i as nat) as int] == d[count_some(entries, i as nat) as int]);
                }
            }
        }
    }
}

/// What the region bytes `d` give back of the writer entry `w` at index `j`,
/// written at time `t`: the chunk is present with `w`'s compression, and
/// with its own timestamp, or `t` where it has none; compressed data reads
/// back
/// as it was; uncompressed data with a vanilla compression reads back as the
/// library compresses it, and decodes to the data again (empty data only
/// where it is stored without compression).
pub open spec fn reads_back_entry(d: Seq<u8>, j: int, w: WritableChunk, t: u32) -> bool {
    let c = pending_compression(w.data);
    let bytes = pending_bytes(w.data);
    let (x, z) = coordinate_at(j);
    &&& lookup_chunk(d, x, z) matches ChunkLookup::Present(p, c2)
    &&& c2 == c
    &&& chunk_timestamp(d, x, z) == match w.timestamp {
        Some(ts) => ts,
        None => t,
    }
    &&& w.data is Compressed ==> lookup_chunk(d, x, z)->Present_0 == bytes
    &&& (w.data is Uncompressed && !(c is Custom)) ==> vanilla_encoded(bytes, c) == Some(
        lookup_chunk(d, x, z)->Present_0,
    )
    &&& (w.data is Uncompressed && !(c is Custom) && (bytes.len() > 0 || c
        == CompressionModel::Uncompressed)) ==> vanilla_decoded(lookup_chunk(d, x, z)->Present_0, c)
        == Some(bytes)
}

/// **Write then read.** Where a writer's entries each hold their chunk at
/// its own coordinate with a compression that reads back as itself, the
/// region that `RegionWriter::write` produced (under 2^24 sectors) reads
/// back: every empty entry as an absent chunk, and every chunk with its
/// compression and with the bytes that were written for it: compressed
/// data as it was, uncompressed data as the library compresses it, which
/// decodes to that data again, and each with its timestamp (see
/// `reads_back_entry`).
#[verifier::rlimit(40)]
pub proof fn law_write_then_read(
    entries: Seq<Option<WritableChunk>>,
    ms: Seq<PackedModel>,
    t: u32,
    out: Seq<u8>,
    r: Result<usize, McaError>,
)
    requires
        consistent_entries(entries),
        region_written(entries, ms, t, Seq::empty(), out, r),
        2 + sectors_total(ms) < 0x1000000,
    ensures
        out.len() == 4096 * (2 + sectors_total(ms)),
        forall|j: int| 0 <= j < 1024 && #[trigger] entries[j] is None ==> lookup_chunk(
            out,
            coordinate_at(j).0,
            coordinate_at(j).1,
        ) == ChunkLookup::Absent,
        forall|j: int| 0 <= j < 1024 && #[trigger] entries[j] is Some ==> reads_back_entry(out, j, entries[j]->0, t),
{
    lemma_packs_props(entries, 1024, ms);
    assert(out =~= region_bytes(ms, t));
    lemma_written_readable_back(entries, ms);
    law_read_after_write(ms, t);
    assert forall|j: int| 0 <= j < 1024 && #[trigger] entries[j] is None implies lookup_chunk(
        out,
        coordinate_at(j).0,
        coordinate_at(j).1,
    ) == ChunkLookup::Absent by {
        lemma_entry_absent(entries, ms, t, j);
    }
    assert forall|j: int| 0 <= j < 1024 && #[trigger] entries[j] is Some implies reads_back_entry(
        out,
        j,
        entries[j]->0,
        t,
    ) by {
        lemma_entry_reads_back(entries, ms, t, j);
    }
}

/// The packed chunks of consistent entries, where they fit the format and
/// the region stays under 2^24 sectors, read back as they were written.
#[verifier::rlimit(40)]
proof fn lemma_written_readable_back(entries: Seq<Option<WritableChunk>>, ms: Seq<PackedModel>)
    requires
        consistent_entries(entries),
        packs_upto(entries, 1024, ms),
        packable(ms),
        first_oversized(ms) is None,
        2 + sectors_total(ms) < 0x1000000,
    ensures
        readable_back(ms),
{
    lemma_packs_props(entries, 1024, ms);
    lemma_no_oversized(ms);
    assert forall|i: int| 0 <= i < ms.len() implies #[trigger] ms[i].sector_size == ms[i].needed_sectors() by {
        let w = entries[chunk_index(ms[i].chunk.0, ms[i].chunk.1)]->0;
        assert(packs_entry(w, ms[i]));
    }
    assert forall|i: int| 0 <= i < ms.len() implies #[trigger] reads_back_as_itself(ms[i].compression) by {
        let j = chunk_index(ms[i].chunk.0, ms[i].chunk.1);
        assert(entries[j] is Some);
    }
    assert forall|a: int, b: int|
        0 <= a < ms.len() && 0 <= b < ms.len() && a != b implies #[trigger] ms[a].chunk != #[trigger] ms[b].chunk by {
        if a < b {
            assert(chunk_index(ms[a].chunk.0, ms[a].chunk.1) < chunk_index(ms[b].chunk.0, ms[b].chunk.1));
        } else {
            assert(chunk_index(ms[b].chunk.0, ms[b].chunk.1) < chunk_index(ms[a].chunk.0, ms[a].chunk.1));
        }
    }
}

/// An empty entry of the writer reads back as an absent chunk.
proof fn lemma_entry_absent(entries: Seq<Option<WritableChunk>>, ms: Seq<PackedModel>, t: u32, j: int)
    requires
        consistent_entries(entries),
        packs_upto(entries, 1024, ms),
        readable_back(ms),
        0 <= j < 1024,
        entries[j] is None,
    ensures
        lookup_chunk(region_bytes(ms, t), coordinate_at(j).0, coordinate_at(j).1) == ChunkLookup::Absent,
{
    lemma_packs_props(entries, 1024, ms);
    lemma_coordinate(j);
    assert forall|i: int| 0 <= i < ms.len() implies ms[i].chunk != coordinate_at(j) by {
        if ms[i].chunk == coordinate_at(j) {
            assert(chunk_index(ms[i].chunk.0, ms[i].chunk.1) == j);
        }
    }
    lemma_absent_reads_absent(ms, t, coordinate_at(j).0, coordinate_at(j).1);
}

/// A chunk of the writer reads back as `reads_back_entry` says.
#[verifier::rlimit(40)]
proof fn lemma_entry_reads_back(entries: Seq<Option<WritableChunk>>, ms: Seq<PackedModel>, t: u32, j: int)
    requires
        consistent_entries(entries),
        packs_upto(entries, 1024, ms),
        readable_back(ms),
        0 <= j < 1024,
        entries[j] is Some,
    ensures
        reads_back_entry(region_bytes(ms, t), j, entries[j]->0, t),
{
    lemma_packs_props(entries, 1024, ms);
    lemma_coordinate(j);
    let k = count_some(entries, j as nat) as int;
    assert(ms[k].chunk == coordinate_at(j));
    assert(chunk_index(ms[k].chunk.0, ms[k].chunk.1) == j);
    assert(packs_entry(entries[j]->0, ms[k]));
    lemma_chunk_reads_back(ms, t, k);
    lemma_entry_of_model(region_bytes(ms, t), j, entries[j]->0, ms[k], t);
}

/// An entry packed as `m` reads back as `reads_back_entry` says where the
/// region holds `m` at the entry's coordinate.
proof fn lemma_entry_of_model(d: Seq<u8>, j: int, w: WritableChunk, m: PackedModel, t: u32)
    requires
        packs_entry(w, m),
        lookup_chunk(d, coordinate_at(j).0, coordinate_at(j).1) == ChunkLookup::Present(
            m.compressed,
            m.compression,
        ),
        chunk_timestamp(d, coordinate_at(j).0, coordinate_at(j).1) == stamp_of(m, t),
    ensures
        reads_back_entry(d, j, w, t),
{
    reveal(packs_bytes);
    if let PendingData::Uncompressed(u) = w.data {
        if u.buf@.len() == 0 {
            assert(u.buf@ =~= Seq::<u8>::empty());
        }
    }
}

/// What writing the read entries again keeps of the chunk at index `i` of
/// the region `d`, in the region `out`: an absent chunk stays absent; a
/// present one keeps its compressed bytes, its compression and its
/// timestamp.
pub open spec fn rewrite_keeps(d: Seq<u8>, out: Seq<u8>, i: int) -> bool {
    let (x, z) = coordinate_at(i);
    &&& lookup_chunk(d, x, z) is Absent ==> lookup_chunk(out, x, z) is Absent
    &&& lookup_chunk(d, x, z) is Present ==> {
        &&& lookup_chunk(out, x, z) == lookup_chunk(d, x, z)
        &&& chunk_timestamp(out, x, z) == chunk_timestamp(d, x, z)
    }
}

/// **Rewrite.** Writing the entries that `RegionReader::into_writer` read
/// from a region whose compressions read back as themselves (into a region
/// under 2^24 sectors) gives a region with the same chunks, as
/// `rewrite_keeps` says.
#[verifier::rlimit(40)]
pub proof fn law_rewrite(
    d: Seq<u8>,
    entries: Seq<Option<WritableChunk>>,
    ms: Seq<PackedModel>,
    t: u32,
    out: Seq<u8>,
    r: Result<usize, McaError>,
)
    requires
        entries.len() == 1024,
        forall|i: int| 0 <= i < 1024 ==> #[trigger] reads_into(d, i, entries[i]),
        forall|i: int| 0 <= i < 1024 ==> #[trigger] compression_reads_back(d, i),
        region_written(entries, ms, t, Seq::empty(), out, r),
        2 + sectors_total(ms) < 0x1000000,
    ensures
        forall|i: int| 0 <= i < 1024 ==> #[trigger] rewrite_keeps(d, out, i),
{
    lemma_read_entries_consistent(d, entries);
    law_write_then_read(entries, ms, t, out, r);
    assert forall|i: int| 0 <= i < 1024 implies #[trigger] rewrite_keeps(d, out, i) by {
        lemma_rewrite_at(d, out, i, entries[i], t);
    }
}

/// Entries read from a region hold each chunk at its own coordinate, with a
/// compression that reads back as itself.
proof fn lemma_read_entries_consistent(d: Seq<u8>, entries: Seq<Option<WritableChunk>>)
    requires
        entries.len() == 1024,
        forall|i: int| 0 <= i < 1024 ==> #[trigger] reads_into(d, i, entries[i]),
        forall|i: int| 0 <= i < 1024 ==> #[trigger] compression_reads_back(d, i),
    ensures
        consistent_entries(entries),
{
    assert forall|j: int| 0 <= j < 1024 implies (#[trigger] entries[j] matches Some(w) ==> w.chunk
        == coordinate_at(j) && reads_back_as_itself(pending_compression(w.data))) by {
        assert(reads_into(d, j, entries[j]));
        assert(compression_reads_back(d, j));
    }
}

/// The chunk at index `i` of `d`, where present, has a compression that
/// reads back as itself: not a compression byte below 127 that is none of
/// the vanilla ones.
pub open spec fn compression_reads_back(d: Seq<u8>, i: int) -> bool {
    lookup_chunk(d, coordinate_at(i).0, coordinate_at(i).1) matches ChunkLookup::Present(p, c)
        ==> reads_back_as_itself(c)
}

/// The chunk at index `i`, read into `e` and written back as
/// `law_write_then_read` says, is kept as `rewrite_keeps` says.
proof fn lemma_rewrite_at(d: Seq<u8>, out: Seq<u8>, i: int, e: Option<WritableChunk>, t: u32)
    requires
        reads_into(d, i, e),
        e is None ==> lookup_chunk(out, coordinate_at(i).0, coordinate_at(i).1) == ChunkLookup::Absent,
        e is Some ==> reads_back_entry(out, i, e->0, t),
    ensures
        rewrite_keeps(d, out, i),
{
}

} // verus!

verus! {

/// **Compression bytes.** The byte of a vanilla compression reads back as
/// that compression; every other byte reads as a custom compression with
/// that byte and an empty id.
pub proof fn law_compression_byte(c: CompressionModel, v: u8)
    ensures
        !(c is Custom) ==> CompressionModel::from_tag(c.tag()) == c,
        CompressionModel::from_tag(v).tag() == v,
        (v == 0 || v > 4) ==> CompressionModel::from_tag(v) == CompressionModel::Custom(v, Seq::empty()),
{
}

/// **Chunk coordinates.** The 1024 iteration indices and the coordinates
/// inside the region correspond one to one, in increasing `(x, z)` order:
/// as `ChunkIter::next` gives `coordinate_at` of its position and then
/// `None` from position 1024 on, it visits every chunk of the region exactly
/// once, in that order.
pub proof fn law_coordinates_one_to_one(x: u8, z: u8, i: int, j: int)
    ensures
        x < 32 && z < 32 ==> 0 <= chunk_index(x, z) < 1024 && coordinate_at(chunk_index(x, z)) == (x, z),
        0 <= i < 1024 ==> coordinate_at(i).0 < 32 && coordinate_at(i).1 < 32,
        0 <= i < 1024 && 0 <= j < 1024 && i != j ==> coordinate_at(i) != coordinate_at(j),
        0 <= i < j < 1024 ==> coordinate_at(i).0 < coordinate_at(j).0 || (coordinate_at(i).0
            == coordinate_at(j).0 && coordinate_at(i).1 < coordinate_at(j).1),
{
    if 0 <= i < 1024 {
        lemma_coordinate(i);
    }
    if 0 <= j < 1024 {
        lemma_coordinate(j);
    }
}

/// **Generated chunks.** A coordinate is among the generated chunks exactly
/// when it lies inside the region and has a location entry, and each one
/// is listed once, in increasing index order.
pub proof fn law_generated_chunks(d: Seq<u8>, x: u8, z: u8)
    ensures
        generated_list(d).contains((x, z)) <==> x < 32 && z < 32 && has_location(d, x, z),
        generated_list(d).no_duplicates(),
        generated_list(d).len() <= 1024,
        forall|a: int, b: int|
            0 <= a < b < generated_list(d).len() ==> chunk_index(
                #[trigger] generated_list(d)[a].0,
                generated_list(d)[a].1,
            ) < chunk_index(#[trigger] generated_list(d)[b].0, generated_list(d)[b].1),
{
    lemma_generated_upto(d, 1024, x, z);
}

/// The coordinates among the first `n` that have a location entry, once each.
proof fn lemma_generated_upto(d: Seq<u8>, n: nat, x: u8, z: u8)
    requires
        n <= 1024,
    ensures
        generated_upto(d, n).contains((x, z)) <==> x < 32 && z < 32 && chunk_index(x, z) < n
            && has_location(d, x, z),
        generated_upto(d, n).no_duplicates(),
        generated_upto(d, n).len() <= n,
        forall|k: int| 0 <= k < generated_upto(d, n).len() ==> chunk_index(
            #[trigger] generated_upto(d, n)[k].0,
            generated_upto(d, n)[k].1,
        ) < n && generated_upto(d, n)[k].0 < 32 && generated_upto(d, n)[k].1 < 32,
        forall|a: int, b: int|
            0 <= a < b < generated_upto(d, n).len() ==> chunk_index(
                #[trigger] generated_upto(d, n)[a].0,
                generated_upto(d, n)[a].1,
            ) < chunk_index(#[trigger] generated_upto(d, n)[b].0, generated_upto(d, n)[b].1),
    decreases n,
{
    if n > 0 {
        let c = coordinate_at(n - 1);
        lemma_coordinate(n - 1);
        lemma_generated_upto(d, (n - 1) as nat, x, z);
        lemma_generated_upto(d, (n - 1) as nat, c.0, c.1);
        let before = generated_upto(d, (n - 1) as nat);
        if has_location(d, c.0, c.1) {
            assert(generated_upto(d, n) == before.push(c));
            assert(before.push(c)[before.len() as int] == c);
            assert(before.push(c).contains(c));
            assert forall|k: int| 0 <= k < before.len() implies #[trigger] before.push(c)[k] == before[k] by {}
            if generated_upto(d, n).contains((x, z)) && (x, z) != c {
                let k = choose|k: int| 0 <= k < before.push(c).len() && before.push(c)[k] == (x, z);
                assert(before[k] == (x, z));
            }
            if (x, z) == c {
                assert(before.push(c)[before.len() as int] == c);
            } else if x < 32 && z < 32 && chunk_index(x, z) < n && has_location(d, x, z) {
                assert(chunk_index(x, z) < n - 1);
                let k = choose|k: int| 0 <= k < before.len() && before[k] == (x, z);
                assert(before.push(c)[k] == (x, z));
            }
        }
    }
}

} // verus!

verus! {

/// **Iteration reads the chunks.** The `k`th generated chunk of a region,
/// which `RegionIter::next_available_chunk` takes at position `k` (a fresh
/// iterator starts at 0 over `generated_list`, each success moves it on by
/// one, and at the end it gives `Ok(None)`), comes out as `RegionReader::chunk`
/// gives it: the same bytes where both succeed, an error from both where
/// either fails, and never as absent.
pub proof fn law_iteration_reads_chunks<D: CustomDecompression>(
    d: Seq<u8>,
    custom: D,
    k: int,
    r: Result<Option<AvailableChunk>, McaError>,
    c: Result<Option<&[u8]>, McaError>,
)
    requires
        0 <= k < generated_list(d).len(),
        next_chunk_outcome(d, generated_list(d)[k].0, generated_list(d)[k].1, custom, r),
        chunk_outcome(d, generated_list(d)[k].0, generated_list(d)[k].1, custom, c),
    ensures
        r is Err <==> c is Err,
        r is Ok ==> r->Ok_0 is Some && r->Ok_0->Some_0.0 == generated_list(d)[k] && c is Ok
            && c->Ok_0 is Some && c->Ok_0->Some_0@ == r->Ok_0->Some_0.1@,
{
    let (x, z) = generated_list(d)[k];
    lemma_generated_upto(d, 1024, x, z);
    assert(generated_list(d).contains((x, z)));
}

} // verus!

verus! {

/// **Decompression codecs.** What `RegionReader::decompress_data_ref`
/// gives (its `ensures`) goes through the codec of the compression: gzip
/// payloads through flate2's `GzDecoder`, zlib payloads through its
/// `ZlibDecoder`, LZ4 payloads through lz4_java_wrc's `Lz4BlockInput`, each
/// appending what that decoder reads or failing with that compression's
/// error; uncompressed payloads are appended as they are.
pub proof fn law_decompress_codecs<D: CustomDecompression>(
    payload: Seq<u8>,
    c: CompressionModel,
    custom: D,
    old_buf: Seq<u8>,
    new_buf: Seq<u8>,
    r: Result<(), CompressionError>,
)
    requires
        decompress_outcome(payload, c, custom, old_buf, new_buf, r),
    ensures
        c == CompressionModel::Gzip ==> match gzip_decoded(payload) {
            Some(d) => r is Ok && new_buf == old_buf + d,
            None => r matches Err(CompressionError::Gzip(_)),
        },
        c == CompressionModel::ZLib ==> match zlib_decoded(payload) {
            Some(d) => r is Ok && new_buf == old_buf + d,
            None => r matches Err(CompressionError::ZLib(_)),
        },
        c == CompressionModel::Lz4 ==> match lz4_decoded(payload) {
            Some(d) => r is Ok && new_buf == old_buf + d,
            None => r matches Err(CompressionError::LZ4(_)),
        },
        c == CompressionModel::Uncompressed ==> r is Ok && new_buf == old_buf + payload,
{
}

/// **Reading codecs.** The decompressed chunk that `RegionReader::chunk`
/// and `decompress_to_internal_buffer` give (`decoded_outcome`) is what the
/// compression's own decoder reads of the payload.
pub proof fn law_decoded_codecs<D: CustomDecompression>(
    payload: Seq<u8>,
    c: CompressionModel,
    custom: D,
    r: Result<&[u8], McaError>,
)
    requires
        decoded_outcome(payload, c, custom, r),
    ensures
        c == CompressionModel::Gzip ==> match gzip_decoded(payload) {
            Some(d) => r is Ok && r->Ok_0@ == d,
            None => r is Err,
        },
        c == CompressionModel::ZLib ==> match zlib_decoded(payload) {
            Some(d) => r is Ok && r->Ok_0@ == d,
            None => r is Err,
        },
        c == CompressionModel::Lz4 ==> match lz4_decoded(payload) {
            Some(d) => r is Ok && r->Ok_0@ == d,
            None => r is Err,
        },
        c == CompressionModel::Uncompressed ==> r is Ok && r->Ok_0@ == payload,
{
}

/// **Compression codecs.** What `PendingData::compress` gives
/// (`compress_outcome`) for non-empty data is what the compression's own
/// encoder writes: flate2's `GzEncoder` for gzip and its `ZlibEncoder` for
/// zlib, lz4_java_wrc's `Lz4BlockOutput` for LZ4, and the data itself
/// without compression; the chunk is stored under that compression's byte.
pub proof fn law_compress_codecs<C: CustomCompression>(
    data: Seq<u8>,
    c: CompressionModel,
    custom: C,
    r: Result<Vec<u8>, McaError>,
)
    requires
        compress_outcome(data, c, custom, r),
        data.len() > 0,
    ensures
        c == CompressionModel::Gzip ==> r is Ok && r->Ok_0@ == gzip_encoded(data) && c.tag() == 1,
        c == CompressionModel::ZLib ==> r is Ok && r->Ok_0@ == zlib_encoded(data) && c.tag() == 2,
        c == CompressionModel::Uncompressed ==> r is Ok && r->Ok_0@ == data && c.tag() == 3,
        c == CompressionModel::Lz4 ==> r is Ok && r->Ok_0@ == lz4_encoded(data) && c.tag() == 4,
{
}

} // verus!
