//! The header tables of a written region, for chunks of any compression:
//! where each chunk's entries point and what timestamp they carry.

use crate::format::{
    be24_at, be24_bytes, be32_at, be32_bytes, chunk_timestamp, has_location, location_table,
    payloads, region_bytes, sectors_total, stamp_of, timestamp_table, zeros, PackedModel,
    lemma_sectors_prefix,
};
use crate::laws::{count_some, lemma_be24_roundtrip, lemma_be32_roundtrip};
use crate::spec_header_offset;
use crate::error::McaError;
use crate::write::{clock_reading, packed_write_outcome, packs_entry, packs_upto, region_written, WritableChunk};
use vstd::prelude::*;

verus! {

/// The header offset of a packed chunk.
pub open spec fn offset_of(m: PackedModel) -> int {
    spec_header_offset(m.chunk.0, m.chunk.1)
}

/// Header offsets are four byte aligned entries of one sector, so two
/// different ones are four bytes apart or more.
proof fn lemma_offsets_apart(a: PackedModel, h: int)
    requires
        h % 4 == 0,
        offset_of(a) != h,
    ensures
        0 <= offset_of(a) <= 4092,
        offset_of(a) + 4 <= h || h + 4 <= offset_of(a),
{
    let p = (a.chunk.0 as int % 32) + (a.chunk.1 as int % 32) * 32;
    assert(offset_of(a) == 4 * p);
    assert(0 <= p < 1024);
}

/// No chunk other than the `i`th has the header entries of the `i`th.
pub open spec fn entry_unique(ms: Seq<PackedModel>, i: int) -> bool {
    forall|a: int| 0 <= a < ms.len() && a != i ==> #[trigger] offset_of(ms[a]) != offset_of(ms[i])
}

/// Both header tables are one sector long.
proof fn lemma_tables_len(ms: Seq<PackedModel>, t: u32)
    ensures
        location_table(ms).len() == 4096,
        timestamp_table(ms, t).len() == 4096,
    decreases ms.len(),
{
    if ms.len() > 0 {
        lemma_tables_len(ms.drop_last(), t);
    }
}

/// The entries of the `i`th chunk, where no other chunk has them, hold its
/// first sector and sector count, and its timestamp.
proof fn lemma_unique_entry(ms: Seq<PackedModel>, t: u32, i: int, k: int)
    requires
        0 <= i < ms.len(),
        0 <= k < 4,
        entry_unique(ms, i),
    ensures
        location_table(ms)[offset_of(ms[i]) + k] == (be24_bytes((2 + sectors_total(ms.take(i))) as int)
            + seq![(ms[i].sector_size % 256) as u8])[k],
        timestamp_table(ms, t)[offset_of(ms[i]) + k] == be32_bytes(stamp_of(ms[i], t) as int)[k],
    decreases ms.len(),
{
    lemma_tables_len(ms, t);
    lemma_tables_len(ms.drop_last(), t);
    let m = ms.last();
    assert(m == ms[ms.len() - 1]);
    if i == ms.len() - 1 {
        assert(ms.take(i) =~= ms.drop_last());
    } else {
        let d = ms.drop_last();
        assert(d[i] == ms[i]);
        assert(offset_of(m) != offset_of(ms[i]));
        lemma_offsets_apart(ms[i], offset_of(ms[i]) + 4);
        lemma_offsets_apart(m, offset_of(ms[i]));
        assert forall|a: int| 0 <= a < d.len() && a != i implies #[trigger] offset_of(d[a]) != offset_of(d[i]) by {
            assert(d[a] == ms[a]);
        }
        lemma_unique_entry(d, t, i, k);
        assert(d.take(i) =~= ms.take(i));
    }
}

/// The entries at an offset that no chunk has stay zero.
proof fn lemma_free_entry(ms: Seq<PackedModel>, t: u32, h: int, k: int)
    requires
        0 <= h < 4096,
        h % 4 == 0,
        0 <= k < 4,
        forall|a: int| 0 <= a < ms.len() ==> #[trigger] offset_of(ms[a]) != h,
    ensures
        location_table(ms)[h + k] == 0,
        timestamp_table(ms, t)[h + k] == 0,
    decreases ms.len(),
{
    lemma_tables_len(ms, t);
    if ms.len() > 0 {
        let d = ms.drop_last();
        assert(ms.last() == ms[ms.len() - 1]);
        lemma_offsets_apart(ms.last(), h);
        assert forall|a: int| 0 <= a < d.len() implies #[trigger] offset_of(d[a]) != h by {
            assert(d[a] == ms[a]);
        }
        lemma_free_entry(d, t, h, k);
        lemma_tables_len(d, t);
    }
}

/// **Header layout.** In the bytes that `RegionWriter::write_packed`
/// writes for chunks whose header entries are their own (under 2^24
/// sectors), each chunk's location entry holds the sector after the chunks
/// before it and the low byte of its sector count, its timestamp entry holds
/// its timestamp (or `t`), every entry that no chunk has is zero, and the
/// payloads follow the two header sectors.
pub proof fn law_header_layout(ms: Seq<PackedModel>, t: u32)
    requires
        forall|i: int| 0 <= i < ms.len() ==> #[trigger] entry_unique(ms, i),
        2 + sectors_total(ms) < 0x1000000,
    ensures
        region_bytes(ms, t).len() == 8192 + payloads(ms).len(),
        forall|i: int| 0 <= i < ms.len() ==> {
            &&& be24_at(region_bytes(ms, t), #[trigger] offset_of(ms[i])) == 2 + sectors_total(ms.take(i))
            &&& region_bytes(ms, t)[offset_of(ms[i]) + 3] == ms[i].sector_size % 256
            &&& chunk_timestamp(region_bytes(ms, t), ms[i].chunk.0, ms[i].chunk.1) == stamp_of(ms[i], t)
        },
        forall|x: u8, z: u8|
            x < 32 && z < 32 && (forall|a: int| 0 <= a < ms.len() ==> offset_of(ms[a]) != spec_header_offset(x, z))
                ==> {
                &&& !has_location(#[trigger] region_bytes(ms, t), x, z)
                &&& chunk_timestamp(region_bytes(ms, t), x, z) == 0
            },
{
    let d = region_bytes(ms, t);
    lemma_tables_len(ms, t);
    assert forall|i: int| 0 <= i < ms.len() implies {
        &&& be24_at(region_bytes(ms, t), #[trigger] offset_of(ms[i])) == 2 + sectors_total(ms.take(i))
        &&& region_bytes(ms, t)[offset_of(ms[i]) + 3] == ms[i].sector_size % 256
        &&& chunk_timestamp(region_bytes(ms, t), ms[i].chunk.0, ms[i].chunk.1) == stamp_of(ms[i], t)
    } by {
        lemma_entries_of(ms, t, i);
    }
    assert forall|x: u8, z: u8|
        x < 32 && z < 32 && (forall|a: int| 0 <= a < ms.len() ==> offset_of(ms[a]) != spec_header_offset(x, z))
            implies {
            &&& !has_location(#[trigger] region_bytes(ms, t), x, z)
            &&& chunk_timestamp(region_bytes(ms, t), x, z) == 0
        } by {
        let h = spec_header_offset(x, z);
        assert forall|a: int| 0 <= a < ms.len() implies #[trigger] offset_of(ms[a]) != h by {}
        lemma_free_entry(ms, t, h, 0);
        lemma_free_entry(ms, t, h, 1);
        lemma_free_entry(ms, t, h, 2);
        lemma_free_entry(ms, t, h, 3);
    }
}

/// The timestamp entry of the `i`th chunk, where no other chunk has its
/// entries.
proof fn lemma_stamp_of(ms: Seq<PackedModel>, t: u32, i: int)
    requires
        0 <= i < ms.len(),
        entry_unique(ms, i),
    ensures
        chunk_timestamp(region_bytes(ms, t), ms[i].chunk.0, ms[i].chunk.1) == stamp_of(ms[i], t),
{
    let tt = timestamp_table(ms, t);
    let h = offset_of(ms[i]);
    lemma_tables_len(ms, t);
    lemma_unique_entry(ms, t, i, 0);
    lemma_unique_entry(ms, t, i, 1);
    lemma_unique_entry(ms, t, i, 2);
    lemma_unique_entry(ms, t, i, 3);
    let d = region_bytes(ms, t);
    assert(d[4096 + h] == tt[h] && d[4096 + h + 1] == tt[h + 1] && d[4096 + h + 2] == tt[h + 2]
        && d[4096 + h + 3] == tt[h + 3]);
    lemma_be32_roundtrip(stamp_of(ms[i], t) as int);
    assert(chunk_timestamp(d, ms[i].chunk.0, ms[i].chunk.1) == be32_at(be32_bytes(stamp_of(ms[i], t) as int), 0));
}

/// The packed chunks of the first `n` entries are the entries' chunks in
/// order: the chunk of entry `j` is packed chunk number `count_some(entries, j)`.
proof fn lemma_packs_index(entries: Seq<Option<WritableChunk>>, n: nat, ms: Seq<PackedModel>)
    requires
        n <= entries.len(),
        packs_upto(entries, n, ms),
    ensures
        ms.len() == count_some(entries, n),
        forall|j: int| 0 <= j < n && #[trigger] entries[j] is Some ==> count_some(entries, j as nat) < ms.len()
            && packs_entry(entries[j]->0, ms[count_some(entries, j as nat) as int]),
    decreases n,
{
    if n > 0 {
        let j0 = n - 1;
        if entries[j0] is None {
            lemma_packs_index(entries, j0 as nat, ms);
        } else {
            let d = ms.drop_last();
            lemma_packs_index(entries, j0 as nat, d);
            assert forall|j: int| 0 <= j < n && #[trigger] entries[j] is Some implies count_some(entries, j as nat)
                < ms.len() && packs_entry(entries[j]->0, ms[count_some(entries, j as nat) as int]) by {
                if j < j0 {
                    assert(ms[count_some(entries, j as nat) as int] == d[count_some(entries, j as nat) as int]);
                }
            }
        }
    }
}

/// Where no entry below `n` but the `j`th has the header offset `h`, no
/// packed chunk but that of entry `j` has it.
proof fn lemma_others_differ(entries: Seq<Option<WritableChunk>>, n: nat, ms: Seq<PackedModel>, j: int, h: int)
    requires
        n <= entries.len(),
        packs_upto(entries, n, ms),
        0 <= j < entries.len(),
        entries[j] is Some,
        forall|i: int|
            0 <= i < n && i != j && #[trigger] entries[i] is Some ==> spec_header_offset(
                entries[i]->0.chunk.0,
                entries[i]->0.chunk.1,
            ) != h,
    ensures
        forall|a: int|
            0 <= a < ms.len() && (n <= j || a != count_some(entries, j as nat)) ==> #[trigger] offset_of(ms[a])
                != h,
    decreases n,
{
    lemma_packs_index(entries, n, ms);
    if n > 0 {
        let j0 = n - 1;
        if entries[j0] is None {
            lemma_packs_index(entries, j0 as nat, ms);
            lemma_others_differ(entries, j0 as nat, ms, j, h);
        } else {
            let d = ms.drop_last();
            let m = ms.last();
            lemma_packs_index(entries, j0 as nat, d);
            lemma_others_differ(entries, j0 as nat, d, j, h);
            assert(packs_entry(entries[j0]->0, m));
            assert forall|a: int|
                0 <= a < ms.len() && (n <= j || a != count_some(entries, j as nat)) implies #[trigger] offset_of(
                ms[a],
            ) != h by {
                if a < d.len() {
                    assert(ms[a] == d[a]);
                    if j < j0 {
                        assert(a != count_some(entries, j as nat));
                    }
                } else {
                    assert(ms[a] == m);
                    assert(a == count_some(entries, j0 as nat));
                    assert(j0 != j);
                }
            }
        }
    }
}

/// **Own timestamp.** In a region that `RegionWriter::write` produced, a
/// chunk whose header entries no other chunk of the writer has carries its
/// own timestamp, or the time of writing where it has none.
pub proof fn law_written_timestamp(
    entries: Seq<Option<WritableChunk>>,
    ms: Seq<PackedModel>,
    t: u32,
    out: Seq<u8>,
    r: Result<usize, McaError>,
    j: int,
)
    requires
        entries.len() == 1024,
        region_written(entries, ms, t, Seq::empty(), out, r),
        0 <= j < 1024,
        entries[j] is Some,
        forall|i: int|
            0 <= i < 1024 && i != j && #[trigger] entries[i] is Some ==> spec_header_offset(
                entries[i]->0.chunk.0,
                entries[i]->0.chunk.1,
            ) != spec_header_offset(entries[j]->0.chunk.0, entries[j]->0.chunk.1),
    ensures
        chunk_timestamp(out, entries[j]->0.chunk.0, entries[j]->0.chunk.1) == match entries[j]->0.timestamp {
            Some(ts) => ts,
            None => t,
        },
{
    lemma_packs_index(entries, 1024, ms);
    let w = entries[j]->0;
    let k = count_some(entries, j as nat) as int;
    assert(packs_entry(w, ms[k]));
    lemma_others_differ(entries, 1024, ms, j, offset_of(ms[k]));
    assert(out =~= region_bytes(ms, t));
    lemma_stamp_of(ms, t, k);
}

/// The location and timestamp entries of the `i`th chunk, where no other
/// chunk has them.
proof fn lemma_entries_of(ms: Seq<PackedModel>, t: u32, i: int)
    requires
        0 <= i < ms.len(),
        entry_unique(ms, i),
        2 + sectors_total(ms) < 0x1000000,
    ensures
        be24_at(region_bytes(ms, t), offset_of(ms[i])) == 2 + sectors_total(ms.take(i)),
        region_bytes(ms, t)[offset_of(ms[i]) + 3] == ms[i].sector_size % 256,
        chunk_timestamp(region_bytes(ms, t), ms[i].chunk.0, ms[i].chunk.1) == stamp_of(ms[i], t),
{
    let l = location_table(ms);
    let tt = timestamp_table(ms, t);
    let h = offset_of(ms[i]);
    let s = (2 + sectors_total(ms.take(i))) as int;
    lemma_tables_len(ms, t);
    lemma_sectors_prefix(ms, i);
    lemma_unique_entry(ms, t, i, 0);
    lemma_unique_entry(ms, t, i, 1);
    lemma_unique_entry(ms, t, i, 2);
    lemma_unique_entry(ms, t, i, 3);
    let d = region_bytes(ms, t);
    assert(d[h] == l[h] && d[h + 1] == l[h + 1] && d[h + 2] == l[h + 2] && d[h + 3] == l[h + 3]);
    assert(d[4096 + h] == tt[h] && d[4096 + h + 1] == tt[h + 1] && d[4096 + h + 2] == tt[h + 2]
        && d[4096 + h + 3] == tt[h + 3]);
    lemma_be24_roundtrip(s);
    assert(be24_at(d, h) == be24_at(be24_bytes(s), 0));
    lemma_be32_roundtrip(stamp_of(ms[i], t) as int);
    assert(chunk_timestamp(d, ms[i].chunk.0, ms[i].chunk.1) == be32_at(be32_bytes(stamp_of(ms[i], t) as int), 0));
}

} // verus!

verus! {

/// **Time of writing.** In a region that `RegionWriter::write_packed`
/// wrote (its `ensures`: some reading `t` of the clock with the bytes it
/// gives), every chunk whose header entries are its own carries its own
/// timestamp, and the chunks without one all carry that one reading of the
/// clock, as `current_timestamp` gives it.
pub proof fn law_packed_clock_time(ms: Seq<PackedModel>, before: Seq<u8>, after: Seq<u8>, r: Result<usize, McaError>)
    requires
        exists|t: u32| clock_reading(t) && #[trigger] packed_write_outcome(ms, t, before, after, r),
        r is Ok,
        forall|i: int| 0 <= i < ms.len() ==> #[trigger] entry_unique(ms, i),
    ensures
        exists|t: u32|
            clock_reading(t) && forall|i: int|
                0 <= i < ms.len() ==> #[trigger] chunk_timestamp(
                    after.subrange(before.len() as int, after.len() as int),
                    ms[i].chunk.0,
                    ms[i].chunk.1,
                ) == match ms[i].timestamp {
                    Some(ts) => ts,
                    None => t,
                },
{
    let t = choose|t: u32| clock_reading(t) && #[trigger] packed_write_outcome(ms, t, before, after, r);
    let d = after.subrange(before.len() as int, after.len() as int);
    assert(d =~= region_bytes(ms, t));
    assert forall|i: int| 0 <= i < ms.len() implies #[trigger] chunk_timestamp(d, ms[i].chunk.0, ms[i].chunk.1)
        == match ms[i].timestamp {
        Some(ts) => ts,
        None => t,
    } by {
        lemma_stamp_of(ms, t, i);
    }
}

/// **Timestamps of a written region.** In a region that `RegionWriter::write`
/// wrote (its `ensures`: packed chunks `ms` and a reading `t` of the clock),
/// a chunk whose header entries no other chunk of the writer has carries its
/// own timestamp, or, where it has none, a reading of the clock taken by the
/// write. A chunk that `RegionWriter::set_chunk` stored carries the clock
/// reading of that call, so either way the header holds a time the clock
/// gave.
pub proof fn law_write_clock_time(
    entries: Seq<Option<WritableChunk>>,
    out: Seq<u8>,
    r: Result<usize, McaError>,
    j: int,
)
    requires
        entries.len() == 1024,
        exists|ms: Seq<PackedModel>, t: u32|
            clock_reading(t) && #[trigger] region_written(entries, ms, t, Seq::empty(), out, r),
        0 <= j < 1024,
        entries[j] is Some,
        forall|i: int|
            0 <= i < 1024 && i != j && #[trigger] entries[i] is Some ==> spec_header_offset(
                entries[i]->0.chunk.0,
                entries[i]->0.chunk.1,
            ) != spec_header_offset(entries[j]->0.chunk.0, entries[j]->0.chunk.1),
    ensures
        entries[j]->0.timestamp matches Some(ts) ==> chunk_timestamp(
            out,
            entries[j]->0.chunk.0,
            entries[j]->0.chunk.1,
        ) == ts,
        entries[j]->0.timestamp is None ==> clock_reading(
            chunk_timestamp(out, entries[j]->0.chunk.0, entries[j]->0.chunk.1) as u32,
        ),
{
    let (ms, t) = choose|ms: Seq<PackedModel>, t: u32|
        clock_reading(t) && #[trigger] region_written(entries, ms, t, Seq::empty(), out, r);
    law_written_timestamp(entries, ms, t, out, r, j);
}

} // verus!
