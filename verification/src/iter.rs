use crate::custom_compression::CustomDecompression;
use crate::compression::CompressionModel;
use crate::error::McaError;
use crate::format::{coordinate_at, generated_list, lookup_chunk, ChunkLookup};
use crate::read::{vanilla_decoded, RegionReader};
use crate::REGION_SIZE;
use vstd::prelude::*;

verus! {

/// An iterator over the generated chunks of a region, decompressing each.
#[derive(Debug)]
pub struct RegionIter<'a, D: CustomDecompression> {
    region: &'a RegionReader<'a, D>,
    current: usize,
    chunks: Vec<(u8, u8)>,
}

/// A chunk's raw nbt data and its coordinates.
pub type AvailableChunk = ((u8, u8), Vec<u8>);

/// `r` is what `RegionIter::next_available_chunk` gives for the chunk at
/// `(x, z)` of the region bytes `d`, with `custom` for custom compressions:
/// the chunk's coordinate and decompressed bytes, or the error met on the
/// way.
pub open spec fn next_chunk_outcome<D: CustomDecompression>(
    d: Seq<u8>,
    x: u8,
    z: u8,
    custom: D,
    r: Result<Option<AvailableChunk>, McaError>,
) -> bool {
    match lookup_chunk(d, x, z) {
        ChunkLookup::OutOfRegion => r matches Err(McaError::InvalidChunkPosition(a, b)) && a == x
            && b == z,
        ChunkLookup::Absent => r matches Err(McaError::InvalidRegionIterChunk(_, a, b)) && a == x
            && b == z,
        ChunkLookup::NoDataLen => r matches Err(McaError::MissingDataLen),
        ChunkLookup::ViewOutOfBounds => r matches Err(McaError::FailedToCreateChunkView),
        ChunkLookup::EmptyView => r matches Err(McaError::NoChunkView),
        ChunkLookup::ShortCustomHeader => r matches Err(McaError::MissingChunkData),
        ChunkLookup::BadCustomId => r matches Err(McaError::InvalidUtf8(_)),
        ChunkLookup::Present(p, c) => match c {
            CompressionModel::Custom(_, id) => match custom.decompressed(p, id) {
                Ok(dd) => r matches Ok(Some((xz, v))) && xz == (x, z) && v@ == dd,
                Err(e) => r matches Err(McaError::Compression(e2)) && e2 == e,
            },
            _ => match vanilla_decoded(p, c) {
                Some(dd) => r matches Ok(Some((xz, v))) && xz == (x, z) && v@ == dd,
                None => r matches Err(McaError::Compression(_)),
            },
        },
    }
}

impl<'a, D: CustomDecompression> RegionIter<'a, D> {
    #[verifier::type_invariant]
    closed spec fn well_formed(self) -> bool {
        &&& self.current <= self.chunks@.len()
        &&& self.chunks@ == generated_list(self.region@)
    }

    /// The bytes of the region iterated over.
    pub closed spec fn bytes(&self) -> Seq<u8> {
        self.region@
    }

    /// The coordinates of the generated chunks, in iteration order.
    pub closed spec fn coordinates(&self) -> Seq<(u8, u8)> {
        self.chunks@
    }

    /// How many of the coordinates have been yielded.
    pub closed spec fn position(&self) -> nat {
        self.current as nat
    }

    /// The custom decompression of the region iterated over.
    pub closed spec fn custom(&self) -> D {
        self.region.custom()
    }

    /// Creates a [`RegionIter`] over all generated chunks of a region.
    pub fn new(region: &'a RegionReader<'a, D>) -> (r: Result<Self, McaError>)
        ensures
            r matches Ok(it) && it.bytes() == region@ && it.position() == 0 && it.coordinates()
                == generated_list(region@) && it.custom() == region.custom(),
    {
        let generated_chunks = match region.generated_chunks() {
            Ok(g) => g,
            Err(e) => return Err(e),
        };
        Ok(RegionIter { region, current: 0, chunks: generated_chunks })
    }

    /// Returns the next generated chunk of the region, decompressed; on an
    /// error the iterator stays where it is.
    pub fn next_available_chunk(&mut self) -> (r: Result<Option<AvailableChunk>, McaError>)
        ensures
            final(self).bytes() == old(self).bytes(),
            final(self).coordinates() == old(self).coordinates(),
            final(self).custom() == old(self).custom(),
            old(self).position() == old(self).coordinates().len() ==> (r matches Ok(None)
                && final(self).position() == old(self).position()),
            old(self).position() < old(self).coordinates().len() ==> {
                let (x, z) = old(self).coordinates()[old(self).position() as int];
                &&& next_chunk_outcome(old(self).bytes(), x, z, old(self).custom(), r)
                &&& r is Ok ==> final(self).position() == old(self).position() + 1
                &&& r is Err ==> final(self).position() == old(self).position()
            },
    {
        proof {
            use_type_invariant(&*self);
        }
        if self.current == self.chunks.len() {
            return Ok(None);
        }
        let (x, z) = self.chunks[self.current];
        let data = match self.region.chunk_data(x, z) {
            Ok(Some(d)) => d,
            Ok(None) => return Err(McaError::InvalidRegionIterChunk(self.chunks.clone(), x, z)),
            Err(e) => return Err(e),
        };
        let mut buf: Vec<u8> = Vec::new();
        if let Err(e) = RegionReader::decompress_data_ref(
            data.data,
            data.compression,
            &mut buf,
            self.region.custom_decompression_ref(),
        ) {
            return Err(McaError::Compression(e));
        }
        self.current = self.current + 1;
        Ok(Some(((x, z), buf)))
    }

    /// Returns the region that this iterator reads.
    pub fn region(&self) -> (r: &'a RegionReader<'a, D>)
        ensures
            r@ == self.bytes(),
    {
        self.region
    }
}

impl<'a, D: CustomDecompression> Clone for RegionIter<'a, D> {
    /// An iterator at the same position over the same region.
    fn clone(&self) -> (r: Self)
        ensures
            r.bytes() == self.bytes(),
            r.coordinates() == self.coordinates(),
            r.position() == self.position(),
            r.custom() == self.custom(),
    {
        proof {
            use_type_invariant(self);
        }
        let mut chunks: Vec<(u8, u8)> = Vec::new();
        let mut i: usize = 0;
        while i < self.chunks.len()
            invariant
                i <= self.chunks@.len(),
                chunks@ == self.chunks@.subrange(0, i as int),
            decreases self.chunks@.len() - i,
        {
            chunks.push(self.chunks[i]);
            i = i + 1;
            assert(self.chunks@.subrange(0, i as int) =~= self.chunks@.subrange(0, i - 1).push(self.chunks@[i - 1]));
        }
        assert(self.chunks@.subrange(0, self.chunks@.len() as int) =~= self.chunks@);
        RegionIter { region: self.region, current: self.current, chunks }
    }
}

/// An iterator over all chunk coordinates in a region: `x` runs over
/// 0..=31, and for each `x`, `z` over 0..=31.
#[derive(Debug, PartialEq, Eq, PartialOrd, Ord, Hash)]
pub struct ChunkIter(u16);

impl ChunkIter {
    #[verifier::type_invariant]
    closed spec fn in_range(self) -> bool {
        self.0 <= 1024
    }

    /// How many coordinates have been yielded.
    pub closed spec fn position(&self) -> nat {
        self.0 as nat
    }

    /// Creates a new chunk coordinate iterator.
    pub fn new() -> (r: Self)
        ensures
            r.position() == 0,
    {
        ChunkIter(0)
    }

    /// The next coordinate, `None` once all 1024 have been yielded.
    pub fn next(&mut self) -> (r: Option<(u8, u8)>)
        ensures
            old(self).position() == 1024 ==> r is None && final(self).position() == 1024,
            old(self).position() < 1024 ==> r == Some(coordinate_at(old(self).position() as int))
                && final(self).position() == old(self).position() + 1,
    {
        proof {
            use_type_invariant(&*self);
        }
        if self.0 == (REGION_SIZE * REGION_SIZE) as u16 {
            None
        } else {
            let coordinate = ((self.0 / REGION_SIZE as u16) as u8, (self.0 % REGION_SIZE as u16) as u8);
            self.0 = self.0 + 1;
            Some(coordinate)
        }
    }
}

impl Clone for ChunkIter {
    /// An iterator at the same position.
    fn clone(&self) -> (r: Self)
        ensures
            r.position() == self.position(),
    {
        proof {
            use_type_invariant(self);
        }
        ChunkIter(self.0)
    }
}

impl Default for ChunkIter {
    /// An iterator at the first coordinate.
    fn default() -> (r: Self)
        ensures
            r.position() == 0,
    {
        Self::new()
    }
}

} // verus!
