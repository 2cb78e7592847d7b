use mca::{ChunkIter, Compression, McaError, RegionReader, RegionWriter, REGION_SIZE, SECTOR_SIZE};
use rayon::iter::{IntoParallelIterator, ParallelIterator};

fn chunk_bytes(x: u8, z: u8) -> Vec<u8> {
    let mut v = Vec::new();
    v.extend_from_slice(b"Status:minecraft:full;");
    for i in 0..3000u32 {
        v.push(((i * 13 + x as u32 * 31 + z as u32 * 17) % 253) as u8);
    }
    v
}

/// A region with every chunk generated, zlib compressed.
fn full_region() -> Vec<u8> {
    let mut w = RegionWriter::new();
    let mut it = ChunkIter::new();
    while let Some((x, z)) = it.next() {
        w.set_chunk(x, z, chunk_bytes(x, z), Compression::ZLib).unwrap();
    }
    let mut out = Vec::new();
    w.write(&mut out).unwrap();
    out
}

/// A full region whose chunk at (4, 16) has its compressed bytes overwritten
/// with bytes that are no zlib stream.
fn corrupt_region() -> Vec<u8> {
    let mut data = full_region();
    let o = 4 * (4 + 16 * 32);
    let sector = ((data[o] as usize) << 16) | ((data[o + 1] as usize) << 8) | data[o + 2] as usize;
    let start = sector * SECTOR_SIZE;
    let len = u32::from_be_bytes([data[start], data[start + 1], data[start + 2], data[start + 3]]) as usize;
    let mut seed: u32 = 0x1234_5678;
    for b in &mut data[start + 5..start + 4 + len] {
        seed = seed.wrapping_mul(1_103_515_245).wrapping_add(12_345);
        *b = (seed >> 16) as u8;
    }
    data
}

#[test]
fn read_entire_region() -> Result<(), McaError> {
    let data = full_region();
    let mut region = RegionReader::new(&data)?;

    let mut coords = ChunkIter::new();
    while let Some((x, z)) = coords.next() {
        if let Some(chunk) = region.chunk(x, z)? {
            std::hint::black_box(chunk);
        }
    }

    Ok(())
}

#[test]
fn read_entire_region_parallel() -> Result<(), McaError> {
    let data = full_region();
    let region = RegionReader::new(&data)?;

    let sizes: Vec<usize> = (0..(REGION_SIZE * REGION_SIZE))
        .into_par_iter()
        .map(|s| {
            let chunk = match region.chunk_data((s % 32) as u8, (s / 32) as u8)? {
                Some(c) => c,
                None => return Ok(0),
            };

            let mut uncompressed = Vec::new();
            RegionReader::decompress_data_ref(chunk.data, chunk.compression, &mut uncompressed, &())?;

            Ok::<usize, McaError>(uncompressed.len())
        })
        .collect::<Result<Vec<usize>, McaError>>()?;

    assert_eq!(sizes.len(), REGION_SIZE * REGION_SIZE);

    Ok(())
}

#[test]
fn chunk_count() -> Result<(), McaError> {
    let data = full_region();
    let region = RegionReader::new(&data)?;

    let count = region.chunk_count()?;
    let generated = region.generated_chunks()?;

    assert_eq!(count, generated.len() as u16);

    Ok(())
}

#[test]
fn valid_timestamp() -> Result<(), McaError> {
    let data = full_region();
    let region = RegionReader::new(&data)?;

    let time = region.timestamp(0, 0)?;
    assert!(time > 0);

    Ok(())
}

#[test]
fn multiple_roundtrips() -> Result<(), McaError> {
    let data = full_region();
    let mut region = RegionReader::new(&data)?;

    let mut w = RegionWriter::new();
    let mut coords = ChunkIter::new();
    while let Some((x, z)) = coords.next() {
        let data = region.chunk_data(x, z)?.unwrap();
        let compression = data.compression.clone();
        let uncomp = region.decompress_to_internal_buffer(data)?;

        w.set_chunk(x, z, uncomp.to_vec(), compression)?;
    }
    let mut current = Vec::new();
    w.write(&mut current)?;

    // a fully written, compressed region
    let compare_data = current.clone();

    for i in 0..10 {
        let mut region = RegionReader::new(&current)?;
        let mut w = RegionWriter::new();

        let mut coords = ChunkIter::new();
        while let Some((x, z)) = coords.next() {
            let data = region.chunk_data(x, z)?.unwrap();
            let compression = data.compression.clone();
            let uncomp = region.decompress_to_internal_buffer(data)?;

            w.set_chunk(x, z, uncomp.to_vec(), compression)?;
        }

        let mut cmp = Vec::with_capacity(current.len());
        w.write(&mut cmp)?;

        assert_eq!(compare_data.len(), cmp.len(), "{i}");
        current = cmp;
    }

    Ok(())
}

#[test]
fn empty_reader() -> Result<(), McaError> {
    let empty = vec![0u8; SECTOR_SIZE * 2];
    let region = RegionReader::new(&empty)?;

    // iterator shouldnt yield anything
    let mut iterations = 0;
    let mut iter = region.iter()?;
    while let Some(_) = iter.next_available_chunk()? {
        iterations += 1;
    }

    assert_eq!(iterations, 0);
    assert_eq!(region.chunk_count()?, 0);
    assert_eq!(region.timestamp(30, 9)?, 0);

    Ok(())
}

#[test]
fn corrupt_chunk() -> Result<(), McaError> {
    let data = corrupt_region();
    let mut region = RegionReader::new(&data)?;

    assert!(region.chunk_count()? > 0);
    assert!(region.chunk(4, 16).is_err());

    Ok(())
}

#[test]
fn read_debug() -> Result<(), McaError> {
    let data = full_region();
    let r = RegionReader::new(&data)?;
    println!("{r:?}");
    println!("{:?}", r.chunk_data(8, 1)?.unwrap());
    println!("{:?}", r.chunk_data(31, 4)?.map(|c| c.data).unwrap());
    Ok(())
}

#[test]
fn reads_back_what_was_set() -> Result<(), McaError> {
    let mut w = RegionWriter::new();
    w.set_chunk(3, 7, chunk_bytes(3, 7), Compression::Gzip)?;
    w.set_chunk(31, 0, chunk_bytes(31, 0), Compression::Uncompressed)?;
    w.set_chunk(0, 31, chunk_bytes(0, 31), Compression::Lz4)?;
    let mut out = Vec::new();
    let n = w.write(&mut out)?;
    assert_eq!(n, out.len());
    assert_eq!(out.len() % SECTOR_SIZE, 0);

    let mut region = RegionReader::new(&out)?;
    assert_eq!(region.generated_chunks()?, vec![(0, 31), (3, 7), (31, 0)]);
    assert_eq!(region.chunk(3, 7)?.unwrap(), chunk_bytes(3, 7).as_slice());
    assert_eq!(region.chunk(31, 0)?.unwrap(), chunk_bytes(31, 0).as_slice());
    assert_eq!(region.chunk(0, 31)?.unwrap(), chunk_bytes(0, 31).as_slice());
    assert_eq!(region.chunk(5, 5)?, None);
    assert_eq!(region.chunk_data(31, 0)?.unwrap().compression, Compression::Uncompressed);
    Ok(())
}

#[test]
fn missing_headers() {
    let short = vec![0u8; 8191];
    assert!(matches!(RegionReader::new(&short), Err(McaError::MissingHeaders(8191))));
    assert!(RegionReader::new(&vec![0u8; 8192]).is_ok());
}

#[test]
fn invalid_chunk_position() -> Result<(), McaError> {
    let data = vec![0u8; SECTOR_SIZE * 2];
    let mut region = RegionReader::new(&data)?;
    assert!(matches!(region.chunk(32, 0), Err(McaError::InvalidChunkPosition(32, 0))));
    assert!(matches!(region.chunk_data(0, 40), Err(McaError::InvalidChunkPosition(0, 40))));
    Ok(())
}

/// A region of two header sectors plus `extra` bytes, with the location
/// entry of chunk (0, 0) pointing at sector 2.
fn region_with_entry(extra: &[u8]) -> Vec<u8> {
    let mut d = vec![0u8; SECTOR_SIZE * 2];
    d[0..4].copy_from_slice(&[0, 0, 2, 1]);
    d.extend_from_slice(extra);
    d
}

#[test]
fn data_length_errors() -> Result<(), McaError> {
    // the location points past the end: no data length
    let d = region_with_entry(&[]);
    assert!(matches!(RegionReader::new(&d)?.chunk_data(0, 0), Err(McaError::MissingDataLen)));

    // the data length points past the end
    let d = region_with_entry(&[0, 0, 0, 9, 2, 1]);
    assert!(matches!(RegionReader::new(&d)?.chunk_data(0, 0), Err(McaError::FailedToCreateChunkView)));

    // an empty chunk view
    let d = region_with_entry(&[0, 0, 0, 0]);
    assert!(matches!(RegionReader::new(&d)?.chunk_data(0, 0), Err(McaError::NoChunkView)));

    // a custom id that is no utf-8
    let d = region_with_entry(&[0, 0, 0, 5, 127, 0, 1, 0xff, 7]);
    assert!(matches!(RegionReader::new(&d)?.chunk_data(0, 0), Err(McaError::InvalidUtf8(_))));
    Ok(())
}

#[test]
fn custom_compression_unsupported() -> Result<(), McaError> {
    // compression byte 127, id "ab", payload [9, 9]
    let d = region_with_entry(&[0, 0, 0, 7, 127, 0, 2, b'a', b'b', 9, 9]);
    let mut region = RegionReader::new(&d)?;
    let data = region.chunk_data(0, 0)?.unwrap();
    assert_eq!(data.compression, Compression::Custom((127, "ab".to_string())));
    assert_eq!(data.data.as_ref(), &[9, 9]);
    assert!(matches!(region.chunk(0, 0), Err(McaError::Compression(mca::CompressionError::Unsupported))));
    Ok(())
}

#[test]
fn uncompressed_payload_is_returned_as_is() -> Result<(), McaError> {
    let d = region_with_entry(&[0, 0, 0, 4, 3, 1, 2, 3]);
    let mut region = RegionReader::new(&d)?;
    assert_eq!(region.chunk(0, 0)?.unwrap(), &[1, 2, 3]);
    assert_eq!(region.generated_chunks()?, vec![(0, 0)]);
    Ok(())
}

#[test]
fn short_custom_header_is_an_error() -> Result<(), McaError> {
    let d = region_with_entry(&[0, 0, 0, 2, 127, 0]);
    assert!(matches!(RegionReader::new(&d)?.chunk_data(0, 0), Err(McaError::MissingChunkData)));
    let d = region_with_entry(&[0, 0, 0, 4, 127, 0, 9, 1]);
    let mut r = RegionReader::new(&d)?;
    assert!(matches!(r.chunk(0, 0), Err(McaError::MissingChunkData)));
    assert!(matches!(r.into_writer(()), Err(McaError::MissingChunkData)));
    Ok(())
}

#[test]
fn into_writer_keeps_chunks_compressed() -> Result<(), McaError> {
    let data = full_region();
    let r = RegionReader::new(&data)?;
    let stamp = r.timestamp(8, 24)?;
    let raw = r.chunk_data(8, 24)?.unwrap();
    let w = r.into_writer(())?;
    let e = w.chunk(8, 24)?.as_ref().unwrap();
    assert_eq!(e.data, mca::PendingData::new_compressed(raw.data.as_ref(), Compression::ZLib));
    assert_eq!(e.timestamp, Some(stamp));
    assert_eq!(e.chunk, (8, 24));
    assert_eq!(w.changed_chunks(), 0);

    // written back unmodified, the region is the same
    let mut out = Vec::new();
    w.write(&mut out)?;
    assert_eq!(out, data);
    Ok(())
}

#[test]
fn decompress_keeps_buffer_on_custom_error() {
    let mut buf = vec![9u8];
    let mut buf2 = vec![9u8];
    assert!(RegionReader::<()>::decompress_data_ref(
        mca::CompressedChunk::new(&[1, 2, 3]),
        Compression::Uncompressed,
        &mut buf,
        &()
    )
    .is_ok());
    assert_eq!(buf, [9, 1, 2, 3]);
    assert!(matches!(
        RegionReader::<()>::decompress_data_ref(
            mca::CompressedChunk::new(&[1, 2, 3]),
            Compression::new_custom("lzma"),
            &mut buf2,
            &()
        ),
        Err(mca::CompressionError::Unsupported)
    ));
    assert_eq!(buf2, [9]);
}
