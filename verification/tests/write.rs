use std::borrow::Cow;

use mca::{
    current_timestamp, ChunkIter, Compression, CompressionError, McaError, PackedChunk, PendingData,
    PendingUncompressed, RegionReader, RegionWriter, WritableChunk, SECTOR_SIZE,
};

fn chunk_bytes(x: u8, z: u8) -> Vec<u8> {
    let mut v = Vec::new();
    v.extend_from_slice(b"Status:minecraft:full;");
    for i in 0..2500u32 {
        v.push(((i * 11 + x as u32 * 29 + z as u32 * 19) % 241) as u8);
    }
    v
}

/// A region with every chunk (or every other chunk) generated.
fn region_bytes(compression: Compression, half: bool) -> Vec<u8> {
    let mut w = RegionWriter::new();
    let mut it = ChunkIter::new();
    while let Some((x, z)) = it.next() {
        if !half || (x + z) % 2 == 0 {
            w.set_chunk(x, z, chunk_bytes(x, z), compression.clone()).unwrap();
        }
    }
    let mut out = Vec::new();
    w.write(&mut out).unwrap();
    out
}

#[test]
fn write_full() -> Result<(), McaError> {
    let data = region_bytes(Compression::ZLib, false);
    let reader = RegionReader::new(&data)?;
    let region = reader.into_writer(())?;

    let mut out = Vec::new();
    region.write(&mut out)?;

    Ok(())
}

#[test]
fn write_lz4() -> Result<(), McaError> {
    let data = region_bytes(Compression::Lz4, false);
    let reader = RegionReader::new(&data)?;
    let region = reader.into_writer(())?;

    let mut out = Vec::new();
    region.write(&mut out)?;

    Ok(())
}

#[test]
fn write_none() -> Result<(), McaError> {
    let data = region_bytes(Compression::Uncompressed, false);
    let reader = RegionReader::new(&data)?;
    let region = reader.into_writer(())?;

    let mut out = Vec::new();
    region.write(&mut out)?;

    Ok(())
}

#[test]
fn write_empty() -> Result<(), McaError> {
    let data = vec![0u8; SECTOR_SIZE * 2];
    let reader = RegionReader::new(&data)?;
    let region = reader.into_writer(())?;

    let mut out = Vec::new();
    region.write(&mut out)?;

    Ok(())
}

#[test]
fn empty_writer() -> Result<(), McaError> {
    let writer = RegionWriter::new();

    let mut buf = Vec::new();
    writer.write(&mut buf)?;

    assert_eq!(buf.len(), SECTOR_SIZE * 2);

    Ok(())
}

#[test]
fn sector_size() {
    assert_eq!(RegionWriter::sector_size(0, &Compression::Uncompressed), 1);
    assert_eq!(RegionWriter::sector_size(1842, &Compression::Uncompressed), 1);
    assert_eq!(RegionWriter::sector_size(8180, &Compression::Uncompressed), 2);
    assert_eq!(RegionWriter::sector_size(11421, &Compression::Uncompressed), 3);
}

#[test]
fn chunk_view_len() {
    assert_eq!(RegionWriter::chunk_view_len(0, &Compression::Uncompressed), 5);
    assert_eq!(RegionWriter::chunk_view_len(6180, &Compression::Uncompressed), 6185);
    assert_eq!(RegionWriter::chunk_view_len(1000, &Compression::new_custom("test")), 1011);
}

#[test]
fn chunk_none() -> Result<(), McaError> {
    let writer = RegionWriter::new();
    assert_eq!(*writer.chunk(5, 12)?, None);
    Ok(())
}

#[test]
fn chunk_mut() -> Result<(), McaError> {
    let data = region_bytes(Compression::ZLib, false);
    let r = RegionReader::new(&data)?;
    let mut writer = r.into_writer(())?;

    *writer.chunk_mut(8, 1)? = Some(WritableChunk {
        data: PendingData::Uncompressed(PendingUncompressed {
            buf: Cow::Owned(vec![5, 4, 3, 2, 1]),
            compression: Compression::Uncompressed,
        }),
        chunk: (8, 1),
        timestamp: None,
    });

    assert_eq!(
        writer.chunk(8, 1)?.as_ref().unwrap().data,
        PendingData::Uncompressed(PendingUncompressed {
            buf: Cow::Owned(vec![5, 4, 3, 2, 1]),
            compression: Compression::Uncompressed
        })
    );

    Ok(())
}

#[test]
fn let_chunk_mut() -> Result<(), McaError> {
    let data = region_bytes(Compression::ZLib, false);
    let r = RegionReader::new(&data)?;
    let mut writer = r.into_writer(())?;

    if let Some(chunk) = writer.chunk_mut(1, 0)? {
        let data = chunk.data.as_uncompressed_mut(&())?;
        data.compression = Compression::Lz4;
    }

    Ok(())
}

#[test]
fn recompression() -> Result<(), McaError> {
    let data = region_bytes(Compression::ZLib, false);
    let r = RegionReader::new(&data)?;
    let mut writer = r.into_writer(())?;

    let mut coords = ChunkIter::new();
    while let Some((x, z)) = coords.next() {
        if let Some(chunk) = writer.chunk_mut(x, z)? {
            let data = chunk.data.as_uncompressed_mut(&())?;
            data.compression = Compression::Lz4;
        }
    }

    let mut buf = Vec::with_capacity(data.len());
    writer.write(&mut buf)?;

    let mut back = RegionReader::new(&buf)?;
    assert_eq!(back.chunk_data(2, 3)?.unwrap().compression, Compression::Lz4);
    assert_eq!(back.chunk(2, 3)?.unwrap(), chunk_bytes(2, 3).as_slice());

    Ok(())
}

#[test]
fn set_chunk() -> Result<(), McaError> {
    let mut w = RegionWriter::new();
    assert_eq!(w.changed_chunks(), 0);
    w.set_chunk(4, 21, Vec::new(), Compression::Uncompressed)?;
    assert_eq!(w.changed_chunks(), 1);
    w.clear_chunk(4, 21)?;
    assert_eq!(w.changed_chunks(), 0);
    Ok(())
}

#[test]
fn write_packed() -> Result<(), McaError> {
    let chunks = vec![
        PackedChunk::default(),
        PackedChunk {
            compressed: vec![1, 0, 1, 0, 0, 1].into(),
            compression: Compression::ZLib,
            chunk: (31, 23),
            sector_size: 1,
            timestamp: Some(current_timestamp()),
        },
    ];

    let mut buf = Vec::new();
    RegionWriter::write_packed(&mut buf, chunks)?;

    Ok(())
}

#[test]
fn write_debug() -> Result<(), McaError> {
    let half = region_bytes(Compression::ZLib, true);
    let full = region_bytes(Compression::ZLib, false);
    println!("{:?}", RegionReader::new(&half)?.into_writer(())?);
    println!("{:?}", RegionReader::new(&full)?.into_writer(())?.chunk(1, 15)?.as_ref().unwrap());
    println!("{:?}", PendingData::new_compressed(vec![0, 1, 1, 0, 0, 0, 1], Compression::Uncompressed));
    println!(
        "{:?}",
        WritableChunk {
            data: PendingData::new_uncompressed(vec![1, 1, 1, 0, 0, 0, 1], Compression::ZLib),
            chunk: (5, 9),
            timestamp: None
        }
    );
    println!(
        "{:?}",
        PackedChunk {
            compressed: vec![0, 1, 1, 0, 0, 1, 1, 0].into(),
            compression: Compression::Lz4,
            chunk: (1, 4),
            sector_size: 1,
            timestamp: None
        }
    );
    Ok(())
}

#[test]
fn write_packed_exact_bytes() -> Result<(), McaError> {
    let chunks = vec![PackedChunk {
        compressed: vec![7, 8, 9].into(),
        compression: Compression::Uncompressed,
        chunk: (0, 1),
        sector_size: 1,
        timestamp: Some(0x0102_0304),
    }];
    let mut buf = vec![0xaa];
    let n = RegionWriter::write_packed_at(&mut buf, chunks, 99)?;
    assert_eq!(n, 3 * SECTOR_SIZE);
    assert_eq!(buf.len(), 1 + 3 * SECTOR_SIZE);
    let region = &buf[1..];
    // location entry of (0, 1), at 4 * (x + 32 * z): sector 2, one sector long
    assert_eq!(&region[128..132], &[0, 0, 2, 1]);
    // timestamp entry of (0, 1)
    assert_eq!(&region[SECTOR_SIZE + 128..SECTOR_SIZE + 132], &[1, 2, 3, 4]);
    // payload: length 4, compression byte 3, the data, then zeros
    assert_eq!(&region[2 * SECTOR_SIZE..2 * SECTOR_SIZE + 8], &[0, 0, 0, 4, 3, 7, 8, 9]);
    assert!(region[2 * SECTOR_SIZE + 8..].iter().all(|b| *b == 0));
    Ok(())
}

#[test]
fn write_packed_time_for_missing_stamps() -> Result<(), McaError> {
    let chunks = vec![PackedChunk {
        compressed: vec![1].into(),
        compression: Compression::Uncompressed,
        chunk: (2, 0),
        sector_size: 1,
        timestamp: None,
    }];
    let mut buf = Vec::new();
    RegionWriter::write_packed_at(&mut buf, chunks, 0x0a0b_0c0d)?;
    let o = SECTOR_SIZE + 4 * (2 + 0 * 32);
    assert_eq!(&buf[o..o + 4], &[0x0a, 0x0b, 0x0c, 0x0d]);
    Ok(())
}

#[test]
fn custom_id_too_big() {
    let id = "x".repeat(256);
    let chunks = vec![PackedChunk {
        compressed: vec![1, 2].into(),
        compression: Compression::new_custom(&id),
        chunk: (0, 0),
        sector_size: 1,
        timestamp: Some(1),
    }];
    let mut buf = Vec::new();
    match RegionWriter::write_packed_at(&mut buf, chunks, 5) {
        Err(McaError::Compression(CompressionError::CustomIdTooBig(s))) => assert_eq!(s, id),
        other => panic!("unexpected {other:?}"),
    }
}

#[test]
fn custom_compression_is_unsupported_by_default() {
    let mut w = RegionWriter::new();
    w.set_chunk(0, 0, vec![1, 2, 3], Compression::new_custom("mine")).unwrap();
    let mut out = Vec::new();
    assert!(matches!(w.write(&mut out), Err(McaError::Compression(CompressionError::Unsupported))));
}

#[test]
fn set_chunk_outside_region() {
    let mut w = RegionWriter::new();
    assert!(matches!(
        w.set_chunk(32, 0, vec![1], Compression::ZLib),
        Err(McaError::InvalidChunkPosition(32, 0))
    ));
    assert!(matches!(w.chunk(31, 32), Err(McaError::InvalidChunkPosition(31, 32))));
    assert_eq!(w.changed_chunks(), 0);
}

#[test]
fn compress_changes_bytes() -> Result<(), McaError> {
    let data = chunk_bytes(1, 2);
    let z = PendingData::compress(&data, &Compression::ZLib, &())?;
    let g = PendingData::compress(&data, &Compression::Gzip, &())?;
    let l = PendingData::compress(&data, &Compression::Lz4, &())?;
    let u = PendingData::compress(&data, &Compression::Uncompressed, &())?;
    assert_ne!(z, data);
    assert_ne!(g, data);
    assert_ne!(l, data);
    assert_eq!(u, data);
    assert!(PendingData::compress(&[], &Compression::ZLib, &())?.is_empty());
    Ok(())
}

#[test]
fn as_uncompressed_mut_decompresses() -> Result<(), McaError> {
    let data = chunk_bytes(4, 4);
    let z = PendingData::compress(&data, &Compression::ZLib, &())?;
    let mut p = PendingData::new_compressed(z, Compression::ZLib);
    let u = p.as_uncompressed_mut(&())?;
    assert_eq!(&*u.buf, data.as_slice());
    assert_eq!(u.compression, Compression::ZLib);
    assert_eq!(p.compression(), &Compression::ZLib);
    Ok(())
}

#[test]
fn sector_padding() -> Result<(), McaError> {
    let mut w = RegionWriter::new();
    w.set_chunk(0, 0, vec![5u8; 5000], Compression::Uncompressed)?;
    let mut out = Vec::new();
    let n = w.write(&mut out)?;
    // 5000 bytes, compression byte and length take 2 sectors
    assert_eq!(n, 4 * SECTOR_SIZE);
    assert_eq!(&out[0..4], &[0, 0, 2, 2]);
    Ok(())
}

#[test]
fn as_uncompressed_mut_owns_borrowed_bytes() -> Result<(), McaError> {
    let bytes = [1u8, 2, 3];
    let mut p = PendingData::new_uncompressed(&bytes[..], Compression::Gzip);
    let u = p.as_uncompressed_mut(&())?;
    assert!(matches!(u.buf, Cow::Owned(_)));
    assert_eq!(&*u.buf, &bytes[..]);
    assert_eq!(u.compression, Compression::Gzip);
    Ok(())
}

#[test]
fn custom_compression_unsupported_without_an_implementation() -> Result<(), McaError> {
    let mut w = RegionWriter::new();
    w.set_chunk(3, 9, chunk_bytes(3, 9), Compression::new_custom("test:reverse"))?;
    let mut out = Vec::new();
    assert!(matches!(w.write(&mut out), Err(McaError::Compression(CompressionError::Unsupported))));
    assert!(out.is_empty());

    let mut p = PendingData::new_compressed(vec![1u8, 2, 3], Compression::new_custom("lzma"));
    assert!(matches!(p.as_uncompressed_mut(&()), Err(McaError::Compression(CompressionError::Unsupported))));
    assert_eq!(p, PendingData::new_compressed(vec![1u8, 2, 3], Compression::new_custom("lzma")));
    Ok(())
}

#[test]
fn every_vanilla_compression_reads_back() -> Result<(), McaError> {
    let all = [Compression::Gzip, Compression::ZLib, Compression::Uncompressed, Compression::Lz4];
    let mut w = RegionWriter::new();
    for (i, c) in all.iter().enumerate() {
        w.set_chunk(i as u8, 7, chunk_bytes(i as u8, 7), c.clone())?;
    }
    let mut out = Vec::new();
    w.write(&mut out)?;
    let mut r = RegionReader::new(&out)?;
    for (i, c) in all.iter().enumerate() {
        assert_eq!(&r.chunk_data(i as u8, 7)?.unwrap().compression, c);
        assert_eq!(r.chunk(i as u8, 7)?.unwrap(), chunk_bytes(i as u8, 7).as_slice());
        assert!(r.timestamp(i as u8, 7)? != 0);
    }
    assert_eq!(r.chunk_count()?, 4);
    Ok(())
}

#[test]
fn compressed_entries_are_written_as_they_are() -> Result<(), McaError> {
    let payload = vec![9u8, 8, 7, 6];
    let mut w = RegionWriter::new();
    *w.chunk_mut(2, 2)? = Some(WritableChunk {
        data: PendingData::new_compressed(payload.clone(), Compression::Uncompressed),
        chunk: (2, 2),
        timestamp: Some(0x0000_0102),
    });
    let mut out = Vec::new();
    w.write(&mut out)?;
    let mut r = RegionReader::new(&out)?;
    assert_eq!(r.chunk_data(2, 2)?.unwrap().data.as_ref(), payload.as_slice());
    assert_eq!(r.timestamp(2, 2)?, 0x0102);
    assert_eq!(r.chunk(2, 2)?.unwrap(), payload.as_slice());
    Ok(())
}

#[test]
fn reader_to_writer() -> Result<(), McaError> {
    let data = region_bytes(Compression::ZLib, false);
    let region = RegionReader::new(&data)?;
    let mut writer = region.into_writer(())?;

    if let Some(chunk) = writer.chunk_mut(8, 24)? {
        let u = chunk.data.as_uncompressed_mut(&())?;
        let mut bytes = u.buf.to_vec();
        bytes[0] = b'X';
        bytes.extend_from_slice(b"LastUpdate=5555");
        u.buf = Cow::Owned(bytes);
    }

    let mut file = Vec::new();
    writer.write(&mut file)?;

    let mut new_region = RegionReader::new(&file)?;
    let chunk = new_region.chunk(8, 24)?.unwrap();
    assert_eq!(chunk[0], b'X');
    assert!(chunk.ends_with(b"LastUpdate=5555"));
    assert_eq!(new_region.chunk(8, 23)?.unwrap(), chunk_bytes(8, 23).as_slice());

    Ok(())
}

#[test]
fn timestamp_from_clock_readings() {
    assert_eq!(mca::timestamp_from_seconds(None), 0);
    assert_eq!(mca::timestamp_from_seconds(Some(5)), 5);
    assert_eq!(mca::timestamp_from_seconds(Some(0x1_0000_0007)), 7);
    assert!(current_timestamp() > 1_600_000_000);
}

#[test]
fn coordinates_outside_the_region_fail() {
    let mut w = RegionWriter::new();
    assert!(matches!(w.chunk(0, 32), Err(McaError::InvalidChunkPosition(0, 32))));
    assert!(matches!(w.chunk_mut(40, 1), Err(McaError::InvalidChunkPosition(40, 1))));
    assert!(matches!(w.set_chunk(0, 32, vec![1], Compression::ZLib), Err(McaError::InvalidChunkPosition(0, 32))));
    assert!(matches!(w.clear_chunk(32, 0), Err(McaError::InvalidChunkPosition(32, 0))));
    assert_eq!(*w.chunk(1, 0).unwrap(), None);
}

#[test]
fn clear_unset_chunk() -> Result<(), McaError> {
    let mut w = RegionWriter::new();
    w.clear_chunk(5, 1)?;
    assert_eq!(w.changed_chunks(), 0);
    assert_eq!(*w.chunk(5, 1)?, None);
    Ok(())
}

#[test]
fn own_timestamp_is_written() -> Result<(), McaError> {
    let mut w = RegionWriter::new();
    *w.chunk_mut(6, 2)? = Some(WritableChunk {
        data: PendingData::new_uncompressed(vec![1u8, 2, 3], Compression::ZLib),
        chunk: (6, 2),
        timestamp: Some(1234),
    });
    let mut out = Vec::new();
    w.write(&mut out)?;
    let mut r = RegionReader::new(&out)?;
    assert_eq!(r.timestamp(6, 2)?, 1234);
    assert_eq!(r.chunk(6, 2)?.unwrap(), &[1, 2, 3]);
    Ok(())
}

#[test]
fn header_layout_for_any_compression_byte() -> Result<(), McaError> {
    let chunks = vec![
        PackedChunk {
            compressed: vec![1, 2].into(),
            compression: Compression::Custom((5, String::new())),
            chunk: (3, 0),
            sector_size: 1,
            timestamp: Some(77),
        },
        PackedChunk {
            compressed: vec![3].into(),
            compression: Compression::ZLib,
            chunk: (0, 2),
            sector_size: 1,
            timestamp: None,
        },
    ];
    let mut buf = Vec::new();
    let n = RegionWriter::write_packed_at(&mut buf, chunks, 500)?;
    assert_eq!(n, 4 * SECTOR_SIZE);
    let h0 = 4 * (3 + 0 * 32);
    let h1 = 4 * (0 + 2 * 32);
    assert_eq!(&buf[h0..h0 + 4], &[0, 0, 2, 1]);
    assert_eq!(&buf[h1..h1 + 4], &[0, 0, 3, 1]);
    assert_eq!(&buf[SECTOR_SIZE + h0..SECTOR_SIZE + h0 + 4], &77u32.to_be_bytes());
    assert_eq!(&buf[SECTOR_SIZE + h1..SECTOR_SIZE + h1 + 4], &500u32.to_be_bytes());
    assert!(buf[4..8].iter().all(|b| *b == 0));
    Ok(())
}
