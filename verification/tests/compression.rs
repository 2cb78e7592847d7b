use mca::{ChunkIter, Compression, McaError, RegionReader, RegionWriter};

fn chunk_bytes(x: u8, z: u8) -> Vec<u8> {
    let mut v = Vec::new();
    v.extend_from_slice(b"Status:minecraft:full;");
    for i in 0..2000u32 {
        v.push(((i * 7 + x as u32 * 31 + z as u32 * 17) % 251) as u8);
    }
    v
}

fn build_region(compression: Compression) -> Vec<u8> {
    let mut w = RegionWriter::new();
    let mut it = ChunkIter::new();
    while let Some((x, z)) = it.next() {
        w.set_chunk(x, z, chunk_bytes(x, z), compression.clone()).unwrap();
    }
    let mut out = Vec::new();
    w.write(&mut out).unwrap();
    out
}

fn verify_chunk(x: u8, z: u8, data: &[u8]) {
    assert!(data.starts_with(b"Status:minecraft:"));
    assert_eq!(data, chunk_bytes(x, z).as_slice());
}

#[test]
fn to_u8() {
    assert!(Compression::Uncompressed.to_u8() < 127);
    assert!(Compression::ZLib.to_u8() < 127);
    assert!(Compression::new_custom("custom").to_u8() >= 127);
}

#[test]
fn from_u8() {
    assert!(Compression::from_u8(2) != Compression::new_custom("custom"));
    assert!(Compression::from_u8(4) != Compression::new_custom("custom"));
}

#[test]
fn zlib() -> Result<(), McaError> {
    let data = build_region(Compression::ZLib);
    let region = RegionReader::new(&data)?;
    let mut iter = region.iter()?;

    while let Some(((x, z), chunk)) = iter.next_available_chunk()? {
        verify_chunk(x, z, &chunk);
    }

    Ok(())
}

#[test]
fn lz4() -> Result<(), McaError> {
    let data = build_region(Compression::Lz4);
    let region = RegionReader::new(&data)?;
    let mut iter = region.iter()?;

    while let Some(((x, z), chunk)) = iter.next_available_chunk()? {
        verify_chunk(x, z, &chunk);
    }

    Ok(())
}

#[test]
fn none() -> Result<(), McaError> {
    let data = build_region(Compression::Uncompressed);
    let region = RegionReader::new(&data)?;
    let mut iter = region.iter()?;

    while let Some(((x, z), chunk)) = iter.next_available_chunk()? {
        verify_chunk(x, z, &chunk);
    }

    Ok(())
}

#[test]
fn size_zlib() {
    assert_eq!(Compression::ZLib.size(), 1);
}

#[test]
fn size_none() {
    assert_eq!(Compression::Uncompressed.size(), 1);
}

#[test]
fn size_custom() {
    assert_eq!(Compression::new_custom("an id for a compression").size(), 26);
}

#[test]
fn compression_bytes_exact() {
    assert_eq!(Compression::Gzip.to_u8(), 1);
    assert_eq!(Compression::ZLib.to_u8(), 2);
    assert_eq!(Compression::Uncompressed.to_u8(), 3);
    assert_eq!(Compression::Lz4.to_u8(), 4);
    assert_eq!(Compression::new_custom("x").to_u8(), Compression::CUSTOM_COMPRESSION_VALUE);
    assert_eq!(Compression::from_u8(1), Compression::Gzip);
    assert_eq!(Compression::from_u8(3), Compression::Uncompressed);
    assert_eq!(Compression::from_u8(9), Compression::Custom((9, String::new())));
    assert_eq!(Compression::default(), Compression::ZLib);
    assert_eq!(Compression::new_custom("custom").clone(), Compression::new_custom("custom"));
}

#[test]
fn gzip_round_trip() -> Result<(), McaError> {
    let data = build_region(Compression::Gzip);
    let region = RegionReader::new(&data)?;
    let mut iter = region.iter()?;
    let mut n = 0;
    while let Some(((x, z), chunk)) = iter.next_available_chunk()? {
        verify_chunk(x, z, &chunk);
        n += 1;
    }
    assert_eq!(n, 1024);
    Ok(())
}

#[test]
fn compression_byte_round_trip() {
    for c in [Compression::Gzip, Compression::ZLib, Compression::Uncompressed, Compression::Lz4] {
        assert_eq!(Compression::from_u8(c.to_u8()), c);
    }
    for v in 0..=255u8 {
        assert_eq!(Compression::from_u8(v).to_u8(), v);
        if v == 0 || v > 4 {
            assert_eq!(Compression::from_u8(v), Compression::Custom((v, String::new())));
        }
    }
}
