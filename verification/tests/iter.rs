use mca::{ChunkIter, Compression, McaError, RegionReader, RegionWriter, REGION_SIZE};

fn chunk_bytes(x: u8, z: u8) -> Vec<u8> {
    let mut v = Vec::new();
    v.extend_from_slice(b"Status:minecraft:full;");
    for i in 0..2000u32 {
        v.push(((i * 7 + x as u32 * 31 + z as u32 * 17) % 251) as u8);
    }
    v
}

fn build_region(half: bool) -> Vec<u8> {
    let mut w = RegionWriter::new();
    let mut it = ChunkIter::new();
    while let Some((x, z)) = it.next() {
        if !half || (x + z) % 2 == 0 {
            w.set_chunk(x, z, chunk_bytes(x, z), Compression::ZLib).unwrap();
        }
    }
    let mut out = Vec::new();
    w.write(&mut out).unwrap();
    out
}

#[test]
fn iter_all_generated() -> Result<(), McaError> {
    let data = build_region(false);
    let region = RegionReader::new(&data)?;

    let generated = region.chunk_count()?;
    let mut iterations = 0;

    let mut iter = region.iter()?;
    while let Some(_) = iter.next_available_chunk()? {
        iterations += 1;
    }

    assert_eq!(generated, iterations);

    Ok(())
}

#[test]
fn iter_half() -> Result<(), McaError> {
    let data = build_region(true);
    let region = RegionReader::new(&data)?;

    let mut iterations = 0;

    let mut iter = region.iter()?;
    while let Some(_) = iter.next_available_chunk()? {
        iterations += 1;
    }

    assert_ne!(iterations, REGION_SIZE * REGION_SIZE);
    assert_eq!(iterations, 512);

    Ok(())
}

#[test]
fn chunk_iter() -> Result<(), McaError> {
    let data = build_region(false);
    let mut region = RegionReader::new(&data)?;

    let mut iterations = 0;
    let mut coords = ChunkIter::new();
    while let Some((x, z)) = coords.next() {
        let chunk = region.chunk(x, z)?;
        std::hint::black_box(chunk);
        iterations += 1;
    }

    assert_eq!(iterations, region.chunk_count()?);

    Ok(())
}

#[test]
fn chunk_iter_order() {
    let mut it = ChunkIter::new();
    assert_eq!(it.next(), Some((0, 0)));
    assert_eq!(it.next(), Some((0, 1)));
    let mut last = None;
    let mut n = 2;
    while let Some(c) = it.next() {
        if n == 32 {
            assert_eq!(c, (1, 0));
        }
        last = Some(c);
        n += 1;
    }
    assert_eq!(n, 1024);
    assert_eq!(last, Some((31, 31)));
    assert_eq!(it.next(), None);
    assert_eq!(ChunkIter::default(), ChunkIter::new());
}

#[test]
fn region_iter_yields_coordinates_and_data() -> Result<(), McaError> {
    let data = build_region(true);
    let region = RegionReader::new(&data)?;
    let mut iter = region.iter()?;
    let mut expected = region.generated_chunks()?.into_iter();
    while let Some(((x, z), chunk)) = iter.next_available_chunk()? {
        assert_eq!(Some((x, z)), expected.next());
        assert_eq!(chunk, chunk_bytes(x, z));
    }
    assert_eq!(expected.next(), None);
    assert_eq!(iter.region().chunk_count()?, 512);
    Ok(())
}
