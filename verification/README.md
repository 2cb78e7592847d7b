# mca

Reader and writer for Minecraft region files (`.mca`), verified with Verus.

A region holds 32 x 32 chunks: a 4096 byte location table, a 4096 byte
timestamp table, then each chunk's payload (data length, compression byte,
an optional custom compression id, the compressed data) padded to whole
4096 byte sectors. Gzip, zlib, uncompressed and LZ4 chunks are handled by
the library; other compression bytes go to a user supplied
`CustomDecompression` / `CustomCompression`.

## Layout

- `src/format.rs`: the file format as spec functions over bytes: what a
  region's bytes say of a chunk (`lookup_chunk`), and the bytes of a region
  written from packed chunks (`region_bytes`).
- `src/read.rs`, `src/iter.rs`: `RegionReader`, `RegionIter`, `ChunkIter`,
  each method's contract stated over `format.rs`.
- `src/write.rs`: `RegionWriter`, `PendingData`, `PackedChunk`.
- `src/compression.rs`, `src/custom_compression.rs`, `src/error.rs`: the
  compression formats, the custom compression traits, the error types.
- `src/codec.rs`: the calls into `flate2`, `lz4_java_wrc` and the parts of
  std without a specification, each with the contract that the rest of the
  library relies on.
- `src/layout.rs`: the header tables of a written region for chunks of any
  compression, and the timestamp each written chunk carries.
- `src/laws.rs`: what holds across functions, proved: a written region reads
  back as the chunks it was written from, rewriting a read region keeps its
  chunks, and the smaller facts these rest on.
- `app/lib.rs`: writing a region to any `std::io::Write`, and error types
  with `Display`.
