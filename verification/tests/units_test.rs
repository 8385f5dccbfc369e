use squashfs_reader::cache::BlockCache;
use squashfs_reader::compress::{decompress, Compression};
use squashfs_reader::error::{FragmentsError, MetadataError};
use squashfs_reader::fragments::{FragmentLocation, FragmentsTable};
use squashfs_reader::data::BlockSize;
use squashfs_reader::error::DecompressError;
use squashfs_reader::le::{read_u16, read_u32, read_u64};
use squashfs_reader::metadata::MetadataBlock;
use squashfs_reader::use_direct_for_tables;
use squashfs_reader::Options;

fn zlib_compress(data: &[u8]) -> Vec<u8> {
    let mut enc = async_compression::tokio::bufread::ZlibEncoder::new(data);
    let mut out: Vec<u8> = Vec::new();
    futures::executor::block_on(tokio::io::copy(&mut enc, &mut out)).unwrap();
    out
}

#[test]
fn little_endian_decoding() {
    let bytes = [0x68u8, 0x73, 0x71, 0x73, 0xFF, 0x00, 0x01, 0x02, 0x03, 0x04, 0x05, 0x06];
    assert_eq!(read_u16(&bytes, 0), 0x7368);
    assert_eq!(read_u32(&bytes, 0), 0x7371_7368);
    assert_eq!(read_u64(&bytes, 4), 0x0605_0403_0201_00FF);
}

#[test]
fn block_size_word() {
    // Bit 24 clear: compressed, with a 24-bit length.
    let compressed = BlockSize(0x0012_3456);
    assert!(compressed.compressed());
    assert_eq!(compressed.compressed_size(), 0x12_3456);
    // Bit 24 set: stored uncompressed.
    let raw = BlockSize(0x0100_0200);
    assert!(!raw.compressed());
    assert_eq!(raw.compressed_size(), 0x200);
    // A zero compressed size marks a sparse block.
    let sparse = BlockSize(0x0100_0000);
    assert_eq!(sparse.compressed_size(), 0);
}

#[test]
fn compression_tags() {
    assert_eq!(Compression::from_tag(1), Some(Compression::Gzip));
    assert_eq!(Compression::from_tag(2), Some(Compression::Lzma));
    assert_eq!(Compression::from_tag(3), Some(Compression::Lzd));
    assert_eq!(Compression::from_tag(4), Some(Compression::Xz));
    assert_eq!(Compression::from_tag(5), Some(Compression::Lz4));
    assert_eq!(Compression::from_tag(6), Some(Compression::Zstd));
    assert_eq!(Compression::from_tag(0), None);
    assert_eq!(Compression::from_tag(7), None);
    assert!(Compression::Gzip.supported());
    assert!(Compression::Xz.supported());
    assert!(Compression::Zstd.supported());
    assert!(!Compression::Lzma.supported());
    assert!(!Compression::Lz4.supported());
}

#[test]
fn decompress_copies_when_no_algorithm() {
    let data = vec![9u8, 8, 7, 6, 5];
    let out = decompress(&data, None).unwrap();
    assert_eq!(out, data);
}

#[test]
fn decompress_zlib_round_trip() {
    let data: Vec<u8> = (0..2000u32).map(|i| (i % 251) as u8).collect();
    let packed = zlib_compress(&data);
    assert_ne!(packed, data);
    let out = decompress(&packed, Some(Compression::Gzip)).unwrap();
    assert_eq!(out, data);
}

#[test]
fn decompress_rejects_unsupported() {
    let data = vec![1u8, 2, 3];
    let r = decompress(&data, Some(Compression::Lz4));
    assert_eq!(r, Err(DecompressError::UnsupportedCompression(Compression::Lz4)));
}

#[test]
fn decompress_rejects_garbage() {
    let data = vec![0u8; 16];
    let r = decompress(&data, Some(Compression::Zstd));
    assert_eq!(r, Err(DecompressError::Io));
}

#[test]
fn metadata_block_uncompressed() {
    // Header 0x8000 | 5, then five payload bytes.
    let mut img = vec![0x05u8, 0x80];
    img.extend_from_slice(&[10, 20, 30, 40, 50]);
    let (block, next) = MetadataBlock::from_reader(&img, 0, Compression::Gzip).unwrap();
    assert_eq!(block.compressed_size, 5);
    assert_eq!(block.data, vec![10, 20, 30, 40, 50]);
    assert_eq!(next, 7);
}

#[test]
fn metadata_block_compressed() {
    let payload: Vec<u8> = (0..100u32).map(|i| (i * 3 % 256) as u8).collect();
    let packed = zlib_compress(&payload);
    let mut img = Vec::new();
    img.push((packed.len() & 0xFF) as u8);
    img.push((packed.len() >> 8) as u8);
    img.extend_from_slice(&packed);
    let (block, next) = MetadataBlock::from_reader(&img, 0, Compression::Gzip).unwrap();
    assert_eq!(block.data, payload);
    assert_eq!(next, img.len());
}

#[test]
fn metadata_block_truncated() {
    let img = vec![0x05u8, 0x80, 1, 2];
    assert!(MetadataBlock::from_reader(&img, 0, Compression::Gzip).is_err());
}

#[test]
fn options_defaults() {
    let o = Options::default();
    assert_eq!(o.cache_mb, 100);
    assert_eq!(o.readers, 4);
    assert_eq!(o.direct_limit, 0);
}

#[test]
fn tables_direct_policy() {
    assert!(use_direct_for_tables(0));
    assert!(use_direct_for_tables(49_999));
    assert!(!use_direct_for_tables(50_000));
    assert!(!use_direct_for_tables(1_000_000));
}

#[test]
fn fragment_entry_out_of_range() {
    let table = FragmentsTable { entries: Vec::new() };
    let r = table.entry(FragmentLocation { index: 0, offset: 0 });
    assert_eq!(r.err(), Some(FragmentsError::InvalidLocation));
    let r = table.entry(FragmentLocation { index: 0xFFFF_FFFF, offset: 0 });
    assert_eq!(r.err(), Some(FragmentsError::InvalidLocation));
}

#[test]
fn metadata_block_too_large() {
    // A compressed block whose payload decodes past the 8 KiB bound.
    let payload = vec![7u8; 9000];
    let packed = zlib_compress(&payload);
    let mut img = Vec::new();
    img.push((packed.len() & 0xFF) as u8);
    img.push((packed.len() >> 8) as u8);
    img.extend_from_slice(&packed);
    let r = MetadataBlock::from_reader(&img, 0, Compression::Gzip);
    assert_eq!(r.err(), Some(MetadataError::InvalidDataLength));
}

#[test]
fn block_cache_fifo_eviction() {
    let word = BlockSize(0x0100_0004);
    let mut cache = BlockCache::new(2);
    cache.try_insert(100, word, vec![1, 1, 1, 1]);
    cache.try_insert(200, word, vec![2, 2, 2, 2]);
    assert_eq!(cache.get(100, word).unwrap(), &vec![1, 1, 1, 1]);
    assert_eq!(cache.get(200, word).unwrap(), &vec![2, 2, 2, 2]);
    // A third insert evicts the oldest entry.
    cache.try_insert(300, word, vec![3, 3, 3, 3]);
    assert!(cache.get(100, word).is_none());
    assert_eq!(cache.get(200, word).unwrap(), &vec![2, 2, 2, 2]);
    assert_eq!(cache.get(300, word).unwrap(), &vec![3, 3, 3, 3]);
    // Re-inserting an existing key overwrites without evicting.
    cache.try_insert(200, word, vec![9, 9, 9, 9]);
    assert_eq!(cache.get(200, word).unwrap(), &vec![9, 9, 9, 9]);
    assert_eq!(cache.get(300, word).unwrap(), &vec![3, 3, 3, 3]);
    // A disabled cache stores nothing.
    let mut off = BlockCache::new(0);
    off.try_insert(1, word, vec![5, 5, 5, 5]);
    assert!(off.get(1, word).is_none());
}
