use squashfs_reader::error::Error;
use squashfs_reader::{Options, SquashFs, O_DIRECT};

const BS: u32 = 4096;

struct FileSpec {
    name: &'static [u8],
    content: Vec<u8>,
    frag: bool,
}

fn prand(len: usize, seed: u64) -> Vec<u8> {
    let mut state = seed.wrapping_mul(6364136223846793005).wrapping_add(1442695040888963407);
    let mut out = Vec::with_capacity(len);
    for _ in 0..len {
        state = state.wrapping_mul(6364136223846793005).wrapping_add(1442695040888963407);
        out.push((state >> 33) as u8);
    }
    out
}

fn put_u16(v: &mut Vec<u8>, x: u16) {
    v.extend_from_slice(&x.to_le_bytes());
}

fn put_u32(v: &mut Vec<u8>, x: u32) {
    v.extend_from_slice(&x.to_le_bytes());
}

fn put_u64(v: &mut Vec<u8>, x: u64) {
    v.extend_from_slice(&x.to_le_bytes());
}

fn pack(codec: &str, data: &[u8]) -> Vec<u8> {
    fn run(mut dec: impl tokio::io::AsyncRead + Unpin) -> Vec<u8> {
        let mut out: Vec<u8> = Vec::new();
        futures::executor::block_on(tokio::io::copy(&mut dec, &mut out)).unwrap();
        out
    }
    match codec {
        "zlib" => run(async_compression::tokio::bufread::ZlibEncoder::new(data)),
        "zstd" => run(async_compression::tokio::bufread::ZstdEncoder::new(data)),
        "xz" => run(async_compression::tokio::bufread::XzEncoder::new(data)),
        _ => data.to_vec(),
    }
}

fn codec_tag(codec: &str) -> u16 {
    match codec {
        "zstd" => 6,
        "xz" => 4,
        _ => 1,
    }
}

fn pack_metadata(stream: &[u8]) -> Vec<u8> {
    let mut out = Vec::new();
    for chunk in stream.chunks(8192) {
        put_u16(&mut out, 0x8000 | chunk.len() as u16);
        out.extend_from_slice(chunk);
    }
    out
}

/// Assemble a one-directory image: the superblock, the files' data blocks,
/// an optional shared fragment block, and the inode, directory and fragment
/// tables.
fn build_image(files: &[FileSpec], codec: &str) -> Vec<u8> {
    build_image_with(files, codec, false)
}

/// Like [`build_image`], optionally using the extended inode encodings and
/// appending a symlink record the reader parses and discards.
fn build_image_with(files: &[FileSpec], codec: &str, extended: bool) -> Vec<u8> {
    let bs = BS as usize;
    let mut img = vec![0u8; 96];

    let mut per_file: Vec<(u64, Vec<u32>, u32, u32)> = Vec::new();
    let mut frag_bytes: Vec<u8> = Vec::new();
    for f in files {
        let blocks_start = img.len() as u64;
        let n_full = if f.frag && !f.content.is_empty() {
            f.content.len() / bs
        } else {
            (f.content.len() + bs - 1) / bs
        };
        let mut words: Vec<u32> = Vec::new();
        for i in 0..n_full {
            let end = ((i + 1) * bs).min(f.content.len());
            let chunk = &f.content[i * bs..end];
            if chunk.iter().all(|b| *b == 0) {
                words.push(1 << 24);
            } else if codec == "store" {
                words.push((1 << 24) | chunk.len() as u32);
                img.extend_from_slice(chunk);
            } else {
                let packed = pack(codec, chunk);
                words.push(packed.len() as u32);
                img.extend_from_slice(&packed);
            }
        }
        let (frag_idx, frag_off) = if f.frag && f.content.len() % bs != 0 {
            let off = frag_bytes.len() as u32;
            frag_bytes.extend_from_slice(&f.content[n_full * bs..]);
            (0u32, off)
        } else {
            (0xFFFF_FFFFu32, 0u32)
        };
        per_file.push((blocks_start, words, frag_idx, frag_off));
    }

    let (frag_entry, frag_count) = if frag_bytes.is_empty() {
        (None, 0u32)
    } else {
        let start = img.len() as u64;
        let word: u32;
        if codec == "store" {
            word = (1 << 24) | frag_bytes.len() as u32;
            img.extend_from_slice(&frag_bytes);
        } else {
            let packed = pack(codec, &frag_bytes);
            word = packed.len() as u32;
            img.extend_from_slice(&packed);
        }
        (Some((start, word)), 1u32)
    };

    // Directory listing of the root (inode 1), one header for all entries.
    let mut listing = Vec::new();
    put_u32(&mut listing, files.len() as u32 - 1);
    put_u32(&mut listing, 0);
    put_u32(&mut listing, 1);
    for (i, f) in files.iter().enumerate() {
        let ino = 2 + i as u32;
        put_u16(&mut listing, 0);
        put_u16(&mut listing, (ino - 1) as u16);
        put_u16(&mut listing, if extended { 9 } else { 2 });
        put_u16(&mut listing, f.name.len() as u16 - 1);
        listing.extend_from_slice(f.name);
    }

    // Inode stream: the root directory record first, then the files.
    let mut inode_stream = Vec::new();
    put_u16(&mut inode_stream, if extended { 8 } else { 1 });
    put_u16(&mut inode_stream, 0o755);
    put_u16(&mut inode_stream, 0);
    put_u16(&mut inode_stream, 0);
    put_u32(&mut inode_stream, 0);
    put_u32(&mut inode_stream, 1);
    if extended {
        // hard links, listing size, block start, parent, index count,
        // block offset, xattr index.
        put_u32(&mut inode_stream, 2);
        put_u32(&mut inode_stream, listing.len() as u32 + 3);
        put_u32(&mut inode_stream, 0);
        put_u32(&mut inode_stream, 0);
        put_u16(&mut inode_stream, 0);
        put_u16(&mut inode_stream, 0);
        put_u32(&mut inode_stream, 0xFFFF_FFFF);
    } else {
        put_u32(&mut inode_stream, 0);
        put_u32(&mut inode_stream, 2);
        put_u16(&mut inode_stream, listing.len() as u16 + 3);
        put_u16(&mut inode_stream, 0);
        put_u32(&mut inode_stream, 0);
    }
    for (i, f) in files.iter().enumerate() {
        let (blocks_start, words, frag_idx, frag_off) = &per_file[i];
        put_u16(&mut inode_stream, if extended { 9 } else { 2 });
        put_u16(&mut inode_stream, 0o644);
        put_u16(&mut inode_stream, 0);
        put_u16(&mut inode_stream, 0);
        put_u32(&mut inode_stream, 0);
        put_u32(&mut inode_stream, 2 + i as u32);
        if extended {
            put_u64(&mut inode_stream, *blocks_start);
            put_u64(&mut inode_stream, f.content.len() as u64);
            put_u64(&mut inode_stream, 0);
            put_u32(&mut inode_stream, 1);
            put_u32(&mut inode_stream, *frag_idx);
            put_u32(&mut inode_stream, *frag_off);
            put_u32(&mut inode_stream, 0xFFFF_FFFF);
        } else {
            put_u32(&mut inode_stream, *blocks_start as u32);
            put_u32(&mut inode_stream, *frag_idx);
            put_u32(&mut inode_stream, *frag_off);
            put_u32(&mut inode_stream, f.content.len() as u32);
        }
        for w in words {
            put_u32(&mut inode_stream, *w);
        }
    }
    if extended {
        // A symlink record at the end of the table, parsed and discarded.
        put_u16(&mut inode_stream, 3);
        put_u16(&mut inode_stream, 0o777);
        put_u16(&mut inode_stream, 0);
        put_u16(&mut inode_stream, 0);
        put_u32(&mut inode_stream, 0);
        put_u32(&mut inode_stream, 2 + files.len() as u32);
        put_u32(&mut inode_stream, 1);
        put_u32(&mut inode_stream, 6);
        inode_stream.extend_from_slice(b"target");
    }

    let its = img.len() as u64;
    img.extend_from_slice(&pack_metadata(&inode_stream));
    let dts = img.len() as u64;
    img.extend_from_slice(&pack_metadata(&listing));
    let fts = img.len() as u64;
    if let Some((start, word)) = frag_entry {
        put_u64(&mut img, fts + 8);
        let mut entry = Vec::new();
        put_u64(&mut entry, start);
        put_u32(&mut entry, word);
        put_u32(&mut entry, 0);
        img.extend_from_slice(&pack_metadata(&entry));
    }
    let bytes_used = img.len() as u64;

    let mut sb = Vec::new();
    put_u32(&mut sb, 0x73717368);
    put_u32(&mut sb, files.len() as u32 + 1);
    put_u32(&mut sb, 0);
    put_u32(&mut sb, BS);
    put_u32(&mut sb, frag_count);
    put_u16(&mut sb, codec_tag(codec));
    put_u16(&mut sb, 12);
    put_u16(&mut sb, 0);
    put_u16(&mut sb, 0);
    put_u16(&mut sb, 4);
    put_u16(&mut sb, 0);
    put_u64(&mut sb, 0);
    put_u64(&mut sb, bytes_used);
    put_u64(&mut sb, bytes_used);
    put_u64(&mut sb, bytes_used);
    put_u64(&mut sb, its);
    put_u64(&mut sb, dts);
    put_u64(&mut sb, fts);
    put_u64(&mut sb, bytes_used);
    img[..96].copy_from_slice(&sb);
    img
}

fn tree() -> Vec<FileSpec> {
    vec![
        FileSpec { name: b"alpha.bin", content: prand(3 * 4096 + 100, 1), frag: false },
        FileSpec { name: b"beta.bin", content: prand(5000, 2), frag: false },
        FileSpec { name: b"gamma.bin", content: prand(4096, 3), frag: false },
    ]
}

fn read_all(sq: &mut SquashFs, img: &[u8], ino: u32, len: usize) -> Vec<u8> {
    sq.read_file(img, ino, 0, len, 0).unwrap()
}

fn check_tree(codec: &str) {
    let files = tree();
    let img = build_image(&files, codec);
    let mut sq = SquashFs::from_reader(&Options::default(), &img).unwrap();
    assert_eq!(sq.root_inode, 1);
    for (i, f) in files.iter().enumerate() {
        let ino = 2 + i as u32;
        assert_eq!(sq.lookup(1, f.name).unwrap(), ino);
        let got = read_all(&mut sq, &img, ino, f.content.len());
        assert_eq!(got, f.content, "file {} differs under {}", i, codec);
        // Read again, now served with the decoded-block cache warm.
        let again = read_all(&mut sq, &img, ino, f.content.len());
        assert_eq!(again, f.content);
    }
}

#[test]
fn store_image_read_all() {
    check_tree("store");
}

#[test]
fn zlib_image_read_all() {
    check_tree("zlib");
}

#[test]
fn zstd_image_read_all() {
    check_tree("zstd");
}

#[test]
fn xz_image_read_all() {
    check_tree("xz");
}

#[test]
fn partial_reads_at_block_boundaries() {
    let files = tree();
    let img = build_image(&files, "zlib");
    let mut sq = SquashFs::from_reader(&Options::default(), &img).unwrap();
    let content = &files[0].content;
    let bs = BS as usize;
    let fsize = content.len();
    assert!(fsize >= 3 * bs);
    let r = sq.read_file(&img, 2, 0, bs, 0).unwrap();
    assert_eq!(r, &content[0..bs]);
    let r = sq.read_file(&img, 2, bs - 1, 2, 0).unwrap();
    assert_eq!(r, &content[bs - 1..bs + 1]);
    let r = sq.read_file(&img, 2, fsize - 1, 1, 0).unwrap();
    assert_eq!(r, &content[fsize - 1..]);
    let r = sq.read_file(&img, 2, fsize, 0, 0).unwrap();
    assert!(r.is_empty());
}

#[test]
fn fragment_tail_shared() {
    let a = prand(4096 + 700, 10);
    let b = prand(2 * 4096 + 900, 11);
    let c = prand(6000, 12);
    let files = vec![
        FileSpec { name: b"a", content: a.clone(), frag: true },
        FileSpec { name: b"b", content: b.clone(), frag: true },
        FileSpec { name: b"c", content: c.clone(), frag: false },
    ];
    let img = build_image(&files, "zstd");
    let mut sq = SquashFs::from_reader(&Options::default(), &img).unwrap();
    assert_eq!(read_all(&mut sq, &img, 2, a.len()), a);
    assert_eq!(read_all(&mut sq, &img, 3, b.len()), b);
    assert_eq!(read_all(&mut sq, &img, 4, c.len()), c);
    // The tail alone, crossing the last block boundary.
    let r = sq.read_file(&img, 2, 4000, 500, 0).unwrap();
    assert_eq!(r, &a[4000..4500]);
}

#[test]
fn sparse_block_yields_zeros() {
    let bs = BS as usize;
    let mut content = prand(3 * bs, 20);
    for byte in content[bs..2 * bs].iter_mut() {
        *byte = 0;
    }
    let files = vec![FileSpec { name: b"holes", content: content.clone(), frag: false }];
    let img = build_image(&files, "zlib");
    let mut sq = SquashFs::from_reader(&Options::default(), &img).unwrap();
    assert_eq!(read_all(&mut sq, &img, 2, content.len()), content);
    // A read inside the sparse block comes back as zero bytes.
    let r = sq.read_file(&img, 2, bs + 10, 100, 0).unwrap();
    assert_eq!(r, vec![0u8; 100]);
}

#[test]
fn small_file_direct_mode() {
    let small = prand(8192, 30);
    let big = prand(40000, 31);
    let files = vec![
        FileSpec { name: b"small", content: small.clone(), frag: false },
        FileSpec { name: b"big", content: big.clone(), frag: false },
    ];
    let img = build_image(&files, "zlib");
    let options = Options { cache_mb: 10, readers: 4, direct_limit: 16384 };
    let mut sq = SquashFs::from_reader(&options, &img).unwrap();
    // Below the limit: served through the whole-file cache; twice for a hit.
    let r = sq.read_file(&img, 2, 0, small.len(), O_DIRECT).unwrap();
    assert_eq!(r, small);
    let r = sq.read_file(&img, 2, 100, 1000, O_DIRECT).unwrap();
    assert_eq!(r, &small[100..1100]);
    // Above the limit: the regular path.
    let r = sq.read_file(&img, 3, 0, big.len(), O_DIRECT).unwrap();
    assert_eq!(r, big);
}

#[test]
fn read_request_clamping_and_errors() {
    let files = tree();
    let img = build_image(&files, "store");
    let mut sq = SquashFs::from_reader(&Options::default(), &img).unwrap();
    let fsize = files[1].content.len();
    // Oversized requests clamp to the file length.
    let r = sq.read_file(&img, 3, 0, fsize + 5000, 0).unwrap();
    assert_eq!(r, files[1].content);
    // An offset at the end yields an empty buffer.
    let r = sq.read_file(&img, 3, fsize, 10, 0).unwrap();
    assert!(r.is_empty());
    // An offset past the end is rejected.
    assert_eq!(sq.read_file(&img, 3, fsize + 1, 1, 0), Err(Error::InvalidOffset));
    // An unknown inode is rejected.
    assert_eq!(sq.read_file(&img, 99, 0, 1, 0), Err(Error::FileNotFound(None)));
}

#[test]
fn lookup_resolves_every_entry() {
    let files = tree();
    let img = build_image(&files, "store");
    let sq = SquashFs::from_reader(&Options::default(), &img).unwrap();
    let table = sq.directory_tables.get(&1).unwrap();
    assert_eq!(table.entries.len(), files.len());
    for e in &table.entries {
        assert_eq!(sq.lookup(1, &e.name).unwrap(), e.inode);
        assert!(!e.is_dir());
    }
    assert!(matches!(sq.lookup(1, b"missing"), Err(Error::FileNotFound(None))));
    assert!(matches!(sq.lookup(42, b"alpha.bin"), Err(Error::DirectoryNotFound)));
}

#[test]
fn inode_listing_and_remapping() {
    let files = tree();
    let img = build_image(&files, "store");
    let sq = SquashFs::from_reader(&Options::default(), &img).unwrap();
    let mut inodes = sq.inodes();
    inodes.sort();
    assert_eq!(inodes, vec![1, 2, 3, 4]);
    assert_eq!(sq.inode_extra, 5);
    // The protocol root identifier maps to the real root and back.
    assert_eq!(sq.ino_to_fuse(1), 1);
    assert_eq!(sq.ino_from_fuse(1).unwrap(), 1);
    assert_eq!(sq.ino_to_fuse(3), 3);
    assert_eq!(sq.ino_from_fuse(3).unwrap(), 3);
}

#[test]
fn handle_registry() {
    let files = tree();
    let img = build_image(&files, "store");
    let mut sq = SquashFs::from_reader(&Options::default(), &img).unwrap();
    assert!(!sq.has_handles());
    let fh = sq.open(2, 0).unwrap();
    assert!(sq.has_handles());
    sq.release(2, fh).unwrap();
    assert!(!sq.has_handles());
    assert!(sq.release(2, fh).is_err());
}

#[test]
fn superblock_fields_and_tables_length() {
    let files = tree();
    let img = build_image(&files, "store");
    let sq = SquashFs::from_reader(&Options::default(), &img).unwrap();
    assert_eq!(sq.superblock.block_size, BS);
    assert_eq!(sq.superblock.inode_count, 4);
    assert_eq!(sq.superblock.bytes_used, img.len() as u64);
    assert_eq!(
        sq.superblock.tables_length(),
        img.len() as u64 - sq.superblock.inode_table_start,
    );
}

#[test]
fn invalid_superblock_rejected() {
    let files = tree();
    let mut img = build_image(&files, "store");
    img[0] = 0x00;
    assert_eq!(
        SquashFs::from_reader(&Options::default(), &img).err(),
        Some(Error::InvalidSuperblock),
    );
    assert_eq!(
        SquashFs::from_reader(&Options::default(), &[0u8; 40]).err(),
        Some(Error::InvalidSuperblock),
    );
}

#[test]
fn invalid_options_rejected() {
    let files = tree();
    let img = build_image(&files, "store");
    let r = SquashFs::from_reader(
        &Options { cache_mb: 100, readers: 0, direct_limit: 0 },
        &img,
    );
    assert!(matches!(r, Err(Error::InvalidOptions(_))));
    let r = SquashFs::from_reader(
        &Options { cache_mb: 1, readers: 4, direct_limit: 1_000_000 },
        &img,
    );
    assert!(matches!(r, Err(Error::InvalidOptions(_))));
}

#[test]
fn metadata_chaining_across_blocks() {
    // Enough inodes that the inode table spans several metadata blocks.
    let mut files = Vec::new();
    let names: Vec<Vec<u8>> = (0..400u32).map(|i| format!("f{:03}", i).into_bytes()).collect();
    for (i, name) in names.iter().enumerate() {
        files.push(FileSpec {
            name: Box::leak(name.clone().into_boxed_slice()),
            content: vec![i as u8; 17],
            frag: false,
        });
    }
    let img = build_image(&files, "zlib");
    let mut sq = SquashFs::from_reader(&Options::default(), &img).unwrap();
    for (i, name) in names.iter().enumerate() {
        let ino = 2 + i as u32;
        assert_eq!(sq.lookup(1, name).unwrap(), ino);
        assert_eq!(read_all(&mut sq, &img, ino, 17), vec![i as u8; 17]);
    }
}

#[test]
fn extended_inodes_and_symlink() {
    let files = vec![
        FileSpec { name: b"wide.bin", content: prand(2 * 4096 + 333, 40), frag: false },
        FileSpec { name: b"tiny.bin", content: prand(123, 41), frag: false },
    ];
    let img = build_image_with(&files, "zlib", true);
    let mut sq = SquashFs::from_reader(&Options::default(), &img).unwrap();
    for (i, f) in files.iter().enumerate() {
        let ino = 2 + i as u32;
        assert_eq!(sq.lookup(1, f.name).unwrap(), ino);
        assert_eq!(read_all(&mut sq, &img, ino, f.content.len()), f.content);
    }
    // The symlink is parsed but surfaces in neither map.
    let symlink_ino = 2 + files.len() as u32;
    assert!(!sq.inode_table.files.contains_key(&symlink_ino));
    assert!(!sq.inode_table.directories.contains_key(&symlink_ino));
}

#[test]
fn small_file_cache_eviction() {
    // More small files than the whole-file cache can hold: ten entries
    // (1 MB budget over a 100 kB limit), twelve files read twice each.
    let mut files = Vec::new();
    for i in 0..12u64 {
        let name: &'static [u8] = Box::leak(format!("s{:02}", i).into_bytes().into_boxed_slice());
        files.push(FileSpec { name, content: prand(8192, 100 + i), frag: false });
    }
    let img = build_image(&files, "zlib");
    let options = Options { cache_mb: 1, readers: 4, direct_limit: 100_000 };
    let mut sq = SquashFs::from_reader(&options, &img).unwrap();
    for round in 0..2 {
        for (i, f) in files.iter().enumerate() {
            let ino = 2 + i as u32;
            let r = sq.read_file(&img, ino, 0, f.content.len(), O_DIRECT).unwrap();
            assert_eq!(r, f.content, "file {} round {}", i, round);
        }
    }
}
