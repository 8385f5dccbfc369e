//! The superblock: archive metadata at offset 0, locating every table.
use vstd::prelude::*;

use crate::compress::Compression;
use crate::error::{DecompressError, Error};
use crate::inodes::InodeRef;
use crate::le::{le16, le32, le64, read_u16, read_u32, read_u64};
use crate::metadata::{metadata_block_at, MetadataBlock};

verus! {

/// The archive's magic number.
pub const SQUASHFS_MAGIC: u32 = 0x73717368;

/// Flag bit: a compressor-options metadata block follows the superblock.
pub const FLAG_COMPRESSOR_OPTIONS: u16 = 0x0400;

/// Smallest data block size the format allows.
pub const MIN_BLOCK_SIZE: u32 = 4096;

/// Largest data block size the format allows.
pub const MAX_BLOCK_SIZE: u32 = 0x10_0000;

/// Compression parameters following the superblock, validated only for their
/// expected on-disk size.
#[derive(Debug, Copy, Clone, PartialEq, Eq, Structural)]
pub enum CompressionOptions {
    Zstd,
    Gzip,
    Xz,
}

/// Superblock, containing archive metadata: 96 bytes at offset 0.
#[derive(Debug, Clone)]
pub struct SuperBlock {
    pub magic: u32,
    pub inode_count: u32,
    pub modification_time: u32,
    pub block_size: u32,
    pub fragment_entry_count: u32,
    pub compression: Compression,
    pub block_log: u16,
    pub flags: u16,
    pub id_count: u16,
    pub version_major: u16,
    pub version_minor: u16,
    pub root_inode: InodeRef,
    /// Bytes used by the archive, without padding.
    pub bytes_used: u64,
    pub id_table_start: u64,
    pub xattr_id_table_start: u64,
    pub inode_table_start: u64,
    pub directory_table_start: u64,
    pub fragment_table_start: u64,
    pub export_table_start: u64,
    pub compression_options: Option<CompressionOptions>,
}

/// Whether the fixed 96-byte header carries a valid superblock: right magic,
/// version 4.0, a known compression tag, a block size the format allows, and
/// an inode table that starts inside the used bytes.
pub open spec fn superblock_header_ok(img: Seq<u8>) -> bool {
    &&& img.len() >= 96
    &&& le32(img, 0) == SQUASHFS_MAGIC
    &&& le16(img, 28) == 4
    &&& le16(img, 30) == 0
    &&& Compression::from_tag_spec(le16(img, 20)) is Some
    &&& MIN_BLOCK_SIZE <= le32(img, 12) <= MAX_BLOCK_SIZE
    &&& le64(img, 64) <= le64(img, 40)
}

/// Whether the superblock announces a compressor-options block.
pub open spec fn has_compressor_options(img: Seq<u8>) -> bool {
    (le16(img, 24) / 0x0400) % 2 == 1
}

/// Expected on-disk size of the compressor-options block body, if the
/// algorithm is supported at all.
pub open spec fn compressor_options_size(c: Compression) -> Option<int> {
    match c {
        Compression::Zstd => Some(4int),
        Compression::Gzip => Some(8int),
        Compression::Xz => Some(8int),
        _ => None,
    }
}

/// Whether the compressor-options block after the superblock decodes and has
/// the body size its algorithm calls for.
pub open spec fn compressor_options_ok(img: Seq<u8>, c: Compression) -> bool {
    &&& metadata_block_at(img, 96, c) is Some
    &&& compressor_options_size(c) == Some(le16(img, 96) % 0x8000)
}

/// Whether the whole superblock, compressor options included, is valid.
pub open spec fn superblock_ok(img: Seq<u8>) -> bool {
    &&& superblock_header_ok(img)
    &&& (has_compressor_options(img) ==> compressor_options_ok(
        img,
        Compression::from_tag_spec(le16(img, 20))->0,
    ))
}

impl CompressionOptions {
    /// Validate a compressor-options block against its algorithm's expected
    /// body size.
    pub fn from_metadata(compression: Compression, block: &MetadataBlock) -> (r: Result<
        CompressionOptions,
        Error,
    >)
        ensures
            r is Ok <==> compressor_options_size(compression) == Some(
                block.compressed_size as int,
            ),
            compressor_options_size(compression) is None ==> r == Err::<
                CompressionOptions,
                Error,
            >(Error::Decompress(DecompressError::UnsupportedCompression(compression))),
            compressor_options_size(compression) is Some && r is Err ==> r == Err::<
                CompressionOptions,
                Error,
            >(Error::InvalidBufferSize),
    {
        match compression {
            Compression::Zstd => {
                if block.compressed_size != 4 {
                    return Err(Error::InvalidBufferSize);
                }
                Ok(CompressionOptions::Zstd)
            },
            Compression::Gzip => {
                if block.compressed_size != 8 {
                    return Err(Error::InvalidBufferSize);
                }
                Ok(CompressionOptions::Gzip)
            },
            Compression::Xz => {
                if block.compressed_size != 8 {
                    return Err(Error::InvalidBufferSize);
                }
                Ok(CompressionOptions::Xz)
            },
            _ => Err(Error::Decompress(DecompressError::UnsupportedCompression(compression))),
        }
    }
}

impl SuperBlock {
    /// Parse and validate the superblock at the start of `img`, consuming the
    /// compressor-options block when the flags announce one.
    pub fn from_reader(img: &[u8]) -> (r: Result<SuperBlock, Error>)
        ensures
            r is Ok <==> superblock_ok(img@),
            r matches Ok(sb) ==> ({
                &&& sb.magic == SQUASHFS_MAGIC
                &&& sb.inode_count == le32(img@, 4)
                &&& sb.modification_time == le32(img@, 8)
                &&& sb.block_size == le32(img@, 12)
                &&& sb.fragment_entry_count == le32(img@, 16)
                &&& Some(sb.compression) == Compression::from_tag_spec(le16(img@, 20))
                &&& sb.block_log == le16(img@, 22)
                &&& sb.flags == le16(img@, 24)
                &&& sb.id_count == le16(img@, 26)
                &&& sb.version_major == 4 && sb.version_minor == 0
                &&& sb.root_inode == InodeRef(le64(img@, 32) as u64)
                &&& sb.bytes_used == le64(img@, 40)
                &&& sb.id_table_start == le64(img@, 48)
                &&& sb.xattr_id_table_start == le64(img@, 56)
                &&& sb.inode_table_start == le64(img@, 64)
                &&& sb.directory_table_start == le64(img@, 72)
                &&& sb.fragment_table_start == le64(img@, 80)
                &&& sb.export_table_start == le64(img@, 88)
                &&& sb.compression_options is Some <==> has_compressor_options(img@)
                &&& MIN_BLOCK_SIZE <= sb.block_size <= MAX_BLOCK_SIZE
                &&& sb.inode_table_start <= sb.bytes_used
            }),
            !superblock_header_ok(img@) <==> r == Err::<SuperBlock, Error>(
                Error::InvalidSuperblock,
            ),
            ({
                let algo = Compression::from_tag_spec(le16(img@, 20))->0;
                let cs = le16(img@, 96) % 0x8000;
                &&& (superblock_header_ok(img@) && has_compressor_options(img@)
                    && metadata_block_at(img@, 96, algo) is None ==> (r matches Err(e) && e
                    matches Error::Metadata(_)))
                &&& (superblock_header_ok(img@) && has_compressor_options(img@)
                    && metadata_block_at(img@, 96, algo) is Some && compressor_options_size(algo)
                    is None ==> r == Err::<SuperBlock, Error>(
                    Error::Decompress(DecompressError::UnsupportedCompression(algo)),
                ))
                &&& (superblock_header_ok(img@) && has_compressor_options(img@)
                    && metadata_block_at(img@, 96, algo) is Some && (compressor_options_size(algo)
                    matches Some(want) && want != cs) ==> r == Err::<SuperBlock, Error>(
                    Error::InvalidBufferSize,
                ))
            }),
    {
        if img.len() < 96 {
            return Err(Error::InvalidSuperblock);
        }
        let magic = read_u32(img, 0);
        let version_major = read_u16(img, 28);
        let version_minor = read_u16(img, 30);
        if magic != SQUASHFS_MAGIC || version_major != 4 || version_minor != 0 {
            return Err(Error::InvalidSuperblock);
        }
        let compression = match Compression::from_tag(read_u16(img, 20)) {
            Some(c) => c,
            None => {
                return Err(Error::InvalidSuperblock);
            },
        };
        let block_size = read_u32(img, 12);
        if block_size < MIN_BLOCK_SIZE || block_size > MAX_BLOCK_SIZE {
            return Err(Error::InvalidSuperblock);
        }
        let bytes_used = read_u64(img, 40);
        let inode_table_start = read_u64(img, 64);
        if inode_table_start > bytes_used {
            return Err(Error::InvalidSuperblock);
        }
        let flags = read_u16(img, 24);
        let mut superblock = SuperBlock {
            magic,
            inode_count: read_u32(img, 4),
            modification_time: read_u32(img, 8),
            block_size,
            fragment_entry_count: read_u32(img, 16),
            compression,
            block_log: read_u16(img, 22),
            flags,
            id_count: read_u16(img, 26),
            version_major,
            version_minor,
            root_inode: InodeRef(read_u64(img, 32)),
            bytes_used,
            id_table_start: read_u64(img, 48),
            xattr_id_table_start: read_u64(img, 56),
            inode_table_start,
            directory_table_start: read_u64(img, 72),
            fragment_table_start: read_u64(img, 80),
            export_table_start: read_u64(img, 88),
            compression_options: None,
        };
        proof {
            let f = flags;
            assert((f & 0x0400 != 0) == ((f / 0x0400) % 2 == 1)) by (bit_vector);
        }
        if (flags & FLAG_COMPRESSOR_OPTIONS) != 0 {
            let (block, _next) = match MetadataBlock::from_reader(img, 96, compression) {
                Ok(p) => p,
                Err(e) => {
                    return Err(Error::Metadata(e));
                },
            };
            let options = match CompressionOptions::from_metadata(compression, &block) {
                Ok(o) => o,
                Err(e) => {
                    return Err(e);
                },
            };
            superblock.compression_options = Some(options);
        }
        Ok(superblock)
    }

    /// Total bytes the tables take at the end of the archive.
    pub fn tables_length(&self) -> (r: u64)
        requires
            self.inode_table_start <= self.bytes_used,
        ensures
            r == self.bytes_used - self.inode_table_start,
    {
        self.bytes_used - self.inode_table_start
    }
}

} // verus!
