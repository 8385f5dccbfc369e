//! Error taxonomy of the reader.
use vstd::prelude::*;

use crate::compress::Compression;

verus! {

/// Decompression failure, for compressed archives.
#[derive(Debug, Clone, Copy, PartialEq, Eq)]
pub enum DecompressError {
    /// The stream decoder rejected the input.
    Io,
    /// The archive names an algorithm the reader does not handle.
    UnsupportedCompression(Compression),
}

/// Metadata-block parsing failure.
#[derive(Debug, Clone, Copy, PartialEq, Eq)]
pub enum MetadataError {
    InvalidHeader,
    InvalidEntry,
    /// A decompressed metadata block exceeded the format's size bound.
    InvalidDataLength,
    ReadFailure,
    Decompress(DecompressError),
}

/// Inode-table parsing failure.
#[derive(Debug, Clone, Copy, PartialEq, Eq)]
pub enum InodeTableError {
    InvalidHeader,
    InvalidEntry,
    InvalidMetadata(MetadataError),
    ReadFailure,
}

/// Directory-table parsing failure.
#[derive(Debug, Clone, Copy, PartialEq, Eq)]
pub enum DirectoryTableError {
    InvalidHeader,
    InvalidEntry,
    InvalidMetadata(MetadataError),
    ReadFailure,
}

/// Fragment-table failure.
#[derive(Debug, Clone, Copy, PartialEq, Eq)]
pub enum FragmentsError {
    /// A fragment location does not resolve in the table.
    InvalidLocation,
    InvalidMetadata(MetadataError),
    InvalidEntry,
    ReadFailure,
}

/// Main error type.
#[derive(Debug, Clone, PartialEq, Eq)]
pub enum Error {
    InvalidBufferSize,
    InvalidSuperblock,
    ReadFailure,
    FileNotFound(Option<String>),
    DirectoryNotFound,
    InvalidOffset,
    CacheError,
    PoolError,
    PoolBuildError,
    InvalidOptions(&'static str),
    Fragments(FragmentsError),
    InodeTable(InodeTableError),
    DirectoryTable(DirectoryTableError),
    Metadata(MetadataError),
    Decompress(DecompressError),
    Encoding,
    InvalidInode,
}

} // verus!
