//! Stream decompression for the three supported algorithms, behind trusted
//! wrappers over `async_compression`'s in-memory decoders.
use vstd::prelude::*;

use crate::error::DecompressError;

verus! {

/// Compression algorithm named by the superblock (on-disk tags 1 through 6).
#[derive(Debug, Copy, Clone, PartialEq, Eq, Structural)]
pub enum Compression {
    Gzip,
    Lzma,
    Lzd,
    Xz,
    Lz4,
    Zstd,
}

impl Compression {
    /// The algorithm carried by the superblock's 16-bit tag, if any.
    pub open spec fn from_tag_spec(v: int) -> Option<Compression> {
        if v == 1 {
            Some(Compression::Gzip)
        } else if v == 2 {
            Some(Compression::Lzma)
        } else if v == 3 {
            Some(Compression::Lzd)
        } else if v == 4 {
            Some(Compression::Xz)
        } else if v == 5 {
            Some(Compression::Lz4)
        } else if v == 6 {
            Some(Compression::Zstd)
        } else {
            None
        }
    }

    pub fn from_tag(v: u16) -> (r: Option<Compression>)
        ensures
            r == Self::from_tag_spec(v as int),
    {
        match v {
            1 => Some(Compression::Gzip),
            2 => Some(Compression::Lzma),
            3 => Some(Compression::Lzd),
            4 => Some(Compression::Xz),
            5 => Some(Compression::Lz4),
            6 => Some(Compression::Zstd),
            _ => None,
        }
    }

    /// Whether the reader has a decoder for this algorithm.
    pub open spec fn supported_spec(self) -> bool {
        self is Gzip || self is Xz || self is Zstd
    }

    pub fn supported(&self) -> (r: bool)
        ensures
            r == self.supported_spec(),
    {
        match self {
            Compression::Gzip => true,
            Compression::Xz => true,
            Compression::Zstd => true,
            _ => false,
        }
    }
}

/// What the zlib stream decoder yields for `s`: `None` when it rejects the
/// input, otherwise the decoded bytes. A function of the input alone.
pub uninterp spec fn zlib_inflate_of(s: Seq<u8>) -> Option<Seq<u8>>;

/// What the xz stream decoder yields for `s`; a function of the input alone.
pub uninterp spec fn xz_inflate_of(s: Seq<u8>) -> Option<Seq<u8>>;

/// What the zstd stream decoder yields for `s`; a function of the input alone.
pub uninterp spec fn zstd_inflate_of(s: Seq<u8>) -> Option<Seq<u8>>;

/// Decompressing `s` under `c`: the input copied verbatim when no algorithm
/// is given, the named decoder output for the supported algorithms, and
/// nothing for the unsupported ones.
pub open spec fn decompress_of(s: Seq<u8>, c: Option<Compression>) -> Option<Seq<u8>> {
    match c {
        None => Some(s),
        Some(Compression::Gzip) => zlib_inflate_of(s),
        Some(Compression::Xz) => xz_inflate_of(s),
        Some(Compression::Zstd) => zstd_inflate_of(s),
        Some(_) => None,
    }
}

/// Whether `c` asks for nothing or for a supported algorithm.
pub open spec fn supported_opt(c: Option<Compression>) -> bool {
    match c {
        None => true,
        Some(a) => a.supported_spec(),
    }
}

/// Relies on `async_compression::tokio::bufread::ZlibDecoder` driven over the
/// in-memory input: decodes a zlib stream, an outcome that depends on the
/// input bytes alone.
#[verifier::external_body]
fn zlib_inflate(input: &[u8]) -> (r: Option<Vec<u8>>)
    ensures
        match r {
            Some(v) => zlib_inflate_of(input@) == Some(v@),
            None => zlib_inflate_of(input@) is None,
        },
{
    let mut dec = async_compression::tokio::bufread::ZlibDecoder::new(input);
    let mut out: Vec<u8> = Vec::new();
    match futures::executor::block_on(tokio::io::copy(&mut dec, &mut out)) {
        Ok(_) => Some(out),
        Err(_) => None,
    }
}

/// Relies on `async_compression::tokio::bufread::XzDecoder` driven over the
/// in-memory input: decodes an xz stream, an outcome that depends on the
/// input bytes alone.
#[verifier::external_body]
fn xz_inflate(input: &[u8]) -> (r: Option<Vec<u8>>)
    ensures
        match r {
            Some(v) => xz_inflate_of(input@) == Some(v@),
            None => xz_inflate_of(input@) is None,
        },
{
    let mut dec = async_compression::tokio::bufread::XzDecoder::new(input);
    let mut out: Vec<u8> = Vec::new();
    match futures::executor::block_on(tokio::io::copy(&mut dec, &mut out)) {
        Ok(_) => Some(out),
        Err(_) => None,
    }
}

/// Relies on `async_compression::tokio::bufread::ZstdDecoder` driven over the
/// in-memory input: decodes a zstd stream, an outcome that depends on the
/// input bytes alone.
#[verifier::external_body]
fn zstd_inflate(input: &[u8]) -> (r: Option<Vec<u8>>)
    ensures
        match r {
            Some(v) => zstd_inflate_of(input@) == Some(v@),
            None => zstd_inflate_of(input@) is None,
        },
{
    let mut dec = async_compression::tokio::bufread::ZstdDecoder::new(input);
    let mut out: Vec<u8> = Vec::new();
    match futures::executor::block_on(tokio::io::copy(&mut dec, &mut out)) {
        Ok(_) => Some(out),
        Err(_) => None,
    }
}

/// Decompress `input` under `compression`: copied verbatim when `None`,
/// decoded otherwise.
pub fn decompress(input: &[u8], compression: Option<Compression>) -> (r: Result<
    Vec<u8>,
    DecompressError,
>)
    ensures
        r matches Ok(v) ==> decompress_of(input@, compression) == Some(v@),
        supported_opt(compression) ==> (r is Ok <==> decompress_of(input@, compression) is Some),
        !supported_opt(compression) ==> r == Err::<Vec<u8>, DecompressError>(
            DecompressError::UnsupportedCompression(compression->0),
        ),
        supported_opt(compression) ==> (r is Err ==> r == Err::<Vec<u8>, DecompressError>(
            DecompressError::Io,
        )),
{
    match compression {
        None => Ok(vstd::slice::slice_to_vec(input)),
        Some(Compression::Gzip) => match zlib_inflate(input) {
            Some(v) => Ok(v),
            None => Err(DecompressError::Io),
        },
        Some(Compression::Xz) => match xz_inflate(input) {
            Some(v) => Ok(v),
            None => Err(DecompressError::Io),
        },
        Some(Compression::Zstd) => match zstd_inflate(input) {
            Some(v) => Ok(v),
            None => Err(DecompressError::Io),
        },
        Some(c) => Err(DecompressError::UnsupportedCompression(c)),
    }
}

} // verus!
