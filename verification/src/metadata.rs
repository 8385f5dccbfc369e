//! Metadata blocks: up to 8 KiB of decompressed content behind a 16-bit
//! header, chained end to end to form the byte streams the tables live in.
use vstd::prelude::*;

use crate::compress::{decompress, decompress_of, Compression};
use crate::error::MetadataError;
use crate::le::{le16, read_u16};

verus! {

/// Decompressed size bound of one metadata block.
pub const METADATA_BLOCK_LIMIT: usize = 8192;

/// One decoded metadata block.
#[derive(Debug, Clone)]
pub struct MetadataBlock {
    /// On-disk byte length of the block body (without the 2-byte header).
    pub compressed_size: u16,
    /// Decompressed payload.
    pub data: Vec<u8>,
}

/// The payload and end position of the metadata block at `pos`: a 16-bit
/// little-endian header whose low 15 bits give the body length and whose high
/// bit set means the body is stored uncompressed; the payload must fit in
/// [`METADATA_BLOCK_LIMIT`] bytes.
pub open spec fn metadata_block_at(img: Seq<u8>, pos: int, algo: Compression) -> Option<
    (Seq<u8>, int),
> {
    if pos < 0 || pos + 2 > img.len() {
        None
    } else {
        let header = le16(img, pos);
        let cs = header % 0x8000;
        let compressed = header < 0x8000;
        if pos + 2 + cs > img.len() {
            None
        } else {
            match decompress_of(
                img.subrange(pos + 2, pos + 2 + cs),
                if compressed {
                    Some(algo)
                } else {
                    None
                },
            ) {
                Some(d) => if d.len() <= METADATA_BLOCK_LIMIT {
                    Some((d, pos + 2 + cs))
                } else {
                    None
                },
                None => None,
            }
        }
    }
}

/// The flat byte stream formed by the chained metadata blocks from `pos` up
/// to the first block whose start reaches `end`.
pub open spec fn metadata_stream_of(
    img: Seq<u8>,
    pos: int,
    end: int,
    algo: Compression,
) -> Option<Seq<u8>>
    decreases end - pos,
{
    if pos >= end {
        Some(Seq::empty())
    } else {
        match metadata_block_at(img, pos, algo) {
            Some((d, next)) => if next >= end {
                Some(d)
            } else {
                match metadata_stream_of(img, next, end, algo) {
                    Some(rest) => Some(d + rest),
                    None => None,
                }
            },
            None => None,
        }
    }
}

impl MetadataBlock {
    /// Decode the metadata block at `pos` in `img`; on success also returns
    /// the position just past the block.
    pub fn from_reader(img: &[u8], pos: usize, algo: Compression) -> (r: Result<
        (MetadataBlock, usize),
        MetadataError,
    >)
        ensures
            r matches Ok(p) ==> metadata_block_at(img@, pos as int, algo) == Some(
                (p.0.data@, p.1 as int),
            ) && pos < p.1 <= img@.len() && p.0.compressed_size == le16(img@, pos as int) % 0x8000,
            r is Ok <==> metadata_block_at(img@, pos as int, algo) is Some,
            pos + 2 > img@.len() <==> r == Err::<(MetadataBlock, usize), MetadataError>(
                MetadataError::InvalidHeader,
            ),
            ({
                let cs = le16(img@, pos as int) % 0x8000;
                let compressed = le16(img@, pos as int) < 0x8000;
                let body_ok = pos + 2 <= img@.len() && pos + 2 + cs <= img@.len();
                let decoded = decompress_of(
                    img@.subrange(pos + 2, pos + 2 + cs),
                    if compressed {
                        Some(algo)
                    } else {
                        None
                    },
                );
                &&& (pos + 2 <= img@.len() && !body_ok ==> r == Err::<
                    (MetadataBlock, usize),
                    MetadataError,
                >(MetadataError::ReadFailure))
                &&& (body_ok && decoded is None ==> (r matches Err(e) && e
                    matches MetadataError::Decompress(_)))
                &&& (body_ok && (decoded matches Some(d) && d.len() > METADATA_BLOCK_LIMIT)
                    ==> r == Err::<(MetadataBlock, usize), MetadataError>(
                    MetadataError::InvalidDataLength,
                ))
            }),
    {
        let n = img.len();
        if pos >= n || n - pos < 2 {
            return Err(MetadataError::InvalidHeader);
        }
        let header = read_u16(img, pos);
        let compressed_size = header & 0x7FFF;
        let compressed = (header & 0x8000) == 0;
        proof {
            let h = header;
            assert(h & 0x7FFF == h % 0x8000) by (bit_vector);
            assert((h & 0x8000 == 0) == (h < 0x8000)) by (bit_vector);
        }
        let cs = compressed_size as usize;
        if n - pos - 2 < cs {
            return Err(MetadataError::ReadFailure);
        }
        let body: &[u8] = vstd::slice::slice_subrange(img, pos + 2, pos + 2 + cs);
        let algo_opt = if compressed {
            Some(algo)
        } else {
            None
        };
        let data = match decompress(body, algo_opt) {
            Ok(d) => d,
            Err(e) => {
                return Err(MetadataError::Decompress(e));
            },
        };
        if data.len() > METADATA_BLOCK_LIMIT {
            return Err(MetadataError::InvalidDataLength);
        }
        Ok((MetadataBlock { compressed_size, data }, pos + 2 + cs))
    }

    /// Decode the chained metadata blocks from `start` until the read
    /// position reaches `end`, and return their payloads as one flat byte
    /// stream.
    #[verifier::loop_isolation(false)]
    pub fn from_reader_flatten(img: &[u8], start: usize, end: u64, algo: Compression) -> (r:
        Result<Vec<u8>, MetadataError>)
        ensures
            r matches Ok(v) ==> metadata_stream_of(img@, start as int, end as int, algo) == Some(
                v@,
            ),
            r is Ok <==> metadata_stream_of(img@, start as int, end as int, algo) is Some,
    {
        let mut acc: Vec<u8> = Vec::new();
        let mut pos = start;
        while (pos as u64) < end
            invariant
                start <= pos,
                ({
                    let whole = metadata_stream_of(img@, start as int, end as int, algo);
                    let rest = metadata_stream_of(img@, pos as int, end as int, algo);
                    whole == (match rest {
                        Some(tail) => Some(acc@ + tail),
                        None => None::<Seq<u8>>,
                    })
                }),
            decreases end - pos,
        {
            let (block, next) = match Self::from_reader(img, pos, algo) {
                Ok(p) => p,
                Err(e) => {
                    return Err(e);
                },
            };
            let mut data = block.data;
            let ghost acc_pre = acc@;
            let ghost d0 = data@;
            acc.append(&mut data);
            proof {
                assert(acc@ == acc_pre + d0);
                if next as int >= end as int {
                    assert(metadata_stream_of(img@, next as int, end as int, algo) == Some(
                        Seq::<u8>::empty(),
                    ));
                    assert(d0 + Seq::<u8>::empty() =~= d0);
                } else {
                    match metadata_stream_of(img@, next as int, end as int, algo) {
                        Some(rest) => {
                            assert(acc_pre + (d0 + rest) =~= (acc_pre + d0) + rest);
                        },
                        None => {},
                    }
                }
            }
            pos = next;
            if (pos as u64) >= end {
                break;
            }
        }
        proof {
            assert(metadata_stream_of(img@, pos as int, end as int, algo) == Some(
                Seq::<u8>::empty(),
            ));
            assert(acc@ + Seq::<u8>::empty() =~= acc@);
        }
        Ok(acc)
    }
}

} // verus!
