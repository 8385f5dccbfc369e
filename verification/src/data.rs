//! Reading data blocks: block-size words, data locations, and the decoding
//! of a single data block with the decoded-block cache.
use vstd::prelude::*;

use crate::cache::BlockCache;
use crate::compress::{decompress, decompress_of, Compression};
use crate::error::{DecompressError, Error};
use crate::fragments::{Entry, FragmentsTable};
use crate::inodes::{locations_fit, n_blocks_spec, FileInode, FileModel};

verus! {

/// A 32-bit block-size word: the low 24 bits are the on-disk (compressed)
/// byte length; bit 24 set means the block body is stored uncompressed.
/// A zero compressed size marks a sparse block of `block_size` zero bytes.
#[derive(Debug, Copy, Clone, PartialEq, Eq, Structural)]
pub struct BlockSize(pub u32);

impl BlockSize {
    /// Whether the block body is compressed.
    pub open spec fn compressed_spec(self) -> bool {
        self.0 & 0x0100_0000 == 0
    }

    /// On-disk byte length of the block body.
    pub open spec fn compressed_size_spec(self) -> int {
        (self.0 & 0x00FF_FFFF) as int
    }

    /// Whether the block body is compressed.
    pub fn compressed(&self) -> (r: bool)
        ensures
            r == self.compressed_spec(),
    {
        let w: u32 = self.0;
        proof {
            assert(w & (1u32 << 24) == w & 0x0100_0000) by (bit_vector);
        }
        (w & (1u32 << 24)) == 0
    }

    /// On-disk byte length of the block body.
    pub fn compressed_size(&self) -> (r: u64)
        ensures
            r == self.compressed_size_spec(),
            r < 0x0100_0000,
    {
        let w: u32 = self.0;
        proof {
            assert((w & 0x00FF_FFFF) < 0x0100_0000) by (bit_vector);
        }
        (w & 0x00FF_FFFF) as u64
    }
}

/// Where one data block of a file lives on disk.
#[derive(Debug, Copy, Clone, PartialEq, Eq, Structural)]
pub struct DataLocation {
    pub block_start: u64,
    pub block_size: BlockSize,
}

/// Start offset of the `i`-th data block of a file whose blocks begin at
/// `blocks_start`: blocks are laid out back to back, each taking its
/// compressed size on disk.
pub open spec fn block_start_at(blocks_start: int, sizes: Seq<BlockSize>, i: int) -> int
    decreases i,
{
    if i <= 0 {
        blocks_start
    } else {
        block_start_at(blocks_start, sizes, i - 1) + sizes[i - 1].compressed_size_spec()
    }
}

/// Block starts never decrease along the chain.
pub proof fn lemma_block_start_monotone(blocks_start: int, sizes: Seq<BlockSize>, i: int, j: int)
    requires
        0 <= i <= j,
    ensures
        block_start_at(blocks_start, sizes, i) <= block_start_at(blocks_start, sizes, j),
    decreases j - i,
{
    if i < j {
        lemma_block_start_monotone(blocks_start, sizes, i, j - 1);
        assert(sizes[j - 1].compressed_size_spec() >= 0) by {
            let w = sizes[j - 1].0;
            assert(w & 0x00FF_FFFF >= 0) by (bit_vector);
        }
    }
}

/// `block_size` zero bytes.
pub open spec fn zeros(n: int) -> Seq<u8> {
    Seq::new(n as nat, |i| 0u8)
}

/// `s` padded with zero bytes up to length `n`.
pub open spec fn pad_block(s: Seq<u8>, n: int) -> Seq<u8> {
    Seq::new(
        n as nat,
        |i: int|
            if i < s.len() {
                s[i]
            } else {
                0u8
            },
    )
}

/// The decoded content of the data block described by `(start, b)` in the
/// image `img`: `block_size` zero bytes for a sparse block, otherwise the
/// block body decompressed (or copied verbatim) and zero-padded to
/// `block_size`. `None` when the body lies outside the image, fails to
/// decode, or decodes to more than `block_size` bytes.
pub open spec fn data_block_of(
    img: Seq<u8>,
    start: int,
    b: BlockSize,
    block_size: int,
    algo: Compression,
) -> Option<Seq<u8>> {
    let cs = b.compressed_size_spec();
    if cs == 0 {
        Some(zeros(block_size))
    } else if start < 0 || start + cs > img.len() {
        None
    } else {
        let raw = img.subrange(start, start + cs);
        match decompress_of(
            raw,
            if b.compressed_spec() {
                Some(algo)
            } else {
                None
            },
        ) {
            Some(d) => if d.len() <= block_size {
                Some(pad_block(d, block_size))
            } else {
                None
            },
            None => None,
        }
    }
}

/// A decoded block always has exactly `block_size` bytes.
pub proof fn lemma_data_block_len(
    img: Seq<u8>,
    start: int,
    b: BlockSize,
    block_size: int,
    algo: Compression,
)
    requires
        block_size >= 0,
    ensures
        data_block_of(img, start, b, block_size, algo) matches Some(v) ==> v.len() == block_size,
{
}

/// Every cache entry is the decoded content of the block its key and stored
/// block-size word describe; in particular no entry's length differs from
/// `block_size`.
pub open spec fn cache_ok(c: BlockCache, img: Seq<u8>, block_size: int, algo: Compression) -> bool {
    forall|k: u64| #[trigger]
        c.entries().contains_key(k) ==> Some(c.entries()[k].1) == data_block_of(
            img,
            k as int,
            c.entries()[k].0,
            block_size,
            algo,
        )
}

/// Decode one data block, consulting and feeding the decoded-block cache.
///
/// `reader` is the window of the image starting at absolute offset
/// `reader_offset`; a sparse block (compressed size zero) yields zeros
/// without touching the cache or the window.
pub fn read_data_block(
    reader: &[u8],
    reader_offset: u64,
    start: u64,
    b: BlockSize,
    block_size: u32,
    cache: &mut BlockCache,
    compression: Compression,
    Ghost(img): Ghost<Seq<u8>>,
) -> (r: Result<Vec<u8>, Error>)
    requires
        old(cache).wf(),
        reader@ == img.subrange(reader_offset as int, reader_offset + reader@.len()),
        reader_offset + reader@.len() <= img.len(),
        cache_ok(*old(cache), img, block_size as int, compression),
    ensures
        final(cache).wf(),
        cache_ok(*final(cache), img, block_size as int, compression),
        final(cache).enabled() == old(cache).enabled(),
        r matches Ok(v) ==> Some(v@) == data_block_of(
            img,
            start as int,
            b,
            block_size as int,
            compression,
        ),
        r matches Ok(v) ==> ((old(cache).enabled() && b.compressed_size_spec() != 0)
            ==> final(cache).entries().contains_key(start) && final(cache).entries()[start] == (
            b,
            v@,
        )),
        r is Ok <==> (b.compressed_size_spec() == 0 || (reader_offset <= start && start
            + b.compressed_size_spec() <= reader_offset + reader@.len() && data_block_of(
            img,
            start as int,
            b,
            block_size as int,
            compression,
        ) is Some)),
        b.compressed_size_spec() == 0 ==> final(cache).entries() == old(cache).entries(),
        r matches Err(e) ==> (e == Error::ReadFailure || e matches Error::Decompress(_)),
{
    let n: usize = reader.len();
    let cs: u64 = b.compressed_size();
    if cs == 0 {
        let mut out: Vec<u8> = Vec::new();
        let mut i: usize = 0;
        while i < block_size as usize
            invariant
                i <= block_size,
                out@ =~= zeros(i as int),
            decreases block_size - i,
        {
            out.push(0u8);
            i = i + 1;
            proof {
                assert(out@ =~= zeros(i as int));
            }
        }
        proof {
            assert(out@ =~= zeros(block_size as int));
        }
        return Ok(out);
    }
    // The block body must lie inside the window handed to us.
    if start < reader_offset || start - reader_offset > n as u64 || cs > n as u64 - (start
        - reader_offset) {
        return Err(Error::ReadFailure);
    }
    let lo: usize = (start - reader_offset) as usize;
    let hi: usize = lo + cs as usize;
    proof {
        assert(img.subrange(reader_offset as int, reader_offset + reader@.len()).subrange(
            lo as int,
            hi as int,
        ) =~= img.subrange(start as int, start + cs));
    }
    // Serve from the cache when the block was already decoded.
    match cache.get(start, b) {
        Some(v) => {
            return Ok(vstd::slice::slice_to_vec(v.as_slice()));
        },
        None => {},
    }
    let raw: &[u8] = vstd::slice::slice_subrange(reader, lo, hi);
    let algo = if b.compressed() {
        Some(compression)
    } else {
        None
    };
    let d = match decompress(raw, algo) {
        Ok(d) => d,
        Err(_) => {
            return Err(Error::Decompress(DecompressError::Io));
        },
    };
    if d.len() > block_size as usize {
        return Err(Error::Decompress(DecompressError::Io));
    }
    let ghost d0 = d@;
    let mut out = d;
    while out.len() < block_size as usize
        invariant
            d0.len() <= block_size,
            d0.len() <= out@.len() <= block_size,
            forall|j: int|
                0 <= j < out@.len() ==> out@[j] == if j < d0.len() {
                    d0[j]
                } else {
                    0u8
                },
        decreases block_size - out@.len(),
    {
        out.push(0u8);
    }
    proof {
        assert(out@ =~= pad_block(d0, block_size as int));
    }
    let copy = vstd::slice::slice_to_vec(out.as_slice());
    cache.try_insert(start, b, copy);
    Ok(out)
}

/// Number of data blocks a file inode lists.
pub open spec fn n_loc(m: FileModel) -> int {
    m.block_sizes.len() as int
}

/// The decoded content of the file's `i`-th data block.
pub open spec fn file_block_content(
    img: Seq<u8>,
    m: FileModel,
    i: int,
    block_size: int,
    algo: Compression,
) -> Option<Seq<u8>> {
    data_block_of(
        img,
        block_start_at(m.blocks_start as int, m.block_sizes, i),
        m.block_sizes[i],
        block_size,
        algo,
    )
}

/// The decoded content of the shared fragment block holding the file's tail.
pub open spec fn fragment_content(
    img: Seq<u8>,
    m: FileModel,
    frags: Seq<Entry>,
    block_size: int,
    algo: Compression,
) -> Option<Seq<u8>> {
    if m.fragment.valid_spec() && m.fragment.index < frags.len() {
        let e = frags[m.fragment.index as int];
        data_block_of(img, e.start as int, e.size, block_size, algo)
    } else {
        None
    }
}

/// Byte `p` of the file: full data blocks cover positions below
/// `n_loc * block_size`, the tail lives in the fragment block starting at its
/// in-fragment offset.
pub open spec fn file_byte(
    img: Seq<u8>,
    m: FileModel,
    frags: Seq<Entry>,
    block_size: int,
    algo: Compression,
    p: int,
) -> Option<u8> {
    if block_size <= 0 || p < 0 {
        None
    } else if p / block_size < n_loc(m) {
        match file_block_content(img, m, p / block_size, block_size, algo) {
            Some(bytes) => Some(bytes[p % block_size]),
            None => None,
        }
    } else {
        let t = m.fragment.offset + (p - n_loc(m) * block_size);
        match fragment_content(img, m, frags, block_size, algo) {
            Some(fc) => if 0 <= t < fc.len() {
                Some(fc[t])
            } else {
                None
            },
            None => None,
        }
    }
}

/// The file's whole content: its bytes position by position, defined when
/// every position decodes.
pub open spec fn file_bytes(
    img: Seq<u8>,
    m: FileModel,
    frags: Seq<Entry>,
    block_size: int,
    algo: Compression,
) -> Option<Seq<u8>> {
    if forall|p: int|
        0 <= p < m.file_size ==> file_byte(img, m, frags, block_size, algo, p) is Some {
        Some(
            Seq::new(
                m.file_size as nat,
                |p: int| file_byte(img, m, frags, block_size, algo, p)->0,
            ),
        )
    } else {
        None
    }
}

/// For every file and every valid request `(offset, size)`, the bytes a
/// successful read returns are exactly bytes `[offset, offset + size)` of
/// the file's content.
pub proof fn lemma_read_matches_file(
    img: Seq<u8>,
    m: FileModel,
    frags: Seq<Entry>,
    block_size: int,
    algo: Compression,
    offset: int,
    size: int,
    v: Seq<u8>,
)
    requires
        file_bytes(img, m, frags, block_size, algo) is Some,
        0 <= offset,
        0 <= size,
        offset + size <= m.file_size,
        v.len() == size,
        forall|j: int|
            0 <= j < size ==> Some(v[j]) == file_byte(img, m, frags, block_size, algo, offset + j),
    ensures
        v == file_bytes(img, m, frags, block_size, algo)->0.subrange(offset, offset + size),
{
    let content = file_bytes(img, m, frags, block_size, algo)->0;
    assert forall|j: int| 0 <= j < size implies v[j] == content.subrange(offset, offset + size)[j] by {
        assert(Some(v[j]) == file_byte(img, m, frags, block_size, algo, offset + j));
        assert(content[offset + j] == file_byte(img, m, frags, block_size, algo, offset + j)->0);
    }
    assert(v =~= content.subrange(offset, offset + size));
}

/// Whether the file's `i`-th data block can be served from the window
/// `[lo, hi)` of the image: sparse blocks need no bytes, others must lie in
/// the window and decode.
pub open spec fn block_ok(
    img: Seq<u8>,
    m: FileModel,
    i: int,
    block_size: int,
    algo: Compression,
    lo: int,
    hi: int,
) -> bool {
    let st = block_start_at(m.blocks_start as int, m.block_sizes, i);
    let b = m.block_sizes[i];
    b.compressed_size_spec() == 0 || (lo <= st && st + b.compressed_size_spec() <= hi
        && file_block_content(img, m, i, block_size, algo) is Some)
}

/// Whether a `(offset, size)` request against the file can be served in full
/// from the window `[lo, hi)`: every touched data block decodes, and when the
/// request runs past the listed blocks, exactly one more block is needed and
/// the tail fragment supplies it.
pub open spec fn read_plan_ok(
    img: Seq<u8>,
    m: FileModel,
    frags: Seq<Entry>,
    block_size: int,
    algo: Compression,
    offset: int,
    size: int,
    lo: int,
    hi: int,
) -> bool {
    let first = offset / block_size;
    let bo = offset % block_size;
    let n = (bo + size + block_size - 1) / block_size;
    let k = if first >= n_loc(m) {
        0
    } else if n <= n_loc(m) - first {
        n
    } else {
        n_loc(m) - first
    };
    &&& forall|i: int| first <= i < first + k ==> block_ok(img, m, i, block_size, algo, lo, hi)
    &&& (k < n ==> {
        let e = frags[m.fragment.index as int];
        &&& n == k + 1
        &&& first + k == n_loc(m)
        &&& m.fragment.valid_spec()
        &&& m.fragment.index < frags.len()
        &&& (e.size.compressed_size_spec() == 0 || (lo <= e.start && e.start
            + e.size.compressed_size_spec() <= hi && fragment_content(
            img,
            m,
            frags,
            block_size,
            algo,
        ) is Some))
        &&& m.fragment.offset <= block_size
        &&& k * block_size + (block_size - m.fragment.offset) >= bo + size
    })
}

/// Whether the file decodes in full from the image: its block count matches
/// its size, every listed block lies in the image and decodes, and when a
/// tail fragment holds the remainder, the fragment entry resolves, decodes,
/// and has room for the tail at its in-fragment offset.
pub open spec fn file_ok(
    img: Seq<u8>,
    m: FileModel,
    frags: Seq<Entry>,
    block_size: int,
    algo: Compression,
) -> bool {
    &&& n_loc(m) == n_blocks_spec(m.file_size as int, block_size, m.fragment.valid_spec())
    &&& forall|i: int|
        0 <= i < n_loc(m) ==> block_ok(img, m, i, block_size, algo, 0, img.len() as int)
    &&& (m.fragment.valid_spec() ==> {
        let e = frags[m.fragment.index as int];
        &&& m.fragment.index < frags.len()
        &&& (e.size.compressed_size_spec() == 0 || (0 <= e.start && e.start
            + e.size.compressed_size_spec() <= img.len() && fragment_content(
            img,
            m,
            frags,
            block_size,
            algo,
        ) is Some))
        &&& m.fragment.offset + (m.file_size - n_loc(m) * block_size) <= block_size
    })
}

/// A file that decodes in full can serve every valid request: for every
/// `(offset, size)` within the file, the read plan against the whole image
/// goes through.
pub proof fn lemma_file_ok_read_plan(
    img: Seq<u8>,
    m: FileModel,
    frags: Seq<Entry>,
    block_size: int,
    algo: Compression,
    offset: int,
    size: int,
)
    requires
        block_size >= 1,
        file_ok(img, m, frags, block_size, algo),
        0 <= offset,
        1 <= size,
        offset + size <= m.file_size,
    ensures
        read_plan_ok(img, m, frags, block_size, algo, offset, size, 0, img.len() as int),
{
    let bs = block_size;
    let fs = m.file_size as int;
    let nl = n_loc(m);
    let first = offset / bs;
    let bo = offset % bs;
    let n = (bo + size + bs - 1) / bs;
    let k = if first >= nl {
        0int
    } else if n <= nl - first {
        n
    } else {
        nl - first
    };
    vstd::arithmetic::div_mod::lemma_fundamental_div_mod(offset, bs);
    vstd::arithmetic::div_mod::lemma_fundamental_div_mod(fs, bs);
    vstd::arithmetic::div_mod::lemma_fundamental_div_mod(bo + size + bs - 1, bs);
    vstd::arithmetic::div_mod::lemma_div_is_ordered(offset, fs, bs);
    if m.fragment.valid_spec() {
        // `nl` full blocks, with the tail in the fragment.
        assert(nl == fs / bs);
        let tail = fs - nl * bs;
        assert(0 <= tail < bs) by (nonlinear_arith)
            requires
                tail == fs - nl * bs,
                nl == fs / bs,
                fs == bs * (fs / bs) + fs % bs,
                0 <= fs % bs < bs,
        ;
        assert(first <= nl);
        if k < n {
            if first >= nl {
                // The request lies entirely in the tail.
                assert(first == nl);
                assert(bo + size <= tail) by (nonlinear_arith)
                    requires
                        offset == bs * first + bo,
                        first == nl,
                        offset + size <= fs,
                        tail == fs - nl * bs,
                ;
                assert(n == 1) by {
                    vstd::arithmetic::div_mod::lemma_fundamental_div_mod_converse(
                        bo + size + bs - 1,
                        bs,
                        1,
                        bo + size - 1,
                    );
                }
            } else {
                // The request ends in the tail just past the listed blocks.
                assert(k == nl - first);
                assert(bo + size <= k * bs + tail) by (nonlinear_arith)
                    requires
                        bo == offset - first * bs,
                        offset + size <= fs,
                        fs == nl * bs + tail,
                        k == nl - first,
                ;
                assert(n <= k + 1) by {
                    assert(bo + size + bs - 1 <= (k + 1) * bs + bs - 1) by (nonlinear_arith)
                        requires
                            bo + size <= k * bs + tail,
                            tail < bs,
                    ;
                    vstd::arithmetic::div_mod::lemma_div_is_ordered(
                        bo + size + bs - 1,
                        (k + 1) * bs + bs - 1,
                        bs,
                    );
                    vstd::arithmetic::div_mod::lemma_fundamental_div_mod_converse(
                        (k + 1) * bs + bs - 1,
                        bs,
                        k + 1,
                        bs - 1,
                    );
                }
            }
            assert(k * bs + (bs - m.fragment.offset) >= bo + size) by (nonlinear_arith)
                requires
                    bo + size <= k * bs + (fs - nl * bs),
                    m.fragment.offset + (fs - nl * bs) <= bs,
            ;
        }
    } else {
        // Every byte of the file lies in a listed block: the plan never
        // needs a fragment.
        assert(nl == n_blocks_spec(fs, bs, false));
        assert(fs <= nl * bs) by {
            if fs % bs == 0 {
                assert(fs <= nl * bs) by (nonlinear_arith)
                    requires
                        nl == fs / bs,
                        fs == bs * (fs / bs) + fs % bs,
                        fs % bs == 0,
                ;
            } else {
                assert(fs <= nl * bs) by (nonlinear_arith)
                    requires
                        nl == fs / bs + 1,
                        fs == bs * (fs / bs) + fs % bs,
                        0 <= fs % bs < bs,
                ;
            }
        }
        assert(first < nl) by (nonlinear_arith)
            requires
                offset < fs,
                fs <= nl * bs,
                bs >= 1,
                first == offset / bs,
                offset == bs * first + bo,
                0 <= bo < bs,
        ;
        assert(bo + size <= (nl - first) * bs) by (nonlinear_arith)
            requires
                bo == offset - first * bs,
                offset + size <= fs,
                fs <= nl * bs,
        ;
        assert(n <= nl - first) by {
            vstd::arithmetic::div_mod::lemma_div_is_ordered(
                bo + size + bs - 1,
                (nl - first) * bs + bs - 1,
                bs,
            );
            vstd::arithmetic::div_mod::lemma_fundamental_div_mod_converse(
                (nl - first) * bs + bs - 1,
                bs,
                nl - first,
                bs - 1,
            );
        }
        assert(k == n);
    }
}

/// A file that decodes in full has well-defined content for every position.
pub proof fn lemma_file_ok_file_bytes(
    img: Seq<u8>,
    m: FileModel,
    frags: Seq<Entry>,
    block_size: int,
    algo: Compression,
)
    requires
        block_size >= 1,
        file_ok(img, m, frags, block_size, algo),
    ensures
        file_bytes(img, m, frags, block_size, algo) is Some,
{
    let bs = block_size;
    let fs = m.file_size as int;
    let nl = n_loc(m);
    vstd::arithmetic::div_mod::lemma_fundamental_div_mod(fs, bs);
    assert forall|p: int| 0 <= p < fs implies file_byte(img, m, frags, bs, algo, p) is Some by {
        vstd::arithmetic::div_mod::lemma_fundamental_div_mod(p, bs);
        let i = p / bs;
        vstd::arithmetic::div_mod::lemma_div_is_ordered(p, fs, bs);
        if i < nl {
            assert(block_ok(img, m, i, bs, algo, 0, img.len() as int));
            lemma_data_block_len(
                img,
                block_start_at(m.blocks_start as int, m.block_sizes, i),
                m.block_sizes[i],
                bs,
                algo,
            );
            assert(file_block_content(img, m, i, bs, algo) is Some) by {
                if m.block_sizes[i].compressed_size_spec() == 0 {
                }
            }
        } else {
            // The tail region exists only when a fragment holds it.
            assert(m.fragment.valid_spec()) by {
                if !m.fragment.valid_spec() {
                    assert(fs <= nl * bs) by {
                        if fs % bs == 0 {
                            assert(fs <= nl * bs) by (nonlinear_arith)
                                requires
                                    nl == fs / bs,
                                    fs == bs * (fs / bs) + fs % bs,
                                    fs % bs == 0,
                            ;
                        } else {
                            assert(fs <= nl * bs) by (nonlinear_arith)
                                requires
                                    nl == fs / bs + 1,
                                    fs == bs * (fs / bs) + fs % bs,
                                    0 <= fs % bs < bs,
                            ;
                        }
                    }
                    assert(p < nl * bs);
                    assert(i < nl) by (nonlinear_arith)
                        requires
                            p < nl * bs,
                            bs >= 1,
                            p == bs * i + p % bs,
                            0 <= p % bs < bs,
                    ;
                }
            }
            assert(nl == fs / bs);
            assert(i >= nl);
            let t = m.fragment.offset + (p - nl * bs);
            assert(p - nl * bs < fs - nl * bs) by (nonlinear_arith)
                requires
                    p < fs,
                    i >= nl,
                    p == bs * i + p % bs,
                    0 <= p % bs < bs,
                    fs == bs * nl + fs % bs,
                    0 <= fs % bs < bs,
                    bs >= 1,
            ;
            assert(0 <= t < block_size);
            let e = frags[m.fragment.index as int];
            lemma_data_block_len(img, e.start as int, e.size, bs, algo);
            assert(fragment_content(img, m, frags, bs, algo) is Some) by {
                if e.size.compressed_size_spec() == 0 {
                }
            }
        }
    }
}

/// Read `size` bytes of the file starting at `offset`, assembling them from
/// the touched data blocks and, when the request runs past the listed
/// blocks, from the tail fragment.
///
/// `reader` is the window of the image starting at absolute offset
/// `reader_offset`. On success the returned bytes are exactly bytes
/// `[offset, offset + size)` of the file, and success is owed whenever
/// `read_plan_ok` holds of the request.
#[verifier::loop_isolation(false)]
#[verifier::rlimit(100)]
#[verifier::spinoff_prover]
pub fn read_file_impl(
    reader: &[u8],
    reader_offset: u64,
    file: &FileInode,
    offset: usize,
    size: usize,
    block_size: u32,
    fragments: &FragmentsTable,
    cache: &mut BlockCache,
    compression: Compression,
    Ghost(img): Ghost<Seq<u8>>,
) -> (r: Result<Vec<u8>, Error>)
    requires
        block_size >= 1,
        old(cache).wf(),
        reader@ == img.subrange(reader_offset as int, reader_offset + reader@.len()),
        reader_offset + reader@.len() <= img.len(),
        cache_ok(*old(cache), img, block_size as int, compression),
        locations_fit(file@),
        offset + size + 2 * (block_size as int) <= usize::MAX,
    ensures
        final(cache).wf(),
        cache_ok(*final(cache), img, block_size as int, compression),
        final(cache).enabled() == old(cache).enabled(),
        r matches Ok(v) ==> v@.len() == size && (forall|j: int|
            0 <= j < size ==> Some(v@[j]) == file_byte(
                img,
                file@,
                fragments.entries@,
                block_size as int,
                compression,
                offset + j,
            )),
        r is Ok <==> (size == 0 || read_plan_ok(
            img,
            file@,
            fragments.entries@,
            block_size as int,
            compression,
            offset as int,
            size as int,
            reader_offset as int,
            reader_offset + reader@.len(),
        )),
        r matches Err(e) ==> (e == Error::ReadFailure || e matches Error::Decompress(_) || e
            matches Error::Fragments(_) || e == Error::InvalidBufferSize),
{
    let ghost m = file@;
    let ghost frags = fragments.entries@;
    let ghost bsi = block_size as int;
    let ghost lo = reader_offset as int;
    let ghost hi = reader_offset + reader@.len();
    if size == 0 {
        return Ok(Vec::new());
    }
    let bs = block_size as usize;
    let first: usize = offset / bs;
    let bo: usize = offset % bs;
    let n: usize = (bo + size + bs - 1) / bs;
    proof {
        vstd::arithmetic::div_mod::lemma_fundamental_div_mod(offset as int, bs as int);
        assert(n >= 1) by {
            vstd::arithmetic::div_mod::lemma_div_is_ordered(
                bs as int,
                bo + size + bs - 1,
                bs as int,
            );
            vstd::arithmetic::div_mod::lemma_div_by_self(bs as int);
        }
    }
    let locations = file.data_locations();
    let nl = locations.len();
    let k: usize = if first >= nl {
        0
    } else if n <= nl - first {
        n
    } else {
        nl - first
    };
    let ghost sk = ({
        let sfirst = offset as int / bsi;
        let sbo = offset as int % bsi;
        let sn = (sbo + size + bsi - 1) / bsi;
        if sfirst >= n_loc(m) {
            0int
        } else if sn <= n_loc(m) - sfirst {
            sn
        } else {
            n_loc(m) - sfirst
        }
    });
    proof {
        assert(k == sk);
    }
    let mut buf: Vec<u8> = Vec::new();
    let mut i: usize = 0;
    while i < k
        invariant
            block_size >= 1,
            bs == block_size,
            bsi == block_size as int,
            lo == reader_offset as int,
            hi == reader_offset + reader@.len(),
            reader@ == img.subrange(reader_offset as int, reader_offset + reader@.len()),
            reader_offset + reader@.len() <= img.len(),
            cache.wf(),
            cache_ok(*cache, img, bsi, compression),
            cache.enabled() == old(cache).enabled(),
            m == file@,
            frags == fragments.entries@,
            locations_fit(m),
            nl == n_loc(m),
            locations@.len() == nl,
            forall|q: int|
                0 <= q < nl ==> locations@[q] == (DataLocation {
                    block_start: block_start_at(m.blocks_start as int, m.block_sizes, q) as u64,
                    block_size: m.block_sizes[q],
                }),
            i <= k,
            k == 0 || first + k <= nl,
            k == sk,
            size >= 1,
            buf@.len() == i * bs,
            forall|p: int|
                0 <= p < buf@.len() ==> Some(buf@[p]) == file_byte(
                    img,
                    m,
                    frags,
                    bsi,
                    compression,
                    first * bs + p,
                ),
            forall|q: int| first <= q < first + i ==> block_ok(img, m, q, bsi, compression, lo, hi),
        decreases k - i,
    {
        let l = locations[first + i];
        proof {
            lemma_block_start_monotone(m.blocks_start as int, m.block_sizes, 0, first + i);
            lemma_block_start_monotone(m.blocks_start as int, m.block_sizes, first + i, nl as int);
        }
        let block = match read_data_block(
            reader,
            reader_offset,
            l.block_start,
            l.block_size,
            block_size,
            cache,
            compression,
            Ghost(img),
        ) {
            Ok(b) => b,
            Err(e) => {
                proof {
                    assert(!block_ok(img, m, first + i, bsi, compression, lo, hi));
                    if read_plan_ok(
                        img,
                        m,
                        frags,
                        bsi,
                        compression,
                        offset as int,
                        size as int,
                        lo,
                        hi,
                    ) {
                        assert(block_ok(img, m, first + i, bsi, compression, lo, hi));
                    }
                }
                return Err(e);
            },
        };
        proof {
            lemma_data_block_len(
                img,
                block_start_at(m.blocks_start as int, m.block_sizes, first + i),
                m.block_sizes[first + i],
                bsi,
                compression,
            );
        }
        let ghost buf_pre = buf@;
        let mut q: usize = 0;
        while q < bs
            invariant
                q <= bs,
                block@.len() == bs,
                buf@.len() == buf_pre.len() + q,
                buf@ =~= buf_pre + block@.subrange(0, q as int),
            decreases bs - q,
        {
            buf.push(block[q]);
            q = q + 1;
            proof {
                assert(buf@ =~= buf_pre + block@.subrange(0, q as int));
            }
        }
        proof {
            assert(buf@ =~= buf_pre + block@);
            assert forall|p: int| buf_pre.len() <= p < buf@.len() implies Some(buf@[p])
                == file_byte(img, m, frags, bsi, compression, first * bs + p) by {
                let qq = p - buf_pre.len();
                let gp = first * bs + p;
                assert(gp == (first + i) * bsi + qq) by (nonlinear_arith)
                    requires
                        gp == first * bs + p,
                        p == i * bs + qq,
                        bsi == bs,
                ;
                vstd::arithmetic::div_mod::lemma_fundamental_div_mod_converse(
                    gp,
                    bsi,
                    first + i,
                    qq,
                );
                assert(buf@[p] == block@[qq]);
            }
        }
        i = i + 1;
        proof {
            assert(buf@.len() == i * bs) by (nonlinear_arith)
                requires
                    buf@.len() == buf_pre.len() + bs,
                    buf_pre.len() == (i - 1) * bs,
            ;
        }
    }
    let ghost plan = read_plan_ok(
        img,
        m,
        frags,
        bsi,
        compression,
        offset as int,
        size as int,
        lo,
        hi,
    );
    if k < n {
        if n != k + 1 || first + k != nl {
            proof {
                assert(!plan);
            }
            return Err(Error::InvalidBufferSize);
        }
        let fragment_location = file.fragment();
        let entry: Entry = match fragments.entry(fragment_location) {
            Ok(e) => *e,
            Err(e) => {
                proof {
                    assert(!plan);
                }
                return Err(Error::Fragments(e));
            },
        };
        let block = match read_data_block(
            reader,
            reader_offset,
            entry.start,
            entry.size,
            block_size,
            cache,
            compression,
            Ghost(img),
        ) {
            Ok(b) => b,
            Err(e) => {
                proof {
                    assert(!plan);
                }
                return Err(e);
            },
        };
        proof {
            lemma_data_block_len(img, entry.start as int, entry.size, bsi, compression);
        }
        if fragment_location.offset > block_size {
            proof {
                assert(!plan);
            }
            return Err(Error::InvalidBufferSize);
        }
        let fo = fragment_location.offset as usize;
        let ghost buf_pre = buf@;
        let mut q: usize = fo;
        while q < bs
            invariant
                fo <= q <= bs,
                block@.len() == bs,
                buf@.len() == buf_pre.len() + (q - fo),
                buf@ =~= buf_pre + block@.subrange(fo as int, q as int),
            decreases bs - q,
        {
            buf.push(block[q]);
            q = q + 1;
            proof {
                assert(buf@ =~= buf_pre + block@.subrange(fo as int, q as int));
            }
        }
        proof {
            assert forall|p: int| buf_pre.len() <= p < buf@.len() implies Some(buf@[p])
                == file_byte(img, m, frags, bsi, compression, first * bs + p) by {
                let t = p - buf_pre.len();
                let gp = first * bs + p;
                assert(buf_pre.len() == k * bs);
                assert(gp == nl * bs + t) by (nonlinear_arith)
                    requires
                        gp == first * bs + p,
                        p == k * bs + t,
                        first + k == nl,
                ;
                assert(gp / bsi >= n_loc(m)) by {
                    vstd::arithmetic::div_mod::lemma_fundamental_div_mod_converse(
                        gp,
                        bsi,
                        nl as int,
                        t,
                    );
                }
                assert(buf@[p] == block@[fo + t]);
            }
        }
    }
    proof {
        if k == n {
            assert(n * bs >= bo + size) by {
                vstd::arithmetic::div_mod::lemma_fundamental_div_mod(bo + size + bs - 1, bs as int);
                assert(n * bs == bo + size + bs - 1 - ((bo + size + bs - 1) % (bs as int)));
                assert((bo + size + bs - 1) % (bs as int) < bs);
            }
        }
    }
    let buf_len: usize = buf.len();
    if buf_len < bo + size {
        proof {
            assert(!plan);
        }
        return Err(Error::InvalidBufferSize);
    }
    proof {
        assert(plan);
    }
    let mut out: Vec<u8> = Vec::new();
    let mut j: usize = 0;
    while j < size
        invariant
            j <= size,
            out@.len() == j,
            plan == read_plan_ok(
                img,
                m,
                frags,
                bsi,
                compression,
                offset as int,
                size as int,
                lo,
                hi,
            ),
            plan,
            bo + size <= buf_len,
            buf_len == buf@.len(),
            forall|p: int|
                0 <= p < buf@.len() ==> Some(buf@[p]) == file_byte(
                    img,
                    m,
                    frags,
                    bsi,
                    compression,
                    first * bs + p,
                ),
            forall|p: int| 0 <= p < j ==> out@[p] == buf@[bo + p],
        decreases size - j,
    {
        out.push(buf[bo + j]);
        j = j + 1;
    }
    proof {
        vstd::arithmetic::div_mod::lemma_fundamental_div_mod(offset as int, bs as int);
        assert(first * bs + bo == offset) by (nonlinear_arith)
            requires
                offset == (bs as int) * ((offset as int) / (bs as int)) + (offset as int) % (
                bs as int),
                first == offset as int / (bs as int),
                bo == offset as int % (bs as int),
        ;
        assert forall|jj: int| 0 <= jj < size implies Some(out@[jj]) == file_byte(
            img,
            m,
            frags,
            bsi,
            compression,
            offset + jj,
        ) by {
            assert(out@[jj] == buf@[bo + jj]);
            assert(first * bs + (bo + jj) == offset + jj);
        }
    }
    Ok(out)
}

} // verus!
