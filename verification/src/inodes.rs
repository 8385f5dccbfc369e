//! Inode table types: file and directory inodes and references into the
//! inode table.
use std::collections::BTreeMap;

use vstd::prelude::*;

use crate::data::{block_start_at, lemma_block_start_monotone, BlockSize, DataLocation};
use crate::error::InodeTableError;
use crate::fragments::FragmentLocation;
use crate::le::{le16, le32, le64, read_u16, read_u32, read_u64};
use crate::metadata::{metadata_stream_of, MetadataBlock};
use crate::superblock::SuperBlock;

verus! {

broadcast use vstd::laws_cmp::group_laws_cmp, vstd::std_specs::btree::group_btree_axioms;

/// Reference to an inode: the high 48 bits locate the metadata block holding
/// it (relative to the inode table start), the low 16 bits give the byte
/// offset inside that block's decompressed bytes.
#[derive(Debug, Copy, Clone, PartialEq, Eq, Structural)]
pub struct InodeRef(pub u64);

impl InodeRef {
    /// Start offset of the enclosing metadata block.
    pub fn block_start(&self) -> (r: u64)
        ensures
            r == self.0 >> 16,
    {
        self.0 >> 16
    }

    /// Byte offset inside the decompressed metadata stream.
    pub fn block_offset(&self) -> (r: u64)
        ensures
            r == self.0 & 0xFFFF,
            r < 0x1_0000,
    {
        let w: u64 = self.0;
        proof {
            assert((w & 0xFFFF) < 0x1_0000) by (bit_vector);
        }
        w & 0xFFFF
    }
}

/// Inode kind, as encoded by the on-disk type tags 1 through 14.
#[derive(Debug, Copy, Clone, PartialEq, Eq, Structural)]
pub enum InodeType {
    BasicDirectory,
    BasicFile,
    BasicSymlink,
    BasicBlockDevice,
    BasicCharDevice,
    BasicFifo,
    BasicSocket,
    ExtendedDirectory,
    ExtendedFile,
    ExtendedSymlink,
    ExtendedBlockDevice,
    ExtendedCharDevice,
    ExtendedFifo,
    ExtendedSocket,
}

impl InodeType {
    /// The inode kind carried by an on-disk type tag, if any.
    pub open spec fn from_tag_spec(v: int) -> Option<InodeType> {
        if v == 1 {
            Some(InodeType::BasicDirectory)
        } else if v == 2 {
            Some(InodeType::BasicFile)
        } else if v == 3 {
            Some(InodeType::BasicSymlink)
        } else if v == 4 {
            Some(InodeType::BasicBlockDevice)
        } else if v == 5 {
            Some(InodeType::BasicCharDevice)
        } else if v == 6 {
            Some(InodeType::BasicFifo)
        } else if v == 7 {
            Some(InodeType::BasicSocket)
        } else if v == 8 {
            Some(InodeType::ExtendedDirectory)
        } else if v == 9 {
            Some(InodeType::ExtendedFile)
        } else if v == 10 {
            Some(InodeType::ExtendedSymlink)
        } else if v == 11 {
            Some(InodeType::ExtendedBlockDevice)
        } else if v == 12 {
            Some(InodeType::ExtendedCharDevice)
        } else if v == 13 {
            Some(InodeType::ExtendedFifo)
        } else if v == 14 {
            Some(InodeType::ExtendedSocket)
        } else {
            None
        }
    }

    pub fn from_tag(v: u16) -> (r: Option<InodeType>)
        ensures
            r == Self::from_tag_spec(v as int),
    {
        match v {
            1 => Some(InodeType::BasicDirectory),
            2 => Some(InodeType::BasicFile),
            3 => Some(InodeType::BasicSymlink),
            4 => Some(InodeType::BasicBlockDevice),
            5 => Some(InodeType::BasicCharDevice),
            6 => Some(InodeType::BasicFifo),
            7 => Some(InodeType::BasicSocket),
            8 => Some(InodeType::ExtendedDirectory),
            9 => Some(InodeType::ExtendedFile),
            10 => Some(InodeType::ExtendedSymlink),
            11 => Some(InodeType::ExtendedBlockDevice),
            12 => Some(InodeType::ExtendedCharDevice),
            13 => Some(InodeType::ExtendedFifo),
            14 => Some(InodeType::ExtendedSocket),
            _ => None,
        }
    }

    /// Whether the kind is a directory kind.
    pub open spec fn is_dir_spec(self) -> bool {
        self is BasicDirectory || self is ExtendedDirectory
    }

    pub fn is_dir(&self) -> (r: bool)
        ensures
            r == self.is_dir_spec(),
    {
        match self {
            InodeType::BasicDirectory => true,
            InodeType::ExtendedDirectory => true,
            _ => false,
        }
    }
}

/// What a file inode says, independent of the basic or extended encoding.
pub ghost struct FileModel {
    pub blocks_start: u64,
    pub fragment: FragmentLocation,
    pub file_size: u64,
    pub block_sizes: Seq<BlockSize>,
}

/// A regular-file inode, basic (32-bit fields) or extended (64-bit fields).
#[derive(Debug, Clone)]
pub enum FileInode {
    Basic {
        blocks_start: u32,
        fragment_index: u32,
        fragment_offset: u32,
        file_size: u32,
        block_sizes: Vec<BlockSize>,
    },
    Extended {
        blocks_start: u64,
        file_size: u64,
        sparse: u64,
        hard_link_count: u32,
        fragment_index: u32,
        fragment_offset: u32,
        xattr_idx: u32,
        block_sizes: Vec<BlockSize>,
    },
}

impl View for FileInode {
    type V = FileModel;

    open spec fn view(&self) -> FileModel {
        match *self {
            FileInode::Basic { blocks_start, fragment_index, fragment_offset, file_size, block_sizes } => FileModel {
                blocks_start: blocks_start as u64,
                fragment: FragmentLocation { index: fragment_index, offset: fragment_offset },
                file_size: file_size as u64,
                block_sizes: block_sizes@,
            },
            FileInode::Extended {
                blocks_start,
                file_size,
                sparse: _,
                hard_link_count: _,
                fragment_index,
                fragment_offset,
                xattr_idx: _,
                block_sizes,
            } => FileModel {
                blocks_start,
                fragment: FragmentLocation { index: fragment_index, offset: fragment_offset },
                file_size,
                block_sizes: block_sizes@,
            },
        }
    }
}

/// All of a file's block starts fit in 64 bits.
pub open spec fn locations_fit(m: FileModel) -> bool {
    block_start_at(m.blocks_start as int, m.block_sizes, m.block_sizes.len() as int) <= u64::MAX
}

impl FileInode {
    /// Uncompressed length of the file.
    pub fn file_size(&self) -> (r: u64)
        ensures
            r == self@.file_size,
    {
        match self {
            FileInode::Basic { file_size, .. } => *file_size as u64,
            FileInode::Extended { file_size, .. } => *file_size,
        }
    }

    /// Where the file's first data block starts.
    pub fn blocks_start(&self) -> (r: u64)
        ensures
            r == self@.blocks_start,
    {
        match self {
            FileInode::Basic { blocks_start, .. } => *blocks_start as u64,
            FileInode::Extended { blocks_start, .. } => *blocks_start,
        }
    }

    /// The tail-fragment location; invalid when the file has no fragment.
    pub fn fragment(&self) -> (r: FragmentLocation)
        ensures
            r == self@.fragment,
    {
        match self {
            FileInode::Basic { fragment_index, fragment_offset, .. } => FragmentLocation {
                index: *fragment_index,
                offset: *fragment_offset,
            },
            FileInode::Extended { fragment_index, fragment_offset, .. } => FragmentLocation {
                index: *fragment_index,
                offset: *fragment_offset,
            },
        }
    }

    /// The block-size words of the file's data blocks, in order.
    pub fn block_sizes(&self) -> (r: &Vec<BlockSize>)
        ensures
            r@ == self@.block_sizes,
    {
        match self {
            FileInode::Basic { block_sizes, .. } => block_sizes,
            FileInode::Extended { block_sizes, .. } => block_sizes,
        }
    }

    /// Append one block-size word, as the table parser reads them.
    pub fn add_block_size(&mut self, size: BlockSize)
        ensures
            final(self)@ == (FileModel { block_sizes: old(self)@.block_sizes.push(size), ..old(self)@ }),
    {
        match self {
            FileInode::Basic { block_sizes, .. } => block_sizes.push(size),
            FileInode::Extended { block_sizes, .. } => block_sizes.push(size),
        }
    }

    /// Bytes of the file stored in its tail fragment: zero when it has none,
    /// otherwise the remainder past the full blocks.
    pub fn fragment_size(&self, block_size: u32) -> (r: u64)
        requires
            block_size > 0,
        ensures
            r == if self@.fragment.valid_spec() {
                self@.file_size as int % block_size as int
            } else {
                0
            },
    {
        let fragment = self.fragment();
        if !fragment.valid() {
            0
        } else {
            self.file_size() % block_size as u64
        }
    }

    /// Where each data block of the file lives on disk: starting at
    /// `blocks_start`, each block follows the previous one at its compressed
    /// size.
    pub fn data_locations(&self) -> (r: Vec<DataLocation>)
        requires
            locations_fit(self@),
        ensures
            r@.len() == self@.block_sizes.len(),
            forall|i: int|
                0 <= i < r@.len() ==> r@[i] == (DataLocation {
                    block_start: block_start_at(
                        self@.blocks_start as int,
                        self@.block_sizes,
                        i,
                    ) as u64,
                    block_size: self@.block_sizes[i],
                }),
    {
        let sizes = self.block_sizes();
        let n = sizes.len();
        let mut r: Vec<DataLocation> = Vec::new();
        let mut start: u64 = self.blocks_start();
        let mut i: usize = 0;
        while i < n
            invariant
                locations_fit(self@),
                n == self@.block_sizes.len(),
                sizes@ == self@.block_sizes,
                i <= n,
                r@.len() == i,
                start == block_start_at(self@.blocks_start as int, self@.block_sizes, i as int),
                forall|k: int|
                    0 <= k < i ==> r@[k] == (DataLocation {
                        block_start: block_start_at(
                            self@.blocks_start as int,
                            self@.block_sizes,
                            k,
                        ) as u64,
                        block_size: self@.block_sizes[k],
                    }),
            decreases n - i,
        {
            let b = sizes[i];
            r.push(DataLocation { block_start: start, block_size: b });
            proof {
                lemma_block_start_monotone(
                    self@.blocks_start as int,
                    self@.block_sizes,
                    i + 1,
                    n as int,
                );
            }
            start = start + b.compressed_size();
            i = i + 1;
        }
        r
    }
}

/// Location of a directory's entry listing in the directory table.
#[derive(Default, Debug, Clone, Copy, PartialEq, Eq, Structural)]
pub struct DirectoryTableLocation {
    pub start: u64,
    pub offset: u64,
    pub file_size: u64,
}

/// A directory inode with 32-bit fields.
#[derive(Debug, Copy, Clone, PartialEq, Eq, Structural)]
pub struct BasicDirectory {
    pub dir_block_start: u32,
    pub hard_link_count: u32,
    pub file_size: u16,
    pub block_offset: u16,
    pub parent_inode_number: u32,
}

/// A directory inode with wider fields and an index over its listing.
#[derive(Debug, Copy, Clone, PartialEq, Eq, Structural)]
pub struct ExtendedDirectory {
    pub hard_link_count: u32,
    pub file_size: u32,
    pub dir_block_start: u32,
    pub parent_inode_number: u32,
    pub index_count: u16,
    pub block_offset: u16,
    pub xattr_idx: u32,
}

/// A directory inode, basic or extended.
#[derive(Debug, Copy, Clone, PartialEq, Eq, Structural)]
pub enum DirectoryInode {
    Basic(BasicDirectory),
    Extended(ExtendedDirectory),
}

impl DirectoryInode {
    /// Number of hard links to the directory.
    pub fn hard_link_count(&self) -> (r: u32)
        ensures
            r == self.hard_link_count_spec(),
    {
        match self {
            DirectoryInode::Basic(d) => d.hard_link_count,
            DirectoryInode::Extended(d) => d.hard_link_count,
        }
    }

    pub open spec fn hard_link_count_spec(self) -> u32 {
        match self {
            DirectoryInode::Basic(d) => d.hard_link_count,
            DirectoryInode::Extended(d) => d.hard_link_count,
        }
    }

    /// Inode number of the parent directory.
    pub fn parent_inode_number(&self) -> (r: u32)
        ensures
            r == self.parent_inode_number_spec(),
    {
        match self {
            DirectoryInode::Basic(d) => d.parent_inode_number,
            DirectoryInode::Extended(d) => d.parent_inode_number,
        }
    }

    pub open spec fn parent_inode_number_spec(self) -> u32 {
        match self {
            DirectoryInode::Basic(d) => d.parent_inode_number,
            DirectoryInode::Extended(d) => d.parent_inode_number,
        }
    }

    /// Where the directory's listing lives in the directory table.
    pub fn table_location(&self) -> (r: DirectoryTableLocation)
        ensures
            r == self.table_location_spec(),
    {
        match self {
            DirectoryInode::Basic(d) => DirectoryTableLocation {
                start: d.dir_block_start as u64,
                offset: d.block_offset as u64,
                file_size: d.file_size as u64,
            },
            DirectoryInode::Extended(d) => DirectoryTableLocation {
                start: d.dir_block_start as u64,
                offset: d.block_offset as u64,
                file_size: d.file_size as u64,
            },
        }
    }

    pub open spec fn table_location_spec(self) -> DirectoryTableLocation {
        match self {
            DirectoryInode::Basic(d) => DirectoryTableLocation {
                start: d.dir_block_start as u64,
                offset: d.block_offset as u64,
                file_size: d.file_size as u64,
            },
            DirectoryInode::Extended(d) => DirectoryTableLocation {
                start: d.dir_block_start as u64,
                offset: d.block_offset as u64,
                file_size: d.file_size as u64,
            },
        }
    }
}

/// A symlink inode: parsed so the table walk can pass it, then discarded.
#[derive(Debug, Clone)]
pub struct Symlink {
    pub link_count: u32,
    pub target_size: u32,
    pub target: Vec<u8>,
}

/// How many data blocks a file of `file_size` bytes lists: when a tail
/// fragment holds the remainder, only the full blocks; otherwise the
/// remainder gets a block of its own.
pub open spec fn n_blocks_spec(file_size: int, block_size: int, frag_valid: bool) -> int {
    if frag_valid {
        file_size / block_size
    } else {
        file_size / block_size + if file_size % block_size == 0 {
            0int
        } else {
            1int
        }
    }
}

/// The basic-file payload at `pos`: four 32-bit fields, then one block-size
/// word per data block. Rejected when it runs past the stream or its block
/// starts overflow 64 bits.
pub open spec fn parse_basic_file(s: Seq<u8>, pos: int, block_size: int) -> Option<
    (FileModel, int),
> {
    if pos + 16 > s.len() {
        None
    } else {
        let frag = FragmentLocation {
            index: le32(s, pos + 4) as u32,
            offset: le32(s, pos + 8) as u32,
        };
        let fsize = le32(s, pos + 12);
        let nb = n_blocks_spec(fsize, block_size, frag.valid_spec());
        if pos + 16 + 4 * nb > s.len() {
            None
        } else {
            let m = FileModel {
                blocks_start: le32(s, pos) as u64,
                fragment: frag,
                file_size: fsize as u64,
                block_sizes: Seq::new(
                    nb as nat,
                    |k: int| BlockSize(le32(s, pos + 16 + 4 * k) as u32),
                ),
            };
            if locations_fit(m) {
                Some((m, pos + 16 + 4 * nb))
            } else {
                None
            }
        }
    }
}

/// The extended-file payload at `pos`: 40 bytes of fields, then one
/// block-size word per data block.
pub open spec fn parse_extended_file(s: Seq<u8>, pos: int, block_size: int) -> Option<
    (FileModel, int),
> {
    if pos + 40 > s.len() {
        None
    } else {
        let frag = FragmentLocation {
            index: le32(s, pos + 28) as u32,
            offset: le32(s, pos + 32) as u32,
        };
        let fsize = le64(s, pos + 8);
        let nb = n_blocks_spec(fsize, block_size, frag.valid_spec());
        if pos + 40 + 4 * nb > s.len() {
            None
        } else {
            let m = FileModel {
                blocks_start: le64(s, pos) as u64,
                fragment: frag,
                file_size: fsize as u64,
                block_sizes: Seq::new(
                    nb as nat,
                    |k: int| BlockSize(le32(s, pos + 40 + 4 * k) as u32),
                ),
            };
            if locations_fit(m) {
                Some((m, pos + 40 + 4 * nb))
            } else {
                None
            }
        }
    }
}

/// The basic-directory payload at `pos`: 16 bytes of fields.
pub open spec fn parse_basic_directory(s: Seq<u8>, pos: int) -> Option<(DirectoryInode, int)> {
    if pos + 16 > s.len() {
        None
    } else {
        Some(
            (
                DirectoryInode::Basic(
                    BasicDirectory {
                        dir_block_start: le32(s, pos) as u32,
                        hard_link_count: le32(s, pos + 4) as u32,
                        file_size: le16(s, pos + 8) as u16,
                        block_offset: le16(s, pos + 10) as u16,
                        parent_inode_number: le32(s, pos + 12) as u32,
                    },
                ),
                pos + 16,
            ),
        )
    }
}

/// Position just past `count` directory-index entries starting at `pos`,
/// each 12 bytes of fields plus a name of `name_size + 1` bytes.
pub open spec fn skip_directory_index(s: Seq<u8>, pos: int, count: int) -> Option<int>
    decreases count,
{
    if count <= 0 {
        Some(pos)
    } else if pos + 12 > s.len() {
        None
    } else {
        let name_size = le32(s, pos + 8);
        if pos + 12 + name_size + 1 > s.len() {
            None
        } else {
            skip_directory_index(s, pos + 12 + name_size + 1, count - 1)
        }
    }
}

/// The extended-directory payload at `pos`: 24 bytes of fields, then its
/// directory-index entries, parsed and discarded.
pub open spec fn parse_extended_directory(s: Seq<u8>, pos: int) -> Option<(DirectoryInode, int)> {
    if pos + 24 > s.len() {
        None
    } else {
        let d = DirectoryInode::Extended(
            ExtendedDirectory {
                hard_link_count: le32(s, pos) as u32,
                file_size: le32(s, pos + 4) as u32,
                dir_block_start: le32(s, pos + 8) as u32,
                parent_inode_number: le32(s, pos + 12) as u32,
                index_count: le16(s, pos + 16) as u16,
                block_offset: le16(s, pos + 18) as u16,
                xattr_idx: le32(s, pos + 20) as u32,
            },
        );
        match skip_directory_index(s, pos + 24, le16(s, pos + 16)) {
            Some(next) => Some((d, next)),
            None => None,
        }
    }
}

/// The symlink payload at `pos`: two 32-bit fields, then the target bytes.
pub open spec fn parse_symlink(s: Seq<u8>, pos: int) -> Option<int> {
    if pos + 8 > s.len() {
        None
    } else {
        let target_size = le32(s, pos + 4);
        if pos + 8 + target_size > s.len() {
            None
        } else {
            Some(pos + 8 + target_size)
        }
    }
}

/// A parsed basic-file inode declares exactly as many data blocks as its
/// size calls for: the full blocks when a fragment holds the tail, one more
/// otherwise.
pub proof fn lemma_basic_file_block_count(s: Seq<u8>, pos: int, block_size: int)
    requires
        block_size >= 1,
        parse_basic_file(s, pos, block_size) matches Some(p),
    ensures
        ({
            let m = (parse_basic_file(s, pos, block_size)->0).0;
            m.block_sizes.len() == n_blocks_spec(
                m.file_size as int,
                block_size,
                m.fragment.valid_spec(),
            )
        }),
{
    let fsize = le32(s, pos + 12);
    vstd::arithmetic::div_mod::lemma_div_of0(block_size);
    vstd::arithmetic::div_mod::lemma_div_is_ordered(0, fsize, block_size);
}

/// A parsed extended-file inode declares exactly as many data blocks as its
/// size calls for.
pub proof fn lemma_extended_file_block_count(s: Seq<u8>, pos: int, block_size: int)
    requires
        block_size >= 1,
        parse_extended_file(s, pos, block_size) matches Some(p),
    ensures
        ({
            let m = (parse_extended_file(s, pos, block_size)->0).0;
            m.block_sizes.len() == n_blocks_spec(
                m.file_size as int,
                block_size,
                m.fragment.valid_spec(),
            )
        }),
{
    let fsize = le64(s, pos + 8);
    vstd::arithmetic::div_mod::lemma_div_of0(block_size);
    vstd::arithmetic::div_mod::lemma_div_is_ordered(0, fsize, block_size);
}

impl FileInode {
    /// Parse a basic-file payload from the decompressed inode stream.
    #[verifier::loop_isolation(false)]
    pub fn from_reader_basic(s: &[u8], pos: usize, block_size: u32) -> (r: Result<
        (FileInode, usize),
        InodeTableError,
    >)
        requires
            block_size >= 1,
            pos <= s@.len(),
        ensures
            r matches Ok(p) ==> parse_basic_file(s@, pos as int, block_size as int) == Some(
                (p.0@, p.1 as int),
            ) && pos < p.1 <= s@.len(),
            r is Ok <==> parse_basic_file(s@, pos as int, block_size as int) is Some,
            r is Err ==> r == Err::<(FileInode, usize), InodeTableError>(
                InodeTableError::InvalidEntry,
            ),
    {
        let n = s.len();
        if n - pos < 16 {
            return Err(InodeTableError::InvalidEntry);
        }
        let blocks_start = read_u32(s, pos);
        let fragment_index = read_u32(s, pos + 4);
        let fragment_offset = read_u32(s, pos + 8);
        let file_size = read_u32(s, pos + 12);
        let frag = FragmentLocation { index: fragment_index, offset: fragment_offset };
        let bs64 = block_size as u64;
        let nb: u64 = if frag.valid() {
            (file_size as u64) / bs64
        } else {
            (file_size as u64) / bs64 + (if (file_size as u64) % bs64 == 0 {
                0
            } else {
                1
            })
        };
        let avail: usize = (n - pos - 16) / 4;
        proof {
            vstd::arithmetic::div_mod::lemma_fundamental_div_mod((n - pos - 16) as int, 4);
        }
        if nb > avail as u64 {
            return Err(InodeTableError::InvalidEntry);
        }
        let nbu = nb as usize;
        let ghost msizes = Seq::new(
            nb as nat,
            |k: int| BlockSize(le32(s@, pos + 16 + 4 * k) as u32),
        );
        let ghost bs0 = blocks_start as int;
        let mut sizes: Vec<BlockSize> = Vec::new();
        let mut start: u64 = blocks_start as u64;
        let mut k: usize = 0;
        while k < nbu
            invariant
                k <= nbu,
                sizes@ =~= msizes.take(k as int),
                start == block_start_at(bs0, msizes, k as int),
            decreases nbu - k,
        {
            let b = BlockSize(read_u32(s, pos + 16 + 4 * k));
            let cs = b.compressed_size();
            proof {
                assert(msizes[k as int] == b);
            }
            if start > u64::MAX - cs {
                proof {
                    lemma_block_start_monotone(bs0, msizes, k + 1, nb as int);
                }
                return Err(InodeTableError::InvalidEntry);
            }
            start = start + cs;
            sizes.push(b);
            k = k + 1;
            proof {
                assert(sizes@ =~= msizes.take(k as int));
            }
        }
        let f = FileInode::Basic {
            blocks_start,
            fragment_index,
            fragment_offset,
            file_size,
            block_sizes: sizes,
        };
        proof {
            assert(msizes.take(nb as int) =~= msizes);
        }
        Ok((f, pos + 16 + 4 * nbu))
    }

    /// Parse an extended-file payload from the decompressed inode stream.
    #[verifier::loop_isolation(false)]
    pub fn from_reader_extended(s: &[u8], pos: usize, block_size: u32) -> (r: Result<
        (FileInode, usize),
        InodeTableError,
    >)
        requires
            block_size >= 1,
            pos <= s@.len(),
        ensures
            r matches Ok(p) ==> parse_extended_file(s@, pos as int, block_size as int) == Some(
                (p.0@, p.1 as int),
            ) && pos < p.1 <= s@.len(),
            r is Ok <==> parse_extended_file(s@, pos as int, block_size as int) is Some,
            r is Err ==> r == Err::<(FileInode, usize), InodeTableError>(
                InodeTableError::InvalidEntry,
            ),
    {
        let n = s.len();
        if n - pos < 40 {
            return Err(InodeTableError::InvalidEntry);
        }
        let blocks_start = read_u64(s, pos);
        let file_size = read_u64(s, pos + 8);
        let sparse = read_u64(s, pos + 16);
        let hard_link_count = read_u32(s, pos + 24);
        let fragment_index = read_u32(s, pos + 28);
        let fragment_offset = read_u32(s, pos + 32);
        let xattr_idx = read_u32(s, pos + 36);
        let frag = FragmentLocation { index: fragment_index, offset: fragment_offset };
        let bs64 = block_size as u64;
        let q: u64 = file_size / bs64;
        let rem: u64 = file_size % bs64;
        proof {
            if rem != 0 {
                assert(bs64 >= 2);
                vstd::arithmetic::div_mod::lemma_div_is_ordered_by_denominator(
                    file_size as int,
                    2,
                    bs64 as int,
                );
                vstd::arithmetic::div_mod::lemma_div_by_multiple(1, 2);
                vstd::arithmetic::div_mod::lemma_div_is_ordered(
                    file_size as int,
                    u64::MAX as int,
                    2,
                );
            }
        }
        let nb: u64 = if frag.valid() {
            q
        } else if rem == 0 {
            q
        } else {
            q + 1
        };
        let avail: usize = (n - pos - 40) / 4;
        proof {
            vstd::arithmetic::div_mod::lemma_fundamental_div_mod((n - pos - 40) as int, 4);
        }
        if nb > avail as u64 {
            return Err(InodeTableError::InvalidEntry);
        }
        let nbu = nb as usize;
        let ghost msizes = Seq::new(
            nb as nat,
            |k: int| BlockSize(le32(s@, pos + 40 + 4 * k) as u32),
        );
        let ghost bs0 = blocks_start as int;
        let mut sizes: Vec<BlockSize> = Vec::new();
        let mut start: u64 = blocks_start;
        let mut k: usize = 0;
        while k < nbu
            invariant
                k <= nbu,
                sizes@ =~= msizes.take(k as int),
                start == block_start_at(bs0, msizes, k as int),
            decreases nbu - k,
        {
            let b = BlockSize(read_u32(s, pos + 40 + 4 * k));
            let cs = b.compressed_size();
            proof {
                assert(msizes[k as int] == b);
            }
            if start > u64::MAX - cs {
                proof {
                    lemma_block_start_monotone(bs0, msizes, k + 1, nb as int);
                }
                return Err(InodeTableError::InvalidEntry);
            }
            start = start + cs;
            sizes.push(b);
            k = k + 1;
            proof {
                assert(sizes@ =~= msizes.take(k as int));
            }
        }
        let f = FileInode::Extended {
            blocks_start,
            file_size,
            sparse,
            hard_link_count,
            fragment_index,
            fragment_offset,
            xattr_idx,
            block_sizes: sizes,
        };
        proof {
            assert(msizes.take(nb as int) =~= msizes);
        }
        Ok((f, pos + 40 + 4 * nbu))
    }
}

impl BasicDirectory {
    /// Parse a basic-directory payload from the decompressed inode stream.
    pub fn from_reader(s: &[u8], pos: usize) -> (r: Result<(BasicDirectory, usize), InodeTableError>)
        requires
            pos <= s@.len(),
        ensures
            r matches Ok(p) ==> parse_basic_directory(s@, pos as int) == Some(
                (DirectoryInode::Basic(p.0), p.1 as int),
            ) && pos < p.1 <= s@.len(),
            r is Ok <==> parse_basic_directory(s@, pos as int) is Some,
            r is Err ==> r == Err::<(BasicDirectory, usize), InodeTableError>(
                InodeTableError::InvalidEntry,
            ),
    {
        let n = s.len();
        if n - pos < 16 {
            return Err(InodeTableError::InvalidEntry);
        }
        let d = BasicDirectory {
            dir_block_start: read_u32(s, pos),
            hard_link_count: read_u32(s, pos + 4),
            file_size: read_u16(s, pos + 8),
            block_offset: read_u16(s, pos + 10),
            parent_inode_number: read_u32(s, pos + 12),
        };
        Ok((d, pos + 16))
    }
}

impl ExtendedDirectory {
    /// Parse an extended-directory payload, consuming its directory-index
    /// entries.
    #[verifier::loop_isolation(false)]
    pub fn from_reader(s: &[u8], pos: usize) -> (r: Result<
        (ExtendedDirectory, usize),
        InodeTableError,
    >)
        requires
            pos <= s@.len(),
        ensures
            r matches Ok(p) ==> parse_extended_directory(s@, pos as int) == Some(
                (DirectoryInode::Extended(p.0), p.1 as int),
            ) && pos < p.1 <= s@.len(),
            r is Ok <==> parse_extended_directory(s@, pos as int) is Some,
            r is Err ==> r == Err::<(ExtendedDirectory, usize), InodeTableError>(
                InodeTableError::InvalidEntry,
            ),
    {
        let n = s.len();
        if n - pos < 24 {
            return Err(InodeTableError::InvalidEntry);
        }
        let d = ExtendedDirectory {
            hard_link_count: read_u32(s, pos),
            file_size: read_u32(s, pos + 4),
            dir_block_start: read_u32(s, pos + 8),
            parent_inode_number: read_u32(s, pos + 12),
            index_count: read_u16(s, pos + 16),
            block_offset: read_u16(s, pos + 18),
            xattr_idx: read_u32(s, pos + 20),
        };
        let mut p: usize = pos + 24;
        let mut c: u16 = d.index_count;
        while c > 0
            invariant
                pos < p <= n,
                skip_directory_index(s@, p as int, c as int) == skip_directory_index(
                    s@,
                    pos + 24,
                    d.index_count as int,
                ),
            decreases c,
        {
            if n - p < 12 {
                return Err(InodeTableError::InvalidEntry);
            }
            let name_size = read_u32(s, p + 8);
            if (name_size as u64) + 1 > (n - p - 12) as u64 {
                return Err(InodeTableError::InvalidEntry);
            }
            p = p + 12 + name_size as usize + 1;
            c = c - 1;
        }
        Ok((d, p))
    }
}

/// The inode records of the decompressed inode stream `s` from `pos` on,
/// folded into the maps parsed so far: each record is a 16-byte header
/// followed by its variant payload; files and directories land in their maps
/// keyed by the header's inode number, symlinks are parsed and discarded, and
/// the other kinds are skipped.
pub open spec fn parse_inodes_from(
    s: Seq<u8>,
    pos: int,
    block_size: int,
    files: Map<u32, FileModel>,
    dirs: Map<u32, DirectoryInode>,
) -> Option<(Map<u32, FileModel>, Map<u32, DirectoryInode>)>
    decreases s.len() - pos,
{
    if pos == s.len() {
        Some((files, dirs))
    } else if pos < 0 || pos + 16 > s.len() {
        None
    } else {
        let ino = le32(s, pos + 12) as u32;
        let body = pos + 16;
        match InodeType::from_tag_spec(le16(s, pos)) {
            None => None,
            Some(t) => if t is BasicFile {
                match parse_basic_file(s, body, block_size) {
                    Some(p) => if pos < p.1 <= s.len() {
                        parse_inodes_from(s, p.1, block_size, files.insert(ino, p.0), dirs)
                    } else {
                        None
                    },
                    None => None,
                }
            } else if t is ExtendedFile {
                match parse_extended_file(s, body, block_size) {
                    Some(p) => if pos < p.1 <= s.len() {
                        parse_inodes_from(s, p.1, block_size, files.insert(ino, p.0), dirs)
                    } else {
                        None
                    },
                    None => None,
                }
            } else if t is BasicDirectory {
                match parse_basic_directory(s, body) {
                    Some(p) => if pos < p.1 <= s.len() {
                        parse_inodes_from(s, p.1, block_size, files, dirs.insert(ino, p.0))
                    } else {
                        None
                    },
                    None => None,
                }
            } else if t is ExtendedDirectory {
                match parse_extended_directory(s, body) {
                    Some(p) => if pos < p.1 <= s.len() {
                        parse_inodes_from(s, p.1, block_size, files, dirs.insert(ino, p.0))
                    } else {
                        None
                    },
                    None => None,
                }
            } else if t is BasicSymlink {
                match parse_symlink(s, body) {
                    Some(next) => if pos < next <= s.len() {
                        parse_inodes_from(s, next, block_size, files, dirs)
                    } else {
                        None
                    },
                    None => None,
                }
            } else {
                parse_inodes_from(s, body, block_size, files, dirs)
            },
        }
    }
}

/// The file map seen through each inode's model.
pub open spec fn files_model(m: Map<u32, FileInode>) -> Map<u32, FileModel> {
    m.map_values(|f: FileInode| f@)
}

/// The whole inode table of the image: the metadata stream between the inode
/// table start and the directory table start, parsed record by record.
pub open spec fn inode_table_of(
    img: Seq<u8>,
    its: int,
    dts: int,
    block_size: int,
    algo: crate::compress::Compression,
) -> Option<(Map<u32, FileModel>, Map<u32, DirectoryInode>)> {
    match metadata_stream_of(img, its, dts, algo) {
        Some(s) => parse_inodes_from(
            s,
            0,
            block_size,
            Map::<u32, FileModel>::empty(),
            Map::<u32, DirectoryInode>::empty(),
        ),
        None => None,
    }
}

/// The inode number of the record an inode reference points at: the header
/// found `block_offset` bytes into the stream that starts at the reference's
/// metadata block.
pub open spec fn root_inode_of(
    img: Seq<u8>,
    iref: InodeRef,
    its: int,
    dts: int,
    algo: crate::compress::Compression,
) -> Option<u32> {
    match metadata_stream_of(img, its + (iref.0 >> 16), dts, algo) {
        Some(s) => {
            let off = (iref.0 & 0xFFFF) as int;
            if off + 16 <= s.len() && InodeType::from_tag_spec(le16(s, off)) is Some {
                Some(le32(s, off + 12) as u32)
            } else {
                None
            }
        },
        None => None,
    }
}

/// Inode table: every file and directory inode of the image, keyed by inode
/// number, with the key lists kept alongside.
pub struct InodeTable {
    pub directories: BTreeMap<u32, DirectoryInode>,
    pub files: BTreeMap<u32, FileInode>,
    pub directory_ids: Vec<u32>,
    pub file_ids: Vec<u32>,
}

impl InodeTable {
    /// The key lists name exactly the map entries, and every file's block
    /// starts fit in 64 bits.
    pub open spec fn wf(self) -> bool {
        &&& forall|k: u32| #[trigger]
            self.files@.contains_key(k) ==> locations_fit(self.files@[k]@)
        &&& forall|i: int|
            0 <= i < self.file_ids@.len() ==> self.files@.contains_key(
                #[trigger] self.file_ids@[i],
            )
        &&& forall|k: u32| #[trigger] self.files@.contains_key(k) ==> self.file_ids@.contains(k)
        &&& forall|i: int|
            0 <= i < self.directory_ids@.len() ==> self.directories@.contains_key(
                #[trigger] self.directory_ids@[i],
            )
        &&& forall|k: u32| #[trigger]
            self.directories@.contains_key(k) ==> self.directory_ids@.contains(k)
        &&& forall|i: int, j: int|
            0 <= i < j < self.file_ids@.len() ==> self.file_ids@[i] != self.file_ids@[j]
        &&& forall|i: int, j: int|
            0 <= i < j < self.directory_ids@.len() ==> self.directory_ids@[i]
                != self.directory_ids@[j]
    }

    /// The inode numbers of every directory and file, directories first.
    pub fn ids(&self) -> (r: Vec<u32>)
        ensures
            r@ == self.directory_ids@ + self.file_ids@,
    {
        let mut r = vstd::slice::slice_to_vec(self.directory_ids.as_slice());
        let mut f = vstd::slice::slice_to_vec(self.file_ids.as_slice());
        r.append(&mut f);
        r
    }

    /// Parse the whole inode table: the metadata stream between the inode
    /// table start and the directory table start, record by record.
    #[verifier::loop_isolation(false)]
    #[verifier::rlimit(80)]
    pub fn from_reader(superblock: &SuperBlock, img: &[u8]) -> (r: Result<
        InodeTable,
        InodeTableError,
    >)
        requires
            superblock.block_size >= 1,
        ensures
            r matches Ok(t) ==> inode_table_of(
                img@,
                superblock.inode_table_start as int,
                superblock.directory_table_start as int,
                superblock.block_size as int,
                superblock.compression,
            ) == Some((files_model(t.files@), t.directories@)) && t.wf(),
            r is Ok <==> inode_table_of(
                img@,
                superblock.inode_table_start as int,
                superblock.directory_table_start as int,
                superblock.block_size as int,
                superblock.compression,
            ) is Some,
            r matches Err(e) ==> (e matches InodeTableError::InvalidMetadata(_) || e
                == InodeTableError::InvalidHeader || e == InodeTableError::InvalidEntry),
            metadata_stream_of(
                img@,
                superblock.inode_table_start as int,
                superblock.directory_table_start as int,
                superblock.compression,
            ) is None <==> (r matches Err(e) && e matches InodeTableError::InvalidMetadata(_)),
    {
        let its = superblock.inode_table_start;
        let dts = superblock.directory_table_start;
        let bs = superblock.block_size;
        let algo = superblock.compression;
        let ghost bsi = bs as int;
        if its > img.len() as u64 {
            if its >= dts {
                let t = InodeTable {
                    directories: BTreeMap::new(),
                    files: BTreeMap::new(),
                    directory_ids: Vec::new(),
                    file_ids: Vec::new(),
                };
                proof {
                    assert(metadata_stream_of(img@, its as int, dts as int, algo) == Some(
                        Seq::<u8>::empty(),
                    ));
                    assert(files_model(t.files@) =~= Map::<u32, FileModel>::empty());
                    assert(t.directories@ =~= Map::<u32, DirectoryInode>::empty());
                }
                return Ok(t);
            }
            proof {
                assert(metadata_stream_of(img@, its as int, dts as int, algo) is None);
            }
            return Err(InodeTableError::InvalidMetadata(
                crate::error::MetadataError::InvalidHeader,
            ));
        }
        let stream = match MetadataBlock::from_reader_flatten(img, its as usize, dts, algo) {
            Ok(v) => v,
            Err(e) => {
                return Err(InodeTableError::InvalidMetadata(e));
            },
        };
        let ghost s = stream@;
        let n = stream.len();
        let mut directories: BTreeMap<u32, DirectoryInode> = BTreeMap::new();
        let mut files: BTreeMap<u32, FileInode> = BTreeMap::new();
        let mut directory_ids: Vec<u32> = Vec::new();
        let mut file_ids: Vec<u32> = Vec::new();
        let ghost whole = parse_inodes_from(
            s,
            0,
            bsi,
            Map::<u32, FileModel>::empty(),
            Map::<u32, DirectoryInode>::empty(),
        );
        let mut pos: usize = 0;
        proof {
            assert(files_model(files@) =~= Map::<u32, FileModel>::empty());
        }
        while pos < n
            invariant
                pos <= n,
                whole == parse_inodes_from(
                    s,
                    pos as int,
                    bsi,
                    files_model(files@),
                    directories@,
                ),
                forall|k: u32| #[trigger] files@.contains_key(k) ==> locations_fit(files@[k]@),
                forall|i: int|
                    0 <= i < file_ids@.len() ==> files@.contains_key(#[trigger] file_ids@[i]),
                forall|k: u32| #[trigger] files@.contains_key(k) ==> file_ids@.contains(k),
                forall|i: int|
                    0 <= i < directory_ids@.len() ==> directories@.contains_key(
                        #[trigger] directory_ids@[i],
                    ),
                forall|k: u32| #[trigger]
                    directories@.contains_key(k) ==> directory_ids@.contains(k),
                forall|i: int, j: int|
                    0 <= i < j < file_ids@.len() ==> file_ids@[i] != file_ids@[j],
                forall|i: int, j: int|
                    0 <= i < j < directory_ids@.len() ==> directory_ids@[i] != directory_ids@[j],
            decreases n - pos,
        {
            if n - pos < 16 {
                return Err(InodeTableError::InvalidHeader);
            }
            let sl = stream.as_slice();
            let ty = read_u16(sl, pos);
            let ino = read_u32(sl, pos + 12);
            let t = match InodeType::from_tag(ty) {
                Some(t) => t,
                None => {
                    return Err(InodeTableError::InvalidHeader);
                },
            };
            let body = pos + 16;
            let ghost files_pre = files@;
            let ghost dirs_pre = directories@;
            let ghost fids_pre = file_ids@;
            let ghost dids_pre = directory_ids@;
            let next: usize;
            match t {
                InodeType::BasicFile => {
                    let (f, nx) = match FileInode::from_reader_basic(sl, body, bs) {
                        Ok(p) => p,
                        Err(e) => {
                            return Err(e);
                        },
                    };
                    let ghost fm = f@;
                    let prev = files.insert(ino, f);
                    if prev.is_none() {
                        file_ids.push(ino);
                    }
                    proof {
                        assert(files_model(files@) =~= files_model(files_pre).insert(ino, fm));
                        assert forall|k: u32| #[trigger] files@.contains_key(k) implies
                            file_ids@.contains(k) by {
                            if files_pre.contains_key(k) {
                                let i = choose|i: int|
                                    0 <= i < fids_pre.len() && fids_pre[i] == k;
                                assert(file_ids@[i] == k);
                            } else {
                                assert(k == ino);
                                assert(file_ids@[file_ids@.len() - 1] == k);
                            }
                        }
                        if prev is None {
                            assert(!fids_pre.contains(ino));
                            assert forall|i: int, j: int|
                                0 <= i < j < file_ids@.len() implies file_ids@[i]
                                != file_ids@[j] by {
                                if j == file_ids@.len() - 1 {
                                    assert(fids_pre[i] == file_ids@[i]);
                                }
                            }
                        }
                    }
                    next = nx;
                },
                InodeType::ExtendedFile => {
                    let (f, nx) = match FileInode::from_reader_extended(sl, body, bs) {
                        Ok(p) => p,
                        Err(e) => {
                            return Err(e);
                        },
                    };
                    let ghost fm = f@;
                    let prev = files.insert(ino, f);
                    if prev.is_none() {
                        file_ids.push(ino);
                    }
                    proof {
                        assert(files_model(files@) =~= files_model(files_pre).insert(ino, fm));
                        assert forall|k: u32| #[trigger] files@.contains_key(k) implies
                            file_ids@.contains(k) by {
                            if files_pre.contains_key(k) {
                                let i = choose|i: int|
                                    0 <= i < fids_pre.len() && fids_pre[i] == k;
                                assert(file_ids@[i] == k);
                            } else {
                                assert(k == ino);
                                assert(file_ids@[file_ids@.len() - 1] == k);
                            }
                        }
                        if prev is None {
                            assert(!fids_pre.contains(ino));
                            assert forall|i: int, j: int|
                                0 <= i < j < file_ids@.len() implies file_ids@[i]
                                != file_ids@[j] by {
                                if j == file_ids@.len() - 1 {
                                    assert(fids_pre[i] == file_ids@[i]);
                                }
                            }
                        }
                    }
                    next = nx;
                },
                InodeType::BasicDirectory => {
                    let (d, nx) = match BasicDirectory::from_reader(sl, body) {
                        Ok(p) => p,
                        Err(_) => {
                            return Err(InodeTableError::InvalidEntry);
                        },
                    };
                    let prev = directories.insert(ino, DirectoryInode::Basic(d));
                    if prev.is_none() {
                        directory_ids.push(ino);
                    }
                    proof {
                        assert forall|k: u32| #[trigger] directories@.contains_key(k) implies
                            directory_ids@.contains(k) by {
                            if dirs_pre.contains_key(k) {
                                let i = choose|i: int|
                                    0 <= i < dids_pre.len() && dids_pre[i] == k;
                                assert(directory_ids@[i] == k);
                            } else {
                                assert(k == ino);
                                assert(directory_ids@[directory_ids@.len() - 1] == k);
                            }
                        }
                        if prev is None {
                            assert(!dids_pre.contains(ino));
                            assert forall|i: int, j: int|
                                0 <= i < j < directory_ids@.len() implies directory_ids@[i]
                                != directory_ids@[j] by {
                                if j == directory_ids@.len() - 1 {
                                    assert(dids_pre[i] == directory_ids@[i]);
                                }
                            }
                        }
                    }
                    next = nx;
                },
                InodeType::ExtendedDirectory => {
                    let (d, nx) = match ExtendedDirectory::from_reader(sl, body) {
                        Ok(p) => p,
                        Err(e) => {
                            return Err(e);
                        },
                    };
                    let prev = directories.insert(ino, DirectoryInode::Extended(d));
                    if prev.is_none() {
                        directory_ids.push(ino);
                    }
                    proof {
                        assert forall|k: u32| #[trigger] directories@.contains_key(k) implies
                            directory_ids@.contains(k) by {
                            if dirs_pre.contains_key(k) {
                                let i = choose|i: int|
                                    0 <= i < dids_pre.len() && dids_pre[i] == k;
                                assert(directory_ids@[i] == k);
                            } else {
                                assert(k == ino);
                                assert(directory_ids@[directory_ids@.len() - 1] == k);
                            }
                        }
                        if prev is None {
                            assert(!dids_pre.contains(ino));
                            assert forall|i: int, j: int|
                                0 <= i < j < directory_ids@.len() implies directory_ids@[i]
                                != directory_ids@[j] by {
                                if j == directory_ids@.len() - 1 {
                                    assert(dids_pre[i] == directory_ids@[i]);
                                }
                            }
                        }
                    }
                    next = nx;
                },
                InodeType::BasicSymlink => {
                    let (_link, nx) = match Symlink::from_reader(sl, body) {
                        Ok(p) => p,
                        Err(e) => {
                            return Err(e);
                        },
                    };
                    next = nx;
                },
                _ => {
                    next = body;
                },
            }
            proof {
                assert(whole == parse_inodes_from(
                    s,
                    next as int,
                    bsi,
                    files_model(files@),
                    directories@,
                ));
            }
            pos = next;
        }
        proof {
            assert(whole == Some((files_model(files@), directories@)));
        }
        Ok(InodeTable { directories, files, directory_ids, file_ids })
    }

    /// Read the inode number the root-inode reference points at.
    pub fn read_root_inode(inode_ref: InodeRef, superblock: &SuperBlock, img: &[u8]) -> (r: Result<
        u32,
        InodeTableError,
    >)
        ensures
            r matches Ok(ino) ==> root_inode_of(
                img@,
                inode_ref,
                superblock.inode_table_start as int,
                superblock.directory_table_start as int,
                superblock.compression,
            ) == Some(ino),
            r is Ok <==> root_inode_of(
                img@,
                inode_ref,
                superblock.inode_table_start as int,
                superblock.directory_table_start as int,
                superblock.compression,
            ) is Some,
    {
        let its = superblock.inode_table_start;
        let dts = superblock.directory_table_start;
        let bstart = inode_ref.block_start();
        if its > u64::MAX - bstart {
            // The stream would start past any possible image.
            proof {
                assert(its + bstart >= dts);
            }
            return Err(InodeTableError::InvalidHeader);
        }
        let start = its + bstart;
        if start > img.len() as u64 {
            if start >= dts {
                // An empty stream holds no header.
                return Err(InodeTableError::InvalidHeader);
            }
            proof {
                assert(metadata_stream_of(
                    img@,
                    (its + bstart) as int,
                    dts as int,
                    superblock.compression,
                ) is None);
            }
            return Err(InodeTableError::InvalidHeader);
        }
        let stream = match MetadataBlock::from_reader_flatten(
            img,
            start as usize,
            dts,
            superblock.compression,
        ) {
            Ok(v) => v,
            Err(e) => {
                return Err(InodeTableError::InvalidMetadata(e));
            },
        };
        let off64 = inode_ref.block_offset();
        let off = off64 as usize;
        if stream.len() < 16 || off > stream.len() - 16 {
            return Err(InodeTableError::InvalidHeader);
        }
        let ty = read_u16(stream.as_slice(), off);
        if InodeType::from_tag(ty).is_none() {
            return Err(InodeTableError::InvalidHeader);
        }
        Ok(read_u32(stream.as_slice(), off + 12))
    }
}

impl Symlink {
    /// Parse a symlink payload; the table walk discards the result.
    pub fn from_reader(s: &[u8], pos: usize) -> (r: Result<(Symlink, usize), InodeTableError>)
        requires
            pos <= s@.len(),
        ensures
            r matches Ok(p) ==> parse_symlink(s@, pos as int) == Some(p.1 as int) && pos < p.1
                <= s@.len() && p.0.link_count == le32(s@, pos as int) && p.0.target_size == le32(
                s@,
                pos + 4,
            ) && p.0.target@ == s@.subrange(pos + 8, p.1 as int),
            r is Ok <==> parse_symlink(s@, pos as int) is Some,
            r is Err ==> r == Err::<(Symlink, usize), InodeTableError>(
                InodeTableError::InvalidEntry,
            ),
    {
        let n = s.len();
        if n - pos < 8 {
            return Err(InodeTableError::InvalidEntry);
        }
        let link_count = read_u32(s, pos);
        let target_size = read_u32(s, pos + 4);
        if (target_size as u64) > (n - pos - 8) as u64 {
            return Err(InodeTableError::InvalidEntry);
        }
        let tsz = target_size as usize;
        let target = vstd::slice::slice_to_vec(
            vstd::slice::slice_subrange(s, pos + 8, pos + 8 + tsz),
        );
        Ok((Symlink { link_count, target_size, target }, pos + 8 + tsz))
    }
}

} // verus!
