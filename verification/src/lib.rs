//! Read-only SquashFS 4.0 image reader: table parsing and the data read
//! path, decoded from in-memory image bytes and proved against byte-level
//! models of the on-disk format.
pub mod cache;
pub mod compress;
pub mod data;
pub mod directory_table;
pub mod error;
pub mod fragments;
pub mod inodes;
pub mod le;
pub mod metadata;
pub mod superblock;

use std::collections::BTreeMap;

use vstd::prelude::*;

use crate::cache::{BlockCache, FileCache};
use crate::compress::Compression;
use crate::data::{block_start_at, cache_ok, file_byte, read_file_impl, read_plan_ok};
use crate::directory_table::{directory_table_of, entry_models, DirectoryTable};
use crate::error::Error;
use crate::fragments::{fragments_table_of, FragmentsTable};
use crate::inodes::{files_model, inode_table_of, root_inode_of, FileModel, InodeTable};
use crate::superblock::{superblock_ok, SuperBlock};

verus! {

broadcast use vstd::laws_cmp::group_laws_cmp, vstd::std_specs::btree::group_btree_axioms;

/// Flags passed to the `open` syscall by the embedding.
pub type ReadFlags = i32;

/// Hint flag asking the backend for direct, unbuffered access.
pub const O_DIRECT: ReadFlags = 0x4000;

/// Flag marking a reader pool that skips blocking reads.
pub const O_NONBLOCK: ReadFlags = 0x800;

/// Table loads use the direct pool only under this many table bytes.
pub const TABLES_DIRECT_THRESHOLD: u64 = 50_000;

/// Reading options.
#[derive(Debug, Clone)]
pub struct Options {
    /// Cache size (MB) for decoded blocks.
    pub cache_mb: u64,
    /// Number of readers per pool.
    pub readers: usize,
    /// Limit (B) for reading small files with direct access; zero disables
    /// the whole-file cache.
    pub direct_limit: usize,
}

impl Default for Options {
    /// The default options: a 100 MB cache, four readers, no small-file
    /// cache.
    fn default() -> (r: Options)
        ensures
            r.cache_mb == 100 && r.readers == 4 && r.direct_limit == 0,
    {
        Options { cache_mb: 100, readers: 4, direct_limit: 0 }
    }
}

/// Whether the flag set asks for direct access.
pub open spec fn has_direct(flags: ReadFlags) -> bool {
    flags & O_DIRECT != 0
}

/// Whether table loading should use the direct pool: only worthwhile when
/// the tables are small.
pub fn use_direct_for_tables(tables_length: u64) -> (r: bool)
    ensures
        r == (tables_length < TABLES_DIRECT_THRESHOLD),
{
    tables_length < TABLES_DIRECT_THRESHOLD
}

/// Offset just past the last data block of a file.
pub open spec fn blocks_end(m: FileModel) -> int {
    block_start_at(m.blocks_start as int, m.block_sizes, m.block_sizes.len() as int)
}

/// Whether a read of the file goes through the whole-small-file path: the
/// file is at least one block (smaller files force direct access instead),
/// below the direct limit, fragmentless, requested with direct access, the
/// cache is configured, and the file lists at least one block.
pub open spec fn uses_small_path(
    m: FileModel,
    block_size: int,
    direct_limit: int,
    flags: ReadFlags,
    cache_enabled: bool,
) -> bool {
    &&& m.file_size >= block_size
    &&& (m.file_size as int) < direct_limit
    &&& !m.fragment.valid_spec()
    &&& has_direct(flags)
    &&& cache_enabled
    &&& m.block_sizes.len() >= 1
}

/// Whether the options are accepted: at least one reader, and a cache budget
/// of at least ten times the direct limit.
pub open spec fn options_valid(o: Options) -> bool {
    &&& o.readers >= 1
    &&& (o.direct_limit as int) * 10 <= (o.cache_mb as int) * 1_000_000
}

/// Whether the whole image loads: valid options, a valid superblock, and a
/// root inode, inode table, fragments table and every directory listing that
/// all parse, with at least one inode and room to remap the root past the
/// largest one.
pub open spec fn load_ok(img: Seq<u8>, o: Options) -> bool {
    &&& options_valid(o)
    &&& superblock_ok(img)
    &&& ({
        let bs = crate::le::le32(img, 12);
        let algo = Compression::from_tag_spec(crate::le::le16(img, 20))->0;
        let its = crate::le::le64(img, 64);
        let dts = crate::le::le64(img, 72);
        let fts = crate::le::le64(img, 80);
        let fcnt = crate::le::le32(img, 16);
        let iref = crate::inodes::InodeRef(crate::le::le64(img, 32) as u64);
        &&& root_inode_of(img, iref, its, dts, algo) is Some
        &&& fragments_table_of(img, fts, fcnt, algo) is Some
        &&& (inode_table_of(img, its, dts, bs, algo) matches Some(t) && {
            &&& forall|k: u32| #[trigger]
                t.1.contains_key(k) ==> directory_table_of(
                    img,
                    t.1[k].table_location_spec(),
                    dts,
                    fts,
                    algo,
                ) is Some
            &&& !(t.0.dom() + t.1.dom()).is_empty()
            &&& !t.0.contains_key(0xFFFF_FFFFu32) && !t.1.contains_key(0xFFFF_FFFFu32)
        })
    })
}

/// Every whole-file cache entry holds exactly the bytes of its inode's file.
pub open spec fn small_cache_ok(
    c: FileCache,
    img: Seq<u8>,
    files: Map<u32, FileModel>,
    frags: Seq<crate::fragments::Entry>,
    block_size: int,
    algo: Compression,
) -> bool {
    forall|ino: u64| #[trigger]
        c.entries().contains_key(ino) ==> {
            &&& ino <= u32::MAX
            &&& files.contains_key(ino as u32)
            &&& c.entries()[ino].len() == files[ino as u32].file_size
            &&& forall|j: int|
                0 <= j < c.entries()[ino].len() ==> Some(#[trigger] c.entries()[ino][j])
                    == file_byte(img, files[ino as u32], frags, block_size, algo, j)
        }
}

/// A loaded image: the superblock, every table parsed eagerly, the decoded
/// caches, and the open-handle registry.
pub struct SquashFs {
    pub superblock: SuperBlock,
    pub inode_table: InodeTable,
    pub fragments_table: FragmentsTable,
    /// Entry listing for each directory inode.
    pub directory_tables: BTreeMap<u32, DirectoryTable>,
    pub root_inode: u32,
    pub handles: BTreeMap<u64, ReadFlags>,
    pub next_handle: u64,
    pub n_readers: usize,
    pub inode_extra: u32,
    pub direct_limit: usize,
    /// Cache for decoded data blocks of the image.
    pub cache: BlockCache,
    /// Cache for whole small files (under `direct_limit`), read at once.
    pub small_files_cache: FileCache,
    /// The image bytes this value was loaded from.
    pub img: Ghost<Seq<u8>>,
}

/// Keys of the inode maps and entries of the id lists name the same inodes.
proof fn lemma_key_in_ids(t: InodeTable, k: u32)
    requires
        t.wf(),
        t.files@.contains_key(k) || t.directories@.contains_key(k),
    ensures
        (t.directory_ids@ + t.file_ids@).contains(k),
{
    let a = t.directory_ids@;
    let b = t.file_ids@;
    if t.directories@.contains_key(k) {
        assert(a.contains(k));
        let i = choose|i: int| 0 <= i < a.len() && a[i] == k;
        assert((a + b)[i] == k);
    } else {
        assert(b.contains(k));
        let i = choose|i: int| 0 <= i < b.len() && b[i] == k;
        assert((a + b)[a.len() + i] == k);
    }
}

/// An inode named by the id lists is in one of the inode maps.
proof fn lemma_id_in_doms(t: InodeTable, k: u32)
    requires
        t.wf(),
        (t.directory_ids@ + t.file_ids@).contains(k),
    ensures
        t.files@.contains_key(k) || t.directories@.contains_key(k),
{
    let a = t.directory_ids@;
    let b = t.file_ids@;
    let p = choose|p: int| 0 <= p < (a + b).len() && (a + b)[p] == k;
    if p < a.len() {
        assert(a[p] == k);
    } else {
        assert(b[p - a.len()] == k);
    }
}

/// With no ids listed, the inode maps are empty.
proof fn lemma_no_ids_no_inodes(t: InodeTable)
    requires
        t.wf(),
        t.directory_ids@.len() + t.file_ids@.len() == 0,
    ensures
        (files_model(t.files@).dom() + t.directories@.dom()).is_empty(),
{
    assert(files_model(t.files@).dom() =~= t.files@.dom());
    assert forall|k: u32| !((files_model(t.files@).dom() + t.directories@.dom()).contains(k)) by {
        if t.files@.contains_key(k) || t.directories@.contains_key(k) {
            lemma_key_in_ids(t, k);
        }
    }
    assert((files_model(t.files@).dom() + t.directories@.dom()) =~= Set::<u32>::empty());
}

/// A bound over the id lists bounds every inode key, and a listed id shows
/// the maps are not empty.
proof fn lemma_inode_ids_facts(t: InodeTable, ids: Seq<u32>, mx: u32)
    requires
        t.wf(),
        ids == t.directory_ids@ + t.file_ids@,
        forall|p: int| 0 <= p < ids.len() ==> ids[p] <= mx,
        ids.len() > 0,
    ensures
        forall|i: int| 0 <= i < t.directory_ids@.len() ==> #[trigger] t.directory_ids@[i] <= mx,
        forall|i: int| 0 <= i < t.file_ids@.len() ==> #[trigger] t.file_ids@[i] <= mx,
        forall|k: u32| #[trigger] files_model(t.files@).contains_key(k) ==> k <= mx,
        forall|k: u32| #[trigger] t.directories@.contains_key(k) ==> k <= mx,
        !(files_model(t.files@).dom() + t.directories@.dom()).is_empty(),
{
    let a = t.directory_ids@;
    let b = t.file_ids@;
    assert(files_model(t.files@).dom() =~= t.files@.dom());
    assert forall|i: int| 0 <= i < a.len() implies #[trigger] a[i] <= mx by {
        assert(ids[i] == a[i]);
    }
    assert forall|i: int| 0 <= i < b.len() implies #[trigger] b[i] <= mx by {
        assert(ids[a.len() + i] == b[i]);
    }
    assert forall|k: u32| #[trigger] files_model(t.files@).contains_key(k) implies k <= mx by {
        assert(t.files@.contains_key(k));
        assert(b.contains(k));
        let i = choose|i: int| 0 <= i < b.len() && b[i] == k;
        assert(b[i] <= mx);
    }
    assert forall|k: u32| #[trigger] t.directories@.contains_key(k) implies k <= mx by {
        assert(a.contains(k));
        let i = choose|i: int| 0 <= i < a.len() && a[i] == k;
        assert(a[i] <= mx);
    }
    lemma_id_in_doms(t, ids[0]);
    assert((files_model(t.files@).dom() + t.directories@.dom()).contains(ids[0]));
}

impl SquashFs {
    /// The structural facts every loaded image maintains: a sane superblock,
    /// consistent tables, caches that only hold correctly decoded data, and
    /// fresh handle numbers.
    pub open spec fn wf(self) -> bool {
        &&& self.superblock.block_size >= 1
        &&& self.superblock.inode_table_start <= self.superblock.bytes_used
        &&& self.inode_table.wf()
        &&& self.cache.wf()
        &&& self.small_files_cache.wf()
        &&& cache_ok(
            self.cache,
            self.img@,
            self.superblock.block_size as int,
            self.superblock.compression,
        )
        &&& small_cache_ok(
            self.small_files_cache,
            self.img@,
            files_model(self.inode_table.files@),
            self.fragments_table.entries@,
            self.superblock.block_size as int,
            self.superblock.compression,
        )
        &&& forall|h: u64| #[trigger] self.handles@.contains_key(h) ==> h < self.next_handle
    }

    /// The whole parsed image state and configuration, which no read ever
    /// changes: the superblock, the inode table (maps and id lists), the
    /// fragment entries, every directory listing, the root inode and its
    /// remap bound, the configuration, and the image the state was read from.
    pub open spec fn tables(self) -> (
        SuperBlock,
        InodeTable,
        Seq<crate::fragments::Entry>,
        Map<u32, DirectoryTable>,
        u32,
        u32,
        usize,
        Seq<u8>,
    ) {
        (
            self.superblock,
            self.inode_table,
            self.fragments_table.entries@,
            self.directory_tables@,
            self.root_inode,
            self.inode_extra,
            self.direct_limit,
            self.img@,
        )
    }

    /// Whether there are any open handles.
    pub fn has_handles(&self) -> (r: bool)
        ensures
            r == !self.handles@.is_empty(),
    {
        !self.handles.is_empty()
    }

    /// Register an open handle carrying `flags` and return its number.
    pub fn open(&mut self, _ino: u64, flags: ReadFlags) -> (r: Result<u64, Error>)
        requires
            old(self).wf(),
        ensures
            final(self).wf(),
            final(self).tables() == old(self).tables(),
            final(self).cache == old(self).cache,
            final(self).small_files_cache == old(self).small_files_cache,
            r is Ok <==> old(self).next_handle < u64::MAX,
            r matches Ok(fh) ==> !old(self).handles@.contains_key(fh) && fh == old(
                self,
            ).next_handle && final(self).handles@ == old(self).handles@.insert(fh, flags),
            r is Err ==> r == Err::<u64, Error>(Error::PoolError) && final(self).handles@ == old(
                self,
            ).handles@,
    {
        if self.next_handle == u64::MAX {
            return Err(Error::PoolError);
        }
        let fh = self.next_handle;
        self.next_handle = self.next_handle + 1;
        self.handles.insert(fh, flags);
        Ok(fh)
    }

    /// Drop an open handle; unknown handles are rejected.
    pub fn release(&mut self, _ino: u64, fh: u64) -> (r: Result<(), Error>)
        requires
            old(self).wf(),
        ensures
            final(self).wf(),
            final(self).tables() == old(self).tables(),
            final(self).cache == old(self).cache,
            final(self).small_files_cache == old(self).small_files_cache,
            r is Ok <==> old(self).handles@.contains_key(fh),
            final(self).handles@ == old(self).handles@.remove(fh),
    {
        let ghost pre = self.handles@;
        let removed = self.handles.remove(&fh);
        proof {
            if !pre.contains_key(fh) {
                assert(pre.remove(fh) =~= pre);
            }
        }
        match removed {
            Some(_) => Ok(()),
            None => Err(Error::InvalidInode),
        }
    }

    /// The inode numbers of every directory and file of the image.
    pub fn inodes(&self) -> (r: Vec<u32>)
        ensures
            r@ == self.inode_table.directory_ids@ + self.inode_table.file_ids@,
    {
        self.inode_table.ids()
    }

    /// Remap a native inode number for the filesystem protocol, which pins
    /// the root identifier: the real root becomes the pinned number, and a
    /// real inode equal to the pinned number moves past the largest inode.
    pub fn ino_to_fuse(&self, ino: u32) -> (r: u64)
        ensures
            r == if ino == self.root_inode {
                1u64
            } else if ino == 1 {
                self.inode_extra as u64
            } else {
                ino as u64
            },
    {
        if ino == self.root_inode {
            1
        } else if ino == 1 {
            self.inode_extra as u64
        } else {
            ino as u64
        }
    }

    /// Undo [`Self::ino_to_fuse`]: the protocol's root identifier names the
    /// real root inode.
    pub fn ino_from_fuse(&self, ino: u64) -> (r: Result<u32, Error>)
        ensures
            r == if ino == 1 {
                Ok::<u32, Error>(self.root_inode)
            } else if ino == self.inode_extra as u64 {
                Ok::<u32, Error>(1u32)
            } else if ino <= u32::MAX {
                Ok::<u32, Error>(ino as u32)
            } else {
                Err::<u32, Error>(Error::InvalidInode)
            },
    {
        if ino == 1 {
            Ok(self.root_inode)
        } else if ino == self.inode_extra as u64 {
            Ok(1)
        } else if ino <= u32::MAX as u64 {
            Ok(ino as u32)
        } else {
            Err(Error::InvalidInode)
        }
    }

    /// Build the per-directory entry listings for every directory inode.
    #[verifier::loop_isolation(false)]
    #[verifier::rlimit(60)]
    fn build_directory_tables(
        inode_table: &InodeTable,
        superblock: &SuperBlock,
        img: &[u8],
    ) -> (r: Result<BTreeMap<u32, DirectoryTable>, Error>)
        requires
            inode_table.wf(),
        ensures
            r matches Ok(m) ==> ({
                &&& forall|k: u32|
                    #![trigger m@.contains_key(k)]
                    m@.contains_key(k) <==> inode_table.directories@.contains_key(k)
                &&& forall|k: u32| #[trigger]
                    m@.contains_key(k) ==> directory_table_of(
                        img@,
                        inode_table.directories@[k].table_location_spec(),
                        superblock.directory_table_start as int,
                        superblock.fragment_table_start as int,
                        superblock.compression,
                    ) == Some(entry_models(m@[k].entries@))
            }),
            r is Ok <==> (forall|k: u32| #[trigger]
                inode_table.directories@.contains_key(k) ==> directory_table_of(
                    img@,
                    inode_table.directories@[k].table_location_spec(),
                    superblock.directory_table_start as int,
                    superblock.fragment_table_start as int,
                    superblock.compression,
                ) is Some),
            r matches Err(e) ==> e matches Error::DirectoryTable(_),
    {
        let ghost dirs_map = inode_table.directories@;
        let mut directory_tables: BTreeMap<u32, DirectoryTable> = BTreeMap::new();
        let n = inode_table.directory_ids.len();
        let mut i: usize = 0;
        while i < n
            invariant
                i <= n,
                forall|k: u32| #[trigger]
                    directory_tables@.contains_key(k) ==> dirs_map.contains_key(k)
                        && directory_table_of(
                        img@,
                        dirs_map[k].table_location_spec(),
                        superblock.directory_table_start as int,
                        superblock.fragment_table_start as int,
                        superblock.compression,
                    ) == Some(entry_models(directory_tables@[k].entries@)),
                forall|j: int|
                    0 <= j < i ==> directory_tables@.contains_key(
                        #[trigger] inode_table.directory_ids@[j],
                    ),
            decreases n - i,
        {
            let ino = inode_table.directory_ids[i];
            let dir = match inode_table.directories.get(&ino) {
                Some(d) => *d,
                None => {
                    // The id list names only keys of the map.
                    proof {
                        assert(false);
                    }
                    return Err(Error::DirectoryTable(
                        crate::error::DirectoryTableError::InvalidHeader,
                    ));
                },
            };
            let t = match DirectoryTable::from_reader_directory(&dir, &superblock, img) {
                Ok(t) => t,
                Err(e) => {
                    return Err(Error::DirectoryTable(e));
                },
            };
            directory_tables.insert(ino, t);
            i = i + 1;
        }
        proof {
            assert forall|k: u32| #[trigger]
                dirs_map.contains_key(k) implies directory_tables@.contains_key(k) by {
                assert(inode_table.directory_ids@.contains(k));
                let j = choose|j: int|
                    0 <= j < inode_table.directory_ids@.len() && inode_table.directory_ids@[j]
                        == k;
                assert(directory_tables@.contains_key(inode_table.directory_ids@[j]));
            }
        }
        Ok(directory_tables)
    }

    /// The largest value in a non-empty list of inode numbers.
    fn max_inode(ids: &Vec<u32>) -> (r: u32)
        requires
            ids@.len() > 0,
        ensures
            forall|p: int| 0 <= p < ids@.len() ==> ids@[p] <= r,
            ids@.contains(r),
    {
        let mut mx: u32 = ids[0];
        let mut j: usize = 1;
        while j < ids.len()
            invariant
                1 <= j <= ids@.len(),
                forall|p: int| 0 <= p < j ==> ids@[p] <= mx,
                exists|p: int| 0 <= p < j && ids@[p] == mx,
            decreases ids@.len() - j,
        {
            let v = ids[j];
            if v > mx {
                mx = v;
            }
            j = j + 1;
        }
        mx
    }

    /// Load an image from its bytes: validate the options and the
    /// superblock, then parse the root inode, the inode table, the fragments
    /// table and every directory's listing, and set up the caches.
    #[verifier::loop_isolation(false)]
    #[verifier::rlimit(100)]
    #[verifier::spinoff_prover]
    pub fn from_reader(options: &Options, img: &[u8]) -> (r: Result<SquashFs, Error>)
        ensures
            r matches Ok(s) ==> ({
                let bs = crate::le::le32(img@, 12);
                let algo = Compression::from_tag_spec(crate::le::le16(img@, 20))->0;
                let its = crate::le::le64(img@, 64);
                let dts = crate::le::le64(img@, 72);
                let fts = crate::le::le64(img@, 80);
                let fcnt = crate::le::le32(img@, 16);
                &&& s.wf()
                &&& s.img@ == img@
                &&& superblock_ok(img@)
                &&& options_valid(*options)
                &&& s.superblock.block_size == bs
                &&& s.superblock.compression == algo
                &&& s.superblock.inode_table_start == its
                &&& s.superblock.directory_table_start == dts
                &&& s.superblock.fragment_table_start == fts
                &&& s.superblock.fragment_entry_count == fcnt
                &&& s.superblock.root_inode == crate::inodes::InodeRef(
                    crate::le::le64(img@, 32) as u64,
                )
                &&& root_inode_of(img@, s.superblock.root_inode, its, dts, algo) == Some(
                    s.root_inode,
                )
                &&& inode_table_of(img@, its, dts, bs, algo) == Some(
                    (files_model(s.inode_table.files@), s.inode_table.directories@),
                )
                &&& fragments_table_of(img@, fts, fcnt, algo) == Some(s.fragments_table.entries@)
                &&& forall|k: u32|
                    #![trigger s.directory_tables@.contains_key(k)]
                    s.directory_tables@.contains_key(k)
                        <==> s.inode_table.directories@.contains_key(k)
                &&& forall|k: u32| #[trigger]
                    s.directory_tables@.contains_key(k) ==> directory_table_of(
                        img@,
                        s.inode_table.directories@[k].table_location_spec(),
                        dts,
                        fts,
                        algo,
                    ) == Some(entry_models(s.directory_tables@[k].entries@))
                &&& s.handles@ == Map::<u64, ReadFlags>::empty()
                &&& s.direct_limit == options.direct_limit
                &&& s.n_readers == options.readers
                &&& s.cache.enabled() == (options.cache_mb > 0)
                &&& s.small_files_cache.enabled() == (options.direct_limit > 0)
                &&& (forall|i: int|
                    0 <= i < s.inode_table.directory_ids@.len()
                        ==> #[trigger] s.inode_table.directory_ids@[i] < s.inode_extra)
                &&& (forall|i: int|
                    0 <= i < s.inode_table.file_ids@.len() ==> #[trigger] s.inode_table.file_ids@[i]
                        < s.inode_extra)
                &&& (s.inode_table.directory_ids@ + s.inode_table.file_ids@).contains(
                    (s.inode_extra - 1) as u32,
                )
            }),
            r is Ok <==> load_ok(img@, *options),
            !options_valid(*options) ==> (r matches Err(e) && e matches Error::InvalidOptions(_)),
            options_valid(*options) && !superblock_ok(img@) ==> (r matches Err(e) && (e
                == Error::InvalidSuperblock || e matches Error::Metadata(_) || e
                == Error::InvalidBufferSize || e matches Error::Decompress(_))),
            ({
                let bs = crate::le::le32(img@, 12);
                let algo = Compression::from_tag_spec(crate::le::le16(img@, 20))->0;
                let its = crate::le::le64(img@, 64);
                let dts = crate::le::le64(img@, 72);
                let fts = crate::le::le64(img@, 80);
                let fcnt = crate::le::le32(img@, 16);
                let iref = crate::inodes::InodeRef(crate::le::le64(img@, 32) as u64);
                let staged = options_valid(*options) && superblock_ok(img@);
                &&& (staged && (root_inode_of(img@, iref, its, dts, algo) is None
                    || inode_table_of(img@, its, dts, bs, algo) is None) ==> (r matches Err(e)
                    && e matches Error::InodeTable(_)))
                &&& (staged && root_inode_of(img@, iref, its, dts, algo) is Some
                    && inode_table_of(img@, its, dts, bs, algo) is Some && fragments_table_of(
                    img@,
                    fts,
                    fcnt,
                    algo,
                ) is None ==> (r matches Err(e) && e matches Error::Fragments(_)))
                &&& (staged && root_inode_of(img@, iref, its, dts, algo) is Some
                    && fragments_table_of(img@, fts, fcnt, algo) is Some && (inode_table_of(
                    img@,
                    its,
                    dts,
                    bs,
                    algo,
                ) matches Some(t) && !(forall|k: u32| #[trigger]
                    t.1.contains_key(k) ==> directory_table_of(
                        img@,
                        t.1[k].table_location_spec(),
                        dts,
                        fts,
                        algo,
                    ) is Some)) ==> (r matches Err(e) && e matches Error::DirectoryTable(_)))
            }),
    {
        if options.readers == 0 {
            return Err(Error::InvalidOptions("The number of readers must be >=1"));
        }
        if options.direct_limit as u128 * 10 > options.cache_mb as u128 * 1_000_000 {
            return Err(Error::InvalidOptions(
                "The cache size must be at least 10x as large as --direct-limit.",
            ));
        }
        let superblock = match SuperBlock::from_reader(img) {
            Ok(s) => s,
            Err(e) => {
                return Err(e);
            },
        };
        let root_inode = match InodeTable::read_root_inode(superblock.root_inode, &superblock, img) {
            Ok(i) => i,
            Err(e) => {
                return Err(Error::InodeTable(e));
            },
        };
        let inode_table = match InodeTable::from_reader(&superblock, img) {
            Ok(t) => t,
            Err(e) => {
                return Err(Error::InodeTable(e));
            },
        };
        let fragments_table = match FragmentsTable::from_reader(&superblock, img) {
            Ok(t) => t,
            Err(e) => {
                return Err(Error::Fragments(e));
            },
        };
        let directory_tables = match Self::build_directory_tables(&inode_table, &superblock, img) {
            Ok(m) => m,
            Err(e) => {
                return Err(e);
            },
        };
        let ids = inode_table.ids();
        if ids.len() == 0 {
            proof {
                lemma_no_ids_no_inodes(inode_table);
            }
            return Err(Error::InvalidInode);
        }
        let mx = Self::max_inode(&ids);
        if mx == 0xFFFF_FFFFu32 {
            proof {
                lemma_id_in_doms(inode_table, mx);
                assert(files_model(inode_table.files@).dom() =~= inode_table.files@.dom());
            }
            return Err(Error::InvalidInode);
        }
        let inode_extra = mx + 1;
        let block_entries: usize = if options.cache_mb == 0 {
            0
        } else {
            let q: u128 = options.cache_mb as u128 * 1_000_000 / superblock.block_size as u128;
            if q == 0 {
                1
            } else if q > usize::MAX as u128 {
                usize::MAX
            } else {
                q as usize
            }
        };
        let cache = BlockCache::new(block_entries);
        let file_entries: usize = if options.direct_limit == 0 {
            0
        } else {
            let q: u128 = options.cache_mb as u128 * 1_000_000 / options.direct_limit as u128;
            if q == 0 {
                1
            } else if q > usize::MAX as u128 {
                usize::MAX
            } else {
                q as usize
            }
        };
        let small_files_cache = FileCache::new(file_entries);
        let s = SquashFs {
            superblock,
            inode_table,
            fragments_table,
            directory_tables,
            root_inode,
            handles: BTreeMap::new(),
            next_handle: 1,
            n_readers: options.readers,
            inode_extra,
            direct_limit: options.direct_limit,
            cache,
            small_files_cache,
            img: Ghost(img@),
        };
        proof {
            assert(s.handles@ =~= Map::<u64, ReadFlags>::empty());
            lemma_inode_ids_facts(s.inode_table, ids@, mx);
        }
        Ok(s)
    }

    /// Read from a file of the archive: up to `size` bytes at `offset`,
    /// clamped to the file's length.
    ///
    /// On success the returned bytes are exactly bytes
    /// `[offset, offset + n)` of the file, where `n` is the clamped size;
    /// an offset past the end of the file is rejected, and an offset at the
    /// end yields an empty buffer. Small fragmentless files requested with
    /// direct access are decoded whole through the small-file cache.
    #[verifier::loop_isolation(false)]
    #[verifier::rlimit(80)]
    pub fn read_file(
        &mut self,
        img: &[u8],
        inode: u32,
        offset: usize,
        size: usize,
        flags: ReadFlags,
    ) -> (r: Result<Vec<u8>, Error>)
        requires
            old(self).wf(),
            img@ == old(self).img@,
        ensures
            final(self).wf(),
            final(self).tables() == old(self).tables(),
            final(self).handles@ == old(self).handles@,
            ({
                let files = files_model(old(self).inode_table.files@);
                let frags = old(self).fragments_table.entries@;
                let bs = old(self).superblock.block_size as int;
                let algo = old(self).superblock.compression;
                &&& (!files.contains_key(inode) ==> r == Err::<Vec<u8>, Error>(
                    Error::FileNotFound(None),
                ))
                &&& (files.contains_key(inode) ==> {
                    let m = files[inode];
                    let clamped = if size <= m.file_size - offset {
                        size as int
                    } else {
                        m.file_size - offset
                    };
                    &&& !(r matches Err(e) && e matches Error::FileNotFound(_))
                    &&& ((r == Err::<Vec<u8>, Error>(Error::InvalidOffset)) <==> offset
                        > m.file_size)
                    &&& (r matches Ok(v) ==> offset <= m.file_size && v@.len() == clamped && (
                    forall|j: int|
                        0 <= j < clamped ==> Some(v@[j]) == file_byte(
                            img@,
                            m,
                            frags,
                            bs,
                            algo,
                            offset + j,
                        )))
                    &&& (offset <= m.file_size && clamped == 0 ==> r is Ok)
                    &&& (offset <= m.file_size && clamped > 0 && offset + size + 2 * bs
                        <= usize::MAX ==> {
                        let small = uses_small_path(
                            m,
                            bs,
                            old(self).direct_limit as int,
                            flags,
                            old(self).small_files_cache.enabled(),
                        );
                        &&& (small && m.blocks_start <= img@.len() && blocks_end(m) <= img@.len()
                            && m.file_size + 2 * bs <= usize::MAX && read_plan_ok(
                            img@,
                            m,
                            frags,
                            bs,
                            algo,
                            0,
                            m.file_size as int,
                            m.blocks_start as int,
                            blocks_end(m),
                        ) ==> r is Ok)
                        &&& (!small && read_plan_ok(
                            img@,
                            m,
                            frags,
                            bs,
                            algo,
                            offset as int,
                            clamped,
                            0,
                            img@.len() as int,
                        ) ==> r is Ok)
                        &&& (small ==> (r is Ok
                            ==> final(self).small_files_cache.entries().contains_key(inode as u64)
                            && final(self).small_files_cache.entries()[inode as u64].len()
                            == m.file_size))
                    })
                })
            }),
    {
        let ghost files = files_model(self.inode_table.files@);
        let ghost frags = self.fragments_table.entries@;
        let bs_u32 = self.superblock.block_size;
        let ghost bs = bs_u32 as int;
        let algo = self.superblock.compression;
        let (file_size, frag_valid, nloc) = match self.inode_table.files.get(&inode) {
            Some(f) => (f.file_size(), f.fragment().valid(), f.block_sizes().len()),
            None => {
                return Err(Error::FileNotFound(None));
            },
        };
        let ghost m = files[inode];
        if offset as u64 > file_size {
            return Err(Error::InvalidOffset);
        }
        let avail: u64 = file_size - offset as u64;
        let clamped: usize = if (size as u64) <= avail {
            size
        } else {
            avail as usize
        };
        if clamped == 0 {
            return Ok(Vec::new());
        }
        if offset as u128 + size as u128 + 2 * (bs_u32 as u128) > usize::MAX as u128 {
            return Err(Error::InvalidBufferSize);
        }
        let small = file_size >= bs_u32 as u64 && file_size < self.direct_limit as u64
            && !frag_valid && (flags & O_DIRECT) != 0 && self.small_files_cache.is_enabled()
            && nloc >= 1;
        proof {
            assert(small == uses_small_path(
                m,
                bs,
                self.direct_limit as int,
                flags,
                self.small_files_cache.enabled(),
            ));
        }
        if small {
            match self.small_files_cache.get(inode as u64) {
                Some(v) => {
                    let out = vstd::slice::slice_to_vec(
                        vstd::slice::slice_subrange(v.as_slice(), offset, offset + clamped),
                    );
                    return Ok(out);
                },
                None => {},
            }
            let file = match self.inode_table.files.get(&inode) {
                Some(f) => f,
                None => {
                    // The first lookup found this inode and nothing changed.
                    proof {
                        assert(false);
                    }
                    return Err(Error::ReadFailure);
                },
            };
            let locations = file.data_locations();
            let first_start = locations[0].block_start;
            let last = locations[nloc - 1];
            proof {
                crate::data::lemma_block_start_monotone(
                    m.blocks_start as int,
                    m.block_sizes,
                    0,
                    nloc - 1,
                );
                crate::data::lemma_block_start_monotone(
                    m.blocks_start as int,
                    m.block_sizes,
                    nloc - 1,
                    nloc as int,
                );
            }
            let end: u64 = last.block_start + last.block_size.compressed_size();
            proof {
                assert(end == blocks_end(m));
            }
            if first_start > img.len() as u64 || end > img.len() as u64 {
                return Err(Error::ReadFailure);
            }
            if file_size as u128 + 2 * (bs_u32 as u128) > usize::MAX as u128 {
                return Err(Error::InvalidBufferSize);
            }
            let span: &[u8] = vstd::slice::slice_subrange(
                img,
                first_start as usize,
                end as usize,
            );
            let fsize_usize = file_size as usize;
            let whole = match read_file_impl(
                span,
                first_start,
                file,
                0,
                fsize_usize,
                bs_u32,
                &self.fragments_table,
                &mut self.cache,
                algo,
                Ghost(img@),
            ) {
                Ok(v) => v,
                Err(e) => {
                    return Err(e);
                },
            };
            let ghost small_pre = self.small_files_cache.entries();
            let copy = vstd::slice::slice_to_vec(whole.as_slice());
            self.small_files_cache.try_insert(inode as u64, copy);
            proof {
                assert forall|ino2: u64| #[trigger]
                    self.small_files_cache.entries().contains_key(ino2) implies {
                    &&& ino2 <= u32::MAX
                    &&& files.contains_key(ino2 as u32)
                    &&& self.small_files_cache.entries()[ino2].len() == files[
                        ino2 as u32
                    ].file_size
                    &&& forall|j: int|
                        0 <= j < self.small_files_cache.entries()[ino2].len() ==> Some(
                            #[trigger] self.small_files_cache.entries()[ino2][j],
                        ) == file_byte(img@, files[ino2 as u32], frags, bs, algo, j)
                } by {
                    if ino2 != inode as u64 {
                        assert(small_pre.contains_key(ino2));
                    }
                }
            }
            let out = vstd::slice::slice_to_vec(
                vstd::slice::slice_subrange(whole.as_slice(), offset, offset + clamped),
            );
            return Ok(out);
        }
        let file = match self.inode_table.files.get(&inode) {
            Some(f) => f,
            None => {
                // The first lookup found this inode and nothing changed.
                proof {
                    assert(false);
                }
                return Err(Error::ReadFailure);
            },
        };
        proof {
            assert(img@.subrange(0, img@.len() as int) =~= img@);
        }
        match read_file_impl(
            img,
            0,
            file,
            offset,
            clamped,
            bs_u32,
            &self.fragments_table,
            &mut self.cache,
            algo,
            Ghost(img@),
        ) {
            Ok(v) => Ok(v),
            Err(e) => Err(e),
        }
    }

    /// Look a name up in a directory's entry listing.
    pub fn lookup(&self, parent: u32, name: &[u8]) -> (r: Result<u32, Error>)
        ensures
            match r {
                Ok(ino) => self.directory_tables@.contains_key(parent) && (
                crate::directory_table::first_match(
                    entry_models(self.directory_tables@[parent].entries@),
                    name@,
                ) matches Some(e) && e.inode == ino),
                Err(e) => (!self.directory_tables@.contains_key(parent) && e
                    == Error::DirectoryNotFound) || (self.directory_tables@.contains_key(parent)
                    && crate::directory_table::first_match(
                    entry_models(self.directory_tables@[parent].entries@),
                    name@,
                ) is None && e matches Error::FileNotFound(_)),
            },
    {
        let d = match self.directory_tables.get(&parent) {
            Some(d) => d,
            None => {
                return Err(Error::DirectoryNotFound);
            },
        };
        match d.find(name) {
            Some(e) => Ok(e.inode),
            None => Err(Error::FileNotFound(None)),
        }
    }
}

} // verus!
