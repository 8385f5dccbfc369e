//! Directory table parsing: per-directory entry listings with name lookup.
use vstd::prelude::*;

use crate::compress::Compression;
use crate::error::DirectoryTableError;
use crate::inodes::{DirectoryTableLocation, InodeType};
use crate::le::{le16, le32, read_u16, read_u32, sign16};
use crate::metadata::{metadata_stream_of, MetadataBlock};
use crate::superblock::SuperBlock;

verus! {

/// `v` reduced into the unsigned 32-bit range, for sums that the format
/// computes with wrap-around.
pub open spec fn wrap32(v: int) -> int {
    (v + 0x1_0000_0000) % 0x1_0000_0000
}

/// What one directory entry says.
pub ghost struct EntryModel {
    pub inode_metadata_offset: u32,
    pub inode: u32,
    pub entry_type: InodeType,
    pub name: Seq<u8>,
}

/// Directory table entry: a name, the inode it resolves to, and its kind.
#[derive(Debug, Clone)]
pub struct Entry {
    pub inode_metadata_offset: u32,
    pub inode: u32,
    pub entry_type: InodeType,
    pub name: Vec<u8>,
}

impl View for Entry {
    type V = EntryModel;

    open spec fn view(&self) -> EntryModel {
        EntryModel {
            inode_metadata_offset: self.inode_metadata_offset,
            inode: self.inode,
            entry_type: self.entry_type,
            name: self.name@,
        }
    }
}

impl Entry {
    /// Whether the entry names a directory.
    pub fn is_dir(&self) -> (r: bool)
        ensures
            r == self@.entry_type.is_dir_spec(),
    {
        self.entry_type.is_dir()
    }
}

/// One 8-byte directory entry record at `pos` of the directory window `w`,
/// followed by its `name_size + 1` name bytes. The entry's inode number is
/// the header's base plus the record's signed 16-bit offset.
pub open spec fn parse_dir_entry(w: Seq<u8>, pos: int, ito: int, base: int) -> Option<
    (EntryModel, int),
> {
    if pos + 8 > w.len() {
        None
    } else {
        let name_size = le16(w, pos + 6);
        let end = pos + 8 + name_size + 1;
        match InodeType::from_tag_spec(le16(w, pos + 4)) {
            None => None,
            Some(t) => if end > w.len() {
                None
            } else {
                Some(
                    (
                        EntryModel {
                            inode_metadata_offset: wrap32(ito + le16(w, pos)) as u32,
                            inode: wrap32(base + sign16(le16(w, pos + 2))) as u32,
                            entry_type: t,
                            name: w.subrange(pos + 8, end),
                        },
                        end,
                    ),
                )
            },
        }
    }
}

/// The entries of the directory window `w` from `pos` on: groups of a
/// 12-byte header (entry count minus one, inode table offset, inode number
/// base) followed by that many entries, until the window is exhausted.
pub open spec fn parse_dir(
    w: Seq<u8>,
    pos: int,
    remaining: int,
    ito: int,
    base: int,
    acc: Seq<EntryModel>,
) -> Option<Seq<EntryModel>>
    decreases w.len() - pos, remaining + 1,
{
    if remaining <= 0 {
        if pos < 0 || pos + 12 > w.len() {
            // Too few bytes for another header: the listing ends cleanly.
            Some(acc)
        } else {
            parse_dir(w, pos + 12, le32(w, pos) + 1, le32(w, pos + 4), le32(w, pos + 8), acc)
        }
    } else {
        match parse_dir_entry(w, pos, ito, base) {
            Some(p) => if pos < p.1 <= w.len() {
                parse_dir(w, p.1, remaining - 1, ito, base, acc.push(p.0))
            } else {
                None
            },
            None => None,
        }
    }
}

/// The models of a list of entries.
pub open spec fn entry_models(s: Seq<Entry>) -> Seq<EntryModel> {
    Seq::new(s.len(), |i: int| s[i]@)
}

/// The entry listing of one directory: the metadata stream starting at the
/// directory's block, with the directory's in-block offset discarded and up
/// to its listed size taken. The listed size may overshoot the stream (the
/// on-disk field carries a small bias), so the window is clamped to the
/// bytes that exist.
pub open spec fn directory_table_of(
    img: Seq<u8>,
    loc: DirectoryTableLocation,
    dts: int,
    fts: int,
    algo: Compression,
) -> Option<Seq<EntryModel>> {
    match metadata_stream_of(img, dts + loc.start, fts, algo) {
        Some(s) => {
            let lo = if loc.offset <= s.len() {
                loc.offset as int
            } else {
                s.len() as int
            };
            let hi = if loc.offset + loc.file_size <= s.len() {
                loc.offset + loc.file_size
            } else {
                s.len() as int
            };
            parse_dir(s.subrange(lo, hi), 0, 0, 0, 0, Seq::empty())
        },
        None => None,
    }
}

/// The first entry whose name is `name`, if any.
pub open spec fn first_match(s: Seq<EntryModel>, name: Seq<u8>) -> Option<EntryModel>
    decreases s.len(),
{
    if s.len() == 0 {
        None
    } else if s[0].name == name {
        Some(s[0])
    } else {
        first_match(s.drop_first(), name)
    }
}

/// When a directory's names are distinct, looking one of them up yields
/// exactly its entry.
pub proof fn lemma_lookup_finds_entry(s: Seq<EntryModel>, i: int)
    requires
        0 <= i < s.len(),
        forall|j: int, k: int| 0 <= j < k < s.len() ==> s[j].name != s[k].name,
    ensures
        first_match(s, s[i].name) == Some(s[i]),
    decreases i,
{
    if i > 0 {
        assert(s[0].name != s[i].name);
        lemma_lookup_finds_entry(s.drop_first(), i - 1);
        assert(s.drop_first()[i - 1] == s[i]);
    }
}

/// Whether two byte strings are equal.
fn bytes_eq(a: &[u8], b: &[u8]) -> (r: bool)
    ensures
        r == (a@ == b@),
{
    if a.len() != b.len() {
        proof {
            assert(a@.len() != b@.len());
        }
        return false;
    }
    let n = a.len();
    let mut i: usize = 0;
    while i < n
        invariant
            i <= n,
            n == a@.len() == b@.len(),
            forall|j: int| 0 <= j < i ==> a@[j] == b@[j],
        decreases n - i,
    {
        if a[i] != b[i] {
            return false;
        }
        i = i + 1;
    }
    proof {
        assert(a@ =~= b@);
    }
    true
}

/// Table for one directory: its entries in listing order.
pub struct DirectoryTable {
    pub entries: Vec<Entry>,
}

impl DirectoryTable {
    /// Find the entry for `name`: the first entry carrying that exact name.
    #[verifier::loop_isolation(false)]
    pub fn find(&self, name: &[u8]) -> (r: Option<&Entry>)
        ensures
            match r {
                Some(e) => first_match(entry_models(self.entries@), name@) == Some(e@),
                None => first_match(entry_models(self.entries@), name@) is None,
            },
    {
        let ghost models = entry_models(self.entries@);
        let n = self.entries.len();
        let mut i: usize = 0;
        proof {
            assert(models.skip(0) =~= models);
        }
        while i < n
            invariant
                i <= n,
                first_match(models.skip(i as int), name@) == first_match(models, name@),
            decreases n - i,
        {
            let e = &self.entries[i];
            if bytes_eq(e.name.as_slice(), name) {
                proof {
                    assert(models.skip(i as int)[0] == e@);
                }
                return Some(e);
            }
            proof {
                assert(models.skip(i as int)[0] == e@);
                assert(models.skip(i as int).drop_first() =~= models.skip(i + 1));
            }
            i = i + 1;
        }
        proof {
            assert(models.skip(n as int) =~= Seq::<EntryModel>::empty());
        }
        None
    }

    /// Read the entry listing of one directory inode.
    #[verifier::loop_isolation(false)]
    #[verifier::rlimit(100)]
    #[verifier::spinoff_prover]
    pub fn from_reader_directory(
        directory: &crate::inodes::DirectoryInode,
        superblock: &SuperBlock,
        img: &[u8],
    ) -> (r: Result<DirectoryTable, DirectoryTableError>)
        ensures
            r matches Ok(t) ==> directory_table_of(
                img@,
                directory.table_location_spec(),
                superblock.directory_table_start as int,
                superblock.fragment_table_start as int,
                superblock.compression,
            ) == Some(entry_models(t.entries@)),
            r is Ok <==> directory_table_of(
                img@,
                directory.table_location_spec(),
                superblock.directory_table_start as int,
                superblock.fragment_table_start as int,
                superblock.compression,
            ) is Some,
            r matches Err(e) ==> (e matches DirectoryTableError::InvalidMetadata(_) || e
                == DirectoryTableError::InvalidEntry),
    {
        let loc = directory.table_location();
        let dts = superblock.directory_table_start;
        let fts = superblock.fragment_table_start;
        let algo = superblock.compression;
        if dts > u64::MAX - loc.start {
            // The stream would start past every possible image, so it is
            // empty and so is the listing window.
            let t = DirectoryTable { entries: Vec::new() };
            proof {
                assert(dts + loc.start >= fts);
                assert(entry_models(t.entries@) =~= Seq::<EntryModel>::empty());
                assert(Seq::<u8>::empty().subrange(0, 0) =~= Seq::<u8>::empty());
            }
            return Ok(t);
        }
        let start = dts + loc.start;
        if start > img.len() as u64 {
            if start >= fts {
                // The stream is empty and so is the listing window.
                let t = DirectoryTable { entries: Vec::new() };
                proof {
                    assert(entry_models(t.entries@) =~= Seq::<EntryModel>::empty());
                    assert(Seq::<u8>::empty().subrange(0, 0) =~= Seq::<u8>::empty());
                }
                return Ok(t);
            }
            proof {
                assert(metadata_stream_of(img@, start as int, fts as int, algo) is None);
            }
            return Err(DirectoryTableError::InvalidMetadata(
                crate::error::MetadataError::InvalidHeader,
            ));
        }
        let stream = match MetadataBlock::from_reader_flatten(img, start as usize, fts, algo) {
            Ok(v) => v,
            Err(e) => {
                return Err(DirectoryTableError::InvalidMetadata(e));
            },
        };
        let slen = stream.len();
        let wlo: usize = if loc.offset <= slen as u64 {
            loc.offset as usize
        } else {
            slen
        };
        let whi: usize = if loc.offset + loc.file_size <= slen as u64 {
            (loc.offset + loc.file_size) as usize
        } else {
            slen
        };
        let w: &[u8] = vstd::slice::slice_subrange(stream.as_slice(), wlo, whi);
        let ghost ws = w@;
        let n = w.len();
        let ghost whole = parse_dir(ws, 0, 0, 0, 0, Seq::empty());
        let mut entries: Vec<Entry> = Vec::new();
        let mut pos: usize = 0;
        proof {
            assert(entry_models(entries@) =~= Seq::<EntryModel>::empty());
        }
        while n - pos >= 12
            invariant
                pos <= n,
                whole == parse_dir(ws, pos as int, 0, 0, 0, entry_models(entries@)),
            decreases n - pos,
        {
            let cnt = read_u32(w, pos);
            let ito = read_u32(w, pos + 4);
            let base = read_u32(w, pos + 8);
            let mut p: usize = pos + 12;
            let total: u64 = cnt as u64 + 1;
            let mut m: u64 = 0;
            while m < total
                invariant
                    m <= total,
                    pos < p <= n,
                    whole == parse_dir(
                        ws,
                        p as int,
                        total - m,
                        ito as int,
                        base as int,
                        entry_models(entries@),
                    ),
                decreases total - m,
            {
                if n - p < 8 {
                    return Err(DirectoryTableError::InvalidEntry);
                }
                let meta_off = read_u16(w, p);
                let ioff = read_u16(w, p + 2);
                let ty = read_u16(w, p + 4);
                let name_size = read_u16(w, p + 6);
                let entry_type = match InodeType::from_tag(ty) {
                    Some(t) => t,
                    None => {
                        return Err(DirectoryTableError::InvalidEntry);
                    },
                };
                if (name_size as u64) + 1 > (n - p - 8) as u64 {
                    return Err(DirectoryTableError::InvalidEntry);
                }
                let end = p + 8 + name_size as usize + 1;
                let name = vstd::slice::slice_to_vec(vstd::slice::slice_subrange(w, p + 8, end));
                let raw_meta: u64 = ito as u64 + meta_off as u64 + 0x1_0000_0000u64;
                let inode_metadata_offset: u32 = (raw_meta % 0x1_0000_0000u64) as u32;
                let raw_ino: u64 = base as u64 + ioff as u64 + 0x1_0000_0000u64 - (
                if ioff >= 0x8000 {
                    0x1_0000u64
                } else {
                    0u64
                });
                let inode: u32 = (raw_ino % 0x1_0000_0000u64) as u32;
                let e = Entry { inode_metadata_offset, inode, entry_type, name };
                proof {
                    vstd::arithmetic::div_mod::lemma_mod_multiples_vanish(
                        1,
                        ito + meta_off,
                        0x1_0000_0000,
                    );
                    assert(parse_dir_entry(ws, p as int, ito as int, base as int) == Some(
                        (e@, end as int),
                    ));
                }
                let ghost entries_pre = entries@;
                entries.push(e);
                proof {
                    assert(entry_models(entries@) =~= entry_models(entries_pre).push(e@));
                }
                p = end;
                m = m + 1;
            }
            pos = p;
        }
        proof {
            assert(whole == Some(entry_models(entries@)));
        }
        Ok(DirectoryTable { entries })
    }
}

} // verus!
