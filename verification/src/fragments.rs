//! Fragments and the fragments table.
use vstd::prelude::*;

use crate::compress::Compression;
use crate::data::BlockSize;
use crate::error::FragmentsError;
use crate::le::{le32, le64, read_u32, read_u64};
use crate::metadata::{metadata_block_at, MetadataBlock};
use crate::superblock::SuperBlock;

verus! {

/// Index of the tag value that marks a file as having no tail fragment.
pub const NO_FRAGMENT: u32 = 0xFFFF_FFFF;

/// Location in the [`FragmentsTable`].
#[derive(Debug, Default, Copy, Clone, PartialEq, Eq, Structural)]
pub struct FragmentLocation {
    pub index: u32,
    pub offset: u32,
}

impl FragmentLocation {
    /// Whether the location points at a fragment at all.
    pub open spec fn valid_spec(self) -> bool {
        self.index != NO_FRAGMENT
    }

    pub fn valid(&self) -> (r: bool)
        ensures
            r == self.valid_spec(),
    {
        self.index != NO_FRAGMENT
    }
}

/// Fragments table entry: where a shared fragment block lives on disk.
#[derive(Debug, Copy, Clone, PartialEq, Eq, Structural)]
pub struct Entry {
    pub start: u64,
    pub size: BlockSize,
}

/// Fragments table: a list of [`Entry`], in on-disk order.
pub struct FragmentsTable {
    pub entries: Vec<Entry>,
}

impl FragmentsTable {
    /// The entry a valid location resolves to, if it is in range.
    pub open spec fn entry_spec(self, location: FragmentLocation) -> Option<Entry> {
        if location.valid_spec() && location.index < self.entries@.len() {
            Some(self.entries@[location.index as int])
        } else {
            None
        }
    }

    /// Get an entry from its location.
    pub fn entry(&self, location: FragmentLocation) -> (r: Result<&Entry, FragmentsError>)
        ensures
            match r {
                Ok(e) => self.entry_spec(location) == Some(*e),
                Err(e) => self.entry_spec(location) is None && e == FragmentsError::InvalidLocation,
            },
    {
        if !location.valid() {
            return Err(FragmentsError::InvalidLocation);
        }
        if (location.index as usize) < self.entries.len() {
            Ok(&self.entries[location.index as usize])
        } else {
            Err(FragmentsError::InvalidLocation)
        }
    }

    /// Read the fragments table named by the superblock.
    #[verifier::loop_isolation(false)]
    #[verifier::rlimit(60)]
    #[verifier::spinoff_prover]
    pub fn from_reader(superblock: &SuperBlock, img: &[u8]) -> (r: Result<
        FragmentsTable,
        FragmentsError,
    >)
        ensures
            r matches Ok(t) ==> fragments_table_of(
                img@,
                superblock.fragment_table_start as int,
                superblock.fragment_entry_count as int,
                superblock.compression,
            ) == Some(t.entries@),
            r is Ok <==> fragments_table_of(
                img@,
                superblock.fragment_table_start as int,
                superblock.fragment_entry_count as int,
                superblock.compression,
            ) is Some,
            r matches Err(e) ==> (e == FragmentsError::InvalidLocation || e
                matches FragmentsError::InvalidMetadata(_) || e == FragmentsError::InvalidEntry),
    {
        let ghost fts = superblock.fragment_table_start as int;
        let algo = superblock.compression;
        let n: usize = ((superblock.fragment_entry_count as u64 + 511) / 512) as usize;
        let img_len: usize = img.len();
        if superblock.fragment_table_start > img_len as u64 || 8 * (n as u64) > img_len as u64
            - superblock.fragment_table_start {
            return Err(FragmentsError::InvalidLocation);
        }
        let base: usize = superblock.fragment_table_start as usize;
        let ghost locs = fragment_locations(img@, fts, n as int);
        let mut entries: Vec<Entry> = Vec::new();
        let mut i: usize = 0;
        proof {
            assert(locs.skip(0) =~= locs);
        }
        while i < n
            invariant
                i <= n,
                ({
                    let whole = frag_entries_from(img@, locs, algo);
                    let rest = frag_entries_from(img@, locs.skip(i as int), algo);
                    whole == (match rest {
                        Some(tail) => Some(entries@ + tail),
                        None => None::<Seq<Entry>>,
                    })
                }),
            decreases n - i,
        {
            let l: u64 = read_u64(img, base + 8 * i);
            proof {
                assert(locs.skip(i as int)[0] == l);
            }
            if l > img_len as u64 {
                return Err(FragmentsError::InvalidMetadata(
                    crate::error::MetadataError::InvalidHeader,
                ));
            }
            let (block, _next) = match MetadataBlock::from_reader(img, l as usize, algo) {
                Ok(p) => p,
                Err(e) => {
                    return Err(FragmentsError::InvalidMetadata(e));
                },
            };
            let d: &Vec<u8> = &block.data;
            if d.len() % 16 != 0 {
                return Err(FragmentsError::InvalidEntry);
            }
            let ghost entries_pre = entries@;
            let ghost es = parse_fragment_block(block.data@)->0;
            let mut j: usize = 0;
            proof {
                assert(es.take(0) =~= Seq::<Entry>::empty());
                assert(entries@ =~= entries_pre + es.take(0));
            }
            while j + 16 <= d.len()
                invariant
                    j % 16 == 0,
                    j <= d.len(),
                    entries@.len() == entries_pre.len() + j / 16,
                    entries@ =~= entries_pre + es.take(j as int / 16),
                decreases d.len() - j,
            {
                let e = Entry {
                    start: read_u64(d.as_slice(), j),
                    size: BlockSize(read_u32(d.as_slice(), j + 8)),
                };
                entries.push(e);
                proof {
                    assert(es[j as int / 16] == e);
                    assert(es.take(j as int / 16 + 1) =~= es.take(j as int / 16).push(e));
                }
                j = j + 16;
            }
            proof {
                assert(j == d.len());
                assert(es.take(j as int / 16) =~= es);
                assert(entries@ =~= entries_pre + es);
                assert(locs.skip(i as int).drop_first() =~= locs.skip(i + 1));
                assert(frag_entries_from(img@, locs.skip(i as int), algo) == (
                    match frag_entries_from(img@, locs.skip(i + 1), algo) {
                        Some(rest) => Some(es + rest),
                        None => None::<Seq<Entry>>,
                    }));
                match frag_entries_from(img@, locs.skip(i + 1), algo) {
                    Some(rest) => {
                        assert(entries_pre + (es + rest) =~= (entries_pre + es) + rest);
                    },
                    None => {},
                }
            }
            i = i + 1;
        }
        proof {
            assert(locs.skip(n as int) =~= Seq::<u64>::empty());
            assert(entries@ + Seq::<Entry>::empty() =~= entries@);
        }
        Ok(FragmentsTable { entries })
    }
}

/// The `i`-th fragment-table index location: a 64-bit offset of one metadata
/// block of packed fragment entries.
pub open spec fn fragment_locations(img: Seq<u8>, fts: int, n: int) -> Seq<u64> {
    Seq::new(n as nat, |i: int| le64(img, fts + 8 * i) as u64)
}

/// The 16-byte fragment entries packed in one decoded metadata block, or
/// nothing when the payload is not a whole number of entries.
pub open spec fn parse_fragment_block(d: Seq<u8>) -> Option<Seq<Entry>> {
    if d.len() % 16 == 0 {
        Some(
            Seq::new(
                (d.len() / 16) as nat,
                |i: int|
                    Entry {
                        start: le64(d, 16 * i) as u64,
                        size: BlockSize(le32(d, 16 * i + 8) as u32),
                    },
            ),
        )
    } else {
        None
    }
}

/// The fragment entries reached through a list of index locations, in order.
pub open spec fn frag_entries_from(img: Seq<u8>, locs: Seq<u64>, algo: Compression) -> Option<
    Seq<Entry>,
>
    decreases locs.len(),
{
    if locs.len() == 0 {
        Some(Seq::empty())
    } else {
        match metadata_block_at(img, locs[0] as int, algo) {
            Some(p) => match parse_fragment_block(p.0) {
                Some(es) => match frag_entries_from(img, locs.drop_first(), algo) {
                    Some(rest) => Some(es + rest),
                    None => None,
                },
                None => None,
            },
            None => None,
        }
    }
}

/// The whole fragments table: one index location per 512 entries, each
/// pointing at a metadata block of 16-byte entries.
pub open spec fn fragments_table_of(img: Seq<u8>, fts: int, count: int, algo: Compression) -> Option<
    Seq<Entry>,
> {
    let n = (count + 511) / 512;
    if fts < 0 || fts + 8 * n > img.len() {
        None
    } else {
        frag_entries_from(img, fragment_locations(img, fts, n), algo)
    }
}

} // verus!
