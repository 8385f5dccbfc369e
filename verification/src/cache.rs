//! Caches for decoded data: the decoded-block cache (keyed by on-disk block
//! start) and the whole-small-file cache (keyed by inode).
//!
//! Both are capacity-bounded with first-in-first-out eviction: publishing an
//! entry always succeeds, evicting the oldest entry when the cache is full.
//! A capacity of zero disables the cache entirely.
use std::collections::BTreeMap;

use vstd::prelude::*;

use crate::data::BlockSize;

verus! {

broadcast use vstd::laws_cmp::group_laws_cmp, vstd::std_specs::btree::group_btree_axioms;

/// Cache of decoded data blocks, keyed by the absolute on-disk offset of the
/// block. Each entry remembers the block-size word it was decoded under.
pub struct BlockCache {
    map: BTreeMap<u64, (BlockSize, Vec<u8>)>,
    /// Keys in insertion order, oldest first.
    order: Vec<u64>,
    max_entries: usize,
}

impl BlockCache {
    /// The insertion-order list names exactly the stored keys, each once.
    pub closed spec fn wf(self) -> bool {
        &&& forall|i: int|
            0 <= i < self.order@.len() ==> self.map@.contains_key(#[trigger] self.order@[i])
        &&& forall|k: u64| #[trigger] self.map@.contains_key(k) ==> self.order@.contains(k)
        &&& forall|i: int, j: int|
            0 <= i < j < self.order@.len() ==> self.order@[i] != self.order@[j]
    }

    /// The cache contents: key to (block-size word, decoded bytes).
    pub closed spec fn entries(self) -> Map<u64, (BlockSize, Seq<u8>)> {
        self.map@.map_values(|p: (BlockSize, Vec<u8>)| (p.0, p.1@))
    }

    /// Whether the cache stores anything at all.
    pub closed spec fn enabled(self) -> bool {
        self.max_entries > 0
    }

    /// The configured entry bound.
    pub closed spec fn max_entries_spec(self) -> int {
        self.max_entries as int
    }

    /// Whether the cache stores anything at all.
    pub fn is_enabled(&self) -> (r: bool)
        ensures
            r == self.enabled(),
    {
        self.max_entries > 0
    }

    /// A cache bounded to `max_entries` decoded blocks; zero disables it.
    pub fn new(max_entries: usize) -> (r: BlockCache)
        ensures
            r.wf(),
            r.entries() == Map::<u64, (BlockSize, Seq<u8>)>::empty(),
            r.enabled() == (max_entries > 0),
    {
        let r = BlockCache { map: BTreeMap::new(), order: Vec::new(), max_entries };
        proof {
            assert(r.entries() =~= Map::<u64, (BlockSize, Seq<u8>)>::empty());
        }
        r
    }

    /// Look up the block at `start`, decoded under the word `b`.
    pub fn get(&self, start: u64, b: BlockSize) -> (r: Option<&Vec<u8>>)
        ensures
            match r {
                Some(v) => self.entries().contains_key(start) && self.entries()[start] == (
                    b,
                    v@,
                ),
                None => !(self.entries().contains_key(start) && self.entries()[start].0 == b),
            },
    {
        match self.map.get(&start) {
            Some(p) => {
                if p.0.0 == b.0 {
                    proof {
                        assert(self.entries()[start] == (p.0, p.1@));
                        assert(p.0.0 == b.0 ==> p.0 == b);
                    }
                    Some(&p.1)
                } else {
                    None
                }
            },
            None => None,
        }
    }

    /// Publish a decoded block. A disabled cache keeps its contents; an
    /// enabled one stores the entry, evicting at most one oldest entry to
    /// make room.
    pub fn try_insert(&mut self, start: u64, b: BlockSize, v: Vec<u8>)
        requires
            old(self).wf(),
        ensures
            final(self).wf(),
            final(self).enabled() == old(self).enabled(),
            !old(self).enabled() ==> final(self).entries() == old(self).entries(),
            old(self).enabled() ==> final(self).entries().contains_key(start)
                && final(self).entries()[start] == (b, v@),
            forall|k: u64| #[trigger]
                final(self).entries().contains_key(k) ==> k == start
                    || (old(self).entries().contains_key(k) && final(self).entries()[k] == old(
                    self,
                ).entries()[k]),
            forall|k1: u64, k2: u64|
                old(self).entries().contains_key(k1) && !final(self).entries().contains_key(k1)
                    && old(self).entries().contains_key(k2) && !final(self).entries().contains_key(
                    k2,
                ) ==> k1 == k2,
    {
        if self.max_entries == 0 {
            return ;
        }
        let present = self.map.contains_key(&start);
        if !present && self.map.len() >= self.max_entries {
            // Evict the oldest entry to make room.
            proof {
                if self.order@.len() == 0 {
                    assert(self.map@.dom() =~= Set::<u64>::empty());
                }
            }
            let victim = self.order[0];
            let ghost pre_map = self.map@;
            let ghost pre_order = self.order@;
            self.map.remove(&victim);
            self.order.remove(0);
            proof {
                assert(self.map@ =~= pre_map.remove(victim));
                assert forall|k: u64| #[trigger] self.map@.contains_key(k) implies
                    self.order@.contains(k) by {
                    let i = choose|i: int| 0 <= i < pre_order.len() && pre_order[i] == k;
                    assert(i != 0);
                    assert(self.order@[i - 1] == k);
                }
            }
        }
        let ghost mid_map = self.map@;
        let ghost mid_order = self.order@;
        let present_now = self.map.contains_key(&start);
        if !present_now {
            self.order.push(start);
        }
        self.map.insert(start, (b, v));
        proof {
            assert(self.map@ =~= mid_map.insert(start, (b, v)));
            assert(self.entries() =~= mid_map.map_values(
                |p: (BlockSize, Vec<u8>)| (p.0, p.1@),
            ).insert(start, (b, v@)));
            if !present_now {
                assert forall|k: u64| #[trigger] self.map@.contains_key(k) implies
                    self.order@.contains(k) by {
                    if k == start {
                        assert(self.order@[self.order@.len() - 1] == start);
                    } else {
                        let i = choose|i: int| 0 <= i < mid_order.len() && mid_order[i] == k;
                        assert(self.order@[i] == k);
                    }
                }
            }
        }
    }
}

/// Cache of whole decompressed small files, keyed by inode number.
pub struct FileCache {
    map: BTreeMap<u64, Vec<u8>>,
    /// Keys in insertion order, oldest first.
    order: Vec<u64>,
    max_entries: usize,
}

impl FileCache {
    /// The insertion-order list names exactly the stored keys, each once.
    pub closed spec fn wf(self) -> bool {
        &&& forall|i: int|
            0 <= i < self.order@.len() ==> self.map@.contains_key(#[trigger] self.order@[i])
        &&& forall|k: u64| #[trigger] self.map@.contains_key(k) ==> self.order@.contains(k)
        &&& forall|i: int, j: int|
            0 <= i < j < self.order@.len() ==> self.order@[i] != self.order@[j]
    }

    /// The cache contents: inode to decompressed file bytes.
    pub closed spec fn entries(self) -> Map<u64, Seq<u8>> {
        self.map@.map_values(|p: Vec<u8>| p@)
    }

    /// Whether the cache stores anything at all.
    pub closed spec fn enabled(self) -> bool {
        self.max_entries > 0
    }

    /// The configured entry bound.
    pub closed spec fn max_entries_spec(self) -> int {
        self.max_entries as int
    }

    /// Whether the cache stores anything at all.
    pub fn is_enabled(&self) -> (r: bool)
        ensures
            r == self.enabled(),
    {
        self.max_entries > 0
    }

    /// A cache bounded to `max_entries` files; zero disables it.
    pub fn new(max_entries: usize) -> (r: FileCache)
        ensures
            r.wf(),
            r.entries() == Map::<u64, Seq<u8>>::empty(),
            r.enabled() == (max_entries > 0),
    {
        let r = FileCache { map: BTreeMap::new(), order: Vec::new(), max_entries };
        proof {
            assert(r.entries() =~= Map::<u64, Seq<u8>>::empty());
        }
        r
    }

    /// Look up a cached file by inode.
    pub fn get(&self, inode: u64) -> (r: Option<&Vec<u8>>)
        ensures
            match r {
                Some(v) => self.entries().contains_key(inode) && self.entries()[inode] == v@,
                None => !self.entries().contains_key(inode),
            },
    {
        self.map.get(&inode)
    }

    /// Publish a decompressed file. A disabled cache keeps its contents; an
    /// enabled one stores the entry, evicting at most one oldest entry to
    /// make room.
    pub fn try_insert(&mut self, inode: u64, v: Vec<u8>)
        requires
            old(self).wf(),
        ensures
            final(self).wf(),
            final(self).enabled() == old(self).enabled(),
            !old(self).enabled() ==> final(self).entries() == old(self).entries(),
            old(self).enabled() ==> final(self).entries().contains_key(inode)
                && final(self).entries()[inode] == v@,
            forall|k: u64| #[trigger]
                final(self).entries().contains_key(k) ==> k == inode
                    || (old(self).entries().contains_key(k) && final(self).entries()[k] == old(
                    self,
                ).entries()[k]),
            forall|k1: u64, k2: u64|
                old(self).entries().contains_key(k1) && !final(self).entries().contains_key(k1)
                    && old(self).entries().contains_key(k2) && !final(self).entries().contains_key(
                    k2,
                ) ==> k1 == k2,
    {
        if self.max_entries == 0 {
            return ;
        }
        let present = self.map.contains_key(&inode);
        if !present && self.map.len() >= self.max_entries {
            // Evict the oldest entry to make room.
            proof {
                if self.order@.len() == 0 {
                    assert(self.map@.dom() =~= Set::<u64>::empty());
                }
            }
            let victim = self.order[0];
            let ghost pre_map = self.map@;
            let ghost pre_order = self.order@;
            self.map.remove(&victim);
            self.order.remove(0);
            proof {
                assert(self.map@ =~= pre_map.remove(victim));
                assert forall|k: u64| #[trigger] self.map@.contains_key(k) implies
                    self.order@.contains(k) by {
                    let i = choose|i: int| 0 <= i < pre_order.len() && pre_order[i] == k;
                    assert(i != 0);
                    assert(self.order@[i - 1] == k);
                }
            }
        }
        let ghost mid_map = self.map@;
        let ghost mid_order = self.order@;
        let present_now = self.map.contains_key(&inode);
        if !present_now {
            self.order.push(inode);
        }
        self.map.insert(inode, v);
        proof {
            assert(self.map@ =~= mid_map.insert(inode, v));
            assert(self.entries() =~= mid_map.map_values(|p: Vec<u8>| p@).insert(inode, v@));
            if !present_now {
                assert forall|k: u64| #[trigger] self.map@.contains_key(k) implies
                    self.order@.contains(k) by {
                    if k == inode {
                        assert(self.order@[self.order@.len() - 1] == inode);
                    } else {
                        let i = choose|i: int| 0 <= i < mid_order.len() && mid_order[i] == k;
                        assert(self.order@[i] == k);
                    }
                }
            }
        }
    }
}

} // verus!
