//! The 4-level page-table walker and mapper.
//!
//! A manager owns a page-frame arena: the set of physical frames that hold
//! page tables, each keyed by its frame address, beside the root frame and
//! the physical-to-virtual translation offset. Walking and mapping go
//! through the arena by frame address, which makes the question "is this
//! table still the one that frame holds" explicit instead of implicit in
//! pointer provenance. The translation offset is carried for the callers
//! that dereference real memory: every virtual address the manager hands
//! out is `physical + offset`, and keeping the offset equal to the live
//! mapping is the caller's unchecked obligation.

use vstd::prelude::*;

use crate::address::PAGE_SIZE;
use crate::address::PHYSICAL_ADDRESS_MASK;
use crate::address::PhysicalAddress;
use crate::address::VirtualAddress;
use crate::address::canonicalize;
use crate::address::lemma_index_extraction_bounds;
use crate::page_frame_allocator::FrameAllocator;
use crate::page_table::PageTable;
use crate::page_table::PageTableEntry;
use crate::page_table::entry_address;
use crate::page_table::entry_page_size;
use crate::page_table::entry_present;
use crate::page_table::entry_read_write;

verus! {

pub const MEM_1G: u64 = 1024 * 1024 * 1024;

/// The offset-mapping ceiling: 512 GiB, so that the offset region spans
/// at most one level-4 slot.
pub const MAX_MEM_SIZE: u64 = 512 * MEM_1G;

/// The 9-bit page-table index of `v` at level `l` (4 down to 1).
pub open spec fn level_index(l: int, v: u64) -> int {
    if l == 4 {
        ((v >> 39) & 0x1FF) as int
    } else if l == 3 {
        ((v >> 30) & 0x1FF) as int
    } else if l == 2 {
        ((v >> 21) & 0x1FF) as int
    } else {
        ((v >> 12) & 0x1FF) as int
    }
}

/// Whether two addresses agree on all four page-table indices: they then
/// name the same page of the virtual address space.
pub open spec fn same_page_path(a: u64, b: u64) -> bool {
    level_index(4, a) == level_index(4, b) && level_index(3, a) == level_index(3, b)
        && level_index(2, a) == level_index(2, b) && level_index(1, a) == level_index(1, b)
}

/// A 4-level page-table hierarchy held in an explicit page-frame arena.
pub struct PageTableManager {
    p4: PhysicalAddress,
    offset: u64,
    frames: Vec<u64>,
    levels: Vec<u8>,
    tables: Vec<PageTable>,
}

impl PageTableManager {
    /// The root frame address.
    pub closed spec fn spec_p4(&self) -> u64 {
        self.p4@
    }

    /// The physical-to-virtual translation offset.
    pub closed spec fn spec_offset(&self) -> u64 {
        self.offset
    }

    /// How many page tables the arena holds.
    pub closed spec fn arena_len(&self) -> int {
        self.frames.len() as int
    }

    /// Whether frame `f` holds a page table of this manager.
    pub closed spec fn has_table(&self, f: u64) -> bool {
        exists|k: int| 0 <= k < self.frames.len() && self.frames@[k] == f
    }

    /// The arena slot of frame `f`.
    pub closed spec fn idx_of(&self, f: u64) -> int {
        choose|k: int| 0 <= k < self.frames.len() && self.frames@[k] == f
    }

    /// The hierarchy level (4 down to 1) of the table held by frame `f`.
    pub closed spec fn level_of(&self, f: u64) -> int {
        self.levels@[self.idx_of(f)] as int
    }

    /// The raw entries of the table held by frame `f`.
    pub closed spec fn entries_of(&self, f: u64) -> Seq<u64> {
        self.tables@[self.idx_of(f)].entries()
    }

    /// Whether the root frame holds a level-4 table.
    pub open spec fn has_p4(&self) -> bool {
        self.has_table(self.spec_p4()) && self.level_of(self.spec_p4()) == 4
    }

    /// Whether entry `e` of a level-`l` table points at a child table.
    pub open spec fn is_pointer_entry(l: int, e: u64) -> bool {
        l >= 2 && entry_present(e) && (l == 4 || !entry_page_size(e))
    }

    /// The arena is consistent: the vectors describe the same tables, no
    /// frame appears twice, every frame address is inside the physical
    /// mask, levels run from 4 down to 1, the root (when present) is the
    /// only place a walk can start, every pointer entry leads to an arena
    /// table one level down, absent entries are wholly zero, no table
    /// entry above level 1 carries the big-page bit, every present entry
    /// carries the read-write bit, and no two pointer entries lead to
    /// the same child.
    pub closed spec fn inv(&self) -> bool {
        &&& self.frames.len() == self.levels.len()
        &&& self.frames.len() == self.tables.len()
        &&& self.p4@ & !PHYSICAL_ADDRESS_MASK == 0
        &&& forall|k1: int, k2: int|
            0 <= k1 < k2 < self.frames.len() ==> self.frames@[k1] != self.frames@[k2]
        &&& forall|k: int| 0 <= k < self.frames.len() ==> (#[trigger] self.tables@[k]).wf()
        &&& forall|k: int|
            0 <= k < self.frames.len() ==> 1 <= (#[trigger] self.levels@[k]) <= 4
        &&& forall|k: int|
            0 <= k < self.frames.len() ==> (#[trigger] self.frames@[k])
                & !PHYSICAL_ADDRESS_MASK == 0
        &&& forall|k: int| 0 <= k < self.frames.len() ==> (#[trigger] self.frames@[k]) != 0
        &&& (self.has_table(self.p4@) ==> self.level_of(self.p4@) == 4)
        &&& forall|k: int, j: int|
            0 <= k < self.frames.len() && 0 <= j < 512 && Self::is_pointer_entry(
                self.levels@[k] as int,
                #[trigger] self.tables@[k].entries()[j],
            ) ==> {
                let child = entry_address(self.tables@[k].entries()[j]);
                &&& self.has_table(child)
                &&& self.level_of(child) == self.levels@[k] - 1
            }
        &&& forall|k: int, j: int|
            0 <= k < self.frames.len() && 0 <= j < 512 && !entry_present(
                #[trigger] self.tables@[k].entries()[j],
            ) ==> self.tables@[k].entries()[j] == 0
        &&& forall|k: int, j: int|
            0 <= k < self.frames.len() && 0 <= j < 512 && self.levels@[k] >= 2 ==> !entry_page_size(
                #[trigger] self.tables@[k].entries()[j],
            )
        &&& forall|k: int, j: int|
            0 <= k < self.frames.len() && 0 <= j < 512 && entry_present(
                #[trigger] self.tables@[k].entries()[j],
            ) ==> entry_read_write(self.tables@[k].entries()[j])
        &&& forall|k1: int, j1: int, k2: int, j2: int|
            0 <= k1 < self.frames.len() && 0 <= j1 < 512 && 0 <= k2 < self.frames.len() && 0 <= j2
                < 512 && (k1 != k2 || j1 != j2) && Self::is_pointer_entry(
                self.levels@[k1] as int,
                #[trigger] self.tables@[k1].entries()[j1],
            ) && Self::is_pointer_entry(
                self.levels@[k2] as int,
                #[trigger] self.tables@[k2].entries()[j2],
            ) ==> entry_address(self.tables@[k1].entries()[j1]) != entry_address(
                self.tables@[k2].entries()[j2],
            )
    }

    /// No frame holding a page table of this manager is still free in the
    /// allocator: the tables' backing pages are owned, so a fresh frame
    /// from the allocator can never collide with them.
    pub closed spec fn frames_not_free(&self, free: Set<u64>) -> bool {
        forall|k: int|
            0 <= k < self.frames.len() ==> !free.contains(#[trigger] self.frames@[k])
    }

    /// The table walk from the table in frame `f` at level `l`: follows
    /// `v`'s index at each level, stops short on an absent entry, stops
    /// at a big-page leaf, and reads the address field of the level-1
    /// entry whether or not it is present, as the hardware-shaped read
    /// path does.
    pub closed spec fn subwalk(&self, f: u64, l: int, v: u64) -> Option<u64>
        decreases l,
    {
        if l < 1 || !self.has_table(f) || self.level_of(f) != l {
            Option::<u64>::None
        } else {
            let e = self.entries_of(f)[level_index(l, v)];
            if l == 1 {
                Option::Some(entry_address(e))
            } else if !entry_present(e) {
                Option::<u64>::None
            } else if l <= 3 && entry_page_size(e) {
                Option::Some(entry_address(e))
            } else {
                self.subwalk(entry_address(e), l - 1, v)
            }
        }
    }

    /// The full walk from the root: the physical frame `v` translates to,
    /// or `None` where the hierarchy has no mapping.
    pub open spec fn walk(&self, v: u64) -> Option<u64> {
        self.subwalk(self.spec_p4(), 4, v)
    }

    /// Whether the walk for `v` finds a present pointer chain all the way
    /// to a level-1 table: mapping `v` then needs no fresh frame.
    pub closed spec fn path_present(&self, f: u64, l: int, v: u64) -> bool
        decreases l,
    {
        if l < 1 || !self.has_table(f) || self.level_of(f) != l {
            false
        } else if l == 1 {
            true
        } else {
            let e = self.entries_of(f)[level_index(l, v)];
            entry_present(e) && self.path_present(entry_address(e), l - 1, v)
        }
    }

    /// Whether the walk for `v` runs over present, read-write entries
    /// all the way down to a present, read-write level-1 leaf: the page
    /// is mapped and writable.
    pub closed spec fn path_mapped_writable(&self, f: u64, l: int, v: u64) -> bool
        decreases l,
    {
        if l < 1 || !self.has_table(f) || self.level_of(f) != l {
            false
        } else {
            let e = self.entries_of(f)[level_index(l, v)];
            if l == 1 {
                entry_present(e) && entry_read_write(e)
            } else {
                entry_present(e) && entry_read_write(e) && self.path_mapped_writable(
                    entry_address(e),
                    l - 1,
                    v,
                )
            }
        }
    }

    /// A manager over an existing hierarchy rooted at `p4`, with no arena
    /// table yet: every walk misses until tables are attached or mapped.
    pub fn new(p4: PhysicalAddress, offset: u64) -> (r: PageTableManager)
        requires
            p4@ & !PHYSICAL_ADDRESS_MASK == 0,
        ensures
            r.inv(),
            r.spec_p4() == p4@,
            r.spec_offset() == offset,
            r.arena_len() == 0,
            forall|f: u64| !r.has_table(f),
    {
        PageTableManager {
            p4,
            offset,
            frames: Vec::new(),
            levels: Vec::new(),
            tables: Vec::new(),
        }
    }

    /// A manager with a fresh, zeroed root table drawn from `allocator`,
    /// or `None` when the allocator is exhausted. A fresh manager maps
    /// nothing.
    pub fn new_from_allocator<A: FrameAllocator>(allocator: &mut A, offset: u64) -> (r: Option<
        PageTableManager,
    >)
        requires
            old(allocator).wf(),
        ensures
            final(allocator).wf(),
            final(allocator).free_frames().subset_of(old(allocator).free_frames()),
            match r {
                Option::Some(m) => {
                    &&& m.inv()
                    &&& m.has_p4()
                    &&& m.spec_offset() == offset
                    &&& m.frames_not_free(final(allocator).free_frames())
                    &&& forall|w: u64| m.walk(w) is None
                },
                Option::None => true,
            },
    {
        let p4_paddr = allocator.request_page();
        if p4_paddr.as_u64() == 0 {
            return None;
        }
        let mut m = PageTableManager::new(p4_paddr, offset);
        m.push_table(p4_paddr.as_u64(), 4);
        proof {
            assert(m.has_table(p4_paddr@));
            assert forall|w: u64| m.walk(w) is None by {
                lemma_index_extraction_bounds(w);
                assert(m.entries_of(m.spec_p4())[level_index(4, w)] == 0);
                crate::page_table::lemma_unused_entry();
            }
        }
        Some(m)
    }

    /// Appends a zeroed table for frame `f` at hierarchy level `level`.
    fn push_table(&mut self, f: u64, level: u8)
        requires
            old(self).inv(),
            !old(self).has_table(f),
            1 <= level <= 4,
            f & !PHYSICAL_ADDRESS_MASK == 0,
            f != 0,
            level == 4 ==> f == old(self).spec_p4(),
            level < 4 ==> f != old(self).spec_p4(),
        ensures
            final(self).inv(),
            final(self).p4 == old(self).p4,
            final(self).offset == old(self).offset,
            final(self).frames@ == old(self).frames@.push(f),
            final(self).levels@ == old(self).levels@.push(level),
            final(self).tables@.len() == old(self).tables@.len() + 1,
            forall|k: int|
                0 <= k < old(self).tables@.len() ==> final(self).tables@[k] == old(self).tables@[k],
            forall|g: u64| old(self).unreferenced(g) ==> final(self).unreferenced(g),
            final(self).unreferenced(f),
            final(self).idx_of(f) == old(self).arena_len(),
            final(self).spec_p4() == old(self).spec_p4(),
            final(self).spec_offset() == old(self).spec_offset(),
            final(self).arena_len() == old(self).arena_len() + 1,
            forall|g: u64| old(self).has_table(g) ==> final(self).has_table(g),
            final(self).has_table(f),
            final(self).level_of(f) == level,
            forall|j: int| 0 <= j < 512 ==> final(self).entries_of(f)[j] == 0,
            forall|g: u64|
                g != f && old(self).has_table(g) ==> final(self).level_of(g) == old(self).level_of(
                    g,
                ) && final(self).entries_of(g) == old(self).entries_of(g),
            forall|g: u64| final(self).has_table(g) ==> g == f || old(self).has_table(g),
    {
        let ghost n = self.frames.len() as int;
        self.frames.push(f);
        self.levels.push(level);
        self.tables.push(PageTable::new_unused());
        proof {
            assert(self.frames@[n] == f);
            assert forall|g: u64| old(self).has_table(g) implies self.has_table(g) by {
                let k = choose|k: int|
                    0 <= k < old(self).frames.len() && old(self).frames@[k] == g;
                assert(self.frames@[k] == g);
            }
            assert forall|g: u64|
                g != f && old(self).has_table(g) implies self.level_of(g) == old(self).level_of(g)
                && self.entries_of(g) == old(self).entries_of(g) by {
                self.lemma_idx_stable(old(self), g);
            }
            assert(self.idx_of(f) == n) by {
                self.lemma_idx_unique(f);
            }
            crate::page_table::lemma_unused_entry();
            assert(self.inv()) by {
                self.lemma_push_inv(old(self), f, level);
            }
            assert forall|g: u64| old(self).unreferenced(g) implies self.unreferenced(g) by {
                assert forall|k: int, j: int|
                    0 <= k < self.frames.len() && 0 <= j < 512 && Self::is_pointer_entry(
                        self.levels@[k] as int,
                        #[trigger] self.tables@[k].entries()[j],
                    ) implies entry_address(self.tables@[k].entries()[j]) != g by {
                    if k < n {
                        assert(self.tables@[k] == old(self).tables@[k]);
                        assert(self.levels@[k] == old(self).levels@[k]);
                        assert(Self::is_pointer_entry(
                            old(self).levels@[k] as int,
                            old(self).tables@[k].entries()[j],
                        ));
                    } else {
                        assert(self.tables@[k].entries()[j] == 0);
                        assert(!entry_present(0u64));
                    }
                }
            }
            assert(self.unreferenced(f)) by {
                assert forall|k: int, j: int|
                    0 <= k < self.frames.len() && 0 <= j < 512 && Self::is_pointer_entry(
                        self.levels@[k] as int,
                        #[trigger] self.tables@[k].entries()[j],
                    ) implies entry_address(self.tables@[k].entries()[j]) != f by {
                    if k < n {
                        assert(self.tables@[k] == old(self).tables@[k]);
                        assert(self.levels@[k] == old(self).levels@[k]);
                        assert(Self::is_pointer_entry(
                            old(self).levels@[k] as int,
                            old(self).tables@[k].entries()[j],
                        ));
                        assert(old(self).has_table(
                            entry_address(old(self).tables@[k].entries()[j]),
                        ));
                    } else {
                        assert(self.tables@[k].entries()[j] == 0);
                        assert(!entry_present(0u64));
                    }
                }
            }
        }
    }

    /// The arena slot of a frame is the one slot naming it.
    proof fn lemma_idx_unique(&self, f: u64)
        requires
            forall|k1: int, k2: int|
                0 <= k1 < k2 < self.frames.len() ==> self.frames@[k1] != self.frames@[k2],
            self.has_table(f),
        ensures
            0 <= self.idx_of(f) < self.frames.len(),
            self.frames@[self.idx_of(f)] == f,
            forall|k: int|
                0 <= k < self.frames.len() && self.frames@[k] == f ==> k == self.idx_of(f),
    {
        let i = self.idx_of(f);
        assert(0 <= i < self.frames.len() && self.frames@[i] == f);
        assert forall|k: int|
            0 <= k < self.frames.len() && self.frames@[k] == f implies k == i by {
            if k < i {
                assert(self.frames@[k] != self.frames@[i]);
            } else if i < k {
                assert(self.frames@[i] != self.frames@[k]);
            }
        }
    }

    /// A frame of the old arena keeps its slot, level and entries after
    /// a push.
    proof fn lemma_idx_stable(&self, prev: &PageTableManager, g: u64)
        requires
            prev.inv(),
            prev.has_table(g),
            prev.frames.len() + 1 == self.frames.len(),
            prev.levels.len() + 1 == self.levels.len(),
            prev.tables.len() + 1 == self.tables.len(),
            forall|k: int| 0 <= k < prev.frames.len() ==> self.frames@[k] == prev.frames@[k],
            forall|k: int| 0 <= k < prev.levels.len() ==> self.levels@[k] == prev.levels@[k],
            forall|k: int| 0 <= k < prev.tables.len() ==> self.tables@[k] == prev.tables@[k],
            !prev.has_table(self.frames@[prev.frames.len() as int]),
        ensures
            self.has_table(g),
            self.idx_of(g) == prev.idx_of(g),
            self.level_of(g) == prev.level_of(g),
            self.entries_of(g) == prev.entries_of(g),
    {
        let k0 = prev.idx_of(g);
        prev.lemma_idx_unique(g);
        assert(self.frames@[k0] == g);
        assert(self.has_table(g));
        let k1 = self.idx_of(g);
        assert(0 <= k1 < self.frames.len() && self.frames@[k1] == g);
        if k1 == prev.frames.len() as int {
            assert(!prev.has_table(g));
        }
        assert(k1 < prev.frames.len());
        prev.lemma_idx_unique(g);
    }

    /// Pushing a fresh zeroed table preserves the arena invariant.
    proof fn lemma_push_inv(&self, prev: &PageTableManager, f: u64, level: u8)
        requires
            prev.inv(),
            !prev.has_table(f),
            1 <= level <= 4,
            f & !PHYSICAL_ADDRESS_MASK == 0,
            f != 0,
            level == 4 ==> f == prev.spec_p4(),
            level < 4 ==> f != prev.spec_p4(),
            self.p4 == prev.p4,
            self.frames@ == prev.frames@.push(f),
            self.levels@ == prev.levels@.push(level),
            self.tables@.len() == prev.tables@.len() + 1,
            forall|k: int| 0 <= k < prev.tables@.len() ==> self.tables@[k] == prev.tables@[k],
            self.tables@[prev.tables@.len() as int].wf(),
            forall|j: int|
                0 <= j < 512 ==> self.tables@[prev.tables@.len() as int].entries()[j] == 0,
        ensures
            self.inv(),
    {
        let n = prev.frames.len() as int;
        crate::page_table::lemma_unused_entry();
        assert forall|k1: int, k2: int|
            0 <= k1 < k2 < self.frames.len() implies self.frames@[k1] != self.frames@[k2] by {
            if k2 == n {
                assert(self.frames@[k1] == prev.frames@[k1]);
                if self.frames@[k1] == f {
                    assert(prev.has_table(f));
                }
            }
        }
        assert forall|g: u64| self.has_table(g) implies g == f || prev.has_table(g) by {
            let k = choose|k: int| 0 <= k < self.frames.len() && self.frames@[k] == g;
            if k < n {
                assert(prev.frames@[k] == g);
            }
        }
        assert forall|g: u64| prev.has_table(g) implies self.has_table(g) by {
            let k = prev.idx_of(g);
            prev.lemma_idx_unique(g);
            assert(self.frames@[k] == g);
        }
        assert forall|g: u64| g != f && prev.has_table(g) implies self.level_of(g)
            == prev.level_of(g) && self.entries_of(g) == prev.entries_of(g) by {
            self.lemma_idx_stable(prev, g);
        }
        assert(self.frames@[n] == f);
        assert(self.has_table(f));
        self.lemma_idx_unique(f);
        assert(self.idx_of(f) == n);
        assert forall|k: int, j: int|
            0 <= k < self.frames.len() && 0 <= j < 512 && Self::is_pointer_entry(
                self.levels@[k] as int,
                #[trigger] self.tables@[k].entries()[j],
            ) implies {
            let child = entry_address(self.tables@[k].entries()[j]);
            &&& self.has_table(child)
            &&& self.level_of(child) == self.levels@[k] - 1
        } by {
            if k == n {
                assert(self.tables@[k].entries()[j] == 0);
                assert(!entry_present(0u64));
            } else {
                let child = entry_address(prev.tables@[k].entries()[j]);
                assert(prev.has_table(child));
                assert(child != f);
                self.lemma_idx_stable(prev, child);
            }
        }
        assert forall|k: int, j: int|
            0 <= k < self.frames.len() && 0 <= j < 512 && entry_present(
                #[trigger] self.tables@[k].entries()[j],
            ) implies entry_read_write(self.tables@[k].entries()[j]) by {
            if k == n {
                assert(self.tables@[k].entries()[j] == 0);
                assert(!entry_present(0u64));
            } else {
                assert(self.tables@[k].entries()[j] == prev.tables@[k].entries()[j]);
            }
        }
    }

    /// No pointer entry anywhere in the arena leads to frame `g`.
    pub closed spec fn unreferenced(&self, g: u64) -> bool {
        forall|k: int, j: int|
            0 <= k < self.frames.len() && 0 <= j < 512 && Self::is_pointer_entry(
                self.levels@[k] as int,
                #[trigger] self.tables@[k].entries()[j],
            ) ==> entry_address(self.tables@[k].entries()[j]) != g
    }

    /// A frame of a smaller arena keeps its slot when the arena has only
    /// grown at the end.
    proof fn lemma_idx_prefix_stable(prev: &PageTableManager, cur: &PageTableManager, g: u64)
        requires
            forall|k1: int, k2: int|
                0 <= k1 < k2 < prev.frames.len() ==> prev.frames@[k1] != prev.frames@[k2],
            forall|k1: int, k2: int|
                0 <= k1 < k2 < cur.frames.len() ==> cur.frames@[k1] != cur.frames@[k2],
            prev.frames@.len() <= cur.frames@.len(),
            forall|k: int| 0 <= k < prev.frames@.len() ==> cur.frames@[k] == prev.frames@[k],
            prev.has_table(g),
        ensures
            cur.has_table(g),
            cur.idx_of(g) == prev.idx_of(g),
    {
        prev.lemma_idx_unique(g);
        let k0 = prev.idx_of(g);
        assert(cur.frames@[k0] == g);
        assert(cur.has_table(g));
        cur.lemma_idx_unique(g);
    }

    /// Two managers with the same arena vectors, agreeing on the entries
    /// of every table at or below level `l`, walk alike from level `l`.
    proof fn lemma_subwalk_agrees(m1: &PageTableManager, m2: &PageTableManager, f: u64, l: int, v: u64)
        requires
            m1.inv(),
            m2.inv(),
            m1.frames@ == m2.frames@,
            m1.levels@ == m2.levels@,
            m1.tables@.len() == m2.tables@.len(),
            forall|k: int|
                0 <= k < m1.tables@.len() && m1.levels@[k] as int <= l ==> m1.tables@[k].entries()
                    == m2.tables@[k].entries(),
        ensures
            m1.subwalk(f, l, v) == m2.subwalk(f, l, v),
            m1.path_present(f, l, v) == m2.path_present(f, l, v),
            m1.path_mapped_writable(f, l, v) == m2.path_mapped_writable(f, l, v),
        decreases l,
    {
        if l < 1 || !m1.has_table(f) {
            assert(m1.has_table(f) == m2.has_table(f));
        } else {
            m1.lemma_idx_unique(f);
            m2.lemma_idx_unique(f);
            let k = m1.idx_of(f);
            assert(m2.idx_of(f) == k);
            if m1.level_of(f) == l {
                lemma_index_extraction_bounds(v);
                let j = level_index(l, v);
                assert(0 <= j < 512);
                let e = m1.tables@[k].entries()[j];
                assert(m1.entries_of(f)[j] == e);
                assert(m2.entries_of(f)[j] == e);
                if l > 1 && entry_present(e) {
                    if l <= 3 && entry_page_size(e) {
                        assert(!entry_page_size(m1.tables@[k].entries()[j]));
                    } else {
                        Self::lemma_subwalk_agrees(m1, m2, entry_address(e), l - 1, v);
                    }
                }
            }
        }
    }

    /// Walking from a table at or below level `l` is unaffected by
    /// appending fresh tables and by writes to tables above level `l`:
    /// the walk from `f` in `prev` equals the walk in `cur`.
    proof fn lemma_subwalk_grow(prev: &PageTableManager, cur: &PageTableManager, f: u64, l: int, v: u64)
        requires
            prev.inv(),
            cur.inv(),
            prev.frames@.len() <= cur.frames@.len(),
            forall|k: int| 0 <= k < prev.frames@.len() ==> cur.frames@[k] == prev.frames@[k],
            forall|k: int| 0 <= k < prev.levels@.len() ==> cur.levels@[k] == prev.levels@[k],
            prev.levels@.len() == prev.frames@.len(),
            cur.levels@.len() == cur.frames@.len(),
            prev.tables@.len() == prev.frames@.len(),
            cur.tables@.len() == cur.frames@.len(),
            forall|k: int|
                0 <= k < prev.tables@.len() && prev.levels@[k] as int <= l ==> cur.tables@[
                    k
                ].entries() == prev.tables@[k].entries(),
            prev.has_table(f),
            prev.level_of(f) == l,
        ensures
            cur.subwalk(f, l, v) == prev.subwalk(f, l, v),
            cur.path_present(f, l, v) == prev.path_present(f, l, v),
            cur.path_mapped_writable(f, l, v) == prev.path_mapped_writable(f, l, v),
        decreases l,
    {
        Self::lemma_idx_prefix_stable(prev, cur, f);
        prev.lemma_idx_unique(f);
        let k = prev.idx_of(f);
        if l >= 1 {
            lemma_index_extraction_bounds(v);
            let j = level_index(l, v);
            assert(0 <= j < 512);
            let e = prev.tables@[k].entries()[j];
            assert(prev.entries_of(f)[j] == e);
            assert(cur.entries_of(f) == prev.entries_of(f));
            assert(cur.level_of(f) == l);
            if l > 1 && entry_present(e) {
                if l <= 3 && entry_page_size(e) {
                    assert(!entry_page_size(prev.tables@[k].entries()[j]));
                } else {
                    let child = entry_address(e);
                    assert(Self::is_pointer_entry(
                        prev.levels@[k] as int,
                        prev.tables@[k].entries()[j],
                    ));
                    assert(prev.has_table(child) && prev.level_of(child) == l - 1);
                    Self::lemma_subwalk_grow(prev, cur, child, l - 1, v);
                }
            }
        }
    }

    /// Writing one present entry into one table preserves the arena
    /// invariant, provided a pointer entry leads to a live, so far
    /// unreferenced child table one level down, the overwritten entry was
    /// no pointer, and no big-page bit appears above level 1.
    proof fn lemma_write_entry_inv(
        prev: &PageTableManager,
        cur: &PageTableManager,
        k0: int,
        j0: int,
        e: u64,
    )
        requires
            prev.inv(),
            cur.p4 == prev.p4,
            cur.frames@ == prev.frames@,
            cur.levels@ == prev.levels@,
            cur.tables@.len() == prev.tables@.len(),
            forall|k: int|
                0 <= k < prev.tables@.len() && k != k0 ==> cur.tables@[k] == prev.tables@[k],
            0 <= k0 < prev.tables@.len(),
            0 <= j0 < 512,
            cur.tables@[k0].wf(),
            cur.tables@[k0].entries() == prev.tables@[k0].entries().update(j0, e),
            entry_present(e) || e == 0,
            entry_present(e) ==> entry_read_write(e),
            prev.levels@[k0] as int >= 2 ==> !entry_page_size(e),
            !Self::is_pointer_entry(prev.levels@[k0] as int, prev.tables@[k0].entries()[j0]),
            Self::is_pointer_entry(prev.levels@[k0] as int, e) ==> {
                &&& prev.has_table(entry_address(e))
                &&& prev.level_of(entry_address(e)) == prev.levels@[k0] - 1
                &&& prev.unreferenced(entry_address(e))
            },
        ensures
            cur.inv(),
    {
        assert forall|g: u64| prev.has_table(g) implies cur.has_table(g) && cur.idx_of(g)
            == prev.idx_of(g) by {
            Self::lemma_idx_prefix_stable(prev, cur, g);
        }
        assert forall|g: u64| cur.has_table(g) implies prev.has_table(g) by {
            let k = choose|k: int| 0 <= k < cur.frames.len() && cur.frames@[k] == g;
            assert(prev.frames@[k] == g);
        }
        assert forall|k: int, j: int|
            0 <= k < cur.frames.len() && 0 <= j < 512 && Self::is_pointer_entry(
                cur.levels@[k] as int,
                #[trigger] cur.tables@[k].entries()[j],
            ) implies {
            let child = entry_address(cur.tables@[k].entries()[j]);
            &&& cur.has_table(child)
            &&& cur.level_of(child) == cur.levels@[k] - 1
        } by {
            let child = entry_address(cur.tables@[k].entries()[j]);
            if k == k0 && j == j0 {
                assert(prev.has_table(child));
                Self::lemma_idx_prefix_stable(prev, cur, child);
            } else {
                assert(cur.tables@[k].entries()[j] == prev.tables@[k].entries()[j]);
                assert(prev.has_table(child));
                Self::lemma_idx_prefix_stable(prev, cur, child);
            }
        }
        assert forall|k: int, j: int|
            0 <= k < cur.frames.len() && 0 <= j < 512 && !entry_present(
                #[trigger] cur.tables@[k].entries()[j],
            ) implies cur.tables@[k].entries()[j] == 0 by {
            if k != k0 || j != j0 {
                assert(cur.tables@[k].entries()[j] == prev.tables@[k].entries()[j]);
            }
        }
        assert forall|k: int, j: int|
            0 <= k < cur.frames.len() && 0 <= j < 512 && cur.levels@[k] >= 2 implies
            !entry_page_size(#[trigger] cur.tables@[k].entries()[j]) by {
            if k != k0 || j != j0 {
                assert(cur.tables@[k].entries()[j] == prev.tables@[k].entries()[j]);
            }
        }
        assert forall|k: int, j: int|
            0 <= k < cur.frames.len() && 0 <= j < 512 && entry_present(
                #[trigger] cur.tables@[k].entries()[j],
            ) implies entry_read_write(cur.tables@[k].entries()[j]) by {
            if k != k0 || j != j0 {
                assert(cur.tables@[k].entries()[j] == prev.tables@[k].entries()[j]);
            }
        }
        assert forall|k1: int, j1: int, k2: int, j2: int|
            0 <= k1 < cur.frames.len() && 0 <= j1 < 512 && 0 <= k2 < cur.frames.len() && 0 <= j2
                < 512 && (k1 != k2 || j1 != j2) && Self::is_pointer_entry(
                cur.levels@[k1] as int,
                #[trigger] cur.tables@[k1].entries()[j1],
            ) && Self::is_pointer_entry(
                cur.levels@[k2] as int,
                #[trigger] cur.tables@[k2].entries()[j2],
            ) implies entry_address(cur.tables@[k1].entries()[j1]) != entry_address(
            cur.tables@[k2].entries()[j2],
        ) by {
            if k1 == k0 && j1 == j0 {
                assert(cur.tables@[k2].entries()[j2] == prev.tables@[k2].entries()[j2]);
            } else if k2 == k0 && j2 == j0 {
                assert(cur.tables@[k1].entries()[j1] == prev.tables@[k1].entries()[j1]);
            } else {
                assert(cur.tables@[k1].entries()[j1] == prev.tables@[k1].entries()[j1]);
                assert(cur.tables@[k2].entries()[j2] == prev.tables@[k2].entries()[j2]);
            }
        }
    }
}

impl PageTableManager {
    /// The root table's frame address, for the caller that loads it into
    /// the hardware root pointer.
    pub fn get_p4_address(&self) -> (r: PhysicalAddress)
        ensures
            r@ == self.spec_p4(),
    {
        self.p4
    }

    /// Changes the physical-to-virtual translation offset. The caller
    /// must be sure the live page table really maps physical memory at
    /// the new offset; nothing here can check that.
    pub fn set_offset(&mut self, offset: u64)
        requires
            old(self).inv(),
        ensures
            final(self).inv(),
            final(self).spec_offset() == offset,
            final(self).spec_p4() == old(self).spec_p4(),
            final(self).arena_len() == old(self).arena_len(),
            forall|w: u64| final(self).walk(w) == old(self).walk(w),
            forall|free: Set<u64>|
                final(self).frames_not_free(free) == old(self).frames_not_free(free),
            final(self).has_p4() == old(self).has_p4(),
    {
        self.offset = offset;
        proof {
            assert forall|w: u64| self.walk(w) == old(self).walk(w) by {
                Self::lemma_subwalk_agrees(old(self), self, old(self).spec_p4(), 4, w);
            }
        }
    }

    /// The virtual address through which this manager reaches the given
    /// physical address: `physical + offset`.
    pub fn translate_address(&self, physical_addr: PhysicalAddress) -> (r: VirtualAddress)
        requires
            physical_addr@ + self.spec_offset() <= u64::MAX,
        ensures
            r@ == canonicalize((physical_addr@ + self.spec_offset()) as u64),
    {
        physical_addr.get_virtual_address_at_offset(self.offset)
    }

    /// The arena slot holding the table for frame `f`, if any.
    fn find_table(&self, f: u64) -> (r: Option<usize>)
        requires
            self.inv(),
        ensures
            match r {
                Option::Some(k) => {
                    &&& self.has_table(f)
                    &&& 0 <= k < self.tables.len()
                    &&& k as int == self.idx_of(f)
                    &&& self.frames@[k as int] == f
                },
                Option::None => !self.has_table(f),
            },
    {
        let mut k: usize = 0;
        while k < self.frames.len()
            invariant
                self.inv(),
                k <= self.frames.len(),
                forall|j: int| 0 <= j < k ==> self.frames@[j] != f,
            decreases self.frames.len() - k,
        {
            if self.frames[k] == f {
                proof {
                    self.lemma_idx_unique(f);
                }
                return Some(k);
            }
            k = k + 1;
        }
        None
    }

    /// Walks the hierarchy read-only and hands back the entry the walk
    /// ends on: the level-1 entry, or a big-page entry at level 3 or 2,
    /// or `None` where a level is absent.
    fn get_page_table_entry(&self, virtual_addr: VirtualAddress) -> (r: Option<PageTableEntry>)
        requires
            self.inv(),
        ensures
            match r {
                Option::Some(e) => self.walk(virtual_addr@) == Option::Some(entry_address(e@)),
                Option::None => self.walk(virtual_addr@) is None,
            },
    {
        let ghost v = virtual_addr@;
        proof {
            lemma_index_extraction_bounds(v);
        }
        let k4 = match self.find_table(self.p4.as_u64()) {
            Option::Some(k) => k,
            Option::None => {
                return None;
            },
        };
        let p4_table_entry = self.tables[k4].entry(virtual_addr.p4_index());
        proof {
            assert(self.entries_of(self.spec_p4())[level_index(4, v)] == p4_table_entry@);
        }
        if !p4_table_entry.present() {
            return None;
        }
        let f3 = p4_table_entry.address();
        proof {
            assert(Self::is_pointer_entry(
                self.levels@[k4 as int] as int,
                self.tables@[k4 as int].entries()[level_index(4, v)],
            ));
            assert(self.has_table(f3@) && self.level_of(f3@) == 3);
        }
        let k3 = match self.find_table(f3.as_u64()) {
            Option::Some(k) => k,
            Option::None => {
                return None;
            },
        };
        let p3_table_entry = self.tables[k3].entry(virtual_addr.p3_index());
        proof {
            assert(self.entries_of(f3@)[level_index(3, v)] == p3_table_entry@);
        }
        if !p3_table_entry.present() {
            return None;
        }
        if p3_table_entry.page_size() {
            // 1 GiB big page
            return Some(p3_table_entry);
        }
        let f2 = p3_table_entry.address();
        proof {
            assert(Self::is_pointer_entry(
                self.levels@[k3 as int] as int,
                self.tables@[k3 as int].entries()[level_index(3, v)],
            ));
            assert(self.has_table(f2@) && self.level_of(f2@) == 2);
        }
        let k2 = match self.find_table(f2.as_u64()) {
            Option::Some(k) => k,
            Option::None => {
                return None;
            },
        };
        let p2_table_entry = self.tables[k2].entry(virtual_addr.p2_index());
        proof {
            assert(self.entries_of(f2@)[level_index(2, v)] == p2_table_entry@);
        }
        if !p2_table_entry.present() {
            return None;
        }
        if p2_table_entry.page_size() {
            // 2 MiB big page
            return Some(p2_table_entry);
        }
        let f1 = p2_table_entry.address();
        proof {
            assert(Self::is_pointer_entry(
                self.levels@[k2 as int] as int,
                self.tables@[k2 as int].entries()[level_index(2, v)],
            ));
            assert(self.has_table(f1@) && self.level_of(f1@) == 1);
        }
        let k1 = match self.find_table(f1.as_u64()) {
            Option::Some(k) => k,
            Option::None => {
                return None;
            },
        };
        let p1_table_entry = self.tables[k1].entry(virtual_addr.p1_index());
        proof {
            assert(self.entries_of(f1@)[level_index(1, v)] == p1_table_entry@);
            assert(self.subwalk(f1@, 1, v) == Option::Some(entry_address(p1_table_entry@)));
            assert(self.subwalk(f2@, 2, v) == Option::Some(entry_address(p1_table_entry@)));
            assert(self.subwalk(f3@, 3, v) == Option::Some(entry_address(p1_table_entry@)));
            assert(self.walk(v) == Option::Some(entry_address(p1_table_entry@)));
        }
        Some(p1_table_entry)
    }

    /// The physical frame address `virtual_addr` translates to, or `None`
    /// where the hierarchy has no mapping for it.
    pub fn get_page_physical_address(&self, virtual_addr: VirtualAddress) -> (r: Option<
        PhysicalAddress,
    >)
        requires
            self.inv(),
        ensures
            match r {
                Option::Some(pa) => self.walk(virtual_addr@) == Option::Some(pa@),
                Option::None => self.walk(virtual_addr@) is None,
            },
    {
        let page_table_entry = match self.get_page_table_entry(virtual_addr) {
            Option::Some(e) => e,
            Option::None => {
                return None;
            },
        };
        Some(page_table_entry.address())
    }

    /// Writes the final physical mapping into the level-1 table at arena
    /// slot `k1`, leaving every other table untouched.
    fn map_p1(&mut self, k1: usize, virtual_addr: VirtualAddress, physical_addr: PhysicalAddress)
        requires
            old(self).inv(),
            k1 < old(self).tables.len(),
            old(self).levels@[k1 as int] == 1,
            physical_addr@ & !PHYSICAL_ADDRESS_MASK == 0,
        ensures
            final(self).inv(),
            final(self).p4 == old(self).p4,
            final(self).offset == old(self).offset,
            final(self).frames@ == old(self).frames@,
            final(self).levels@ == old(self).levels@,
            final(self).tables@.len() == old(self).tables@.len(),
            forall|k: int|
                0 <= k < old(self).tables@.len() && k != k1 as int ==> final(self).tables@[k]
                    == old(self).tables@[k],
            final(self).subwalk(old(self).frames@[k1 as int], 1, virtual_addr@) == Option::Some(
                physical_addr@,
            ),
            final(self).path_mapped_writable(old(self).frames@[k1 as int], 1, virtual_addr@),
            forall|w: u64|
                level_index(1, w) != level_index(1, virtual_addr@) ==> final(self).subwalk(
                    old(self).frames@[k1 as int],
                    1,
                    w,
                ) == old(self).subwalk(old(self).frames@[k1 as int], 1, w),
            forall|g: u64| old(self).unreferenced(g) ==> final(self).unreferenced(g),
    {
        proof {
            self.lemma_level_bounds(k1 as int);
            lemma_index_extraction_bounds(virtual_addr@);
        }
        let index = virtual_addr.p1_index();
        let mut p1_table_entry = self.tables[k1].entry(index);
        p1_table_entry.set_address(physical_addr);
        p1_table_entry.set_present(true);
        p1_table_entry.set_read_write(true);
        let new_table = self.tables[k1].updated(index, p1_table_entry);
        self.tables[k1] = new_table;
        proof {
            Self::lemma_write_entry_inv(
                old(self),
                self,
                k1 as int,
                index as int,
                p1_table_entry@,
            );
            self.lemma_level_bounds(k1 as int);
            assert(self.idx_of(self.frames@[k1 as int]) == k1 as int);
            assert(self.entries_of(self.frames@[k1 as int])[level_index(1, virtual_addr@)]
                == p1_table_entry@);
            assert forall|w: u64|
                level_index(1, w) != level_index(1, virtual_addr@) implies self.subwalk(
                old(self).frames@[k1 as int],
                1,
                w,
            ) == old(self).subwalk(old(self).frames@[k1 as int], 1, w) by {
                lemma_index_extraction_bounds(w);
                assert(self.entries_of(self.frames@[k1 as int])[level_index(1, w)] == old(
                    self,
                ).entries_of(old(self).frames@[k1 as int])[level_index(1, w)]);
            }
            assert forall|g: u64| old(self).unreferenced(g) implies self.unreferenced(g) by {
                assert forall|k: int, j: int|
                    0 <= k < self.frames.len() && 0 <= j < 512 && Self::is_pointer_entry(
                        self.levels@[k] as int,
                        #[trigger] self.tables@[k].entries()[j],
                    ) implies entry_address(self.tables@[k].entries()[j]) != g by {
                    if k != k1 as int || j != index as int {
                        assert(self.tables@[k].entries()[j] == old(self).tables@[k].entries()[j]);
                    } else {
                        assert(!Self::is_pointer_entry(1, self.tables@[k].entries()[j]));
                    }
                }
            }
        }
    }

    /// Requests a fresh frame, installs a zeroed level-1 table in it, and
    /// writes the final mapping into that table. `None` when the
    /// allocator is exhausted, in which case nothing changes.
    fn create_and_map_p1<A: FrameAllocator>(
        &mut self,
        virtual_addr: VirtualAddress,
        physical_addr: PhysicalAddress,
        allocator: &mut A,
    ) -> (r: Option<u64>)
        requires
            old(self).inv(),
            old(self).has_p4(),
            old(allocator).wf(),
            old(self).frames_not_free(old(allocator).free_frames()),
            physical_addr@ & !PHYSICAL_ADDRESS_MASK == 0,
        ensures
            final(self).inv(),
            final(self).has_p4(),
            final(self).p4 == old(self).p4,
            final(self).offset == old(self).offset,
            final(allocator).wf(),
            final(allocator).free_frames().subset_of(old(allocator).free_frames()),
            final(self).frames_not_free(final(allocator).free_frames()),
            match r {
                Option::Some(f1) => {
                    &&& !old(self).has_table(f1)
                    &&& f1 != 0
                    &&& final(self).frames@ == old(self).frames@.push(f1)
                    &&& final(self).levels@ == old(self).levels@.push(1u8)
                    &&& final(self).tables@.len() == old(self).tables@.len() + 1
                    &&& forall|k: int|
                        0 <= k < old(self).tables@.len() ==> final(self).tables@[k] == old(
                            self,
                        ).tables@[k]
                    &&& final(self).subwalk(f1, 1, virtual_addr@) == Option::Some(physical_addr@)
                    &&& final(self).path_mapped_writable(f1, 1, virtual_addr@)
                    &&& final(self).unreferenced(f1)
                    &&& forall|g: u64| old(self).unreferenced(g) ==> final(self).unreferenced(g)
                },
                Option::None => *final(self) == *old(self),
            },
    {
        let output = allocator.request_page();
        if output.as_u64() == 0 {
            return None;
        }
        proof {
            assert forall|k: int|
                0 <= k < self.frames.len() implies self.frames@[k] != output@ by {
                assert(!old(allocator).free_frames().contains(self.frames@[k]));
            }
            assert(!self.has_table(output@));
            assert(self.has_table(self.spec_p4()));
        }
        let f1 = output.as_u64();
        self.push_table(f1, 1);
        let k1 = self.tables.len() - 1;
        self.map_p1(k1, virtual_addr, physical_addr);
        proof {
            assert(self.frames@[k1 as int] == f1);
            assert forall|k: int|
                0 <= k < self.frames.len() implies !final(allocator).free_frames().contains(
                #[trigger] self.frames@[k],
            ) by {
                if k < old(self).frames@.len() {
                    assert(!old(allocator).free_frames().contains(self.frames@[k]));
                } else {
                    assert(self.frames@[k] == f1);
                }
            }
            Self::lemma_idx_prefix_stable(old(self), self, old(self).spec_p4());
        }
        Some(f1)
    }

    /// Maps `virtual_addr` below the level-2 table at arena slot `k2`,
    /// creating the level-1 table when it is absent.
    fn map_p2<A: FrameAllocator>(
        &mut self,
        k2: usize,
        virtual_addr: VirtualAddress,
        physical_addr: PhysicalAddress,
        allocator: &mut A,
    ) -> (ok: bool)
        requires
            old(self).inv(),
            old(self).has_p4(),
            k2 < old(self).tables.len(),
            old(self).levels@[k2 as int] == 2,
            old(allocator).wf(),
            old(self).frames_not_free(old(allocator).free_frames()),
            physical_addr@ & !PHYSICAL_ADDRESS_MASK == 0,
        ensures
            final(self).inv(),
            final(self).has_p4(),
            final(self).p4 == old(self).p4,
            final(self).offset == old(self).offset,
            final(allocator).wf(),
            final(allocator).free_frames().subset_of(old(allocator).free_frames()),
            final(self).frames_not_free(final(allocator).free_frames()),
            old(self).frames@.is_prefix_of(final(self).frames@),
            old(self).levels@.is_prefix_of(final(self).levels@),
            final(self).tables@.len() == final(self).frames@.len(),
            forall|k: int|
                0 <= k < old(self).tables@.len() && final(self).tables@[k] != old(self).tables@[k]
                    ==> k == k2 as int || {
                    let c2 = entry_address(
                        old(self).tables@[k2 as int].entries()[level_index(2, virtual_addr@)],
                    );
                    old(self).has_table(c2) && old(self).frames@[k] == c2
                },
            forall|g: u64|
                old(self).unreferenced(g) && old(self).has_table(g) ==> final(self).unreferenced(
                    g,
                ),
            ok ==> final(self).subwalk(old(self).frames@[k2 as int], 2, virtual_addr@)
                == Option::Some(physical_addr@),
            ok ==> final(self).path_mapped_writable(
                old(self).frames@[k2 as int],
                2,
                virtual_addr@,
            ),
            old(self).path_present(old(self).frames@[k2 as int], 2, virtual_addr@) ==> ok,
            forall|w: u64|
                old(self).subwalk(old(self).frames@[k2 as int], 2, w) is Some && !(level_index(
                    2,
                    w,
                ) == level_index(2, virtual_addr@) && level_index(1, w) == level_index(
                    1,
                    virtual_addr@,
                )) ==> final(self).subwalk(old(self).frames@[k2 as int], 2, w) == old(self).subwalk(
                    old(self).frames@[k2 as int],
                    2,
                    w,
                ),
    {
        proof {
            self.lemma_level_bounds(k2 as int);
            lemma_index_extraction_bounds(virtual_addr@);
        }
        let ghost root = self.frames@[k2 as int];
        let index = virtual_addr.p2_index();
        let p2_table_entry = self.tables[k2].entry(index);
        proof {
            assert(self.entries_of(root)[level_index(2, virtual_addr@)] == p2_table_entry@);
        }
        if !p2_table_entry.present() {
            let f1 = match self.create_and_map_p1(virtual_addr, physical_addr, allocator) {
                Option::Some(f1) => f1,
                Option::None => {
                    return false;
                },
            };
            let ghost mid = *self;
            let mut new_entry = p2_table_entry;
            proof {
                assert(new_entry@ == 0);
                crate::page_table::lemma_unused_entry();
                lemma_masked_identity(f1);
            }
            new_entry.set_address(PhysicalAddress::new(f1));
            new_entry.set_present(true);
            new_entry.set_read_write(true);
            let new_table = self.tables[k2].updated(index, new_entry);
            self.tables[k2] = new_table;
            proof {
                assert(mid.has_table(f1) && mid.level_of(f1) == 1) by {
                    mid.lemma_idx_unique(f1);
                }
                Self::lemma_write_entry_inv(&mid, self, k2 as int, index as int, new_entry@);
                self.lemma_level_bounds(k2 as int);
                assert(self.entries_of(root)[level_index(2, virtual_addr@)] == new_entry@);
                assert(entry_address(new_entry@) == f1);
                Self::lemma_subwalk_agrees(&mid, self, f1, 1, virtual_addr@);
                assert(self.subwalk(f1, 1, virtual_addr@) == Option::Some(physical_addr@));
                assert(self.subwalk(root, 2, virtual_addr@) == Option::Some(physical_addr@));
                assert(self.path_mapped_writable(f1, 1, virtual_addr@));
                assert(self.path_mapped_writable(root, 2, virtual_addr@));
                Self::lemma_idx_prefix_stable(&mid, self, mid.spec_p4());
                assert forall|g: u64|
                    old(self).unreferenced(g) && old(self).has_table(g) implies self.unreferenced(
                    g,
                ) by {
                    assert(mid.unreferenced(g));
                    assert forall|k: int, j: int|
                        0 <= k < self.frames.len() && 0 <= j < 512 && Self::is_pointer_entry(
                            self.levels@[k] as int,
                            #[trigger] self.tables@[k].entries()[j],
                        ) implies entry_address(self.tables@[k].entries()[j]) != g by {
                        if k != k2 as int || j != index as int {
                            assert(self.tables@[k].entries()[j] == mid.tables@[k].entries()[j]);
                            assert(Self::is_pointer_entry(
                                mid.levels@[k] as int,
                                mid.tables@[k].entries()[j],
                            ));
                        } else {
                            assert(entry_address(self.tables@[k].entries()[j]) == f1);
                            assert(!old(self).has_table(f1));
                        }
                    }
                }
                assert forall|w: u64|
                    old(self).subwalk(root, 2, w) is Some && !(level_index(2, w) == level_index(
                        2,
                        virtual_addr@,
                    ) && level_index(1, w) == level_index(1, virtual_addr@)) implies self.subwalk(
                    root,
                    2,
                    w,
                ) == old(self).subwalk(root, 2, w) by {
                    lemma_index_extraction_bounds(w);
                    let i2w = level_index(2, w);
                    let e_w_old = old(self).entries_of(root)[i2w];
                    assert(entry_present(e_w_old));
                    assert(i2w != level_index(2, virtual_addr@));
                    assert(self.entries_of(root)[i2w] == e_w_old);
                    assert(!entry_page_size(old(self).tables@[k2 as int].entries()[i2w]));
                    let c_w = entry_address(e_w_old);
                    assert(Self::is_pointer_entry(
                        old(self).levels@[k2 as int] as int,
                        old(self).tables@[k2 as int].entries()[i2w],
                    ));
                    assert(old(self).has_table(c_w) && old(self).level_of(c_w) == 1);
                    old(self).lemma_idx_unique(c_w);
                    Self::lemma_idx_prefix_stable(old(self), self, c_w);
                    let kcw = old(self).idx_of(c_w);
                    assert(self.tables@[kcw] == old(self).tables@[kcw]);
                    assert(self.entries_of(c_w) == old(self).entries_of(c_w));
                    assert(self.subwalk(c_w, 1, w) == old(self).subwalk(c_w, 1, w));
                }
            }
            true
        } else {
            let f1 = p2_table_entry.address();
            proof {
                assert(Self::is_pointer_entry(
                    self.levels@[k2 as int] as int,
                    self.tables@[k2 as int].entries()[level_index(2, virtual_addr@)],
                ));
                assert(self.has_table(f1@) && self.level_of(f1@) == 1);
            }
            let k1 = match self.find_table(f1.as_u64()) {
                Option::Some(k) => k,
                Option::None => {
                    return false;
                },
            };
            proof {
                self.lemma_level_bounds(k1 as int);
            }
            self.map_p1(k1, virtual_addr, physical_addr);
            proof {
                assert(k1 as int != k2 as int);
                assert(self.tables@[k2 as int] == old(self).tables@[k2 as int]);
                self.lemma_level_bounds(k2 as int);
                assert(self.entries_of(root)[level_index(2, virtual_addr@)] == p2_table_entry@);
                assert(self.subwalk(f1@, 1, virtual_addr@) == Option::Some(physical_addr@));
                assert(self.subwalk(root, 2, virtual_addr@) == Option::Some(physical_addr@));
                assert(self.path_mapped_writable(f1@, 1, virtual_addr@));
                assert(entry_read_write(self.entries_of(root)[level_index(2, virtual_addr@)]))
                    by {
                    assert(entry_present(self.tables@[k2 as int].entries()[level_index(
                        2,
                        virtual_addr@,
                    )]));
                }
                assert(self.path_mapped_writable(root, 2, virtual_addr@));
                assert forall|w: u64|
                    old(self).subwalk(root, 2, w) is Some && !(level_index(2, w) == level_index(
                        2,
                        virtual_addr@,
                    ) && level_index(1, w) == level_index(1, virtual_addr@)) implies self.subwalk(
                    root,
                    2,
                    w,
                ) == old(self).subwalk(root, 2, w) by {
                    lemma_index_extraction_bounds(w);
                    let i2v = level_index(2, virtual_addr@);
                    let i2w = level_index(2, w);
                    assert(self.entries_of(root) == old(self).entries_of(root));
                    if i2w == i2v {
                        assert(level_index(1, w) != level_index(1, virtual_addr@));
                        assert(self.subwalk(f1@, 1, w) == old(self).subwalk(f1@, 1, w));
                    } else {
                        let e_w_old = old(self).entries_of(root)[i2w];
                        assert(entry_present(e_w_old));
                        assert(!entry_page_size(old(self).tables@[k2 as int].entries()[i2w]));
                        let c_w = entry_address(e_w_old);
                        assert(Self::is_pointer_entry(
                            old(self).levels@[k2 as int] as int,
                            old(self).tables@[k2 as int].entries()[i2w],
                        ));
                        assert(Self::is_pointer_entry(
                            old(self).levels@[k2 as int] as int,
                            old(self).tables@[k2 as int].entries()[level_index(2, virtual_addr@)],
                        ));
                        assert(old(self).has_table(c_w) && old(self).level_of(c_w) == 1);
                        assert(c_w != f1@);
                        old(self).lemma_idx_unique(c_w);
                        let kcw = old(self).idx_of(c_w);
                        assert(kcw != k1 as int);
                        assert(self.tables@[kcw] == old(self).tables@[kcw]);
                        assert(self.entries_of(c_w) == old(self).entries_of(c_w));
                        assert(self.subwalk(c_w, 1, w) == old(self).subwalk(c_w, 1, w));
                    }
                }
            }
            true
        }
    }

    /// Requests a fresh frame, installs a zeroed level-2 table in it, and
    /// maps `virtual_addr` below it, creating the level-1 table as well.
    /// `None` when the allocator runs out at any step.
    fn create_and_map_p2<A: FrameAllocator>(
        &mut self,
        virtual_addr: VirtualAddress,
        physical_addr: PhysicalAddress,
        allocator: &mut A,
    ) -> (r: Option<u64>)
        requires
            old(self).inv(),
            old(self).has_p4(),
            old(allocator).wf(),
            old(self).frames_not_free(old(allocator).free_frames()),
            physical_addr@ & !PHYSICAL_ADDRESS_MASK == 0,
        ensures
            final(self).inv(),
            final(self).has_p4(),
            final(self).p4 == old(self).p4,
            final(self).offset == old(self).offset,
            final(allocator).wf(),
            final(allocator).free_frames().subset_of(old(allocator).free_frames()),
            final(self).frames_not_free(final(allocator).free_frames()),
            old(self).frames@.is_prefix_of(final(self).frames@),
            old(self).levels@.is_prefix_of(final(self).levels@),
            final(self).tables@.len() == final(self).frames@.len(),
            forall|k: int|
                0 <= k < old(self).tables@.len() ==> final(self).tables@[k] == old(self).tables@[k],
            forall|g: u64|
                old(self).unreferenced(g) && old(self).has_table(g) ==> final(self).unreferenced(
                    g,
                ),
            match r {
                Option::Some(f2) => {
                    &&& !old(self).has_table(f2)
                    &&& f2 != 0
                    &&& f2 & !PHYSICAL_ADDRESS_MASK == 0
                    &&& final(self).has_table(f2)
                    &&& final(self).level_of(f2) == 2
                    &&& final(self).subwalk(f2, 2, virtual_addr@) == Option::Some(physical_addr@)
                    &&& final(self).path_mapped_writable(f2, 2, virtual_addr@)
                    &&& final(self).unreferenced(f2)
                },
                Option::None => true,
            },
    {
        let output = allocator.request_page();
        if output.as_u64() == 0 {
            return None;
        }
        proof {
            assert forall|k: int|
                0 <= k < self.frames.len() implies self.frames@[k] != output@ by {
                assert(!old(allocator).free_frames().contains(self.frames@[k]));
            }
            assert(!self.has_table(output@));
            assert(self.has_table(self.spec_p4()));
        }
        let f2 = output.as_u64();
        self.push_table(f2, 2);
        let k_new = self.tables.len() - 1;
        let ghost mid = *self;
        proof {
            assert(mid.frames@[k_new as int] == f2);
            assert forall|k: int|
                0 <= k < mid.frames.len() implies !allocator.free_frames().contains(
                #[trigger] mid.frames@[k],
            ) by {
                if k < old(self).frames@.len() {
                    assert(!old(allocator).free_frames().contains(mid.frames@[k]));
                } else {
                    assert(mid.frames@[k] == f2);
                }
            }
            Self::lemma_idx_prefix_stable(old(self), &mid, old(self).spec_p4());
            mid.lemma_level_bounds(k_new as int);
        }
        let ok = self.map_p2(k_new, virtual_addr, physical_addr, allocator);
        proof {
            lemma_index_extraction_bounds(virtual_addr@);
            crate::page_table::lemma_unused_entry();
            assert(entry_address(mid.tables@[k_new as int].entries()[level_index(
                2,
                virtual_addr@,
            )]) == 0);
            assert(!mid.has_table(0u64)) by {
                if mid.has_table(0u64) {
                    mid.lemma_idx_unique(0u64);
                }
            }
            assert forall|k: int|
                0 <= k < old(self).tables@.len() implies self.tables@[k] == old(self).tables@[k] by {
                assert(mid.tables@[k] == old(self).tables@[k]);
                if self.tables@[k] != mid.tables@[k] {
                    assert(k == k_new as int || {
                        let c2 = entry_address(
                            mid.tables@[k_new as int].entries()[level_index(2, virtual_addr@)],
                        );
                        mid.has_table(c2) && mid.frames@[k] == c2
                    });
                }
            }
            assert forall|g: u64|
                old(self).unreferenced(g) && old(self).has_table(g) implies self.unreferenced(
                g,
            ) by {
                assert(mid.unreferenced(g) && mid.has_table(g));
            }
            Self::lemma_idx_prefix_stable(&mid, self, f2);
            if ok {
                assert(self.subwalk(f2, 2, virtual_addr@) == Option::Some(physical_addr@));
                assert(self.path_mapped_writable(f2, 2, virtual_addr@));
            }
            assert(self.unreferenced(f2)) by {
                assert(mid.unreferenced(f2) && mid.has_table(f2));
            }
        }
        if !ok {
            return None;
        }
        Some(f2)
    }

    /// Maps `virtual_addr` below the level-3 table at arena slot `k3`,
    /// creating the level-2 and level-1 tables when they are absent.
    fn map_p3<A: FrameAllocator>(
        &mut self,
        k3: usize,
        virtual_addr: VirtualAddress,
        physical_addr: PhysicalAddress,
        allocator: &mut A,
    ) -> (ok: bool)
        requires
            old(self).inv(),
            old(self).has_p4(),
            k3 < old(self).tables.len(),
            old(self).levels@[k3 as int] == 3,
            old(allocator).wf(),
            old(self).frames_not_free(old(allocator).free_frames()),
            physical_addr@ & !PHYSICAL_ADDRESS_MASK == 0,
        ensures
            final(self).inv(),
            final(self).has_p4(),
            final(self).p4 == old(self).p4,
            final(self).offset == old(self).offset,
            final(allocator).wf(),
            final(allocator).free_frames().subset_of(old(allocator).free_frames()),
            final(self).frames_not_free(final(allocator).free_frames()),
            old(self).frames@.is_prefix_of(final(self).frames@),
            old(self).levels@.is_prefix_of(final(self).levels@),
            final(self).tables@.len() == final(self).frames@.len(),
            forall|k: int|
                0 <= k < old(self).tables@.len() && final(self).tables@[k] != old(self).tables@[k]
                    ==> k == k3 as int || {
                    let c3 = entry_address(
                        old(self).tables@[k3 as int].entries()[level_index(3, virtual_addr@)],
                    );
                    old(self).has_table(c3) && (old(self).frames@[k] == c3 || {
                        let c2 = entry_address(
                            old(self).entries_of(c3)[level_index(2, virtual_addr@)],
                        );
                        old(self).has_table(c2) && old(self).frames@[k] == c2
                    })
                },
            forall|g: u64|
                old(self).unreferenced(g) && old(self).has_table(g) ==> final(self).unreferenced(
                    g,
                ),
            ok ==> final(self).subwalk(old(self).frames@[k3 as int], 3, virtual_addr@)
                == Option::Some(physical_addr@),
            ok ==> final(self).path_mapped_writable(
                old(self).frames@[k3 as int],
                3,
                virtual_addr@,
            ),
            old(self).path_present(old(self).frames@[k3 as int], 3, virtual_addr@) ==> ok,
            forall|w: u64|
                old(self).subwalk(old(self).frames@[k3 as int], 3, w) is Some && !(level_index(
                    3,
                    w,
                ) == level_index(3, virtual_addr@) && level_index(2, w) == level_index(
                    2,
                    virtual_addr@,
                ) && level_index(1, w) == level_index(1, virtual_addr@)) ==> final(self).subwalk(
                    old(self).frames@[k3 as int],
                    3,
                    w,
                ) == old(self).subwalk(old(self).frames@[k3 as int], 3, w),
    {
        proof {
            self.lemma_level_bounds(k3 as int);
            lemma_index_extraction_bounds(virtual_addr@);
        }
        let ghost root = self.frames@[k3 as int];
        let index = virtual_addr.p3_index();
        let p3_table_entry = self.tables[k3].entry(index);
        proof {
            assert(self.entries_of(root)[level_index(3, virtual_addr@)] == p3_table_entry@);
        }
        if !p3_table_entry.present() {
            let f2 = match self.create_and_map_p2(virtual_addr, physical_addr, allocator) {
                Option::Some(f2) => f2,
                Option::None => {
                    proof {
                        assert forall|w: u64| self.subwalk(root, 3, w) == old(self).subwalk(
                            root,
                            3,
                            w,
                        ) by {
                            assert forall|k: int|
                                0 <= k < old(self).tables@.len() && old(self).levels@[k] as int
                                    <= 3 implies self.tables@[k].entries() == old(self).tables@[
                                k
                            ].entries() by {
                                assert(self.tables@[k] == old(self).tables@[k]);
                            }
                            Self::lemma_subwalk_grow(old(self), self, root, 3, w);
                        }
                    }
                    return false;
                },
            };
            let ghost mid = *self;
            let mut new_entry = p3_table_entry;
            proof {
                assert(new_entry@ == 0);
                crate::page_table::lemma_unused_entry();
                lemma_masked_identity(f2);
            }
            new_entry.set_address(PhysicalAddress::new(f2));
            new_entry.set_present(true);
            new_entry.set_read_write(true);
            let new_table = self.tables[k3].updated(index, new_entry);
            self.tables[k3] = new_table;
            proof {
                assert(mid.has_table(f2) && mid.level_of(f2) == 2);
                Self::lemma_write_entry_inv(&mid, self, k3 as int, index as int, new_entry@);
                self.lemma_level_bounds(k3 as int);
                assert(self.entries_of(root)[level_index(3, virtual_addr@)] == new_entry@);
                assert(entry_address(new_entry@) == f2);
                Self::lemma_subwalk_agrees(&mid, self, f2, 2, virtual_addr@);
                assert(self.subwalk(f2, 2, virtual_addr@) == Option::Some(physical_addr@));
                assert(self.subwalk(root, 3, virtual_addr@) == Option::Some(physical_addr@));
                assert(self.path_mapped_writable(f2, 2, virtual_addr@));
                assert(self.path_mapped_writable(root, 3, virtual_addr@));
                Self::lemma_idx_prefix_stable(&mid, self, mid.spec_p4());
                assert forall|g: u64|
                    old(self).unreferenced(g) && old(self).has_table(g) implies self.unreferenced(
                    g,
                ) by {
                    assert(mid.unreferenced(g));
                    assert forall|k: int, j: int|
                        0 <= k < self.frames.len() && 0 <= j < 512 && Self::is_pointer_entry(
                            self.levels@[k] as int,
                            #[trigger] self.tables@[k].entries()[j],
                        ) implies entry_address(self.tables@[k].entries()[j]) != g by {
                        if k != k3 as int || j != index as int {
                            assert(self.tables@[k].entries()[j] == mid.tables@[k].entries()[j]);
                            assert(Self::is_pointer_entry(
                                mid.levels@[k] as int,
                                mid.tables@[k].entries()[j],
                            ));
                        } else {
                            assert(entry_address(self.tables@[k].entries()[j]) == f2);
                            assert(!old(self).has_table(f2));
                        }
                    }
                }
                assert forall|w: u64|
                    old(self).subwalk(root, 3, w) is Some && !(level_index(3, w) == level_index(
                        3,
                        virtual_addr@,
                    ) && level_index(2, w) == level_index(2, virtual_addr@) && level_index(1, w)
                        == level_index(1, virtual_addr@)) implies self.subwalk(root, 3, w) == old(
                    self,
                ).subwalk(root, 3, w) by {
                    lemma_index_extraction_bounds(w);
                    let i3w = level_index(3, w);
                    let e_w_old = old(self).entries_of(root)[i3w];
                    assert(entry_present(e_w_old));
                    assert(i3w != level_index(3, virtual_addr@));
                    assert(self.entries_of(root)[i3w] == e_w_old);
                    assert(!entry_page_size(old(self).tables@[k3 as int].entries()[i3w]));
                    let c_w = entry_address(e_w_old);
                    assert(Self::is_pointer_entry(
                        old(self).levels@[k3 as int] as int,
                        old(self).tables@[k3 as int].entries()[i3w],
                    ));
                    assert(old(self).has_table(c_w) && old(self).level_of(c_w) == 2);
                    assert forall|k: int|
                        0 <= k < old(self).tables@.len() && old(self).levels@[k] as int
                            <= 2 implies self.tables@[k].entries() == old(self).tables@[
                        k
                    ].entries() by {
                        assert(self.tables@[k] == old(self).tables@[k]);
                    }
                    Self::lemma_subwalk_grow(old(self), self, c_w, 2, w);
                }
            }
            true
        } else {
            let f2 = p3_table_entry.address();
            proof {
                assert(Self::is_pointer_entry(
                    self.levels@[k3 as int] as int,
                    self.tables@[k3 as int].entries()[level_index(3, virtual_addr@)],
                ));
                assert(self.has_table(f2@) && self.level_of(f2@) == 2);
            }
            let k2 = match self.find_table(f2.as_u64()) {
                Option::Some(k) => k,
                Option::None => {
                    return false;
                },
            };
            proof {
                self.lemma_level_bounds(k2 as int);
            }
            let ok = self.map_p2(k2, virtual_addr, physical_addr, allocator);
            proof {
                assert(k2 as int != k3 as int);
                assert(self.tables@[k3 as int] == old(self).tables@[k3 as int]) by {
                    if self.tables@[k3 as int] != old(self).tables@[k3 as int] {
                        let c2 = entry_address(
                            old(self).tables@[k2 as int].entries()[level_index(2, virtual_addr@)],
                        );
                        assert(old(self).has_table(c2) && old(self).frames@[k3 as int] == c2);
                        old(self).lemma_child_level(k2 as int, level_index(2, virtual_addr@));
                        assert(old(self).level_of(c2) == 1);
                        old(self).lemma_idx_unique(c2);
                        assert(old(self).idx_of(c2) == k3 as int);
                    }
                }
                self.lemma_level_bounds(k3 as int);
                assert(self.entries_of(root)[level_index(3, virtual_addr@)] == p3_table_entry@);
                if ok {
                    assert(self.subwalk(f2@, 2, virtual_addr@) == Option::Some(physical_addr@));
                    assert(self.subwalk(root, 3, virtual_addr@) == Option::Some(physical_addr@));
                    assert(self.path_mapped_writable(f2@, 2, virtual_addr@));
                    assert(entry_read_write(self.entries_of(root)[level_index(3, virtual_addr@)]))
                        by {
                        assert(entry_present(self.tables@[k3 as int].entries()[level_index(
                            3,
                            virtual_addr@,
                        )]));
                    }
                    assert(self.path_mapped_writable(root, 3, virtual_addr@));
                }
                assert forall|k: int|
                    0 <= k < old(self).tables@.len() && self.tables@[k] != old(self).tables@[k]
                    implies k == k3 as int || {
                    let c3 = entry_address(
                        old(self).tables@[k3 as int].entries()[level_index(3, virtual_addr@)],
                    );
                    old(self).has_table(c3) && (old(self).frames@[k] == c3 || {
                        let c2 = entry_address(
                            old(self).entries_of(c3)[level_index(2, virtual_addr@)],
                        );
                        old(self).has_table(c2) && old(self).frames@[k] == c2
                    })
                } by {
                    assert(k == k2 as int || {
                        let c2 = entry_address(
                            old(self).tables@[k2 as int].entries()[level_index(2, virtual_addr@)],
                        );
                        old(self).has_table(c2) && old(self).frames@[k] == c2
                    });
                    assert(old(self).entries_of(f2@) == old(self).tables@[k2 as int].entries());
                }
                assert forall|w: u64|
                    old(self).subwalk(root, 3, w) is Some && !(level_index(3, w) == level_index(
                        3,
                        virtual_addr@,
                    ) && level_index(2, w) == level_index(2, virtual_addr@) && level_index(1, w)
                        == level_index(1, virtual_addr@)) implies self.subwalk(root, 3, w) == old(
                    self,
                ).subwalk(root, 3, w) by {
                    lemma_index_extraction_bounds(w);
                    let i3v = level_index(3, virtual_addr@);
                    let i3w = level_index(3, w);
                    Self::lemma_idx_prefix_stable(old(self), self, root);
                    assert(self.entries_of(root) == old(self).entries_of(root));
                    if i3w == i3v {
                        assert(old(self).subwalk(root, 3, w) == old(self).subwalk(f2@, 2, w));
                        assert(!(level_index(2, w) == level_index(2, virtual_addr@)
                            && level_index(1, w) == level_index(1, virtual_addr@)));
                        assert(self.subwalk(f2@, 2, w) == old(self).subwalk(f2@, 2, w));
                        assert(self.subwalk(root, 3, w) == self.subwalk(f2@, 2, w));
                    } else {
                        let e_w_old = old(self).entries_of(root)[i3w];
                        assert(entry_present(e_w_old));
                        assert(!entry_page_size(old(self).tables@[k3 as int].entries()[i3w]));
                        let c_w = entry_address(e_w_old);
                        assert(Self::is_pointer_entry(
                            old(self).levels@[k3 as int] as int,
                            old(self).tables@[k3 as int].entries()[i3w],
                        ));
                        assert(Self::is_pointer_entry(
                            old(self).levels@[k3 as int] as int,
                            old(self).tables@[k3 as int].entries()[level_index(3, virtual_addr@)],
                        ));
                        assert(old(self).has_table(c_w) && old(self).level_of(c_w) == 2);
                        assert(c_w != f2@);
                        old(self).lemma_idx_unique(c_w);
                        Self::lemma_idx_prefix_stable(old(self), self, c_w);
                        let kcw = old(self).idx_of(c_w);
                        let ghost d1 = entry_address(
                            old(self).tables@[k2 as int].entries()[level_index(2, virtual_addr@)],
                        );
                        assert(self.tables@[kcw] == old(self).tables@[kcw]) by {
                            if self.tables@[kcw] != old(self).tables@[kcw] {
                                assert(kcw == k2 as int || (old(self).has_table(d1) && old(
                                    self,
                                ).frames@[kcw] == d1));
                                if kcw == k2 as int {
                                    assert(old(self).frames@[k2 as int] == f2@);
                                } else {
                                    old(self).lemma_child_level(
                                        k2 as int,
                                        level_index(2, virtual_addr@),
                                    );
                                    assert(old(self).level_of(d1) == 1);
                                    old(self).lemma_idx_unique(d1);
                                    assert(old(self).idx_of(d1) == kcw);
                                }
                            }
                        }
                        assert(self.entries_of(c_w) == old(self).entries_of(c_w));
                        assert(old(self).subwalk(root, 3, w) == old(self).subwalk(c_w, 2, w));
                        let i2w = level_index(2, w);
                        let e2w_old = old(self).entries_of(c_w)[i2w];
                        assert(entry_present(e2w_old));
                        assert(!entry_page_size(old(self).tables@[kcw].entries()[i2w]));
                        let c1w = entry_address(e2w_old);
                        assert(Self::is_pointer_entry(
                            old(self).levels@[kcw] as int,
                            old(self).tables@[kcw].entries()[i2w],
                        ));
                        assert(old(self).has_table(c1w) && old(self).level_of(c1w) == 1);
                        old(self).lemma_idx_unique(c1w);
                        Self::lemma_idx_prefix_stable(old(self), self, c1w);
                        let kc1w = old(self).idx_of(c1w);
                        assert(self.tables@[kc1w] == old(self).tables@[kc1w]) by {
                            if self.tables@[kc1w] != old(self).tables@[kc1w] {
                                assert(kc1w == k2 as int || (old(self).has_table(d1) && old(
                                    self,
                                ).frames@[kc1w] == d1));
                                if kc1w == k2 as int {
                                    assert(old(self).level_of(f2@) == 2);
                                    assert(old(self).idx_of(f2@) == k2 as int);
                                } else {
                                    old(self).lemma_child_level(
                                        k2 as int,
                                        level_index(2, virtual_addr@),
                                    );
                                    assert(old(self).has_table(d1) && old(self).level_of(d1) == 1);
                                    old(self).lemma_idx_unique(d1);
                                    assert(old(self).idx_of(d1) == kc1w);
                                    assert(c1w == d1);
                                    assert(Self::is_pointer_entry(
                                        old(self).levels@[k2 as int] as int,
                                        old(self).tables@[k2 as int].entries()[level_index(
                                            2,
                                            virtual_addr@,
                                        )],
                                    ));
                                    assert(kcw != k2 as int);
                                }
                            }
                        }
                        assert(self.entries_of(c1w) == old(self).entries_of(c1w));
                        assert(old(self).subwalk(c_w, 2, w) == old(self).subwalk(c1w, 1, w));
                        assert(self.subwalk(c1w, 1, w) == old(self).subwalk(c1w, 1, w));
                        assert(self.subwalk(c_w, 2, w) == self.subwalk(c1w, 1, w));
                        assert(self.subwalk(root, 3, w) == self.subwalk(c_w, 2, w));
                    }
                }
            }
            ok
        }
    }

    /// Requests a fresh frame, installs a zeroed level-3 table in it, and
    /// maps `virtual_addr` below it, creating the lower tables as well.
    fn create_and_map_p3<A: FrameAllocator>(
        &mut self,
        virtual_addr: VirtualAddress,
        physical_addr: PhysicalAddress,
        allocator: &mut A,
    ) -> (r: Option<u64>)
        requires
            old(self).inv(),
            old(self).has_p4(),
            old(allocator).wf(),
            old(self).frames_not_free(old(allocator).free_frames()),
            physical_addr@ & !PHYSICAL_ADDRESS_MASK == 0,
        ensures
            final(self).inv(),
            final(self).has_p4(),
            final(self).p4 == old(self).p4,
            final(self).offset == old(self).offset,
            final(allocator).wf(),
            final(allocator).free_frames().subset_of(old(allocator).free_frames()),
            final(self).frames_not_free(final(allocator).free_frames()),
            old(self).frames@.is_prefix_of(final(self).frames@),
            old(self).levels@.is_prefix_of(final(self).levels@),
            final(self).tables@.len() == final(self).frames@.len(),
            forall|k: int|
                0 <= k < old(self).tables@.len() ==> final(self).tables@[k] == old(self).tables@[k],
            forall|g: u64|
                old(self).unreferenced(g) && old(self).has_table(g) ==> final(self).unreferenced(
                    g,
                ),
            match r {
                Option::Some(f3) => {
                    &&& !old(self).has_table(f3)
                    &&& f3 != 0
                    &&& f3 & !PHYSICAL_ADDRESS_MASK == 0
                    &&& final(self).has_table(f3)
                    &&& final(self).level_of(f3) == 3
                    &&& final(self).subwalk(f3, 3, virtual_addr@) == Option::Some(physical_addr@)
                    &&& final(self).path_mapped_writable(f3, 3, virtual_addr@)
                    &&& final(self).unreferenced(f3)
                },
                Option::None => true,
            },
    {
        let output = allocator.request_page();
        if output.as_u64() == 0 {
            return None;
        }
        proof {
            assert forall|k: int|
                0 <= k < self.frames.len() implies self.frames@[k] != output@ by {
                assert(!old(allocator).free_frames().contains(self.frames@[k]));
            }
            assert(!self.has_table(output@));
            assert(self.has_table(self.spec_p4()));
        }
        let f3 = output.as_u64();
        self.push_table(f3, 3);
        let k_new = self.tables.len() - 1;
        let ghost mid = *self;
        proof {
            assert(mid.frames@[k_new as int] == f3);
            assert forall|k: int|
                0 <= k < mid.frames.len() implies !allocator.free_frames().contains(
                #[trigger] mid.frames@[k],
            ) by {
                if k < old(self).frames@.len() {
                    assert(!old(allocator).free_frames().contains(mid.frames@[k]));
                } else {
                    assert(mid.frames@[k] == f3);
                }
            }
            Self::lemma_idx_prefix_stable(old(self), &mid, old(self).spec_p4());
            mid.lemma_level_bounds(k_new as int);
        }
        let ok = self.map_p3(k_new, virtual_addr, physical_addr, allocator);
        proof {
            lemma_index_extraction_bounds(virtual_addr@);
            crate::page_table::lemma_unused_entry();
            assert(entry_address(mid.tables@[k_new as int].entries()[level_index(
                3,
                virtual_addr@,
            )]) == 0);
            assert(!mid.has_table(0u64)) by {
                if mid.has_table(0u64) {
                    mid.lemma_idx_unique(0u64);
                }
            }
            assert forall|k: int|
                0 <= k < old(self).tables@.len() implies self.tables@[k] == old(self).tables@[k] by {
                assert(mid.tables@[k] == old(self).tables@[k]);
                if self.tables@[k] != mid.tables@[k] {
                    assert(k == k_new as int || {
                        let c3 = entry_address(
                            mid.tables@[k_new as int].entries()[level_index(3, virtual_addr@)],
                        );
                        mid.has_table(c3) && (mid.frames@[k] == c3 || {
                            let c2 = entry_address(
                                mid.entries_of(c3)[level_index(2, virtual_addr@)],
                            );
                            mid.has_table(c2) && mid.frames@[k] == c2
                        })
                    });
                }
            }
            assert forall|g: u64|
                old(self).unreferenced(g) && old(self).has_table(g) implies self.unreferenced(
                g,
            ) by {
                assert(mid.unreferenced(g) && mid.has_table(g));
            }
            Self::lemma_idx_prefix_stable(&mid, self, f3);
            if ok {
                assert(self.subwalk(f3, 3, virtual_addr@) == Option::Some(physical_addr@));
                assert(self.path_mapped_writable(f3, 3, virtual_addr@));
            }
            assert(self.unreferenced(f3)) by {
                assert(mid.unreferenced(f3) && mid.has_table(f3));
            }
        }
        if !ok {
            return None;
        }
        Some(f3)
    }

    /// Walks the hierarchy for `virtual_addr` from the root, requesting a
    /// fresh frame from `allocator` for each absent level, and writes the
    /// final mapping to `physical_addr` with present and read/write set.
    /// Reports whether the mapping was written; it is not written only
    /// when the allocator runs out of frames mid-walk, in which case
    /// tables created so far stay in the arena.
    pub fn map_memory<A: FrameAllocator>(
        &mut self,
        virtual_addr: VirtualAddress,
        physical_addr: PhysicalAddress,
        allocator: &mut A,
    ) -> (ok: bool)
        requires
            old(self).inv(),
            old(self).has_p4(),
            old(allocator).wf(),
            old(self).frames_not_free(old(allocator).free_frames()),
            physical_addr@ & !PHYSICAL_ADDRESS_MASK == 0,
        ensures
            final(self).inv(),
            final(self).has_p4(),
            final(self).spec_p4() == old(self).spec_p4(),
            final(self).spec_offset() == old(self).spec_offset(),
            final(allocator).wf(),
            final(allocator).free_frames().subset_of(old(allocator).free_frames()),
            final(self).frames_not_free(final(allocator).free_frames()),
            ok ==> final(self).walk(virtual_addr@) == Option::Some(physical_addr@),
            ok ==> final(self).path_mapped_writable(final(self).spec_p4(), 4, virtual_addr@),
            old(self).path_present(old(self).spec_p4(), 4, virtual_addr@) ==> ok,
            forall|w: u64|
                old(self).walk(w) is Some && !(level_index(4, w) == level_index(4, virtual_addr@)
                    && level_index(3, w) == level_index(3, virtual_addr@) && level_index(2, w)
                    == level_index(2, virtual_addr@) && level_index(1, w) == level_index(
                    1,
                    virtual_addr@,
                )) ==> final(self).walk(w) == old(self).walk(w),
            forall|w: u64|
                old(self).path_present(old(self).spec_p4(), 4, w) ==> final(self).path_present(
                    final(self).spec_p4(),
                    4,
                    w,
                ),
    {
        proof {
            lemma_index_extraction_bounds(virtual_addr@);
            self.lemma_idx_unique(self.spec_p4());
        }
        let ghost k4g = self.idx_of(self.spec_p4());
        let k4 = match self.find_table(self.p4.as_u64()) {
            Option::Some(k) => k,
            Option::None => {
                return false;
            },
        };
        let index = virtual_addr.p4_index();
        let p4_table_entry = self.tables[k4].entry(index);
        proof {
            assert(self.entries_of(self.spec_p4())[level_index(4, virtual_addr@)]
                == p4_table_entry@);
        }
        if !p4_table_entry.present() {
            let f3 = match self.create_and_map_p3(virtual_addr, physical_addr, allocator) {
                Option::Some(f3) => f3,
                Option::None => {
                    proof {
                        assert forall|w: u64| self.walk(w) == old(self).walk(w) by {
                            assert forall|k: int|
                                0 <= k < old(self).tables@.len() && old(self).levels@[k] as int
                                    <= 4 implies self.tables@[k].entries() == old(self).tables@[
                                k
                            ].entries() by {
                                assert(self.tables@[k] == old(self).tables@[k]);
                            }
                            Self::lemma_subwalk_grow(old(self), self, old(self).spec_p4(), 4, w);
                        }
                        assert forall|w: u64|
                            old(self).path_present(old(self).spec_p4(), 4, w) implies
                            self.path_present(self.spec_p4(), 4, w) by {
                            assert(self.walk(w) == old(self).walk(w));
                            old(self).lemma_walk_some_iff_path_present(old(self).spec_p4(), 4, w);
                            self.lemma_walk_some_iff_path_present(self.spec_p4(), 4, w);
                        }
                    }
                    return false;
                },
            };
            let ghost mid = *self;
            let mut new_entry = p4_table_entry;
            new_entry.make_unused();
            proof {
                crate::page_table::lemma_unused_entry();
                lemma_masked_identity(f3);
            }
            new_entry.set_address(PhysicalAddress::new(f3));
            new_entry.set_present(true);
            new_entry.set_read_write(true);
            let new_table = self.tables[k4].updated(index, new_entry);
            self.tables[k4] = new_table;
            proof {
                assert(mid.has_table(f3) && mid.level_of(f3) == 3);
                assert(mid.tables@[k4 as int] == old(self).tables@[k4 as int]);
                assert(!Self::is_pointer_entry(
                    mid.levels@[k4 as int] as int,
                    mid.tables@[k4 as int].entries()[index as int],
                ));
                Self::lemma_write_entry_inv(&mid, self, k4 as int, index as int, new_entry@);
                self.lemma_idx_unique(self.spec_p4());
                assert(self.idx_of(self.spec_p4()) == k4 as int);
                assert(self.entries_of(self.spec_p4())[level_index(4, virtual_addr@)]
                    == new_entry@);
                assert(entry_address(new_entry@) == f3);
                Self::lemma_subwalk_agrees(&mid, self, f3, 3, virtual_addr@);
                assert(self.subwalk(f3, 3, virtual_addr@) == Option::Some(physical_addr@));
                assert(self.walk(virtual_addr@) == Option::Some(physical_addr@));
                assert(self.path_mapped_writable(f3, 3, virtual_addr@));
                assert(self.path_mapped_writable(self.spec_p4(), 4, virtual_addr@));
                assert forall|w: u64|
                    old(self).walk(w) is Some && !(level_index(4, w) == level_index(
                        4,
                        virtual_addr@,
                    ) && level_index(3, w) == level_index(3, virtual_addr@) && level_index(2, w)
                        == level_index(2, virtual_addr@) && level_index(1, w) == level_index(
                        1,
                        virtual_addr@,
                    )) implies self.walk(w) == old(self).walk(w) by {
                    lemma_index_extraction_bounds(w);
                    let root = old(self).spec_p4();
                    let i4w = level_index(4, w);
                    let e_w_old = old(self).entries_of(root)[i4w];
                    assert(entry_present(e_w_old));
                    assert(i4w != level_index(4, virtual_addr@));
                    assert(self.entries_of(root)[i4w] == e_w_old);
                    let c_w = entry_address(e_w_old);
                    assert(Self::is_pointer_entry(
                        old(self).levels@[k4 as int] as int,
                        old(self).tables@[k4 as int].entries()[i4w],
                    ));
                    assert(old(self).has_table(c_w) && old(self).level_of(c_w) == 3);
                    assert forall|k: int|
                        0 <= k < old(self).tables@.len() && old(self).levels@[k] as int
                            <= 3 implies self.tables@[k].entries() == old(self).tables@[
                        k
                    ].entries() by {
                        assert(mid.tables@[k] == old(self).tables@[k]);
                        assert(self.tables@[k] == mid.tables@[k]);
                    }
                    Self::lemma_subwalk_grow(old(self), self, c_w, 3, w);
                    assert(old(self).walk(w) == old(self).subwalk(c_w, 3, w));
                    assert(self.walk(w) == self.subwalk(c_w, 3, w));
                }
                assert forall|w: u64|
                    old(self).path_present(old(self).spec_p4(), 4, w) implies self.path_present(
                    self.spec_p4(),
                    4,
                    w,
                ) by {
                    old(self).lemma_walk_some_iff_path_present(old(self).spec_p4(), 4, w);
                    if same_page_path(w, virtual_addr@) {
                        // The level-4 entry for this path was absent, so no
                        // path through it was present before the call.
                        old(self).lemma_walk_same_path(old(self).spec_p4(), 4, w, virtual_addr@);
                        assert(!old(self).path_present(old(self).spec_p4(), 4, virtual_addr@));
                    } else {
                        assert(self.walk(w) == old(self).walk(w));
                        self.lemma_walk_some_iff_path_present(self.spec_p4(), 4, w);
                    }
                }
            }
            true
        } else {
            let f3 = p4_table_entry.address();
            proof {
                assert(Self::is_pointer_entry(
                    self.levels@[k4 as int] as int,
                    self.tables@[k4 as int].entries()[level_index(4, virtual_addr@)],
                ));
                assert(self.has_table(f3@) && self.level_of(f3@) == 3);
            }
            let k3 = match self.find_table(f3.as_u64()) {
                Option::Some(k) => k,
                Option::None => {
                    return false;
                },
            };
            proof {
                self.lemma_level_bounds(k3 as int);
            }
            let ok = self.map_p3(k3, virtual_addr, physical_addr, allocator);
            proof {
                assert(k3 as int != k4 as int);
                assert(self.tables@[k4 as int] == old(self).tables@[k4 as int]) by {
                    if self.tables@[k4 as int] != old(self).tables@[k4 as int] {
                        let c3 = entry_address(
                            old(self).tables@[k3 as int].entries()[level_index(3, virtual_addr@)],
                        );
                        if old(self).has_table(c3) && old(self).frames@[k4 as int] == c3 {
                            old(self).lemma_child_level(k3 as int, level_index(3, virtual_addr@));
                            assert(old(self).level_of(c3) == 2);
                            old(self).lemma_idx_unique(c3);
                            assert(old(self).idx_of(c3) == k4 as int);
                        } else {
                            assert(old(self).has_table(c3));
                            old(self).lemma_child_level(k3 as int, level_index(3, virtual_addr@));
                            assert(old(self).level_of(c3) == 2);
                            old(self).lemma_idx_unique(c3);
                            let kc3 = old(self).idx_of(c3);
                            assert(old(self).levels@[kc3] == 2);
                            let c2 = entry_address(
                                old(self).entries_of(c3)[level_index(2, virtual_addr@)],
                            );
                            assert(old(self).has_table(c2) && old(self).frames@[k4 as int] == c2);
                            assert(old(self).entries_of(c3) == old(self).tables@[kc3].entries());
                            old(self).lemma_child_level(kc3, level_index(2, virtual_addr@));
                            assert(old(self).level_of(c2) == 1);
                            old(self).lemma_idx_unique(c2);
                            assert(old(self).idx_of(c2) == k4 as int);
                        }
                    }
                }
                self.lemma_idx_unique(self.spec_p4());
                assert(self.idx_of(self.spec_p4()) == k4 as int);
                assert(self.entries_of(self.spec_p4())[level_index(4, virtual_addr@)]
                    == p4_table_entry@);
                if ok {
                    assert(self.subwalk(f3@, 3, virtual_addr@) == Option::Some(physical_addr@));
                    assert(self.walk(virtual_addr@) == Option::Some(physical_addr@));
                    assert(self.path_mapped_writable(f3@, 3, virtual_addr@));
                    assert(entry_read_write(self.entries_of(self.spec_p4())[level_index(
                        4,
                        virtual_addr@,
                    )])) by {
                        assert(entry_present(self.tables@[k4 as int].entries()[level_index(
                            4,
                            virtual_addr@,
                        )]));
                    }
                    assert(self.path_mapped_writable(self.spec_p4(), 4, virtual_addr@));
                }
                assert forall|w: u64|
                    old(self).walk(w) is Some && !(level_index(4, w) == level_index(
                        4,
                        virtual_addr@,
                    ) && level_index(3, w) == level_index(3, virtual_addr@) && level_index(2, w)
                        == level_index(2, virtual_addr@) && level_index(1, w) == level_index(
                        1,
                        virtual_addr@,
                    )) implies self.walk(w) == old(self).walk(w) by {
                    lemma_index_extraction_bounds(w);
                    let root = old(self).spec_p4();
                    let i4v = level_index(4, virtual_addr@);
                    let i4w = level_index(4, w);
                    Self::lemma_idx_prefix_stable(old(self), self, root);
                    assert(self.entries_of(root) == old(self).entries_of(root));
                    if i4w == i4v {
                        assert(old(self).walk(w) == old(self).subwalk(f3@, 3, w));
                        assert(!(level_index(3, w) == level_index(3, virtual_addr@)
                            && level_index(2, w) == level_index(2, virtual_addr@) && level_index(
                            1,
                            w,
                        ) == level_index(1, virtual_addr@)));
                        assert(self.subwalk(f3@, 3, w) == old(self).subwalk(f3@, 3, w));
                        assert(self.walk(w) == self.subwalk(f3@, 3, w));
                    } else {
                        let e_w_old = old(self).entries_of(root)[i4w];
                        assert(entry_present(e_w_old));
                        let c_w = entry_address(e_w_old);
                        assert(Self::is_pointer_entry(
                            old(self).levels@[k4 as int] as int,
                            old(self).tables@[k4 as int].entries()[i4w],
                        ));
                        assert(Self::is_pointer_entry(
                            old(self).levels@[k4 as int] as int,
                            old(self).tables@[k4 as int].entries()[level_index(4, virtual_addr@)],
                        ));
                        assert(old(self).has_table(c_w) && old(self).level_of(c_w) == 3);
                        assert(c_w != f3@);
                        old(self).lemma_idx_unique(c_w);
                        Self::lemma_idx_prefix_stable(old(self), self, c_w);
                        let kcw = old(self).idx_of(c_w);
                        let ghost c3 = entry_address(
                            old(self).tables@[k3 as int].entries()[level_index(3, virtual_addr@)],
                        );
                        let ghost c2g = entry_address(
                            old(self).entries_of(c3)[level_index(2, virtual_addr@)],
                        );
                        // The level-3 table on w's path is untouched.
                        assert(self.tables@[kcw] == old(self).tables@[kcw]) by {
                            if self.tables@[kcw] != old(self).tables@[kcw] {
                                if kcw == k3 as int {
                                    assert(old(self).frames@[k3 as int] == f3@);
                                } else if old(self).has_table(c3) && old(self).frames@[kcw]
                                    == c3 {
                                    old(self).lemma_child_level(
                                        k3 as int,
                                        level_index(3, virtual_addr@),
                                    );
                                    old(self).lemma_idx_unique(c3);
                                    assert(old(self).idx_of(c3) == kcw);
                                } else {
                                    assert(old(self).has_table(c2g) && old(self).frames@[kcw]
                                        == c2g);
                                    old(self).lemma_child_level(
                                        k3 as int,
                                        level_index(3, virtual_addr@),
                                    );
                                    old(self).lemma_idx_unique(c3);
                                    old(self).lemma_child_level(
                                        old(self).idx_of(c3),
                                        level_index(2, virtual_addr@),
                                    );
                                    old(self).lemma_idx_unique(c2g);
                                    assert(old(self).idx_of(c2g) == kcw);
                                }
                            }
                        }
                        assert(self.entries_of(c_w) == old(self).entries_of(c_w));
                        assert(old(self).walk(w) == old(self).subwalk(c_w, 3, w));
                        // Descend to the level-2 table on w's path.
                        let i3w = level_index(3, w);
                        let e3w_old = old(self).entries_of(c_w)[i3w];
                        assert(entry_present(e3w_old));
                        assert(!entry_page_size(old(self).tables@[kcw].entries()[i3w]));
                        let c2w = entry_address(e3w_old);
                        assert(Self::is_pointer_entry(
                            old(self).levels@[kcw] as int,
                            old(self).tables@[kcw].entries()[i3w],
                        ));
                        assert(old(self).has_table(c2w) && old(self).level_of(c2w) == 2);
                        old(self).lemma_idx_unique(c2w);
                        Self::lemma_idx_prefix_stable(old(self), self, c2w);
                        let kc2w = old(self).idx_of(c2w);
                        assert(self.tables@[kc2w] == old(self).tables@[kc2w]) by {
                            if self.tables@[kc2w] != old(self).tables@[kc2w] {
                                if kc2w == k3 as int {
                                    assert(old(self).level_of(f3@) == 3);
                                    assert(old(self).idx_of(f3@) == k3 as int);
                                } else if old(self).has_table(c3) && old(self).frames@[kc2w]
                                    == c3 {
                                    // Two pointer entries with distinct sources never
                                    // share a target.
                                    old(self).lemma_child_level(
                                        k3 as int,
                                        level_index(3, virtual_addr@),
                                    );
                                    assert(Self::is_pointer_entry(
                                        old(self).levels@[k3 as int] as int,
                                        old(self).tables@[k3 as int].entries()[level_index(
                                            3,
                                            virtual_addr@,
                                        )],
                                    ));
                                    assert(kcw != k3 as int);
                                    assert(c2w == c3);
                                } else {
                                    assert(old(self).has_table(c2g) && old(self).frames@[kc2w]
                                        == c2g);
                                    old(self).lemma_child_level(
                                        k3 as int,
                                        level_index(3, virtual_addr@),
                                    );
                                    old(self).lemma_idx_unique(c3);
                                    old(self).lemma_child_level(
                                        old(self).idx_of(c3),
                                        level_index(2, virtual_addr@),
                                    );
                                    old(self).lemma_idx_unique(c2g);
                                    assert(old(self).idx_of(c2g) == kc2w);
                                    assert(old(self).level_of(c2g) == 1);
                                }
                            }
                        }
                        assert(self.entries_of(c2w) == old(self).entries_of(c2w));
                        assert(old(self).subwalk(c_w, 3, w) == old(self).subwalk(c2w, 2, w));
                        // Descend to the level-1 table on w's path.
                        let i2w = level_index(2, w);
                        let e2w_old = old(self).entries_of(c2w)[i2w];
                        assert(entry_present(e2w_old));
                        assert(!entry_page_size(old(self).tables@[kc2w].entries()[i2w]));
                        let c1w = entry_address(e2w_old);
                        assert(Self::is_pointer_entry(
                            old(self).levels@[kc2w] as int,
                            old(self).tables@[kc2w].entries()[i2w],
                        ));
                        assert(old(self).has_table(c1w) && old(self).level_of(c1w) == 1);
                        old(self).lemma_idx_unique(c1w);
                        Self::lemma_idx_prefix_stable(old(self), self, c1w);
                        let kc1w = old(self).idx_of(c1w);
                        assert(self.tables@[kc1w] == old(self).tables@[kc1w]) by {
                            if self.tables@[kc1w] != old(self).tables@[kc1w] {
                                if kc1w == k3 as int {
                                    assert(old(self).level_of(f3@) == 3);
                                    assert(old(self).idx_of(f3@) == k3 as int);
                                } else if old(self).has_table(c3) && old(self).frames@[kc1w]
                                    == c3 {
                                    old(self).lemma_child_level(
                                        k3 as int,
                                        level_index(3, virtual_addr@),
                                    );
                                    old(self).lemma_idx_unique(c3);
                                    assert(old(self).idx_of(c3) == kc1w);
                                    assert(old(self).level_of(c3) == 2);
                                } else {
                                    assert(old(self).has_table(c2g) && old(self).frames@[kc1w]
                                        == c2g);
                                    assert(c1w == c2g);
                                    old(self).lemma_child_level(
                                        k3 as int,
                                        level_index(3, virtual_addr@),
                                    );
                                    old(self).lemma_idx_unique(c3);
                                    let kc3 = old(self).idx_of(c3);
                                    old(self).lemma_child_level(
                                        kc3,
                                        level_index(2, virtual_addr@),
                                    );
                                    assert(Self::is_pointer_entry(
                                        old(self).levels@[kc3] as int,
                                        old(self).tables@[kc3].entries()[level_index(
                                            2,
                                            virtual_addr@,
                                        )],
                                    ));
                                    assert(kc2w != kc3) by {
                                        if kc2w == kc3 {
                                            assert(old(self).frames@[kc3] == c3);
                                            assert(c2w == c3);
                                            assert(kcw != k3 as int);
                                            assert(Self::is_pointer_entry(
                                                old(self).levels@[k3 as int] as int,
                                                old(self).tables@[k3 as int].entries()[level_index(
                                                    3,
                                                    virtual_addr@,
                                                )],
                                            ));
                                        }
                                    }
                                }
                            }
                        }
                        assert(self.entries_of(c1w) == old(self).entries_of(c1w));
                        assert(old(self).subwalk(c2w, 2, w) == old(self).subwalk(c1w, 1, w));
                        assert(self.subwalk(c1w, 1, w) == old(self).subwalk(c1w, 1, w));
                        assert(self.subwalk(c2w, 2, w) == self.subwalk(c1w, 1, w));
                        assert(self.subwalk(c_w, 3, w) == self.subwalk(c2w, 2, w));
                        assert(self.walk(w) == self.subwalk(c_w, 3, w));
                    }
                }
                assert forall|w: u64|
                    old(self).path_present(old(self).spec_p4(), 4, w) implies self.path_present(
                    self.spec_p4(),
                    4,
                    w,
                ) by {
                    old(self).lemma_walk_some_iff_path_present(old(self).spec_p4(), 4, w);
                    if same_page_path(w, virtual_addr@) {
                        old(self).lemma_walk_same_path(old(self).spec_p4(), 4, w, virtual_addr@);
                        assert(old(self).path_present(old(self).spec_p4(), 4, virtual_addr@));
                        assert(old(self).path_present(f3@, 3, virtual_addr@));
                        assert(ok);
                        assert(self.walk(virtual_addr@) == Option::Some(physical_addr@));
                        self.lemma_walk_same_path(self.spec_p4(), 4, w, virtual_addr@);
                        self.lemma_walk_some_iff_path_present(self.spec_p4(), 4, w);
                    } else {
                        assert(self.walk(w) == old(self).walk(w));
                        self.lemma_walk_some_iff_path_present(self.spec_p4(), 4, w);
                    }
                }
            }
            ok
        }
    }

    /// Clears one root-table slot: the firmware-teardown step that
    /// removes the identity-mapped low region one level-4 index at a
    /// time, once nothing dereferences identity-mapped addresses any
    /// more. Every translation under the slot disappears; every other
    /// translation is untouched. The table pages under the slot stay in
    /// the arena.
    pub fn unmap_p4_index(&mut self, index: usize)
        requires
            old(self).inv(),
            old(self).has_p4(),
            index < 512,
        ensures
            final(self).inv(),
            final(self).has_p4(),
            final(self).spec_p4() == old(self).spec_p4(),
            final(self).spec_offset() == old(self).spec_offset(),
            forall|w: u64|
                level_index(4, w) == index ==> final(self).walk(w) is None,
            forall|w: u64|
                level_index(4, w) != index ==> final(self).walk(w) == old(self).walk(w),
            forall|free: Set<u64>|
                old(self).frames_not_free(free) ==> final(self).frames_not_free(free),
    {
        proof {
            self.lemma_idx_unique(self.spec_p4());
        }
        let k4 = match self.find_table(self.p4.as_u64()) {
            Option::Some(k) => k,
            Option::None => {
                return ;
            },
        };
        let mut entry = self.tables[k4].entry(index);
        entry.make_unused();
        let new_table = self.tables[k4].updated(index, entry);
        self.tables[k4] = new_table;
        proof {
            crate::page_table::lemma_unused_entry();
            assert(!Self::is_pointer_entry(
                old(self).levels@[k4 as int] as int,
                old(self).tables@[k4 as int].entries()[index as int],
            ) || Self::is_pointer_entry(
                old(self).levels@[k4 as int] as int,
                old(self).tables@[k4 as int].entries()[index as int],
            ));
            if Self::is_pointer_entry(
                old(self).levels@[k4 as int] as int,
                old(self).tables@[k4 as int].entries()[index as int],
            ) {
                Self::lemma_write_entry_clear_inv(old(self), self, k4 as int, index as int);
            } else {
                Self::lemma_write_entry_inv(old(self), self, k4 as int, index as int, 0u64);
            }
            self.lemma_idx_unique(self.spec_p4());
            assert(self.idx_of(self.spec_p4()) == k4 as int);
            assert forall|w: u64|
                level_index(4, w) == index implies self.walk(w) is None by {
                lemma_index_extraction_bounds(w);
                assert(self.entries_of(self.spec_p4())[level_index(4, w)] == 0);
            }
            assert forall|w: u64|
                level_index(4, w) != index implies self.walk(w) == old(self).walk(w) by {
                lemma_index_extraction_bounds(w);
                assert(self.entries_of(self.spec_p4())[level_index(4, w)] == old(self).entries_of(
                    old(self).spec_p4(),
                )[level_index(4, w)]);
                let e = old(self).entries_of(old(self).spec_p4())[level_index(4, w)];
                if entry_present(e) {
                    Self::lemma_subwalk_agrees(old(self), self, entry_address(e), 3, w);
                }
            }
        }
    }

    /// Clearing a pointer entry preserves the arena invariant: the
    /// orphaned child stays a well-formed table that nothing reaches.
    proof fn lemma_write_entry_clear_inv(
        prev: &PageTableManager,
        cur: &PageTableManager,
        k0: int,
        j0: int,
    )
        requires
            prev.inv(),
            cur.p4 == prev.p4,
            cur.frames@ == prev.frames@,
            cur.levels@ == prev.levels@,
            cur.tables@.len() == prev.tables@.len(),
            forall|k: int|
                0 <= k < prev.tables@.len() && k != k0 ==> cur.tables@[k] == prev.tables@[k],
            0 <= k0 < prev.tables@.len(),
            0 <= j0 < 512,
            cur.tables@[k0].wf(),
            cur.tables@[k0].entries() == prev.tables@[k0].entries().update(j0, 0u64),
        ensures
            cur.inv(),
    {
        crate::page_table::lemma_unused_entry();
        assert forall|g: u64| prev.has_table(g) implies cur.has_table(g) && cur.idx_of(g)
            == prev.idx_of(g) by {
            Self::lemma_idx_prefix_stable(prev, cur, g);
        }
        assert forall|g: u64| cur.has_table(g) implies prev.has_table(g) by {
            let k = choose|k: int| 0 <= k < cur.frames.len() && cur.frames@[k] == g;
            assert(prev.frames@[k] == g);
        }
        assert forall|k: int, j: int|
            0 <= k < cur.frames.len() && 0 <= j < 512 && Self::is_pointer_entry(
                cur.levels@[k] as int,
                #[trigger] cur.tables@[k].entries()[j],
            ) implies {
            let child = entry_address(cur.tables@[k].entries()[j]);
            &&& cur.has_table(child)
            &&& cur.level_of(child) == cur.levels@[k] - 1
        } by {
            assert(k != k0 || j != j0);
            assert(cur.tables@[k].entries()[j] == prev.tables@[k].entries()[j]);
            let child = entry_address(cur.tables@[k].entries()[j]);
            assert(prev.has_table(child));
            Self::lemma_idx_prefix_stable(prev, cur, child);
        }
        assert forall|k: int, j: int|
            0 <= k < cur.frames.len() && 0 <= j < 512 && !entry_present(
                #[trigger] cur.tables@[k].entries()[j],
            ) implies cur.tables@[k].entries()[j] == 0 by {
            if k != k0 || j != j0 {
                assert(cur.tables@[k].entries()[j] == prev.tables@[k].entries()[j]);
            }
        }
        assert forall|k: int, j: int|
            0 <= k < cur.frames.len() && 0 <= j < 512 && cur.levels@[k] >= 2 implies
            !entry_page_size(#[trigger] cur.tables@[k].entries()[j]) by {
            if k != k0 || j != j0 {
                assert(cur.tables@[k].entries()[j] == prev.tables@[k].entries()[j]);
            }
        }
        assert forall|k: int, j: int|
            0 <= k < cur.frames.len() && 0 <= j < 512 && entry_present(
                #[trigger] cur.tables@[k].entries()[j],
            ) implies entry_read_write(cur.tables@[k].entries()[j]) by {
            if k != k0 || j != j0 {
                assert(cur.tables@[k].entries()[j] == prev.tables@[k].entries()[j]);
            }
        }
        assert forall|k1: int, j1: int, k2: int, j2: int|
            0 <= k1 < cur.frames.len() && 0 <= j1 < 512 && 0 <= k2 < cur.frames.len() && 0 <= j2
                < 512 && (k1 != k2 || j1 != j2) && Self::is_pointer_entry(
                cur.levels@[k1] as int,
                #[trigger] cur.tables@[k1].entries()[j1],
            ) && Self::is_pointer_entry(
                cur.levels@[k2] as int,
                #[trigger] cur.tables@[k2].entries()[j2],
            ) implies entry_address(cur.tables@[k1].entries()[j1]) != entry_address(
            cur.tables@[k2].entries()[j2],
        ) by {
            assert(k1 != k0 || j1 != j0);
            assert(k2 != k0 || j2 != j0);
            assert(cur.tables@[k1].entries()[j1] == prev.tables@[k1].entries()[j1]);
            assert(cur.tables@[k2].entries()[j2] == prev.tables@[k2].entries()[j2]);
        }
    }

    /// Maps `num_pages` consecutive pages, advancing both addresses one
    /// page per step. Stops at the first page the allocator cannot serve.
    pub fn map_memory_pages<A: FrameAllocator>(
        &mut self,
        virtual_addr: VirtualAddress,
        physical_addr: PhysicalAddress,
        num_pages: u64,
        allocator: &mut A,
    ) -> (ok: bool)
        requires
            old(self).inv(),
            old(self).has_p4(),
            old(allocator).wf(),
            old(self).frames_not_free(old(allocator).free_frames()),
            virtual_addr@ + num_pages * PAGE_SIZE <= u64::MAX,
            num_pages * PAGE_SIZE <= 0x1_0000_0000_0000,
            physical_addr@ % PAGE_SIZE == 0,
            physical_addr@ + num_pages * PAGE_SIZE <= 0x0010_0000_0000_0000,
        ensures
            final(self).inv(),
            final(self).has_p4(),
            final(self).spec_p4() == old(self).spec_p4(),
            final(self).spec_offset() == old(self).spec_offset(),
            final(allocator).wf(),
            final(allocator).free_frames().subset_of(old(allocator).free_frames()),
            final(self).frames_not_free(final(allocator).free_frames()),
            ok ==> forall|j: int|
                0 <= j < num_pages ==> #[trigger] final(self).walk(
                    (virtual_addr@ + j * PAGE_SIZE) as u64,
                ) == Option::Some((physical_addr@ + j * PAGE_SIZE) as u64),
            forall|w: u64|
                old(self).walk(w) is Some && (forall|j: int|
                    0 <= j < num_pages ==> !(#[trigger] same_page_path(
                        w,
                        (virtual_addr@ + j * PAGE_SIZE) as u64,
                    ))) ==> final(self).walk(w) == old(self).walk(w),
            (forall|j: int|
                0 <= j < num_pages ==> #[trigger] old(self).path_present(
                    old(self).spec_p4(),
                    4,
                    (virtual_addr@ + j * PAGE_SIZE) as u64,
                )) ==> ok,
    {
        let mut page: u64 = 0;
        while page < num_pages
            invariant
                self.inv(),
                self.has_p4(),
                self.spec_p4() == old(self).spec_p4(),
                self.spec_offset() == old(self).spec_offset(),
                allocator.wf(),
                allocator.free_frames().subset_of(old(allocator).free_frames()),
                self.frames_not_free(allocator.free_frames()),
                page <= num_pages,
                virtual_addr@ + num_pages * PAGE_SIZE <= u64::MAX,
                num_pages * PAGE_SIZE <= 0x1_0000_0000_0000,
                physical_addr@ % PAGE_SIZE == 0,
                physical_addr@ + num_pages * PAGE_SIZE <= 0x0010_0000_0000_0000,
                forall|j: int|
                    0 <= j < page ==> #[trigger] self.walk((virtual_addr@ + j * PAGE_SIZE) as u64)
                        == Option::Some((physical_addr@ + j * PAGE_SIZE) as u64),
                forall|w: u64|
                    old(self).walk(w) is Some && (forall|j: int|
                        0 <= j < num_pages ==> !(#[trigger] same_page_path(
                            w,
                            (virtual_addr@ + j * PAGE_SIZE) as u64,
                        ))) ==> self.walk(w) == old(self).walk(w),
                (forall|j: int|
                    0 <= j < num_pages ==> #[trigger] old(self).path_present(
                        old(self).spec_p4(),
                        4,
                        (virtual_addr@ + j * PAGE_SIZE) as u64,
                    )) ==> forall|j: int|
                    page <= j < num_pages ==> #[trigger] self.path_present(
                        self.spec_p4(),
                        4,
                        (virtual_addr@ + j * PAGE_SIZE) as u64,
                    ),
            decreases num_pages - page,
        {
            let cur_paddr = physical_addr.increment_page_4kb(page);
            let cur_vaddr = virtual_addr.increment_page_4kb(page);
            proof {
                lemma_aligned_page_masked(physical_addr@, page);
            }
            let ghost pre = *self;
            let ok = self.map_memory(cur_vaddr, cur_paddr, allocator);
            proof {
                assert forall|w: u64|
                    old(self).walk(w) is Some && (forall|j: int|
                        0 <= j < num_pages ==> !(#[trigger] same_page_path(
                            w,
                            (virtual_addr@ + j * PAGE_SIZE) as u64,
                        ))) implies self.walk(w) == old(self).walk(w) by {
                    assert(!same_page_path(w, (virtual_addr@ + page * PAGE_SIZE) as u64));
                    assert(pre.walk(w) == old(self).walk(w));
                    assert(self.walk(w) == pre.walk(w));
                }
                if ok {
                    assert forall|j: int|
                        0 <= j < page + 1 implies #[trigger] self.walk(
                        (virtual_addr@ + j * PAGE_SIZE) as u64,
                    ) == Option::Some((physical_addr@ + j * PAGE_SIZE) as u64) by {
                        if j < page {
                            let vj = (virtual_addr@ + j * PAGE_SIZE) as u64;
                            assert(pre.walk(vj) is Some);
                            lemma_distinct_page_paths(vj, cur_vaddr@);
                            assert(self.walk(vj) == pre.walk(vj));
                        }
                    }
                }
                if forall|j: int|
                    0 <= j < num_pages ==> #[trigger] old(self).path_present(
                        old(self).spec_p4(),
                        4,
                        (virtual_addr@ + j * PAGE_SIZE) as u64,
                    ) {
                    assert(pre.path_present(
                        pre.spec_p4(),
                        4,
                        (virtual_addr@ + page * PAGE_SIZE) as u64,
                    ));
                    assert(cur_vaddr@ == (virtual_addr@ + page * PAGE_SIZE) as u64);
                    assert(ok);
                    assert forall|j: int|
                        page + 1 <= j < num_pages implies #[trigger] self.path_present(
                        self.spec_p4(),
                        4,
                        (virtual_addr@ + j * PAGE_SIZE) as u64,
                    ) by {
                        assert(pre.path_present(
                            pre.spec_p4(),
                            4,
                            (virtual_addr@ + j * PAGE_SIZE) as u64,
                        ));
                    }
                }
            }
            if !ok {
                return false;
            }
            page = page + 1;
        }
        true
    }

    /// A child frame read out of a live pointer entry sits one level
    /// below its parent table, and the entry is present.
    proof fn lemma_child_level(&self, kp: int, j: int)
        requires
            self.inv(),
            0 <= kp < self.frames.len(),
            0 <= j < 512,
            self.has_table(entry_address(self.tables@[kp].entries()[j])),
            2 <= self.levels@[kp] as int,
        ensures
            self.level_of(entry_address(self.tables@[kp].entries()[j])) == self.levels@[kp] - 1,
            entry_present(self.tables@[kp].entries()[j]),
    {
        let e = self.tables@[kp].entries()[j];
        let c = entry_address(e);
        self.lemma_idx_unique(c);
        assert(c != 0);
        crate::page_table::lemma_unused_entry();
        assert(e != 0) by {
            if e == 0 {
                assert(entry_address(0u64) == 0);
            }
        }
        assert(entry_present(e));
        if self.levels@[kp] as int <= 3 {
            assert(!entry_page_size(e));
        }
        assert(Self::is_pointer_entry(self.levels@[kp] as int, e));
    }

    /// A frame set disjoint from a free set is disjoint from any subset
    /// of it.
    pub proof fn lemma_frames_not_free_mono(&self, big: Set<u64>, small: Set<u64>)
        requires
            self.frames_not_free(big),
            small.subset_of(big),
        ensures
            self.frames_not_free(small),
    {
    }

    /// Under the arena invariant a walk finds a frame exactly when the
    /// pointer chain for the address is present all the way down: there
    /// are no big-page leaves to stop at early.
    proof fn lemma_walk_some_iff_path_present(&self, f: u64, l: int, v: u64)
        requires
            self.inv(),
        ensures
            (self.subwalk(f, l, v) is Some) == self.path_present(f, l, v),
        decreases l,
    {
        if l < 1 || !self.has_table(f) || self.level_of(f) != l {
        } else {
            lemma_index_extraction_bounds(v);
            self.lemma_idx_unique(f);
            let k = self.idx_of(f);
            let j = level_index(l, v);
            let e = self.tables@[k].entries()[j];
            assert(self.entries_of(f)[j] == e);
            if l == 1 {
            } else if !entry_present(e) {
            } else {
                if l <= 3 {
                    assert(!entry_page_size(self.tables@[k].entries()[j]));
                }
                self.lemma_walk_some_iff_path_present(entry_address(e), l - 1, v);
            }
        }
    }

    /// Walks and presence checks read only the page-table indices, so
    /// two addresses of the same page walk alike.
    proof fn lemma_walk_same_path(&self, f: u64, l: int, a: u64, b: u64)
        requires
            same_page_path(a, b),
            1 <= l <= 4,
        ensures
            self.subwalk(f, l, a) == self.subwalk(f, l, b),
            self.path_present(f, l, a) == self.path_present(f, l, b),
        decreases l,
    {
        assert(level_index(l, a) == level_index(l, b));
        if !(l < 1 || !self.has_table(f) || self.level_of(f) != l) {
            let e = self.entries_of(f)[level_index(l, a)];
            if l > 1 && entry_present(e) {
                self.lemma_walk_same_path(entry_address(e), l - 1, a, b);
            }
        }
    }

    /// A level read off the vector is the `level_of` its frame.
    proof fn lemma_level_bounds(&self, k: int)
        requires
            self.inv(),
            0 <= k < self.frames.len(),
        ensures
            self.level_of(self.frames@[k]) == self.levels@[k],
            self.has_table(self.frames@[k]),
            self.idx_of(self.frames@[k]) == k,
    {
        assert(self.has_table(self.frames@[k]));
        self.lemma_idx_unique(self.frames@[k]);
    }
}

/// A value inside the physical-address mask is unchanged by masking.
proof fn lemma_masked_identity(a: u64)
    by (bit_vector)
    requires
        a & !0x000F_FFFF_FFFF_F000 == 0,
    ensures
        a & 0x000F_FFFF_FFFF_F000 == a,
{
}

/// Builds the kernel's own page table: a fresh hierarchy that
/// identity-maps all physical memory and maps it again at the offset
/// `kernel_base − (ceil(max_physical / 1 GiB) × 1 GiB)`, so that the
/// offset region sits just below the kernel image. `None` when the
/// physical range exceeds the 512 GiB offset-mapping ceiling, when the
/// canonical offset region would overlap the identity-mapped low range
/// (mapping it would clobber the identity map), or when the allocator
/// runs out of frames.
pub fn init_page_table_manager<A: FrameAllocator>(
    allocator: &mut A,
    max_physical_address: PhysicalAddress,
    kernel_base_address: VirtualAddress,
) -> (r: Option<(PageTableManager, u64)>)
    requires
        old(allocator).wf(),
        kernel_base_address@ >= MAX_MEM_SIZE,
    ensures
        final(allocator).wf(),
        final(allocator).free_frames().subset_of(old(allocator).free_frames()),
        max_physical_address@ > MAX_MEM_SIZE ==> r is None,
        match r {
            Option::Some((m, offset)) => {
                &&& m.inv()
                &&& m.has_p4()
                &&& m.frames_not_free(final(allocator).free_frames())
                &&& m.spec_offset() == offset
                &&& offset == kernel_base_address@ - ((max_physical_address@ + MEM_1G - 1) / (
                MEM_1G as int)) * MEM_1G
                &&& forall|j: int|
                    0 <= j < max_physical_address@ as int / (PAGE_SIZE as int) ==> #[trigger] m.walk(
                        (j * PAGE_SIZE) as u64,
                    ) == Option::Some((j * PAGE_SIZE) as u64)
                &&& forall|j: int|
                    0 <= j < max_physical_address@ as int / (PAGE_SIZE as int) ==> #[trigger] m.walk(
                        (canonicalize(offset) + j * PAGE_SIZE) as u64,
                    ) == Option::Some((j * PAGE_SIZE) as u64)
            },
            Option::None => true,
        },
{
    if max_physical_address.as_u64() > MAX_MEM_SIZE {
        return None;
    }
    proof {
        lemma_zero_address_facts();
    }
    let mut page_table_manager = match PageTableManager::new_from_allocator(allocator, 0) {
        Option::Some(m) => m,
        Option::None => {
            return None;
        },
    };

    // Identity map the entire physical range.
    let num_mem_pages = max_physical_address.as_u64() / PAGE_SIZE;
    proof {
        vstd::arithmetic::div_mod::lemma_fundamental_div_mod(max_physical_address@ as int, 4096);
    }
    let identity_base = VirtualAddress::new(0);
    let zero_frame = PhysicalAddress::new(0);
    let ok = page_table_manager.map_memory_pages(
        identity_base,
        zero_frame,
        num_mem_pages,
        allocator,
    );
    if !ok {
        return None;
    }
    let ghost after_identity = page_table_manager;

    // The whole gigabytes the range occupies; the offset region is placed
    // that far below the kernel image.
    let num_gb = (max_physical_address.as_u64() + MEM_1G - 1) / MEM_1G;
    proof {
        vstd::arithmetic::div_mod::lemma_div_is_ordered(
            max_physical_address@ + MEM_1G - 1,
            MAX_MEM_SIZE + MEM_1G - 1,
            MEM_1G as int,
        );
        vstd::arithmetic::div_mod::lemma_fundamental_div_mod(
            max_physical_address@ + MEM_1G - 1,
            MEM_1G as int,
        );
        assert(num_gb <= 512) by {
            if num_gb >= 513 {
                vstd::arithmetic::mul::lemma_mul_inequality(513, num_gb as int, MEM_1G as int);
            }
        }
        vstd::arithmetic::mul::lemma_mul_inequality(num_gb as int, 512, MEM_1G as int);
    }
    let offset = kernel_base_address.as_u64() - num_gb * MEM_1G;

    let offset_base = VirtualAddress::new(offset);
    if offset_base.as_u64() < MAX_MEM_SIZE
        || offset_base.as_u64() > 0x1_0000_0000_0000 - MAX_MEM_SIZE {
        // The canonical offset region must sit wholly above the
        // identity-mapped low range and inside the 48-bit space.
        return None;
    }
    let ok = page_table_manager.map_memory_pages(
        offset_base,
        zero_frame,
        num_mem_pages,
        allocator,
    );
    if !ok {
        return None;
    }
    let ghost after_offset = page_table_manager;

    page_table_manager.set_offset(offset);
    proof {
        let n = max_physical_address@ as int / (PAGE_SIZE as int);
        assert(n == num_mem_pages);
        assert(identity_base@ == 0);
        assert(zero_frame@ == 0);
        assert forall|j: int|
            0 <= j < n implies #[trigger] after_offset.walk((j * PAGE_SIZE) as u64)
            == Option::Some((j * PAGE_SIZE) as u64) by {
            let vj = (j * PAGE_SIZE) as u64;
            assert(after_identity.walk((identity_base@ + j * PAGE_SIZE) as u64) == Option::Some(
                (zero_frame@ + j * PAGE_SIZE) as u64,
            ));
            assert((identity_base@ + j * PAGE_SIZE) as u64 == vj);
            assert(after_identity.walk(vj) == Option::Some(vj));
            assert forall|jj: int|
                0 <= jj < num_mem_pages implies !(#[trigger] same_page_path(
                vj,
                (offset_base@ + jj * PAGE_SIZE) as u64,
            )) by {
                lemma_low_high_distinct_paths(vj, (offset_base@ + jj * PAGE_SIZE) as u64);
            }
            assert(after_offset.walk(vj) == after_identity.walk(vj));
        }
        assert forall|j: int|
            0 <= j < n implies #[trigger] page_table_manager.walk(
            (canonicalize(offset) + j * PAGE_SIZE) as u64,
        ) == Option::Some((j * PAGE_SIZE) as u64) by {
            assert(after_offset.walk((offset_base@ + j * PAGE_SIZE) as u64) == Option::Some(
                (zero_frame@ + j * PAGE_SIZE) as u64,
            ));
            assert((zero_frame@ + j * PAGE_SIZE) as u64 == (j * PAGE_SIZE) as u64);
            assert(offset_base@ == canonicalize(offset));
        }
        assert forall|j: int|
            0 <= j < n implies #[trigger] page_table_manager.walk((j * PAGE_SIZE) as u64)
            == Option::Some((j * PAGE_SIZE) as u64) by {
            assert(after_offset.walk((j * PAGE_SIZE) as u64) == Option::Some(
                (j * PAGE_SIZE) as u64,
            ));
        }
    }
    Some((page_table_manager, offset))
}

/// An address below the 512 GiB line and one inside the upper 48-bit
/// space always differ in their level-4 page-table index.
proof fn lemma_low_high_distinct_paths(a: u64, b: u64)
    by (bit_vector)
    requires
        a < 0x80_0000_0000,
        0x80_0000_0000 <= b && b < 0x1_0000_0000_0000,
    ensures
        (a >> 39) & 0x1FF != (b >> 39) & 0x1FF,
{
}

/// The zero address is inside every mask and page aligned.
proof fn lemma_zero_address_facts()
    by (bit_vector)
    ensures
        0u64 & 0x000F_FFFF_FFFF_F000 == 0,
        0u64 & !0x000F_FFFF_FFFF_F000 == 0,
        0u64 % 4096 == 0,
        0u64 & 0x0000_FFFF_FFFF_FFFF == 0,
        0u64 & 0x0000_8000_0000_0000 == 0,
{
}

/// Two distinct page-aligned-distance addresses less than one full
/// 48-bit address space apart differ in at least one page-table index.
pub proof fn lemma_distinct_page_paths(a: u64, b: u64)
    by (bit_vector)
    requires
        a < b,
        b - a < 0x1_0000_0000_0000,
        (b - a) % 4096 == 0,
    ensures
        !((a >> 39) & 0x1FF == (b >> 39) & 0x1FF && (a >> 30) & 0x1FF == (b >> 30) & 0x1FF && (a
            >> 21) & 0x1FF == (b >> 21) & 0x1FF && (a >> 12) & 0x1FF == (b >> 12) & 0x1FF),
{
}

/// A page-aligned address below the 2^52 ceiling, advanced by whole
/// pages, stays inside the physical-address mask.
proof fn lemma_aligned_page_masked(a: u64, page: u64)
    by (bit_vector)
    requires
        a % 4096 == 0,
        a + page * 4096 + 4096 <= 0x0010_0000_0000_0000,
    ensures
        ((a + page * 4096) as u64) & !0x000F_FFFF_FFFF_F000 == 0,
        (a + page * 4096) as u64 == a + page * 4096,
{
}

} // verus!
