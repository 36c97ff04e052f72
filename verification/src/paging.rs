//! Four-level page mapper.
//!
//! The CPU resolves a virtual page through four levels of 512-entry tables,
//! selected by four 9-bit slices of the page address. This module keeps the
//! hierarchy the kernel builds as owned data: an arena of 512-entry tables,
//! table 0 being the active top-level table, with intermediate entries
//! naming the next table by its arena handle and leaf entries naming the
//! mapped physical frame with its flags. The kernel shell mirrors every
//! installed entry into the hardware tables through the offset mapping and
//! flushes the translation cache for the affected page.
//!
//! Missing intermediate tables are created on demand from the same frame
//! allocator that serves data frames; a leaf slot that is already occupied
//! is reported as a conflict and never overwritten.

use crate::memory::frame_aligned;
use crate::memory::memory_map_wf;
use crate::memory::usable_frames_of;
use crate::memory::MemoryRegion;
use crate::memory::PhysicalFrameAllocator;
use vstd::pervasive::VecAdditionalExecFns;
use vstd::prelude::*;

verus! {

/// Flag bit marking an entry as present.
pub const FLAG_PRESENT: u64 = 1;

/// Flag bit allowing writes through an entry.
pub const FLAG_WRITABLE: u64 = 2;

/// Physical frame of the text-mode video buffer.
pub const VGA_TEXT_FRAME: u64 = 0xb8000;

/// One slot of a page table: empty, a link to the next-level table (by its
/// handle in the mapper's arena), or a terminal mapping to a physical frame.
#[derive(Debug, Clone, Copy, PartialEq, Eq, Structural)]
pub enum PageTableEntry {
    Empty,
    NextTable { index: usize, flags: u64 },
    Mapped { frame: u64, flags: u64 },
}

/// Why a mapping request failed.
#[derive(Debug, Clone, Copy, PartialEq, Eq, Structural)]
pub enum MapError {
    /// The target page already has a mapping; it is left untouched.
    MappingConflict,
    /// The frame allocator ran out of frames for a needed table.
    FrameExhaustion,
}

/// The slice of `page` selecting the entry in the top-level table.
pub open spec fn l4_index(page: u64) -> u64 {
    (page >> 39) & 0x1ff
}

/// The slice of `page` selecting the entry one level below the top.
pub open spec fn l3_index(page: u64) -> u64 {
    (page >> 30) & 0x1ff
}

/// The slice of `page` selecting the entry two levels below the top.
pub open spec fn l2_index(page: u64) -> u64 {
    (page >> 21) & 0x1ff
}

/// The slice of `page` selecting the leaf entry that maps the page itself.
pub open spec fn l1_index(page: u64) -> u64 {
    (page >> 12) & 0x1ff
}

/// Whether two page addresses select the same entry at every level, and
/// so share one translation.
pub open spec fn same_translation_path(p: u64, q: u64) -> bool {
    &&& l4_index(p) == l4_index(q)
    &&& l3_index(p) == l3_index(q)
    &&& l2_index(p) == l2_index(q)
    &&& l1_index(p) == l1_index(q)
}

/// The page-table hierarchy rooted at the active top-level table.
pub struct PageMapper {
    entries: Vec<PageTableEntry>,
    num_tables: usize,
    levels: Ghost<Seq<int>>,
}

impl PageMapper {
    /// How many tables the hierarchy holds; table 0 is the root.
    pub closed spec fn table_count(self) -> int {
        self.levels@.len() as int
    }

    /// The level (4 down to 1) of table `t`.
    pub closed spec fn level_of(self, t: int) -> int {
        self.levels@[t]
    }

    /// The entry in slot `e` of table `t`.
    pub closed spec fn entry_at(self, t: int, e: int) -> PageTableEntry {
        self.entries@[t * 512 + e]
    }

    /// A single entry respects the hierarchy: links appear only above level
    /// 1 and lead to a valid table one level down; mappings appear only at
    /// level 1.
    spec fn entry_ok(self, t: int, e: int) -> bool {
        match self.entry_at(t, e) {
            PageTableEntry::Empty => true,
            PageTableEntry::NextTable { index, flags } => {
                &&& self.level_of(t) >= 2
                &&& 1 <= (index as int)
                &&& (index as int) < self.table_count()
                &&& self.level_of(index as int) == self.level_of(t) - 1
            },
            PageTableEntry::Mapped { frame, flags } => self.level_of(t) == 1,
        }
    }

    /// Whether the entry in slot `e` of table `t` links to table `target`.
    spec fn links_to(self, t: int, e: int, target: usize) -> bool {
        self.entry_at(t, e) matches PageTableEntry::NextTable { index, .. } && index == target
    }

    /// No two entries link to the same table: each table has one parent,
    /// so the tables form a tree under the root.
    spec fn links_unique(self) -> bool {
        forall|ta: int, ea: int, tb: int, eb: int, target: usize|
            #![trigger self.links_to(ta, ea, target), self.links_to(tb, eb, target)]
            0 <= ta < self.table_count() && 0 <= ea < 512 && 0 <= tb < self.table_count() && 0
                <= eb < 512 && !(ta == tb && ea == eb) ==> !(self.links_to(ta, ea, target)
                && self.links_to(tb, eb, target))
    }

    /// The mapper's invariant: a root at level 4 and tables of 512 entries
    /// each, every entry respecting the hierarchy, every table with at
    /// most one parent.
    pub closed spec fn wf(self) -> bool {
        &&& self.entries@.len() == 512 * self.levels@.len()
        &&& self.num_tables as int == self.levels@.len()
        &&& self.levels@.len() >= 1
        &&& self.levels@[0] == 4
        &&& forall|t: int| 0 <= t < self.table_count() ==> 1 <= #[trigger] self.level_of(t) <= 4
        &&& forall|t: int, e: int|
            0 <= t < self.table_count() && 0 <= e < 512 ==> #[trigger] self.entry_ok(t, e)
        &&& self.links_unique()
    }

    /// What the hierarchy resolves `page` to: the frame and flags of its
    /// leaf entry, reached through the four index slices, or nothing if the
    /// path ends early.
    pub closed spec fn walk(self, page: u64) -> Option<(u64, u64)> {
        match self.entry_at(0, l4_index(page) as int) {
            PageTableEntry::NextTable { index: t3, .. } => match self.entry_at(
                t3 as int,
                l3_index(page) as int,
            ) {
                PageTableEntry::NextTable { index: t2, .. } => match self.entry_at(
                    t2 as int,
                    l2_index(page) as int,
                ) {
                    PageTableEntry::NextTable { index: t1, .. } => match self.entry_at(
                        t1 as int,
                        l1_index(page) as int,
                    ) {
                        PageTableEntry::Mapped { frame, flags } => Some((frame, flags)),
                        _ => None,
                    },
                    _ => None,
                },
                _ => None,
            },
            _ => None,
        }
    }

    /// How many intermediate tables a mapping of `page` would still have to
    /// create: the tables missing along the page's index path.
    pub closed spec fn missing_tables(self, page: u64) -> int {
        match self.entry_at(0, l4_index(page) as int) {
            PageTableEntry::Empty => 3,
            PageTableEntry::Mapped { .. } => 3,
            PageTableEntry::NextTable { index: t3, .. } => match self.entry_at(
                t3 as int,
                l3_index(page) as int,
            ) {
                PageTableEntry::Empty => 2,
                PageTableEntry::Mapped { .. } => 2,
                PageTableEntry::NextTable { index: t2, .. } => match self.entry_at(
                    t2 as int,
                    l2_index(page) as int,
                ) {
                    PageTableEntry::NextTable { .. } => 0,
                    _ => 1,
                },
            },
        }
    }

    /// A mapping never needs more than three fresh tables.
    pub proof fn lemma_missing_tables_bound(self, page: u64)
        ensures
            0 <= self.missing_tables(page) <= 3,
    {
    }

    /// A fresh hierarchy: one empty root table, resolving no page at all.
    pub fn new() -> (m: PageMapper)
        ensures
            m.wf(),
            m.table_count() == 1,
            forall|page: u64| #[trigger] m.walk(page) is None,
            forall|page: u64| #[trigger] m.missing_tables(page) == 3,
    {
        let mut entries: Vec<PageTableEntry> = Vec::new();
        let mut k: usize = 0;
        while k < 512
            invariant
                k <= 512,
                entries@.len() == k,
                forall|i: int| 0 <= i < k ==> entries@[i] == PageTableEntry::Empty,
            decreases 512 - k,
        {
            entries.push(PageTableEntry::Empty);
            k = k + 1;
        }
        let ghost root_levels: Seq<int> = seq![4];
        let m = PageMapper { entries, num_tables: 1, levels: Ghost(root_levels) };
        proof {
            assert forall|t: int, e: int| 0 <= t < m.table_count() && 0 <= e < 512 implies
                #[trigger] m.entry_ok(t, e) by {
                assert(m.entry_at(t, e) == PageTableEntry::Empty);
            }
            assert forall|ta: int, ea: int, target: usize|
                0 <= ta < m.table_count() && 0 <= ea < 512 implies !m.links_to(ta, ea, target) by {
                assert(m.entry_at(ta, ea) == PageTableEntry::Empty);
            }
            assert forall|page: u64| #[trigger] m.walk(page) is None by {
                assert(((page >> 39) & 0x1ff) < 512) by (bit_vector);
                assert(m.entry_at(0, l4_index(page) as int) == PageTableEntry::Empty);
            }
            assert forall|page: u64| #[trigger] m.missing_tables(page) == 3 by {
                assert(((page >> 39) & 0x1ff) < 512) by (bit_vector);
                assert(m.entry_at(0, l4_index(page) as int) == PageTableEntry::Empty);
            }
        }
        m
    }

    /// Reads one entry of one table.
    fn read_entry(&self, t: usize, e: usize) -> (r: PageTableEntry)
        requires
            self.wf(),
            (t as int) < self.table_count(),
            e < 512,
        ensures
            r == self.entry_at(t as int, e as int),
    {
        let n: usize = self.entries.len();
        proof {
            assert((t as int) * 512 + (e as int) < (n as int));
        }
        self.entries[t * 512 + e]
    }

    /// Overwrites one entry of one table, leaving every other entry, and
    /// the table layout, as it was. The caller re-establishes `wf`.
    fn set_entry(&mut self, t: usize, e: usize, v: PageTableEntry)
        requires
            old(self).wf(),
            (t as int) < old(self).table_count(),
            e < 512,
        ensures
            final(self).table_count() == old(self).table_count(),
            final(self).levels@ == old(self).levels@,
            final(self).num_tables == old(self).num_tables,
            final(self).entries@.len() == old(self).entries@.len(),
            final(self).entry_at(t as int, e as int) == v,
            forall|t2: int, e2: int|
                0 <= t2 < old(self).table_count() && 0 <= e2 < 512 && !(t2 == t as int && e2
                    == e as int) ==> final(self).entry_at(t2, e2) == old(self).entry_at(t2, e2),
    {
        let n: usize = self.entries.len();
        proof {
            assert((t as int) * 512 + (e as int) < (n as int));
        }
        self.entries.set(t * 512 + e, v);
        proof {
            assert forall|t2: int, e2: int|
                0 <= t2 < old(self).table_count() && 0 <= e2 < 512 && !(t2 == t as int && e2
                    == e as int) implies self.entry_at(t2, e2) == old(self).entry_at(t2, e2) by {
                assert(t2 * 512 + e2 != (t as int) * 512 + (e as int));
            }
        }
    }

    /// Appends a fresh, empty table at the given level and returns its
    /// handle. The caller re-establishes `wf` after linking it in.
    fn add_table(&mut self, level: Ghost<int>) -> (t: usize)
        requires
            old(self).wf(),
            1 <= level@ <= 3,
        ensures
            final(self).wf(),
            t as int == old(self).table_count(),
            final(self).table_count() == old(self).table_count() + 1,
            final(self).levels@ == old(self).levels@.push(level@),
            final(self).num_tables as int == final(self).table_count(),
            final(self).entries@.len() == 512 * final(self).table_count(),
            final(self).level_of(t as int) == level@,
            forall|t2: int|
                0 <= t2 < old(self).table_count() ==> final(self).level_of(t2) == old(
                    self,
                ).level_of(t2),
            forall|t2: int, e2: int|
                0 <= t2 < old(self).table_count() && 0 <= e2 < 512 ==> final(self).entry_at(t2, e2)
                    == old(self).entry_at(t2, e2),
            forall|e2: int|
                0 <= e2 < 512 ==> final(self).entry_at(t as int, e2) == PageTableEntry::Empty,
    {
        let t: usize = self.num_tables;
        let mut k: usize = 0;
        while k < 512
            invariant
                k <= 512,
                self.entries@.len() == old(self).entries@.len() + k,
                self.entries@.take(old(self).entries@.len() as int) == old(self).entries@,
                forall|i: int|
                    old(self).entries@.len() <= i < self.entries@.len() ==> self.entries@[i]
                        == PageTableEntry::Empty,
                self.num_tables == old(self).num_tables,
                self.levels == old(self).levels,
            decreases 512 - k,
        {
            self.entries.push(PageTableEntry::Empty);
            proof {
                assert(self.entries@.take(old(self).entries@.len() as int) =~= old(
                    self,
                ).entries@);
            }
            k = k + 1;
        }
        let n: usize = self.entries.len();
        proof {
            assert((self.num_tables as int) + 1 <= (n as int));
        }
        self.num_tables = self.num_tables + 1;
        proof {
            self.levels@ = self.levels@.push(level@);
        }
        proof {
            assert forall|t2: int, e2: int|
                0 <= t2 < old(self).table_count() && 0 <= e2 < 512 implies self.entry_at(t2, e2)
                == old(self).entry_at(t2, e2) by {
                assert(t2 * 512 + e2 < 512 * old(self).table_count());
                assert(self.entries@[t2 * 512 + e2] == old(self).entries@.take(
                    old(self).entries@.len() as int,
                )[t2 * 512 + e2]);
            }
            assert forall|e2: int| 0 <= e2 < 512 implies self.entry_at(t as int, e2)
                == PageTableEntry::Empty by {
                assert(old(self).entries@.len() <= (t as int) * 512 + e2);
                assert((t as int) * 512 + e2 < self.entries@.len());
            }
            assert forall|t2: int, e2: int|
                0 <= t2 < self.table_count() && 0 <= e2 < 512 implies #[trigger] self.entry_ok(
                t2,
                e2,
            ) by {
                if t2 < old(self).table_count() {
                    assert(old(self).entry_ok(t2, e2));
                    assert(self.entry_at(t2, e2) == old(self).entry_at(t2, e2));
                } else {
                    assert(self.entry_at(t2, e2) == PageTableEntry::Empty);
                }
            }
            assert forall|t2: int| 0 <= t2 < self.table_count() implies 1 <= #[trigger] self.level_of(
                t2,
            ) <= 4 by {
                if t2 < old(self).table_count() {
                    assert(1 <= old(self).level_of(t2) <= 4);
                    assert(self.level_of(t2) == old(self).level_of(t2));
                } else {
                    assert(self.level_of(t2) == level@);
                }
            }
            assert(self.entries@.len() == 512 * self.levels@.len());
            assert(self.levels@[0] == 4);
            assert forall|ta: int, ea: int, tb: int, eb: int, target: usize|
                0 <= ta < self.table_count() && 0 <= ea < 512 && 0 <= tb < self.table_count() && 0
                    <= eb < 512 && !(ta == tb && ea == eb) implies !(self.links_to(ta, ea, target)
                && self.links_to(tb, eb, target)) by {
                if self.links_to(ta, ea, target) && self.links_to(tb, eb, target) {
                    if ta >= old(self).table_count() {
                        assert(self.entry_at(ta, ea) == PageTableEntry::Empty);
                    }
                    if tb >= old(self).table_count() {
                        assert(self.entry_at(tb, eb) == PageTableEntry::Empty);
                    }
                    assert(old(self).links_to(ta, ea, target));
                    assert(old(self).links_to(tb, eb, target));
                }
            }
        }
        t
    }

    /// A link from an empty slot to a freshly created empty table changes
    /// no translation: every page whose walk met the slot resolved to
    /// nothing before, and meets only empty tables after.
    proof fn lemma_link_to_empty_preserves_walk(
        pre: PageMapper,
        post: PageMapper,
        t: usize,
        e: usize,
        fresh: usize,
        p: u64,
    )
        requires
            pre.wf(),
            (t as int) < pre.table_count(),
            e < 512,
            fresh as int == pre.table_count(),
            post.table_count() == pre.table_count() + 1,
            pre.entry_at(t as int, e as int) == PageTableEntry::Empty,
            (post.entry_at(t as int, e as int) matches PageTableEntry::NextTable { index, .. }
                && index == fresh),
            forall|t2: int, e2: int|
                0 <= t2 < pre.table_count() && 0 <= e2 < 512 && !(t2 == t as int && e2
                    == e as int) ==> post.entry_at(t2, e2) == pre.entry_at(t2, e2),
            forall|e2: int|
                0 <= e2 < 512 ==> post.entry_at(fresh as int, e2) == PageTableEntry::Empty,
        ensures
            post.walk(p) == pre.walk(p),
    {
        let j4 = l4_index(p) as int;
        let j3 = l3_index(p) as int;
        let j2 = l2_index(p) as int;
        let j1 = l1_index(p) as int;
        assert(((p >> 39) & 0x1ff) < 512) by (bit_vector);
        assert(((p >> 30) & 0x1ff) < 512) by (bit_vector);
        assert(((p >> 21) & 0x1ff) < 512) by (bit_vector);
        assert(((p >> 12) & 0x1ff) < 512) by (bit_vector);
        if 0 == t as int && j4 == e as int {
            assert(post.entry_at(fresh as int, j3) == PageTableEntry::Empty);
        } else {
            assert(post.entry_at(0, j4) == pre.entry_at(0, j4));
            match pre.entry_at(0, j4) {
                PageTableEntry::NextTable { index: a, .. } => {
                    assert(pre.entry_ok(0, j4));
                    if a as int == t as int && j3 == e as int {
                        assert(post.entry_at(fresh as int, j2) == PageTableEntry::Empty);
                    } else {
                        assert(post.entry_at(a as int, j3) == pre.entry_at(a as int, j3));
                        match pre.entry_at(a as int, j3) {
                            PageTableEntry::NextTable { index: b, .. } => {
                                assert(pre.entry_ok(a as int, j3));
                                if b as int == t as int && j2 == e as int {
                                    assert(post.entry_at(fresh as int, j1)
                                        == PageTableEntry::Empty);
                                } else {
                                    assert(post.entry_at(b as int, j2) == pre.entry_at(
                                        b as int,
                                        j2,
                                    ));
                                    match pre.entry_at(b as int, j2) {
                                        PageTableEntry::NextTable { index: c, .. } => {
                                            assert(pre.entry_ok(b as int, j2));
                                            if !(c as int == t as int && j1 == e as int) {
                                                assert(post.entry_at(c as int, j1)
                                                    == pre.entry_at(c as int, j1));
                                            }
                                        },
                                        _ => {},
                                    }
                                }
                            },
                            _ => {},
                        }
                    }
                },
                _ => {},
            }
        }
        assert(post.walk(p) == pre.walk(p));
    }

    /// Finds the next-level table under slot `e` of table `t`, creating it
    /// from a freshly allocated frame when the slot is empty. Fails exactly
    /// when the slot is empty and the allocator is exhausted, in which case
    /// nothing changes.
    fn next_table(&mut self, t: usize, e: usize, frame_allocator: &mut PhysicalFrameAllocator) -> (r:
        Result<usize, MapError>)
        requires
            old(self).wf(),
            old(frame_allocator).wf(),
            (t as int) < old(self).table_count(),
            e < 512,
            old(self).level_of(t as int) >= 2,
        ensures
            final(self).wf(),
            final(frame_allocator).wf(),
            final(frame_allocator).regions() == old(frame_allocator).regions(),
            final(frame_allocator).offset() == old(frame_allocator).offset(),
            final(frame_allocator).total_frames() == old(frame_allocator).total_frames(),
            old(self).table_count() <= final(self).table_count(),
            forall|t2: int|
                0 <= t2 < old(self).table_count() ==> final(self).level_of(t2) == old(
                    self,
                ).level_of(t2),
            forall|p: u64| #[trigger] final(self).walk(p) == old(self).walk(p),
            match r {
                Ok(t_next) => {
                    &&& (t_next as int) < final(self).table_count()
                    &&& 1 <= t_next as int
                    &&& final(self).level_of(t_next as int) == old(self).level_of(t as int) - 1
                    &&& (final(self).entry_at(t as int, e as int) matches PageTableEntry::NextTable {
                        index,
                        ..
                    } && index == t_next)
                    &&& match old(self).entry_at(t as int, e as int) {
                        PageTableEntry::NextTable { index, .. } => {
                            &&& t_next == index
                            &&& *final(self) == *old(self)
                            &&& *final(frame_allocator) == *old(frame_allocator)
                        },
                        PageTableEntry::Empty => {
                            &&& old(frame_allocator).free_count() > 0
                            &&& final(frame_allocator).free_count() == old(
                                frame_allocator,
                            ).free_count() - 1
                            &&& final(frame_allocator).used_count() == old(
                                frame_allocator,
                            ).used_count() + 1
                            &&& t_next as int == old(self).table_count()
                            &&& final(self).table_count() == old(self).table_count() + 1
                            &&& forall|t2: int, e2: int|
                                0 <= t2 < old(self).table_count() && 0 <= e2 < 512 && !(t2
                                    == t as int && e2 == e as int) ==> final(self).entry_at(t2, e2)
                                    == old(self).entry_at(t2, e2)
                            &&& forall|e2: int|
                                0 <= e2 < 512 ==> final(self).entry_at(t_next as int, e2)
                                    == PageTableEntry::Empty
                        },
                        PageTableEntry::Mapped { .. } => false,
                    }
                },
                Err(err) => {
                    &&& err == MapError::FrameExhaustion
                    &&& old(self).entry_at(t as int, e as int) == PageTableEntry::Empty
                    &&& old(frame_allocator).free_count() == 0
                    &&& *final(self) == *old(self)
                    &&& *final(frame_allocator) == *old(frame_allocator)
                },
            },
    {
        let entry = self.read_entry(t, e);
        match entry {
            PageTableEntry::NextTable { index, .. } => {
                proof {
                    assert(old(self).entry_ok(t as int, e as int));
                }
                Ok(index)
            },
            PageTableEntry::Mapped { .. } => {
                proof {
                    // Excluded by `wf`: a mapping cannot sit above level 1.
                    assert(old(self).entry_ok(t as int, e as int));
                    assert(false);
                }
                Err(MapError::FrameExhaustion)
            },
            PageTableEntry::Empty => {
                match frame_allocator.allocate_frame() {
                    None => Err(MapError::FrameExhaustion),
                    Some(_table_frame) => {
                        // The fresh frame backs the new table in the running
                        // kernel; the model tracks the table by its handle.
                        let ghost child_level = old(self).level_of(t as int) - 1;
                        let t_next = self.add_table(Ghost(child_level));
                        let ghost grown = *self;
                        self.set_entry(
                            t,
                            e,
                            PageTableEntry::NextTable {
                                index: t_next,
                                flags: FLAG_PRESENT | FLAG_WRITABLE,
                            },
                        );
                        proof {
                            assert forall|t2: int, e2: int|
                                0 <= t2 < self.table_count() && 0 <= e2 < 512 implies
                                #[trigger] self.entry_ok(t2, e2) by {
                                if t2 == t as int && e2 == e as int {
                                    assert(self.entry_at(t2, e2) == (PageTableEntry::NextTable {
                                        index: t_next,
                                        flags: FLAG_PRESENT | FLAG_WRITABLE,
                                    }));
                                    assert(self.level_of(t2) >= 2);
                                    assert(self.level_of(t_next as int) == self.level_of(t2) - 1);
                                } else if t2 < old(self).table_count() {
                                    assert(old(self).entry_ok(t2, e2));
                                    assert(self.entry_at(t2, e2) == old(self).entry_at(t2, e2));
                                } else {
                                    assert(self.entry_at(t2, e2) == PageTableEntry::Empty);
                                }
                            }
                            assert forall|t2: int| 0 <= t2 < self.table_count() implies 1
                                <= #[trigger] self.level_of(t2) <= 4 by {
                                assert(1 <= grown.level_of(t2) <= 4);
                            }
                            assert forall|ta: int, ea: int, tb: int, eb: int, target: usize|
                                0 <= ta < self.table_count() && 0 <= ea < 512 && 0 <= tb
                                    < self.table_count() && 0 <= eb < 512 && !(ta == tb && ea
                                    == eb) implies !(self.links_to(ta, ea, target)
                                && self.links_to(tb, eb, target)) by {
                                if self.links_to(ta, ea, target) && self.links_to(
                                    tb,
                                    eb,
                                    target,
                                ) {
                                    if ta == t as int && ea == e as int {
                                        assert(target == t_next);
                                        if tb >= old(self).table_count() {
                                            assert(self.entry_at(tb, eb)
                                                == PageTableEntry::Empty);
                                        } else {
                                            assert(self.entry_at(tb, eb) == old(self).entry_at(
                                                tb,
                                                eb,
                                            ));
                                            assert(old(self).entry_ok(tb, eb));
                                        }
                                    } else if tb == t as int && eb == e as int {
                                        assert(target == t_next);
                                        if ta >= old(self).table_count() {
                                            assert(self.entry_at(ta, ea)
                                                == PageTableEntry::Empty);
                                        } else {
                                            assert(self.entry_at(ta, ea) == old(self).entry_at(
                                                ta,
                                                ea,
                                            ));
                                            assert(old(self).entry_ok(ta, ea));
                                        }
                                    } else {
                                        if ta >= old(self).table_count() {
                                            assert(self.entry_at(ta, ea)
                                                == PageTableEntry::Empty);
                                        }
                                        if tb >= old(self).table_count() {
                                            assert(self.entry_at(tb, eb)
                                                == PageTableEntry::Empty);
                                        }
                                        assert(old(self).links_to(ta, ea, target));
                                        assert(old(self).links_to(tb, eb, target));
                                    }
                                }
                            }
                            assert forall|p: u64| #[trigger] self.walk(p) == old(self).walk(
                                p,
                            ) by {
                                PageMapper::lemma_link_to_empty_preserves_walk(
                                    *old(self),
                                    *self,
                                    t,
                                    e,
                                    t_next,
                                    p,
                                );
                            }
                        }
                        Ok(t_next)
                    },
                }
            },
        }
    }

    /// Installs a mapping from the virtual page `page` to the physical
    /// frame `frame` with the given flags, creating intermediate tables on
    /// demand from `frame_allocator`.
    ///
    /// Succeeds exactly when the page resolves to nothing yet and the
    /// allocator can supply the missing tables. A page that already
    /// resolves is reported as a conflict and left untouched, together with
    /// the allocator. On exhaustion the page still resolves to nothing and
    /// the allocator is empty.
    pub fn map(
        &mut self,
        page: u64,
        frame: u64,
        flags: u64,
        frame_allocator: &mut PhysicalFrameAllocator,
    ) -> (r: Result<(), MapError>)
        requires
            old(self).wf(),
            old(frame_allocator).wf(),
            frame_aligned(page),
            frame_aligned(frame),
        ensures
            final(self).wf(),
            final(frame_allocator).wf(),
            final(frame_allocator).regions() == old(frame_allocator).regions(),
            final(frame_allocator).offset() == old(frame_allocator).offset(),
            final(frame_allocator).total_frames() == old(frame_allocator).total_frames(),
            r == Ok::<(), MapError>(()) <==> (old(self).walk(page) is None && old(
                frame_allocator,
            ).free_count() >= old(self).missing_tables(page)),
            r == Ok::<(), MapError>(()) ==> final(self).walk(page) == Some((frame, flags))
                && final(frame_allocator).used_count() == old(frame_allocator).used_count() + old(
                self,
            ).missing_tables(page) && final(self).table_count() == old(self).table_count() + old(
                self,
            ).missing_tables(page),
            r == Err::<(), MapError>(MapError::MappingConflict) <==> old(self).walk(page) is Some,
            r == Err::<(), MapError>(MapError::MappingConflict) ==> *final(self) == *old(self)
                && *final(frame_allocator) == *old(frame_allocator),
            r == Err::<(), MapError>(MapError::FrameExhaustion) ==> final(self).walk(page) is None
                && final(frame_allocator).free_count() == 0,
            forall|p: u64|
                !same_translation_path(p, page) ==> #[trigger] final(self).walk(p) == old(
                    self,
                ).walk(p),
    {
        let i4 = index_slice(page, 39);
        let i3 = index_slice(page, 30);
        let i2 = index_slice(page, 21);
        let i1 = index_slice(page, 12);
        let t3 = match self.next_table(0, i4, frame_allocator) {
            Ok(t) => t,
            Err(err) => {
                return Err(err);
            },
        };
        let ghost s1 = *self;
        let t2 = match self.next_table(t3, i3, frame_allocator) {
            Ok(t) => t,
            Err(err) => {
                return Err(err);
            },
        };
        let ghost s2 = *self;
        let t1 = match self.next_table(t2, i2, frame_allocator) {
            Ok(t) => t,
            Err(err) => {
                return Err(err);
            },
        };
        let ghost s3 = *self;
        proof {
            // The three tables of the path sit at levels 3, 2 and 1, so
            // they are pairwise distinct and none of them is the root.
            assert(s3.level_of(t3 as int) == 3 && s3.level_of(t2 as int) == 2 && s3.level_of(
                t1 as int,
            ) == 1);
        }
        let leaf = self.read_entry(t1, i1);
        match leaf {
            PageTableEntry::Mapped { .. } => Err(MapError::MappingConflict),
            PageTableEntry::NextTable { .. } => {
                proof {
                    // Excluded by `wf`: a link cannot sit at level 1.
                    assert(self.entry_ok(t1 as int, i1 as int));
                    assert(false);
                }
                Err(MapError::MappingConflict)
            },
            PageTableEntry::Empty => {
                self.set_entry(t1, i1, PageTableEntry::Mapped { frame, flags });
                proof {
                    assert forall|ta: int, ea: int|
                        0 <= ta < self.table_count() && 0 <= ea < 512 implies
                        #[trigger] self.entry_ok(ta, ea) by {
                        if ta == t1 as int && ea == i1 as int {
                            assert(self.entry_at(ta, ea) == (PageTableEntry::Mapped {
                                frame,
                                flags,
                            }));
                            assert(self.level_of(ta) == 1);
                        } else {
                            assert(s3.entry_ok(ta, ea));
                            assert(self.entry_at(ta, ea) == s3.entry_at(ta, ea));
                        }
                    }
                    assert forall|ta: int| 0 <= ta < self.table_count() implies 1
                        <= #[trigger] self.level_of(ta) <= 4 by {
                        assert(1 <= s3.level_of(ta) <= 4);
                    }
                    assert forall|ta: int, ea: int, tb: int, eb: int, target: usize|
                        0 <= ta < self.table_count() && 0 <= ea < 512 && 0 <= tb
                            < self.table_count() && 0 <= eb < 512 && !(ta == tb && ea == eb)
                        implies !(self.links_to(ta, ea, target) && self.links_to(
                        tb,
                        eb,
                        target,
                    )) by {
                        if self.links_to(ta, ea, target) && self.links_to(tb, eb, target) {
                            if ta == t1 as int && ea == i1 as int {
                                assert(self.entry_at(ta, ea) == (PageTableEntry::Mapped {
                                    frame,
                                    flags,
                                }));
                            } else if tb == t1 as int && eb == i1 as int {
                                assert(self.entry_at(tb, eb) == (PageTableEntry::Mapped {
                                    frame,
                                    flags,
                                }));
                            } else {
                                assert(self.entry_at(ta, ea) == s3.entry_at(ta, ea));
                                assert(self.entry_at(tb, eb) == s3.entry_at(tb, eb));
                                assert(s3.links_to(ta, ea, target));
                                assert(s3.links_to(tb, eb, target));
                            }
                        }
                    }
                    assert forall|p: u64| !same_translation_path(p, page) implies
                        #[trigger] self.walk(p) == s3.walk(p) by {
                        let j4 = l4_index(p) as int;
                        let j3 = l3_index(p) as int;
                        let j2 = l2_index(p) as int;
                        let j1 = l1_index(p) as int;
                        assert(((p >> 39) & 0x1ff) < 512) by (bit_vector);
                        assert(((p >> 30) & 0x1ff) < 512) by (bit_vector);
                        assert(((p >> 21) & 0x1ff) < 512) by (bit_vector);
                        assert(((p >> 12) & 0x1ff) < 512) by (bit_vector);
                        assert(self.entry_at(0, j4) == s3.entry_at(0, j4));
                        match s3.entry_at(0, j4) {
                            PageTableEntry::NextTable { index: a, .. } => {
                                assert(s3.entry_ok(0, j4));
                                assert(self.entry_at(a as int, j3) == s3.entry_at(a as int, j3));
                                match s3.entry_at(a as int, j3) {
                                    PageTableEntry::NextTable { index: b, .. } => {
                                        assert(s3.entry_ok(a as int, j3));
                                        assert(self.entry_at(b as int, j2) == s3.entry_at(
                                            b as int,
                                            j2,
                                        ));
                                        match s3.entry_at(b as int, j2) {
                                            PageTableEntry::NextTable { index: c, .. } => {
                                                assert(s3.entry_ok(b as int, j2));
                                                if c == t1 {
                                                    // One parent per table: reaching the
                                                    // leaf table forces the whole index
                                                    // path, so only the last slice can
                                                    // differ.
                                                    assert(s3.links_to(b as int, j2, t1));
                                                    assert(s3.links_to(
                                                        t2 as int,
                                                        i2 as int,
                                                        t1,
                                                    ));
                                                    assert(b as int == t2 as int && j2
                                                        == i2 as int);
                                                    assert(s3.links_to(a as int, j3, t2));
                                                    assert(s3.links_to(
                                                        t3 as int,
                                                        i3 as int,
                                                        t2,
                                                    ));
                                                    assert(a as int == t3 as int && j3
                                                        == i3 as int);
                                                    assert(s3.links_to(0, j4, t3));
                                                    assert(s3.links_to(0, i4 as int, t3));
                                                    assert(j4 == i4 as int);
                                                    assert(j1 != i1 as int);
                                                    assert(self.entry_at(c as int, j1)
                                                        == s3.entry_at(c as int, j1));
                                                } else {
                                                    assert(self.entry_at(c as int, j1)
                                                        == s3.entry_at(c as int, j1));
                                                }
                                            },
                                            _ => {},
                                        }
                                    },
                                    _ => {},
                                }
                            },
                            _ => {},
                        }
                        assert(self.walk(p) == s3.walk(p));
                    }
                    assert(self.entry_at(0, i4 as int) == s3.entry_at(0, i4 as int));
                    assert(self.entry_at(t3 as int, i3 as int) == s3.entry_at(
                        t3 as int,
                        i3 as int,
                    ));
                    assert(self.entry_at(t2 as int, i2 as int) == s3.entry_at(
                        t2 as int,
                        i2 as int,
                    ));
                    assert(s3.entry_at(0, i4 as int) matches PageTableEntry::NextTable {
                        index,
                        ..
                    } && index == t3);
                    assert(s3.entry_at(t3 as int, i3 as int) matches PageTableEntry::NextTable {
                        index,
                        ..
                    } && index == t2);
                    assert(self.walk(page) == Some((frame, flags)));
                }
                Ok(())
            },
        }
    }

    /// Reads the mapping the hierarchy currently resolves `page` to.
    pub fn translate(&self, page: u64) -> (r: Option<(u64, u64)>)
        requires
            self.wf(),
        ensures
            r == self.walk(page),
    {
        let i4 = index_slice(page, 39);
        let e4 = self.read_entry(0, i4);
        let t3 = match e4 {
            PageTableEntry::NextTable { index, .. } => {
                proof {
                    assert(self.entry_ok(0, i4 as int));
                }
                index
            },
            _ => {
                return None;
            },
        };
        let i3 = index_slice(page, 30);
        let e3 = self.read_entry(t3, i3);
        let t2 = match e3 {
            PageTableEntry::NextTable { index, .. } => {
                proof {
                    assert(self.entry_ok(t3 as int, i3 as int));
                }
                index
            },
            _ => {
                return None;
            },
        };
        let i2 = index_slice(page, 21);
        let e2 = self.read_entry(t2, i2);
        let t1 = match e2 {
            PageTableEntry::NextTable { index, .. } => {
                proof {
                    assert(self.entry_ok(t2 as int, i2 as int));
                }
                index
            },
            _ => {
                return None;
            },
        };
        let i1 = index_slice(page, 12);
        let e1 = self.read_entry(t1, i1);
        match e1 {
            PageTableEntry::Mapped { frame, flags } => Some((frame, flags)),
            _ => None,
        }
    }
}

/// The 9-bit table index starting at bit `shift` of a page address.
fn index_slice(page: u64, shift: u64) -> (i: usize)
    requires
        shift == 39 || shift == 30 || shift == 21 || shift == 12,
    ensures
        i < 512,
        i as u64 == ((page >> shift) & 0x1ff),
        shift == 39 ==> i as u64 == l4_index(page),
        shift == 30 ==> i as u64 == l3_index(page),
        shift == 21 ==> i as u64 == l2_index(page),
        shift == 12 ==> i as u64 == l1_index(page),
{
    let v: u64 = (page >> shift) & 0x1ff;
    proof {
        assert(((page >> shift) & 0x1ff) < 512) by (bit_vector);
    }
    v as usize
}

/// Builds the memory-management pair the kernel boots with: the page
/// mapper over the active top-level table — which the shell reads from the
/// control register and reaches through the offset mapping — and the frame
/// allocator over the boot-time memory map. The mapper starts with no
/// kernel-installed entries. Must run once per boot.
pub fn init(memory_map: &Vec<MemoryRegion>, physical_memory_offset: u64) -> (r: (
    PageMapper,
    PhysicalFrameAllocator,
))
    requires
        memory_map_wf(memory_map@),
    ensures
        r.0.wf(),
        forall|page: u64| #[trigger] r.0.walk(page) is None,
        r.1.wf(),
        r.1.regions() == memory_map@,
        r.1.offset() == physical_memory_offset,
        r.1.used_count() == 0,
        r.1.free_count() as int == usable_frames_of(memory_map@).len(),
{
    let mapper = PageMapper::new();
    let frame_allocator = PhysicalFrameAllocator::init(memory_map, physical_memory_offset);
    (mapper, frame_allocator)
}

/// Maps `page` to the text-mode video buffer frame with present and
/// writable flags, as the boot demonstration does before writing through
/// the new page.
pub fn create_example_mapping(
    page: u64,
    mapper: &mut PageMapper,
    frame_allocator: &mut PhysicalFrameAllocator,
)
    requires
        old(mapper).wf(),
        old(frame_allocator).wf(),
        frame_aligned(page),
        old(mapper).walk(page) is None,
        old(frame_allocator).free_count() >= old(mapper).missing_tables(page),
    ensures
        final(mapper).wf(),
        final(frame_allocator).wf(),
        final(mapper).walk(page) == Some((VGA_TEXT_FRAME, FLAG_PRESENT | FLAG_WRITABLE)),
{
    let r = mapper.map(page, VGA_TEXT_FRAME, FLAG_PRESENT | FLAG_WRITABLE, frame_allocator);
    proof {
        assert(r is Ok);
    }
}

} // verus!
