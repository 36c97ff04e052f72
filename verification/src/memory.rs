//! Physical frame allocator and address translator.
//!
//! The boot environment hands the kernel an ordered memory map of physical
//! address ranges. The allocator partitions every usable range into
//! 4096-byte frames and hands those frames out one at a time; it never takes
//! a frame back. All of physical memory is linearly mapped into virtual
//! memory at a fixed offset, so a physical address becomes a kernel-visible
//! virtual address by adding that offset.
//!
//! The kernel proper threads an intrusive free list through the frames
//! themselves; the list order is exactly the order in which the usable
//! ranges produce frames. This module keeps the same order in an owned
//! vector of frame addresses, with a cursor separating the frames already
//! handed out from the frames still free.

use vstd::arithmetic::div_mod::lemma_fundamental_div_mod;
use vstd::arithmetic::div_mod::lemma_mod_multiples_basic;
use vstd::prelude::*;

verus! {

/// Size in bytes of one physical frame and of one virtual page.
pub const FRAME_SIZE: u64 = 4096;

/// Classification of a memory-map range as reported by the boot environment.
#[derive(Debug, Clone, Copy, PartialEq, Eq, Structural)]
pub enum MemoryRegionKind {
    /// Free for the kernel to hand out as frames.
    Usable,
    /// Owned by firmware or devices; never handed out.
    Reserved,
    /// Any other tag from the boot environment; never handed out.
    Other,
}

/// One record of the boot-time memory map: the physical addresses
/// `start..end` tagged with a region kind.
#[derive(Debug, Clone, Copy, PartialEq, Eq, Structural)]
pub struct MemoryRegion {
    pub start: u64,
    pub end: u64,
    pub kind: MemoryRegionKind,
}

/// Whether `addr` is the start of a frame.
pub open spec fn frame_aligned(addr: u64) -> bool {
    addr % FRAME_SIZE == 0
}

/// The lowest frame-aligned address at or above `start`.
pub open spec fn first_frame_addr(start: u64) -> int {
    if start % FRAME_SIZE == 0 {
        start as int
    } else {
        start as int - (start % FRAME_SIZE) as int + FRAME_SIZE as int
    }
}

/// The frame start addresses `f, f + 4096, ...` of every whole frame that
/// fits below `end`.
pub open spec fn frames_from(f: int, end: int) -> Seq<u64>
    decreases end - f,
{
    if f + FRAME_SIZE as int <= end {
        seq![f as u64] + frames_from(f + FRAME_SIZE as int, end)
    } else {
        Seq::empty()
    }
}

/// The frames a single region contributes: every whole frame lying inside
/// `start..end`, a partial trailing frame discarded.
pub open spec fn region_frames(r: MemoryRegion) -> Seq<u64> {
    frames_from(first_frame_addr(r.start), r.end as int)
}

/// The free list the allocator builds: the frames of each usable region, in
/// the order the regions were given.
pub open spec fn usable_frames_of(map: Seq<MemoryRegion>) -> Seq<u64>
    decreases map.len(),
{
    if map.len() == 0 {
        Seq::empty()
    } else {
        (if map[0].kind == MemoryRegionKind::Usable {
            region_frames(map[0])
        } else {
            Seq::empty()
        }) + usable_frames_of(map.skip(1))
    }
}

/// What the boot environment guarantees of the memory map: each range is
/// ordered, and the ranges come in address order without overlap.
pub open spec fn memory_map_wf(map: Seq<MemoryRegion>) -> bool {
    &&& forall|i: int| 0 <= i < map.len() ==> (#[trigger] map[i]).start <= map[i].end
    &&& forall|i: int, j: int|
        #![trigger map[i], map[j]]
        0 <= i < j < map.len() ==> map[i].end <= map[j].start
}

/// Whether the frame starting at `addr` lies wholly inside some usable
/// region of `map`.
pub open spec fn in_usable_region(map: Seq<MemoryRegion>, addr: u64) -> bool {
    exists|k: int|
        0 <= k < map.len() && (#[trigger] map[k]).kind == MemoryRegionKind::Usable
            && map[k].start <= addr && addr as int + FRAME_SIZE as int <= map[k].end as int
}

/// The first frame-aligned address at or above `start` is aligned, is not
/// below `start`, and is less than one frame above it.
pub proof fn lemma_first_frame_addr(start: u64)
    ensures
        first_frame_addr(start) % (FRAME_SIZE as int) == 0,
        start as int <= first_frame_addr(start) < start as int + FRAME_SIZE as int,
{
    if start % FRAME_SIZE != 0 {
        let q = start as int / (FRAME_SIZE as int);
        let rem = (start % FRAME_SIZE) as int;
        lemma_fundamental_div_mod(start as int, FRAME_SIZE as int);
        assert(first_frame_addr(start) == (q + 1) * (FRAME_SIZE as int)) by (nonlinear_arith)
            requires
                start as int == (FRAME_SIZE as int) * q + rem,
                first_frame_addr(start) == start as int - rem + FRAME_SIZE as int,
        ;
        lemma_mod_multiples_basic(q + 1, FRAME_SIZE as int);
    }
}

/// Every address in `frames_from(f, end)` is at least `f`, leaves a whole
/// frame below `end`, is aligned whenever `f` is, and the addresses are
/// strictly increasing.
pub proof fn lemma_frames_from_props(f: int, end: int)
    requires
        0 <= f,
        end <= u64::MAX as int,
    ensures
        forall|i: int|
            0 <= i < frames_from(f, end).len() ==> f <= (#[trigger] frames_from(f, end)[i]) as int
                && frames_from(f, end)[i] as int + FRAME_SIZE as int <= end,
        f % (FRAME_SIZE as int) == 0 ==> forall|i: int|
            0 <= i < frames_from(f, end).len() ==> frame_aligned(#[trigger] frames_from(f, end)[i]),
        forall|i: int, j: int|
            0 <= i < j < frames_from(f, end).len() ==> frames_from(f, end)[i] < frames_from(
                f,
                end,
            )[j],
    decreases end - f,
{
    if f + FRAME_SIZE as int <= end {
        lemma_frames_from_props(f + FRAME_SIZE as int, end);
        let s = frames_from(f, end);
        let t = frames_from(f + FRAME_SIZE as int, end);
        assert(s == seq![f as u64] + t);
        assert(s[0] == f as u64);
        assert(forall|i: int| 1 <= i < s.len() ==> #[trigger] s[i] == t[i - 1]);
        if f % (FRAME_SIZE as int) == 0 {
            assert((f + FRAME_SIZE as int) % (FRAME_SIZE as int) == 0) by (nonlinear_arith)
                requires
                    f % (FRAME_SIZE as int) == 0,
            ;
        }
    }
}

/// Every frame of the free list built from a well-formed memory map is
/// aligned and lies wholly inside a usable region, and the list is strictly
/// increasing, so no frame appears twice.
pub proof fn lemma_usable_frames_props(map: Seq<MemoryRegion>)
    requires
        memory_map_wf(map),
    ensures
        forall|i: int|
            0 <= i < usable_frames_of(map).len() ==> frame_aligned(
                #[trigger] usable_frames_of(map)[i],
            ) && in_usable_region(map, usable_frames_of(map)[i]),
        forall|i: int, j: int|
            0 <= i < j < usable_frames_of(map).len() ==> usable_frames_of(map)[i]
                < usable_frames_of(map)[j],
    decreases map.len(),
{
    if map.len() > 0 {
        let head = map[0];
        let rest = map.skip(1);
        assert(forall|i: int| 0 <= i < rest.len() ==> #[trigger] rest[i] == map[i + 1]);
        lemma_usable_frames_props(rest);
        let s = usable_frames_of(map);
        let hs: Seq<u64> = if head.kind == MemoryRegionKind::Usable {
            region_frames(head)
        } else {
            Seq::empty()
        };
        let rs = usable_frames_of(rest);
        assert(s == hs + rs);
        lemma_first_frame_addr(head.start);
        lemma_frames_from_props(first_frame_addr(head.start), head.end as int);

        // Frames of the head region are aligned, inside the head region, and
        // strictly increasing.
        assert forall|i: int| 0 <= i < hs.len() implies frame_aligned(#[trigger] s[i])
            && in_usable_region(map, s[i]) by {
            assert(s[i] == hs[i]);
            assert(head.start as int <= first_frame_addr(head.start) <= hs[i] as int);
            assert(map[0].kind == MemoryRegionKind::Usable && map[0].start <= s[i]
                && s[i] as int + FRAME_SIZE as int <= map[0].end as int);
        }
        // Frames of the remaining regions carry their facts up, with the
        // witness region shifted by one.
        assert forall|i: int| hs.len() <= i < s.len() implies frame_aligned(#[trigger] s[i])
            && in_usable_region(map, s[i]) by {
            assert(s[i] == rs[i - hs.len()]);
            let k = choose|k: int|
                0 <= k < rest.len() && (#[trigger] rest[k]).kind == MemoryRegionKind::Usable
                    && rest[k].start <= s[i] && s[i] as int + FRAME_SIZE as int
                    <= rest[k].end as int;
            assert(map[k + 1].kind == MemoryRegionKind::Usable && map[k + 1].start <= s[i]
                && s[i] as int + FRAME_SIZE as int <= map[k + 1].end as int);
        }
        // Strict order across the region boundary: head frames end below the
        // head region's end, which precedes the start of every later region.
        assert forall|i: int, j: int| 0 <= i < j < s.len() implies s[i] < s[j] by {
            if i < hs.len() && j >= hs.len() {
                assert(s[i] == hs[i] && s[j] == rs[j - hs.len()]);
                let k = choose|k: int|
                    0 <= k < rest.len() && (#[trigger] rest[k]).kind == MemoryRegionKind::Usable
                        && rest[k].start <= s[j] && s[j] as int + FRAME_SIZE as int
                        <= rest[k].end as int;
                assert(map[0].end <= map[k + 1].start);
                assert(s[i] as int + FRAME_SIZE as int <= head.end as int);
            }
        }
    }
}

/// Hands out the usable physical frames described by the boot-time memory
/// map, one at a time and each at most once.
pub struct PhysicalFrameAllocator {
    physical_memory_offset: u64,
    frames: Vec<u64>,
    free_frame_count: u64,
    used_frame_count: u64,
    regions: Ghost<Seq<MemoryRegion>>,
}

impl PhysicalFrameAllocator {
    /// The fixed virtual offset at which physical memory is mapped.
    pub closed spec fn offset(self) -> u64 {
        self.physical_memory_offset
    }

    /// The memory map the allocator was built from.
    pub closed spec fn regions(self) -> Seq<MemoryRegion> {
        self.regions@
    }

    /// How many frames the memory map yielded in total.
    pub closed spec fn total_frames(self) -> int {
        self.frames@.len() as int
    }

    pub closed spec fn used_count(self) -> u64 {
        self.used_frame_count
    }

    pub closed spec fn free_count(self) -> u64 {
        self.free_frame_count
    }

    /// The frames handed out so far, oldest first.
    pub closed spec fn allocated(self) -> Seq<u64> {
        self.frames@.take(self.used_frame_count as int)
    }

    /// The frames still free, in the order they will be handed out.
    pub closed spec fn free_list(self) -> Seq<u64> {
        self.frames@.skip(self.used_frame_count as int)
    }

    /// The allocator's invariant: its frames are exactly the usable frames
    /// of its well-formed memory map, and the two counters partition them.
    pub closed spec fn wf(self) -> bool {
        &&& self.frames@ == usable_frames_of(self.regions@)
        &&& memory_map_wf(self.regions@)
        &&& self.used_frame_count as int + self.free_frame_count as int == self.frames@.len()
    }

    /// Builds the allocator from the boot-time memory map: every whole frame
    /// of every usable region joins the free list, in map order; nothing is
    /// used yet. Must run once per boot: the kernel shell also threads the
    /// free-list headers through the frames themselves, which destroys their
    /// prior contents.
    pub fn init(memory_map: &Vec<MemoryRegion>, physical_memory_offset: u64) -> (a:
        PhysicalFrameAllocator)
        requires
            memory_map_wf(memory_map@),
        ensures
            a.wf(),
            a.regions() == memory_map@,
            a.offset() == physical_memory_offset,
            a.used_count() == 0,
            a.free_list() == usable_frames_of(memory_map@),
            a.free_count() as int == usable_frames_of(memory_map@).len(),
    {
        let frames = PhysicalFrameAllocator::usable_frames(memory_map);
        let count: u64 = frames.len() as u64;
        PhysicalFrameAllocator {
            physical_memory_offset,
            frames,
            free_frame_count: count,
            used_frame_count: 0,
            regions: Ghost(memory_map@),
        }
    }

    /// Collects the start address of every whole frame inside every usable
    /// region of the memory map, in map order.
    fn usable_frames(memory_map: &Vec<MemoryRegion>) -> (frames: Vec<u64>)
        ensures
            frames@ == usable_frames_of(memory_map@),
    {
        let mut frames: Vec<u64> = Vec::new();
        let mut ri: usize = 0;
        proof {
            assert(memory_map@.skip(0) =~= memory_map@);
            assert(frames@ + usable_frames_of(memory_map@) =~= usable_frames_of(memory_map@));
        }
        while ri < memory_map.len()
            invariant
                ri <= memory_map.len(),
                frames@ + usable_frames_of(memory_map@.skip(ri as int)) == usable_frames_of(
                    memory_map@,
                ),
            decreases memory_map.len() - ri,
        {
            let r = memory_map[ri];
            proof {
                assert(memory_map@.skip(ri as int)[0] == r);
                assert(memory_map@.skip(ri as int).skip(1) =~= memory_map@.skip(ri as int + 1));
            }
            if r.kind == MemoryRegionKind::Usable {
                let rem: u64 = r.start % FRAME_SIZE;
                if rem == 0 || r.start - rem <= u64::MAX - FRAME_SIZE {
                    let mut f: u64 = if rem == 0 {
                        r.start
                    } else {
                        r.start - rem + FRAME_SIZE
                    };
                    proof {
                        assert(f as int == first_frame_addr(r.start));
                    }
                    let ghost pre_frames: Seq<u64> = frames@;
                    while f < r.end && r.end - f >= FRAME_SIZE
                        invariant
                            frames@ + frames_from(f as int, r.end as int) == pre_frames
                                + region_frames(r),
                        decreases r.end as int - f as int,
                    {
                        frames.push(f);
                        proof {
                            assert(frames@ + frames_from(
                                f as int + FRAME_SIZE as int,
                                r.end as int,
                            ) =~= pre_frames + region_frames(r));
                        }
                        f = f + FRAME_SIZE;
                    }
                    proof {
                        assert(frames@ =~= pre_frames + region_frames(r));
                    }
                } else {
                    proof {
                        // The first aligned address overflows the address
                        // space, so the region yields no frames.
                        assert(first_frame_addr(r.start) + FRAME_SIZE as int > r.end as int);
                        assert(region_frames(r) =~= Seq::<u64>::empty());
                    }
                }
            }
            proof {
                let m = memory_map@;
                let hs: Seq<u64> = if r.kind == MemoryRegionKind::Usable {
                    region_frames(r)
                } else {
                    Seq::empty()
                };
                assert(usable_frames_of(m.skip(ri as int)) == hs + usable_frames_of(
                    m.skip(ri as int + 1),
                ));
                assert(frames@ + usable_frames_of(m.skip(ri as int + 1)) =~= usable_frames_of(m));
            }
            ri = ri + 1;
        }
        proof {
            assert(memory_map@.skip(memory_map@.len() as int) =~= Seq::<MemoryRegion>::empty());
            assert(frames@ =~= usable_frames_of(memory_map@));
        }
        frames
    }

    /// Pops the head of the free list and returns its physical address, or
    /// returns nothing once every frame has been handed out. A returned
    /// frame never comes back: the caller owns it from here on.
    pub fn allocate_frame(&mut self) -> (r: Option<u64>)
        requires
            old(self).wf(),
        ensures
            final(self).wf(),
            final(self).regions() == old(self).regions(),
            final(self).offset() == old(self).offset(),
            final(self).total_frames() == old(self).total_frames(),
            r is None <==> old(self).free_count() == 0,
            old(self).free_count() == 0 ==> *final(self) == *old(self),
            old(self).free_count() > 0 ==> {
                &&& r == Some(old(self).free_list()[0])
                &&& final(self).free_list() == old(self).free_list().skip(1)
                &&& final(self).allocated() == old(self).allocated().push(
                    old(self).free_list()[0],
                )
                &&& !old(self).allocated().contains(old(self).free_list()[0])
                &&& final(self).free_count() == old(self).free_count() - 1
                &&& final(self).used_count() == old(self).used_count() + 1
            },
    {
        if self.free_frame_count == 0 {
            None
        } else {
            let n: usize = self.frames.len();
            proof {
                assert((self.used_frame_count as int) < (n as int));
            }
            let idx: usize = self.used_frame_count as usize;
            let frame: u64 = self.frames[idx];
            self.used_frame_count = self.used_frame_count + 1;
            self.free_frame_count = self.free_frame_count - 1;
            proof {
                let u = old(self).used_frame_count as int;
                assert(self.frames@.skip(u + 1) =~= old(self).frames@.skip(u).skip(1));
                assert(self.frames@.take(u + 1) =~= old(self).frames@.take(u).push(
                    old(self).frames@[u],
                ));
                // A frame at the head of the free list cannot already have
                // been handed out: the frame list holds no duplicates.
                if old(self).allocated().contains(old(self).free_list()[0]) {
                    let i = choose|i: int|
                        0 <= i < u && old(self).allocated()[i] == old(self).free_list()[0];
                    lemma_usable_frames_props(old(self).regions@);
                }
            }
            Some(frame)
        }
    }

    /// Returns the fixed offset at which physical memory is mapped.
    pub fn memory_offset(&self) -> (o: u64)
        ensures
            o == self.offset(),
    {
        self.physical_memory_offset
    }

    /// Returns how many frames are still free.
    pub fn free_frames(&self) -> (n: u64)
        ensures
            n == self.free_count(),
    {
        self.free_frame_count
    }

    /// Returns how many frames have been handed out.
    pub fn used_frames(&self) -> (n: u64)
        ensures
            n == self.used_count(),
    {
        self.used_frame_count
    }
}

/// Translates a physical address to the virtual address at which the boot
/// environment mapped it: the sum of the address and the fixed offset. The
/// result is dereferenceable only under the boot-time guarantee that all of
/// physical memory is mapped at that offset; this function states nothing
/// about memory, only the arithmetic.
pub fn physical_to_virtual(phys_addr: u64, physical_memory_offset: u64) -> (virt: u64)
    requires
        phys_addr + physical_memory_offset <= u64::MAX,
    ensures
        virt == phys_addr + physical_memory_offset,
{
    phys_addr + physical_memory_offset
}

/// Law: frames are never handed out twice. Any two distinct positions in
/// the allocated sequence hold distinct frame addresses.
pub proof fn lemma_no_double_allocation(a: PhysicalFrameAllocator, i: int, j: int)
    requires
        a.wf(),
        0 <= i < j < a.allocated().len(),
    ensures
        a.allocated()[i] != a.allocated()[j],
{
    lemma_usable_frames_props(a.regions());
}

/// Law: every frame ever handed out is 4096-byte aligned and lies wholly
/// inside one of the usable regions the allocator was built from.
pub proof fn lemma_frame_alignment(a: PhysicalFrameAllocator, i: int)
    requires
        a.wf(),
        0 <= i < a.allocated().len(),
    ensures
        frame_aligned(a.allocated()[i]),
        in_usable_region(a.regions(), a.allocated()[i]),
{
    lemma_usable_frames_props(a.regions());
}

/// Law: allocation fails exactly when every frame counted at construction
/// has been handed out; the free counter always holds what remains of the
/// initial total.
pub proof fn lemma_exhaustion(a: PhysicalFrameAllocator)
    requires
        a.wf(),
    ensures
        a.free_count() as int == a.total_frames() - a.used_count() as int,
        (a.free_count() == 0) <==> (a.used_count() as int == a.total_frames()),
{
}

} // verus!
