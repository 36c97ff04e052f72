use storm_core::memory::MemoryRegion;
use storm_core::memory::MemoryRegionKind;
use storm_core::memory::PhysicalFrameAllocator;
use storm_core::memory::physical_to_virtual;

fn region(start: u64, end: u64, kind: MemoryRegionKind) -> MemoryRegion {
    MemoryRegion { start, end, kind }
}

#[test]
fn single_region_yields_256_frames_then_exhausts() {
    let map = vec![region(0x100000, 0x200000, MemoryRegionKind::Usable)];
    let mut allocator = PhysicalFrameAllocator::init(&map, 0);
    assert_eq!(allocator.free_frames(), 256);
    assert_eq!(allocator.used_frames(), 0);

    let mut seen: Vec<u64> = Vec::new();
    for _ in 0..256 {
        let frame = allocator.allocate_frame().expect("frame owed while free count positive");
        assert_eq!(frame % 4096, 0);
        assert!((0x100000..0x200000).contains(&frame));
        assert!(!seen.contains(&frame), "frame handed out twice");
        seen.push(frame);
    }
    assert_eq!(allocator.free_frames(), 0);
    assert_eq!(allocator.used_frames(), 256);
    assert_eq!(allocator.allocate_frame(), None);
    assert_eq!(allocator.allocate_frame(), None);
}

#[test]
fn empty_memory_map_always_fails() {
    let map: Vec<MemoryRegion> = Vec::new();
    let mut allocator = PhysicalFrameAllocator::init(&map, 0x1000);
    assert_eq!(allocator.free_frames(), 0);
    assert_eq!(allocator.allocate_frame(), None);
}

#[test]
fn region_smaller_than_a_frame_yields_nothing() {
    let map = vec![region(0x1000, 0x1800, MemoryRegionKind::Usable)];
    let mut allocator = PhysicalFrameAllocator::init(&map, 0);
    assert_eq!(allocator.free_frames(), 0);
    assert_eq!(allocator.allocate_frame(), None);
}

#[test]
fn unaligned_region_rounds_to_whole_frames() {
    // First aligned address inside [0x100a, 0x3000) is 0x2000, and only one
    // whole frame fits below 0x3000.
    let map = vec![region(0x100a, 0x3000, MemoryRegionKind::Usable)];
    let mut allocator = PhysicalFrameAllocator::init(&map, 0);
    assert_eq!(allocator.free_frames(), 1);
    assert_eq!(allocator.allocate_frame(), Some(0x2000));
    assert_eq!(allocator.allocate_frame(), None);
}

#[test]
fn region_at_the_top_of_the_address_space_yields_nothing() {
    // No whole aligned frame fits between the unaligned start and the end
    // of the address space.
    let map = vec![region(u64::MAX - 100, u64::MAX, MemoryRegionKind::Usable)];
    let mut allocator = PhysicalFrameAllocator::init(&map, 0);
    assert_eq!(allocator.free_frames(), 0);
    assert_eq!(allocator.allocate_frame(), None);
}

#[test]
fn reserved_regions_are_skipped() {
    let map = vec![
        region(0x1000, 0x3000, MemoryRegionKind::Usable),
        region(0x3000, 0x9000, MemoryRegionKind::Reserved),
        region(0x9000, 0xb000, MemoryRegionKind::Other),
        region(0xb000, 0xd000, MemoryRegionKind::Usable),
    ];
    let mut allocator = PhysicalFrameAllocator::init(&map, 0);
    assert_eq!(allocator.free_frames(), 4);
    // Frames come out in map order, first usable region first.
    assert_eq!(allocator.allocate_frame(), Some(0x1000));
    assert_eq!(allocator.allocate_frame(), Some(0x2000));
    assert_eq!(allocator.allocate_frame(), Some(0xb000));
    assert_eq!(allocator.allocate_frame(), Some(0xc000));
    assert_eq!(allocator.allocate_frame(), None);
}

#[test]
fn translation_adds_the_fixed_offset() {
    assert_eq!(physical_to_virtual(0xb8000, 0), 0xb8000);
    assert_eq!(physical_to_virtual(0x1000, 0xffff_8000_0000_0000), 0xffff_8000_0000_1000);

    let map = vec![region(0x100000, 0x101000, MemoryRegionKind::Usable)];
    let allocator = PhysicalFrameAllocator::init(&map, 0xffff_8000_0000_0000);
    assert_eq!(allocator.memory_offset(), 0xffff_8000_0000_0000);
}
