use storm_core::memory::MemoryRegion;
use storm_core::memory::MemoryRegionKind;
use storm_core::paging;
use storm_core::paging::MapError;
use storm_core::paging::PageMapper;
use storm_core::paging::FLAG_PRESENT;
use storm_core::paging::FLAG_WRITABLE;
use storm_core::paging::VGA_TEXT_FRAME;

fn boot_pair(frames: u64) -> (PageMapper, storm_core::memory::PhysicalFrameAllocator) {
    let map = vec![MemoryRegion {
        start: 0x100000,
        end: 0x100000 + frames * 4096,
        kind: MemoryRegionKind::Usable,
    }];
    paging::init(&map, 0)
}

#[test]
fn fresh_mapper_resolves_nothing() {
    let (mapper, _allocator) = boot_pair(8);
    assert_eq!(mapper.translate(0xdeadbeef000), None);
    assert_eq!(mapper.translate(0), None);
}

#[test]
fn map_then_translate_returns_frame_and_flags() {
    let (mut mapper, mut allocator) = boot_pair(8);
    let flags = FLAG_PRESENT | FLAG_WRITABLE;
    let r = mapper.map(0xdeadbeef000, 0xb8000, flags, &mut allocator);
    assert_eq!(r, Ok(()));
    assert_eq!(mapper.translate(0xdeadbeef000), Some((0xb8000, flags)));
    // Three intermediate tables were created from the allocator.
    assert_eq!(allocator.used_frames(), 3);
    assert_eq!(allocator.free_frames(), 5);
}

#[test]
fn conflicting_map_fails_and_keeps_the_first_mapping() {
    let (mut mapper, mut allocator) = boot_pair(8);
    let flags = FLAG_PRESENT | FLAG_WRITABLE;
    assert_eq!(mapper.map(0xdeadbeef000, 0xb8000, flags, &mut allocator), Ok(()));
    let second = mapper.map(0xdeadbeef000, 0xc0000, flags, &mut allocator);
    assert_eq!(second, Err(MapError::MappingConflict));
    assert_eq!(mapper.translate(0xdeadbeef000), Some((0xb8000, flags)));
    assert_eq!(allocator.used_frames(), 3);
}

#[test]
fn mapping_the_same_frame_twice_is_still_a_conflict() {
    let (mut mapper, mut allocator) = boot_pair(8);
    let flags = FLAG_PRESENT | FLAG_WRITABLE;
    assert_eq!(mapper.map(0x1000, 0xb8000, flags, &mut allocator), Ok(()));
    assert_eq!(mapper.map(0x1000, 0xb8000, flags, &mut allocator), Err(MapError::MappingConflict));
}

#[test]
fn exhausted_allocator_fails_the_mapping() {
    let (mut mapper, mut allocator) = boot_pair(0);
    let r = mapper.map(0xdeadbeef000, 0xb8000, FLAG_PRESENT, &mut allocator);
    assert_eq!(r, Err(MapError::FrameExhaustion));
    assert_eq!(mapper.translate(0xdeadbeef000), None);
    assert_eq!(allocator.free_frames(), 0);
}

#[test]
fn partial_exhaustion_drains_the_allocator() {
    let (mut mapper, mut allocator) = boot_pair(2);
    let r = mapper.map(0xdeadbeef000, 0xb8000, FLAG_PRESENT, &mut allocator);
    assert_eq!(r, Err(MapError::FrameExhaustion));
    assert_eq!(allocator.free_frames(), 0);
    assert_eq!(mapper.translate(0xdeadbeef000), None);
}

#[test]
fn pages_sharing_a_path_reuse_the_tables() {
    let (mut mapper, mut allocator) = boot_pair(8);
    let flags = FLAG_PRESENT | FLAG_WRITABLE;
    assert_eq!(mapper.map(0xdeadbeef000, 0xb8000, flags, &mut allocator), Ok(()));
    assert_eq!(allocator.used_frames(), 3);
    // Differs only in the lowest index slice: same three tables serve it.
    assert_eq!(mapper.map(0xdeadbee0000, 0xc0000, flags, &mut allocator), Ok(()));
    assert_eq!(allocator.used_frames(), 3);
    assert_eq!(mapper.translate(0xdeadbee0000), Some((0xc0000, flags)));
    assert_eq!(mapper.translate(0xdeadbeef000), Some((0xb8000, flags)));
}

#[test]
fn distant_pages_need_their_own_tables() {
    let (mut mapper, mut allocator) = boot_pair(8);
    let flags = FLAG_PRESENT | FLAG_WRITABLE;
    assert_eq!(mapper.map(0xdeadbeef000, 0xb8000, flags, &mut allocator), Ok(()));
    // A page in a different top-level slot needs three fresh tables.
    assert_eq!(mapper.map(0x1000, 0xd0000, flags, &mut allocator), Ok(()));
    assert_eq!(allocator.used_frames(), 6);
    assert_eq!(mapper.translate(0x1000), Some((0xd0000, flags)));
}

#[test]
fn example_mapping_targets_the_video_frame() {
    let (mut mapper, mut allocator) = boot_pair(4);
    paging::create_example_mapping(0xdeadbeef000, &mut mapper, &mut allocator);
    assert_eq!(
        mapper.translate(0xdeadbeef000),
        Some((VGA_TEXT_FRAME, FLAG_PRESENT | FLAG_WRITABLE)),
    );
}
