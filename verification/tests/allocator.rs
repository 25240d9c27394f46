use bootloader::frame_allocator::LegacyFrameAllocator;
use bootloader::info::{MemoryRegion, MemoryRegionKind};
use bootloader::memory_map::{max_phys_addr, E820MemoryRegion};

fn region(start_addr: u64, len: u64, region_type: u32) -> E820MemoryRegion {
    E820MemoryRegion { start_addr, len, region_type }
}

#[test]
fn scenario_three_allocations_final_map() {
    // Catalog of two usable regions, allocation floor just past a
    // 0x101000-byte kernel image.
    let catalog = vec![region(0, 0x100000, 1), region(0x100000, 0x400000, 1)];
    let mut allocator = LegacyFrameAllocator::new_starting_at(0x101000, catalog);
    assert_eq!(allocator.allocate_frame(), Some(0x101000));
    assert_eq!(allocator.allocate_frame(), Some(0x102000));
    assert_eq!(allocator.allocate_frame(), Some(0x103000));
    let map = allocator.construct_memory_map();
    assert_eq!(map.len(), 3);
    assert_eq!(
        map[0],
        MemoryRegion { start: 0, end: 0x100000, kind: MemoryRegionKind::Usable }
    );
    assert_eq!(
        map[1],
        MemoryRegion { start: 0x100000, end: 0x104000, kind: MemoryRegionKind::Bootloader }
    );
    assert_eq!(
        map[2],
        MemoryRegion { start: 0x104000, end: 0x500000, kind: MemoryRegionKind::Usable }
    );
}

#[test]
fn allocate_skips_reserved_regions() {
    let catalog = vec![
        region(0, 0x10000, 2),
        region(0x10000, 0x2000, 1),
        region(0x12000, 0x1000, 2),
    ];
    let mut allocator = LegacyFrameAllocator::new_starting_at(0, catalog);
    assert_eq!(allocator.allocate_frame(), Some(0x10000));
    assert_eq!(allocator.allocate_frame(), Some(0x11000));
    assert_eq!(allocator.allocate_frame(), None);
}

#[test]
fn allocate_aligns_unaligned_region_start() {
    // A usable region starting mid-page: the first frame is the first
    // aligned address wholly inside the region.
    let catalog = vec![region(0x1234, 0x3000, 1)];
    let mut allocator = LegacyFrameAllocator::new_starting_at(0, catalog);
    assert_eq!(allocator.allocate_frame(), Some(0x2000));
    assert_eq!(allocator.allocate_frame(), Some(0x3000));
    // 0x4000 + 0x1000 would end past 0x4234, so the region is spent.
    assert_eq!(allocator.allocate_frame(), None);
}

#[test]
fn allocate_respects_floor() {
    let catalog = vec![region(0, 0x100000, 1)];
    let mut allocator = LegacyFrameAllocator::new_starting_at(0x5000, catalog);
    let first = allocator.allocate_frame().unwrap();
    assert_eq!(first, 0x5000);
    let second = allocator.allocate_frame().unwrap();
    assert!(second > first);
    assert_eq!(second % 4096, 0);
}

#[test]
fn allocate_exhaustion_is_permanent() {
    let catalog = vec![region(0, 0x2000, 1)];
    let mut allocator = LegacyFrameAllocator::new_starting_at(0x1000, catalog);
    assert_eq!(allocator.allocate_frame(), Some(0x1000));
    assert_eq!(allocator.allocate_frame(), None);
    assert_eq!(allocator.allocate_frame(), None);
}

#[test]
fn final_map_untouched_catalog_passes_through() {
    let catalog = vec![region(0, 0x5000, 1), region(0x5000, 0x1000, 7)];
    let allocator = LegacyFrameAllocator::new_starting_at(0x8000, catalog);
    let map = allocator.construct_memory_map();
    assert_eq!(map.len(), 2);
    assert_eq!(map[0], MemoryRegion { start: 0, end: 0x5000, kind: MemoryRegionKind::Usable });
    assert_eq!(
        map[1],
        MemoryRegion { start: 0x5000, end: 0x6000, kind: MemoryRegionKind::Unknown(7) }
    );
}

#[test]
fn final_map_skips_empty_regions() {
    let catalog = vec![region(0, 0, 1), region(0x1000, 0x1000, 1)];
    let allocator = LegacyFrameAllocator::new_starting_at(0, catalog);
    let map = allocator.construct_memory_map();
    assert_eq!(map.len(), 1);
    assert_eq!(
        map[0],
        MemoryRegion { start: 0x1000, end: 0x2000, kind: MemoryRegionKind::Usable }
    );
}

#[test]
fn final_map_fully_consumed_region() {
    let catalog = vec![region(0, 0x2000, 1), region(0x2000, 0x2000, 1)];
    let mut allocator = LegacyFrameAllocator::new_starting_at(0, catalog);
    for expected in [0u64, 0x1000, 0x2000] {
        assert_eq!(allocator.allocate_frame(), Some(expected));
    }
    let map = allocator.construct_memory_map();
    assert_eq!(map.len(), 3);
    assert_eq!(
        map[0],
        MemoryRegion { start: 0, end: 0x2000, kind: MemoryRegionKind::Bootloader }
    );
    assert_eq!(
        map[1],
        MemoryRegion { start: 0x2000, end: 0x3000, kind: MemoryRegionKind::Bootloader }
    );
    assert_eq!(
        map[2],
        MemoryRegion { start: 0x3000, end: 0x4000, kind: MemoryRegionKind::Usable }
    );
}

#[test]
fn max_phys_addr_takes_topmost_end() {
    let catalog = vec![
        region(0, 0x100000, 1),
        region(0x500000, 0x100000, 2),
        region(0x200000, 0x100000, 1),
    ];
    assert_eq!(max_phys_addr(&catalog), 0x600000);
}

#[test]
fn allocate_never_repeats_frames() {
    let catalog = vec![
        region(0x1100, 0x4000, 1),
        region(0x8000, 0x1000, 2),
        region(0x9000, 0x3000, 1),
    ];
    let mut allocator = LegacyFrameAllocator::new_starting_at(0x1000, catalog.clone());
    let mut frames = Vec::new();
    while let Some(f) = allocator.allocate_frame() {
        assert_eq!(f % 4096, 0, "frame not aligned");
        assert!(f >= 0x1000, "frame below the floor");
        assert!(
            catalog
                .iter()
                .any(|r| r.region_type == 1 && r.start_addr <= f && f + 4096 <= r.start_addr + r.len),
            "frame outside every usable region"
        );
        assert!(!frames.contains(&f), "frame dispensed twice");
        frames.push(f);
    }
    assert_eq!(frames, vec![0x2000, 0x3000, 0x4000, 0x9000, 0xa000, 0xb000]);
}
