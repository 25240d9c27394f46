use bootloader::frame_allocator::LegacyFrameAllocator;
use bootloader::handoff::{
    create_boot_info, decode_region, decode_regions, encode_region, encode_regions,
    BOOT_INFO_ALIGN, BOOT_INFO_HEADER_SIZE, MEMORY_REGION_RECORD_SIZE,
};
use bootloader::info::{FrameBufferInfo, MemoryRegion, MemoryRegionKind, Optional};
use bootloader::level_4_entries::UsedLevel4Entries;
use bootloader::mappings::{MapError, Mappings, SystemInfo};
use bootloader::memory_map::E820MemoryRegion;

fn sample_regions() -> Vec<MemoryRegion> {
    vec![
        MemoryRegion { start: 0, end: 0x100000, kind: MemoryRegionKind::Usable },
        MemoryRegion { start: 0x100000, end: 0x104000, kind: MemoryRegionKind::Bootloader },
        MemoryRegion { start: 0x104000, end: 0x500000, kind: MemoryRegionKind::Unknown(7) },
    ]
}

#[test]
fn scenario_three_records_round_trip() {
    let regions = sample_regions();
    let bytes = encode_regions(&regions);
    assert_eq!(bytes.len(), 24 * regions.len());
    let back = decode_regions(&bytes, regions.len());
    assert_eq!(back, regions);
}

#[test]
fn single_record_round_trip_all_kinds() {
    for kind in [
        MemoryRegionKind::Usable,
        MemoryRegionKind::Bootloader,
        MemoryRegionKind::Unknown(0),
        MemoryRegionKind::Unknown(0xdead_beef),
    ] {
        let r = MemoryRegion { start: 0x1234_5678_9abc_def0, end: u64::MAX, kind };
        let bytes = encode_region(&r);
        assert_eq!(decode_region(&bytes, 0), r);
    }
}

#[test]
fn record_bytes_exact_layout() {
    let r = MemoryRegion { start: 0x0102_0304_0506_0708, end: 0x1112_1314_1516_1718, kind: MemoryRegionKind::Unknown(0x2122_2324) };
    let bytes = encode_region(&r);
    assert_eq!(
        bytes,
        vec![
            0x08, 0x07, 0x06, 0x05, 0x04, 0x03, 0x02, 0x01, // start, little-endian
            0x18, 0x17, 0x16, 0x15, 0x14, 0x13, 0x12, 0x11, // end, little-endian
            0x02, 0x00, 0x00, 0x00, // tag 2: unknown
            0x24, 0x23, 0x22, 0x21, // raw firmware type
        ]
    );
}

#[test]
fn decode_reads_at_offset() {
    let regions = sample_regions();
    let bytes = encode_regions(&regions);
    assert_eq!(decode_region(&bytes, 24), regions[1]);
}

#[test]
fn boot_info_block_layout_and_contents() {
    let catalog = vec![
        E820MemoryRegion { start_addr: 0, len: 0x100000, region_type: 1 },
        E820MemoryRegion { start_addr: 0x100000, len: 0x400000, region_type: 1 },
    ];
    let mut allocator = LegacyFrameAllocator::new_starting_at(0x101000, catalog);
    for _ in 0..3 {
        allocator.allocate_frame().unwrap();
    }
    let mut tracker = UsedLevel4Entries::new();
    // Slots 1 and 2 were claimed earlier for the stack and framebuffer.
    tracker.get_free_entry().unwrap();
    tracker.get_free_entry().unwrap();
    let mut mappings = Mappings {
        entry_point: 0x40_0042,
        stack_end: 0x80_0000_0000 + 19 * 4096,
        used_entries: tracker,
        framebuffer: 0x100_0000_0000,
        tls_template: None,
    };
    let system_info = SystemInfo {
        framebuffer_addr: 0xb8000,
        framebuffer_info: FrameBufferInfo {
            byte_len: 4000,
            horizontal_resolution: 80,
            vertical_resolution: 25,
        },
        rsdp_addr: Some(0xe_0000),
    };
    let (boot_info, plan) = create_boot_info(allocator, &mut mappings, system_info).unwrap();

    // Slot 3 is the first free one; the block is aligned as required.
    assert_eq!(plan.block_addr, 0x180_0000_0000);
    assert_eq!(plan.block_addr % BOOT_INFO_ALIGN, 0);
    assert_eq!(
        plan.block_size,
        BOOT_INFO_HEADER_SIZE + MEMORY_REGION_RECORD_SIZE * 3
    );
    assert_eq!(plan.pages.len(), 1);
    assert_eq!(plan.pages[0].0, plan.block_addr);
    // The block's backing frame continues the allocation sequence.
    assert_eq!(plan.pages[0].1, 0x104000);

    // The final map shows the three boot-info-owned frames and the
    // block's own frame as bootloader-owned.
    assert_eq!(boot_info.memory_regions.len(), 3);
    assert_eq!(
        boot_info.memory_regions.get(0),
        MemoryRegion { start: 0, end: 0x100000, kind: MemoryRegionKind::Usable }
    );
    assert_eq!(
        boot_info.memory_regions.get(1),
        MemoryRegion { start: 0x100000, end: 0x105000, kind: MemoryRegionKind::Bootloader }
    );
    assert_eq!(
        boot_info.memory_regions.get(2),
        MemoryRegion { start: 0x105000, end: 0x500000, kind: MemoryRegionKind::Usable }
    );

    assert_eq!(boot_info.framebuffer.buffer_start, 0x100_0000_0000);
    assert_eq!(boot_info.framebuffer.buffer_byte_len, 4000);
    assert_eq!(boot_info.rsdp_addr, Optional::Present(0xe_0000));
    assert_eq!(boot_info.tls_template, Optional::Absent);
}

#[test]
fn boot_info_fails_without_free_slot() {
    let catalog = vec![E820MemoryRegion { start_addr: 0, len: 0x100000, region_type: 1 }];
    let allocator = LegacyFrameAllocator::new_starting_at(0, catalog);
    let mut tracker = UsedLevel4Entries::new();
    for i in 0..512u16 {
        tracker.mark_p4_index_as_used(i);
    }
    let mut mappings = Mappings {
        entry_point: 0x40_0000,
        stack_end: 0,
        used_entries: tracker,
        framebuffer: 0,
        tls_template: None,
    };
    let system_info = SystemInfo {
        framebuffer_addr: 0xb8000,
        framebuffer_info: FrameBufferInfo {
            byte_len: 4000,
            horizontal_resolution: 80,
            vertical_resolution: 25,
        },
        rsdp_addr: None,
    };
    assert!(matches!(
        create_boot_info(allocator, &mut mappings, system_info),
        Err(MapError::NoVirtualSlot)
    ));
}
