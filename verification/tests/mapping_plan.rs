use bootloader::frame_allocator::LegacyFrameAllocator;
use bootloader::loader::LoadError;
use bootloader::mappings::{set_up_mappings, MapError};
use bootloader::memory_map::E820MemoryRegion;

fn put_u16(image: &mut [u8], off: usize, v: u16) {
    image[off] = v as u8;
    image[off + 1] = (v >> 8) as u8;
}

fn put_u32(image: &mut [u8], off: usize, v: u32) {
    for k in 0..4 {
        image[off + k] = (v >> (8 * k)) as u8;
    }
}

fn put_u64(image: &mut [u8], off: usize, v: u64) {
    for k in 0..8 {
        image[off + k] = (v >> (8 * k)) as u8;
    }
}

/// A minimal image with one loadable read-write segment of two pages at
/// 0x400000.
fn tiny_kernel() -> Vec<u8> {
    let mut image = vec![0u8; 64 + 56 + 16];
    image[0] = 0x7f;
    image[1] = b'E';
    image[2] = b'L';
    image[3] = b'F';
    image[4] = 2;
    image[5] = 1;
    put_u64(&mut image, 24, 0x40_0042);
    put_u64(&mut image, 32, 64);
    put_u16(&mut image, 54, 56);
    put_u16(&mut image, 56, 1);
    put_u32(&mut image, 64, 1); // loadable
    put_u32(&mut image, 68, 6); // read + write
    put_u64(&mut image, 72, 120); // file offset of the payload
    put_u64(&mut image, 80, 0x40_0000);
    put_u64(&mut image, 96, 16); // file size
    put_u64(&mut image, 104, 0x1800); // memory size
    image
}

fn boot_catalog() -> Vec<E820MemoryRegion> {
    vec![E820MemoryRegion { start_addr: 0, len: 0x1000_0000, region_type: 1 }]
}

#[test]
fn scenario_full_mapping_plan() {
    let kernel = tiny_kernel();
    let mut allocator = LegacyFrameAllocator::new_starting_at(0x500000, boot_catalog());
    let (mappings, plan) =
        set_up_mappings(&kernel, &mut allocator, 0xb8000, 4000, 0x7c00).unwrap();

    assert_eq!(mappings.entry_point, 0x40_0042);
    assert_eq!(mappings.tls_template, None);

    // The kernel occupies slot 0 (reserved anyway); the stack claims
    // slot 1 and the framebuffer slot 2.
    assert_eq!(mappings.stack_end, 0x80_0000_0000 + 19 * 4096);
    assert_eq!(mappings.framebuffer, 0x100_0000_0000);

    // Kernel segment: two pages from 0x400000, frames from the floor up.
    assert_eq!(plan.kernel_segments.len(), 1);
    let seg = &plan.kernel_segments[0];
    assert_eq!(seg.start_page, 0x40_0000);
    assert_eq!(seg.frames, vec![0x500000, 0x501000]);
    assert!(seg.writable);
    assert!(!seg.executable);

    // Twenty consecutive stack pages, each backed by the next frame.
    assert_eq!(plan.stack_pages.len(), 20);
    for (i, (page, frame)) in plan.stack_pages.iter().enumerate() {
        assert_eq!(*page, 0x80_0000_0000 + 4096 * i as u64);
        assert_eq!(*frame, 0x502000 + 4096 * i as u64);
    }

    // The context switch routine's two frames are identity-mapped.
    assert_eq!(plan.context_switch_frames, vec![0x7000, 0x8000]);

    // The descriptor table gets the next fresh frame.
    assert_eq!(plan.gdt_frame, 0x516000);

    // The framebuffer needs one page and keeps its physical frame.
    assert_eq!(plan.framebuffer_pages, vec![(0x100_0000_0000, 0xb8000)]);
}

#[test]
fn mapping_rejects_malformed_image() {
    let garbage = vec![0u8; 32];
    let mut allocator = LegacyFrameAllocator::new_starting_at(0x500000, boot_catalog());
    assert!(matches!(
        set_up_mappings(&garbage, &mut allocator, 0xb8000, 4000, 0x7c00),
        Err(MapError::Image(LoadError::BadHeader))
    ));
}

#[test]
fn mapping_reports_exhaustion() {
    let kernel = tiny_kernel();
    // Only four usable frames beyond the floor: the kernel's two fit,
    // the 20-page stack cannot.
    let catalog = vec![E820MemoryRegion { start_addr: 0, len: 0x4000, region_type: 1 }];
    let mut allocator = LegacyFrameAllocator::new_starting_at(0, catalog);
    assert!(matches!(
        set_up_mappings(&kernel, &mut allocator, 0xb8000, 4000, 0x7c00),
        Err(MapError::OutOfMemory)
    ));
}
