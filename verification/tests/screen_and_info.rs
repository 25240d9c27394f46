use bootloader::info::{
    FrameBuffer, FrameBufferInfo, MemoryRegion, MemoryRegionKind, MemoryRegions, Optional,
};
use bootloader::logger::{Logger, GREEN_CHAR_ATTR, VGA_BUFFER_SIZE};

#[test]
fn logger_starts_blank() {
    let logger = Logger::new();
    assert_eq!(logger.x, 0);
    assert_eq!(logger.y, 0);
    assert_eq!(logger.vga_buffer.len(), VGA_BUFFER_SIZE);
    assert!(logger.vga_buffer.iter().all(|b| *b == 0));
}

#[test]
fn logger_places_characters_with_attribute() {
    let mut logger = Logger::new();
    logger.write_char(b'H');
    logger.write_char(b'i');
    assert_eq!(logger.vga_buffer[0], b'H');
    assert_eq!(logger.vga_buffer[1], GREEN_CHAR_ATTR);
    assert_eq!(logger.vga_buffer[2], b'i');
    assert_eq!(logger.vga_buffer[3], GREEN_CHAR_ATTR);
    assert_eq!(logger.x, 4);
    assert_eq!(logger.y, 0);
}

#[test]
fn logger_newline_and_carriage_return_move_cursor() {
    let mut logger = Logger::new();
    logger.write_char(b'a');
    logger.write_char(b'\n');
    assert_eq!((logger.x, logger.y), (0, 1));
    logger.write_char(b'b');
    logger.write_char(b'\r');
    assert_eq!((logger.x, logger.y), (0, 1));
    assert_eq!(logger.vga_buffer[160], b'b');
}

#[test]
fn logger_wraps_full_row() {
    let mut logger = Logger::new();
    for _ in 0..80 {
        logger.write_char(b'x');
    }
    assert_eq!((logger.x, logger.y), (160, 0));
    logger.write_char(b'y');
    assert_eq!((logger.x, logger.y), (2, 1));
    assert_eq!(logger.vga_buffer[160], b'y');
}

#[test]
fn logger_clears_after_last_row() {
    let mut logger = Logger::new();
    for _ in 0..25 {
        logger.write_char(b'z');
        logger.write_char(b'\n');
    }
    // The 25th newline ran off the bottom and blanked the screen.
    assert_eq!((logger.x, logger.y), (0, 0));
    assert!(logger.vga_buffer.iter().all(|b| *b == 0));
}

#[test]
fn logger_clear_blanks_everything() {
    let mut logger = Logger::new();
    logger.write_char(b'q');
    logger.clear();
    assert_eq!((logger.x, logger.y), (0, 0));
    assert!(logger.vga_buffer.iter().all(|b| *b == 0));
}

#[test]
fn empty_region_is_zero_sized_bootloader() {
    let r = MemoryRegion::empty();
    assert_eq!(r.start, 0);
    assert_eq!(r.end, 0);
    assert_eq!(r.kind, MemoryRegionKind::Bootloader);
}

#[test]
fn memory_regions_reads_back_records() {
    let records = vec![
        MemoryRegion { start: 0, end: 4096, kind: MemoryRegionKind::Usable },
        MemoryRegion { start: 4096, end: 8192, kind: MemoryRegionKind::Bootloader },
    ];
    let regions = MemoryRegions::new(records.clone());
    assert_eq!(regions.len(), 2);
    assert_eq!(regions.get(0), records[0]);
    assert_eq!(regions.get(1), records[1]);
}

#[test]
fn framebuffer_info_getter() {
    let info = FrameBufferInfo { byte_len: 4000, horizontal_resolution: 80, vertical_resolution: 25 };
    let fb = FrameBuffer { buffer_start: 0xb8000, buffer_byte_len: 4000, info };
    assert_eq!(fb.info(), info);
}

#[test]
fn optional_conversions() {
    let some: Optional<u64> = Optional::Present(7);
    let none: Optional<u64> = Optional::Absent;
    assert_eq!(some.into_option(), Some(7));
    assert_eq!(none.into_option(), None);
    assert_eq!(some.as_ref(), Some(&7));
    assert_eq!(none.as_ref(), None);
    let mut m: Optional<u64> = Optional::Present(1);
    if let Some(v) = m.as_mut() {
        *v = 2;
    }
    assert_eq!(m, Optional::Present(2));
    let mut a: Optional<u64> = Optional::Absent;
    assert_eq!(a.as_mut(), None);
}
