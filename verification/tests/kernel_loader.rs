use bootloader::frame_allocator::LegacyFrameAllocator;
use bootloader::info::TlsTemplate;
use bootloader::level_4_entries::UsedLevel4Entries;
use bootloader::loader::{
    load_kernel, parse_elf_header, parse_program_header, read_u16_le, read_u64_le, segment_image,
    LoadError, ProgramSegment,
};

fn put_u16(image: &mut [u8], off: usize, v: u16) {
    image[off] = v as u8;
    image[off + 1] = (v >> 8) as u8;
}

fn put_u32(image: &mut [u8], off: usize, v: u32) {
    for k in 0..4 {
        image[off + k] = (v >> (8 * k)) as u8;
    }
}

fn put_u64(image: &mut [u8], off: usize, v: u64) {
    for k in 0..8 {
        image[off + k] = (v >> (8 * k)) as u8;
    }
}

struct Segment {
    p_type: u32,
    flags: u32,
    offset: u64,
    vaddr: u64,
    filesz: u64,
    memsz: u64,
}

/// Builds a minimal 64-bit little-endian ELF image with the given
/// program headers and payload bytes appended after the header table.
fn build_image(entry: u64, segments: &[Segment], payload: &[u8]) -> Vec<u8> {
    let phoff = 64usize;
    let ph_end = phoff + 56 * segments.len();
    let mut image = vec![0u8; ph_end + payload.len()];
    image[0] = 0x7f;
    image[1] = b'E';
    image[2] = b'L';
    image[3] = b'F';
    image[4] = 2; // 64-bit
    image[5] = 1; // little-endian
    put_u64(&mut image, 24, entry);
    put_u64(&mut image, 32, phoff as u64);
    put_u16(&mut image, 54, 56);
    put_u16(&mut image, 56, segments.len() as u16);
    for (i, seg) in segments.iter().enumerate() {
        let off = phoff + 56 * i;
        put_u32(&mut image, off, seg.p_type);
        put_u32(&mut image, off + 4, seg.flags);
        put_u64(&mut image, off + 8, seg.offset);
        put_u64(&mut image, off + 16, seg.vaddr);
        put_u64(&mut image, off + 32, seg.filesz);
        put_u64(&mut image, off + 40, seg.memsz);
    }
    image[ph_end..].copy_from_slice(payload);
    image
}

fn big_allocator() -> LegacyFrameAllocator {
    let catalog = vec![bootloader::memory_map::E820MemoryRegion {
        start_addr: 0,
        len: 0x1000_0000,
        region_type: 1,
    }];
    LegacyFrameAllocator::new_starting_at(0x500000, catalog)
}

#[test]
fn header_fields_read_back() {
    let image = build_image(0x40_1000, &[], &[]);
    let (entry, phoff, phnum) = parse_elf_header(&image).unwrap();
    assert_eq!(entry, 0x40_1000);
    assert_eq!(phoff, 64);
    assert_eq!(phnum, 0);
}

#[test]
fn header_rejects_bad_magic() {
    let mut image = build_image(0x40_1000, &[], &[]);
    image[1] = b'Z';
    assert!(parse_elf_header(&image).is_none());
}

#[test]
fn header_rejects_truncated_image() {
    let image = build_image(0x40_1000, &[], &[]);
    assert!(parse_elf_header(&image[..40]).is_none());
}

#[test]
fn header_rejects_table_past_end() {
    let mut image = build_image(0x40_1000, &[], &[]);
    put_u16(&mut image, 56, 4); // claims 4 program headers, image has 0
    assert!(parse_elf_header(&image).is_none());
}

#[test]
fn program_header_reads_back() {
    let segs = [Segment {
        p_type: 1,
        flags: 5,
        offset: 0x78,
        vaddr: 0x40_0000,
        filesz: 3,
        memsz: 0x10,
    }];
    let image = build_image(0x40_0000, &segs, &[1, 2, 3]);
    let parsed = parse_program_header(&image, 0);
    assert_eq!(
        parsed,
        ProgramSegment {
            p_type: 1,
            flags: 5,
            offset: 0x78,
            virtual_addr: 0x40_0000,
            file_size: 3,
            mem_size: 0x10,
        }
    );
}

#[test]
fn le_readers_concrete() {
    let bytes = [0x01u8, 0x02, 0x03, 0x04, 0x05, 0x06, 0x07, 0x08, 0xff, 0xee];
    assert_eq!(read_u16_le(&bytes, 0), 0x0201);
    assert_eq!(read_u64_le(&bytes, 0), 0x0807060504030201);
    assert_eq!(read_u16_le(&bytes, 8), 0xeeff);
}

#[test]
fn load_kernel_plans_segments_and_tls() {
    let segs = [
        Segment {
            p_type: 1,
            flags: 0b101, // read + execute
            offset: 176,
            vaddr: 0x40_0000,
            filesz: 4,
            memsz: 0x1800,
        },
        Segment {
            p_type: 7,
            flags: 4,
            offset: 176,
            vaddr: 0x40_1000,
            filesz: 4,
            memsz: 0x20,
        },
    ];
    let image = build_image(0x40_0042, &segs, &[9, 8, 7, 6]);
    let mut allocator = big_allocator();
    let mut tracker = UsedLevel4Entries::new();
    let plan = load_kernel(&image, &mut allocator, &mut tracker).unwrap();
    assert_eq!(plan.entry_point, 0x40_0042);
    assert_eq!(
        plan.tls_template,
        Some(TlsTemplate { start_addr: 0x40_1000, file_size: 4, mem_size: 0x20 })
    );
    assert_eq!(plan.segments.len(), 1);
    let sp = &plan.segments[0];
    assert_eq!(sp.start_page, 0x40_0000);
    // [0x400000, 0x401800) covers two pages, each backed by a fresh frame.
    assert_eq!(sp.frames.len(), 2);
    assert_eq!(sp.frames[0], 0x500000);
    assert_eq!(sp.frames[1], 0x501000);
    assert!(!sp.writable);
    assert!(sp.executable);
}

#[test]
fn load_kernel_rejects_bad_header() {
    let mut allocator = big_allocator();
    let mut tracker = UsedLevel4Entries::new();
    let garbage = vec![0u8; 100];
    assert_eq!(
        load_kernel(&garbage, &mut allocator, &mut tracker).unwrap_err(),
        LoadError::BadHeader
    );
}

#[test]
fn load_kernel_rejects_zero_entry_point() {
    let image = build_image(0, &[], &[]);
    let mut allocator = big_allocator();
    let mut tracker = UsedLevel4Entries::new();
    assert_eq!(
        load_kernel(&image, &mut allocator, &mut tracker).unwrap_err(),
        LoadError::NoEntryPoint
    );
}

#[test]
fn load_kernel_rejects_file_bytes_past_image() {
    let segs = [Segment {
        p_type: 1,
        flags: 4,
        offset: 0x1_0000, // beyond the image
        vaddr: 0x40_0000,
        filesz: 8,
        memsz: 8,
    }];
    let image = build_image(0x40_0000, &segs, &[]);
    let mut allocator = big_allocator();
    let mut tracker = UsedLevel4Entries::new();
    assert_eq!(
        load_kernel(&image, &mut allocator, &mut tracker).unwrap_err(),
        LoadError::BadSegment
    );
}

#[test]
fn load_kernel_rejects_file_size_over_mem_size() {
    let segs = [Segment {
        p_type: 1,
        flags: 4,
        offset: 120,
        vaddr: 0x40_0000,
        filesz: 8,
        memsz: 4,
    }];
    let image = build_image(0x40_0000, &segs, &[0; 8]);
    let mut allocator = big_allocator();
    let mut tracker = UsedLevel4Entries::new();
    assert_eq!(
        load_kernel(&image, &mut allocator, &mut tracker).unwrap_err(),
        LoadError::BadSegment
    );
}

#[test]
fn load_kernel_rejects_wrapping_memory_range() {
    let segs = [Segment {
        p_type: 1,
        flags: 4,
        offset: 120,
        vaddr: u64::MAX - 0x10,
        filesz: 0,
        memsz: 0x1000,
    }];
    let image = build_image(0x40_0000, &segs, &[]);
    let mut allocator = big_allocator();
    let mut tracker = UsedLevel4Entries::new();
    assert_eq!(
        load_kernel(&image, &mut allocator, &mut tracker).unwrap_err(),
        LoadError::BadSegment
    );
}

#[test]
fn load_kernel_reports_exhaustion() {
    let segs = [Segment {
        p_type: 1,
        flags: 4,
        offset: 120,
        vaddr: 0x40_0000,
        filesz: 0,
        memsz: 0x10_0000, // 256 frames, far more than the catalog holds
    }];
    let image = build_image(0x40_0000, &segs, &[]);
    let catalog = vec![bootloader::memory_map::E820MemoryRegion {
        start_addr: 0,
        len: 0x3000,
        region_type: 1,
    }];
    let mut allocator = LegacyFrameAllocator::new_starting_at(0, catalog);
    let mut tracker = UsedLevel4Entries::new();
    assert_eq!(
        load_kernel(&image, &mut allocator, &mut tracker).unwrap_err(),
        LoadError::OutOfMemory
    );
}

#[test]
fn load_kernel_marks_segment_slots() {
    // A segment in slot 1: the tracker's next free slot moves to 2.
    let segs = [Segment {
        p_type: 1,
        flags: 4,
        offset: 120,
        vaddr: 0x80_0000_0000,
        filesz: 0,
        memsz: 0x1000,
    }];
    let image = build_image(0x80_0000_0000, &segs, &[]);
    let mut allocator = big_allocator();
    let mut tracker = UsedLevel4Entries::new();
    load_kernel(&image, &mut allocator, &mut tracker).unwrap();
    assert_eq!(tracker.get_free_entry(), Some(2));
}

#[test]
fn segment_image_copies_and_zero_fills() {
    let seg = ProgramSegment {
        p_type: 1,
        flags: 6,
        offset: 2,
        virtual_addr: 0x40_0000,
        file_size: 3,
        mem_size: 6,
    };
    let file = [0xaau8, 0xbb, 0x11, 0x22, 0x33];
    let img = segment_image(&file, &seg);
    assert_eq!(img, vec![0x11, 0x22, 0x33, 0, 0, 0]);
}
