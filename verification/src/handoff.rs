//! The hand-off builder: sizes and places the information block the
//! kernel receives, backs it with fresh frames that the outside layer
//! maps identically into both page-table hierarchies, and fills it with
//! the final memory map and platform metadata.  The byte layout of the
//! block's memory-region records is fixed here so that any compiler's
//! kernel reads the same bytes.

use vstd::prelude::*;

verus! {

use crate::addr::{lemma_common_alignments, lemma_slot_base_bound, slot_base};
use crate::frame_allocator::{
    allocate_backed_pages,
    can_supply,
    cursor_after,
    final_map,
    LegacyFrameAllocator,
};
use crate::info::{
    BootInfo,
    FrameBuffer,
    MemoryRegion,
    MemoryRegionKind,
    MemoryRegions,
    Optional,
    TlsTemplate,
};
use crate::level_4_entries::first_free;
use crate::loader::{le32, le64, read_u32_le, read_u64_le};
use crate::mappings::{MapError, Mappings, SystemInfo};

/// Size in bytes of the fixed hand-off header, as laid out for the
/// kernel.
pub const BOOT_INFO_HEADER_SIZE: u64 = 104;

/// Alignment in bytes of the hand-off block.
pub const BOOT_INFO_ALIGN: u64 = 8;

/// Size in bytes of one memory-region record in the block.
pub const MEMORY_REGION_RECORD_SIZE: u64 = 24;

/// The byte size of a hand-off block holding the header and one record
/// per firmware region plus one spare (one region may split in two).
pub open spec fn block_size_for(region_count: int) -> int {
    104 + 24 * (region_count + 1)
}

/// How many page frames back a block of `size` bytes.
pub open spec fn block_page_count(size: int) -> int {
    (size - 1) / 4096 + 1
}

/// Where the hand-off block lives and which frames back it.  The
/// outside layer maps every `(page, frame)` pair into *both* the
/// bootloader's and the kernel's hierarchy, so the block stays readable
/// across the final hierarchy switch.
#[derive(Debug)]
pub struct HandoffPlan {
    /// The virtual address of the block under both hierarchies.
    pub block_addr: u64,
    /// The byte size of the block.
    pub block_size: u64,
    /// The pages of the block and the fresh frame backing each, to be
    /// mapped present and writable in both hierarchies.
    pub pages: Vec<(u64, u64)>,
}

/// Builds the hand-off information block: computes its size from the
/// firmware map (one spare record for the possible split), claims a
/// virtual region for it — the claimed address is proven aligned, so no
/// run-time alignment check is needed — backs every page with
/// a fresh frame for dual mapping, and fills the block's fields: the
/// final memory map from the spent frame allocator, the framebuffer
/// description, and the optional ACPI root pointer and thread-local-
/// storage template.  Succeeds exactly when a level-4 slot is free and
/// the allocator can back the block's pages.
#[verifier::loop_isolation(false)]
#[verifier::rlimit(100)]
pub fn create_boot_info(
    frame_allocator: LegacyFrameAllocator,
    mappings: &mut Mappings,
    system_info: SystemInfo,
) -> (r: Result<(BootInfo, HandoffPlan), MapError>)
    requires
        frame_allocator.wf(),
        old(mappings).used_entries.wf(),
        frame_allocator.original@.len() <= 0xffff_ffff,
        crate::memory_map::regions_disjoint(frame_allocator.original@),
    ensures
        final(mappings).used_entries.wf(),
        final(mappings).entry_point == old(mappings).entry_point,
        final(mappings).stack_end == old(mappings).stack_end,
        final(mappings).framebuffer == old(mappings).framebuffer,
        final(mappings).tls_template == old(mappings).tls_template,
        ({
            let ff = first_free(old(mappings).used_entries@);
            let size = block_size_for(frame_allocator.original@.len() as int);
            let pages = block_page_count(size);
            &&& (r is Ok <==> ff < 512 && can_supply(
                frame_allocator.original@,
                frame_allocator.next_frame,
                pages as nat,
            ))
            &&& (r matches Err(MapError::NoVirtualSlot) <==> ff == 512)
            &&& (r matches Err(MapError::OutOfMemory) <==> ff < 512 && !can_supply(
                frame_allocator.original@,
                frame_allocator.next_frame,
                pages as nat,
            ))
            &&& (r matches Ok((boot_info, plan)) ==> {
                &&& plan.block_addr == slot_base(ff as u16)
                &&& plan.block_addr % 8 == 0
                &&& plan.block_size == size
                &&& plan.pages@.len() == pages
                &&& forall|i: int|
                    0 <= i < plan.pages@.len() ==> (#[trigger] plan.pages@[i]).0 == plan.block_addr
                        + 4096 * i && plan.pages@[i].1 == crate::frame_allocator::next_free(
                        frame_allocator.original@,
                        cursor_after(frame_allocator.original@, frame_allocator.next_frame, i as nat),
                    )
                &&& boot_info.memory_regions@ == final_map(
                    frame_allocator.original@,
                    cursor_after(
                        frame_allocator.original@,
                        frame_allocator.next_frame,
                        pages as nat,
                    ),
                    frame_allocator.start_frame,
                )
                &&& boot_info.memory_regions@.len() <= frame_allocator.original@.len() + 1
                &&& boot_info.framebuffer == (FrameBuffer {
                    buffer_start: old(mappings).framebuffer,
                    buffer_byte_len: system_info.framebuffer_info.byte_len,
                    info: system_info.framebuffer_info,
                })
                &&& boot_info.rsdp_addr == (match system_info.rsdp_addr {
                    Some(a) => Optional::Present(a),
                    None => Optional::<u64>::Absent,
                })
                &&& boot_info.tls_template == (match old(mappings).tls_template {
                    Some(t) => Optional::Present(t),
                    None => Optional::<TlsTemplate>::Absent,
                })
                &&& final(mappings).used_entries@ == old(mappings).used_entries@.update(ff, true)
            })
            &&& (r is Err ==> final(mappings).used_entries@ == old(mappings).used_entries@
                || final(mappings).used_entries@ == old(mappings).used_entries@.update(ff, true))
        }),
{
    let ghost regions0 = frame_allocator.original@;
    let ghost next0 = frame_allocator.next_frame;
    let ghost floor0 = frame_allocator.start_frame;
    let mut frame_allocator = frame_allocator;
    let region_count = frame_allocator.len() as u64;
    let combined_size = BOOT_INFO_HEADER_SIZE + MEMORY_REGION_RECORD_SIZE * (region_count + 1);
    proof {
        lemma_common_alignments();
    }
    let boot_info_addr = match mappings.used_entries.get_free_address(
        combined_size,
        BOOT_INFO_ALIGN,
    ) {
        Some(a) => a,
        None => {
            proof {
                crate::level_4_entries::lemma_first_free_properties(old(mappings).used_entries@);
            }
            return Err(MapError::NoVirtualSlot);
        },
    };
    let ghost ff = first_free(old(mappings).used_entries@);
    proof {
        crate::level_4_entries::lemma_first_free_properties(old(mappings).used_entries@);
        assert(ff < 512);
        lemma_slot_base_bound(ff as u16);
    }

    let page_count = (combined_size - 1) / 4096 + 1;
    let pages = match allocate_backed_pages(
        &mut frame_allocator,
        boot_info_addr,
        page_count,
        Ghost(next0),
        Ghost(0),
    ) {
        Some(p) => p,
        None => {
            return Err(MapError::OutOfMemory);
        },
    };

    let ghost final_next = frame_allocator.next_frame;
    let regions = frame_allocator.construct_memory_map();
    proof {
        crate::frame_allocator::lemma_final_map_at_most_one_split(regions0, final_next, floor0);
    }

    let framebuffer = FrameBuffer {
        buffer_start: mappings.framebuffer,
        buffer_byte_len: system_info.framebuffer_info.byte_len,
        info: system_info.framebuffer_info,
    };
    let rsdp_addr = match system_info.rsdp_addr {
        Some(a) => Optional::Present(a),
        None => Optional::Absent,
    };
    let tls_template = match mappings.tls_template {
        Some(t) => Optional::Present(t),
        None => Optional::Absent,
    };
    let boot_info = BootInfo {
        memory_regions: MemoryRegions::new(regions),
        framebuffer,
        rsdp_addr,
        tls_template,
    };
    let plan = HandoffPlan { block_addr: boot_info_addr, block_size: combined_size, pages };
    Ok((boot_info, plan))
}

/// Byte `i` of the 64-bit little-endian encoding of `v`.
pub open spec fn u64_byte(v: u64, i: int) -> u8 {
    ((v >> ((8 * i) as u64)) & 0xff) as u8
}

/// The 64-bit little-endian encoding of `v`.
pub open spec fn u64_le_bytes(v: u64) -> Seq<u8> {
    Seq::new(8, |i: int| u64_byte(v, i))
}

/// Byte `i` of the 32-bit little-endian encoding of `v`.
pub open spec fn u32_byte(v: u32, i: int) -> u8 {
    ((v >> ((8 * i) as u32)) & 0xff) as u8
}

/// The 32-bit little-endian encoding of `v`.
pub open spec fn u32_le_bytes(v: u32) -> Seq<u8> {
    Seq::new(4, |i: int| u32_byte(v, i))
}

/// The tag a region kind is stored under in the block.
pub open spec fn kind_tag(k: MemoryRegionKind) -> u32 {
    match k {
        MemoryRegionKind::Usable => 0,
        MemoryRegionKind::Bootloader => 1,
        MemoryRegionKind::Unknown(_) => 2,
    }
}

/// The payload stored beside the tag (the raw firmware type for
/// unknown regions, 0 otherwise).
pub open spec fn kind_payload(k: MemoryRegionKind) -> u32 {
    match k {
        MemoryRegionKind::Unknown(t) => t,
        _ => 0,
    }
}

/// The region kind read back from a stored tag and payload.
pub open spec fn kind_of(tag: u32, payload: u32) -> MemoryRegionKind {
    if tag == 0 {
        MemoryRegionKind::Usable
    } else if tag == 1 {
        MemoryRegionKind::Bootloader
    } else {
        MemoryRegionKind::Unknown(payload)
    }
}

/// The 24-byte record of one memory region as it sits in the block:
/// start, exclusive end, kind tag, kind payload, all little-endian.
pub open spec fn region_bytes(r: MemoryRegion) -> Seq<u8> {
    u64_le_bytes(r.start) + u64_le_bytes(r.end) + u32_le_bytes(kind_tag(r.kind)) + u32_le_bytes(
        kind_payload(r.kind),
    )
}

/// The records of the first `n` regions, packed in order.
pub open spec fn region_list_bytes_upto(rs: Seq<MemoryRegion>, n: int) -> Seq<u8>
    decreases n,
{
    if n <= 0 {
        Seq::empty()
    } else {
        region_list_bytes_upto(rs, n - 1) + region_bytes(rs[n - 1])
    }
}

/// The packed records of a whole region list.
pub open spec fn region_list_bytes(rs: Seq<MemoryRegion>) -> Seq<u8> {
    region_list_bytes_upto(rs, rs.len() as int)
}

/// The region record stored at byte offset `off`.
pub open spec fn region_at(b: Seq<u8>, off: int) -> MemoryRegion {
    MemoryRegion {
        start: le64(b, off),
        end: le64(b, off + 8),
        kind: kind_of(le32(b, off + 16), le32(b, off + 20)),
    }
}

/// The first `count` region records read back from `b`.
pub open spec fn regions_at(b: Seq<u8>, count: int) -> Seq<MemoryRegion>
    recommends
        count >= 0,
{
    Seq::new(count as nat, |i: int| region_at(b, 24 * i))
}

proof fn lemma_u64_le_round_trip(v: u64)
    ensures
        le64(u64_le_bytes(v), 0) == v,
{
    let b = u64_le_bytes(v);
    let b0 = b[0];
    let b1 = b[1];
    let b2 = b[2];
    let b3 = b[3];
    let b4 = b[4];
    let b5 = b[5];
    let b6 = b[6];
    let b7 = b[7];
    assert((b0 + b1 * 0x100 + b2 * 0x1_0000 + b3 * 0x100_0000 + b4 * 0x1_0000_0000 + b5
        * 0x100_0000_0000 + b6 * 0x1_0000_0000_0000 + b7 * 0x100_0000_0000_0000) as u64 == v)
        by (bit_vector)
        requires
            b0 == ((v >> 0u64) & 0xff) as u8,
            b1 == ((v >> 8u64) & 0xff) as u8,
            b2 == ((v >> 16u64) & 0xff) as u8,
            b3 == ((v >> 24u64) & 0xff) as u8,
            b4 == ((v >> 32u64) & 0xff) as u8,
            b5 == ((v >> 40u64) & 0xff) as u8,
            b6 == ((v >> 48u64) & 0xff) as u8,
            b7 == ((v >> 56u64) & 0xff) as u8,
    ;
}

proof fn lemma_u32_le_round_trip(v: u32)
    ensures
        le32(u32_le_bytes(v), 0) == v,
{
    let b = u32_le_bytes(v);
    let b0 = b[0];
    let b1 = b[1];
    let b2 = b[2];
    let b3 = b[3];
    assert((b0 + b1 * 0x100 + b2 * 0x1_0000 + b3 * 0x100_0000) as u32 == v) by (bit_vector)
        requires
            b0 == ((v >> 0u32) & 0xff) as u8,
            b1 == ((v >> 8u32) & 0xff) as u8,
            b2 == ((v >> 16u32) & 0xff) as u8,
            b3 == ((v >> 24u32) & 0xff) as u8,
    ;
}

/// Reading one stored record back yields the region it was made from.
pub proof fn lemma_region_round_trip(r: MemoryRegion)
    ensures
        region_at(region_bytes(r), 0) == r,
{
    let enc = region_bytes(r);
    lemma_u64_le_round_trip(r.start);
    lemma_u64_le_round_trip(r.end);
    lemma_u32_le_round_trip(kind_tag(r.kind));
    lemma_u32_le_round_trip(kind_payload(r.kind));
    assert(le64(enc, 0) == le64(u64_le_bytes(r.start), 0));
    assert(le64(enc, 8) == le64(u64_le_bytes(r.end), 0));
    assert(le32(enc, 16) == le32(u32_le_bytes(kind_tag(r.kind)), 0));
    assert(le32(enc, 20) == le32(u32_le_bytes(kind_payload(r.kind)), 0));
}

proof fn lemma_region_list_bytes_len(rs: Seq<MemoryRegion>, n: int)
    requires
        0 <= n <= rs.len(),
    ensures
        region_list_bytes_upto(rs, n).len() == 24 * n,
    decreases n,
{
    if n > 0 {
        lemma_region_list_bytes_len(rs, n - 1);
    }
}

proof fn lemma_region_list_index(rs: Seq<MemoryRegion>, n: int, i: int)
    requires
        0 <= i < n <= rs.len(),
    ensures
        region_at(region_list_bytes_upto(rs, n), 24 * i) == rs[i],
    decreases n,
{
    lemma_region_list_bytes_len(rs, n - 1);
    if i == n - 1 {
        lemma_region_round_trip(rs[i]);
        let enc = region_list_bytes_upto(rs, n);
        let own = region_bytes(rs[i]);
        assert(le64(enc, 24 * i) == le64(own, 0));
        assert(le64(enc, 24 * i + 8) == le64(own, 8));
        assert(le32(enc, 24 * i + 16) == le32(own, 16));
        assert(le32(enc, 24 * i + 20) == le32(own, 20));
        assert(region_at(own, 0) == rs[i]);
    } else {
        lemma_region_list_index(rs, n - 1, i);
        lemma_region_list_bytes_len(rs, n);
        let enc = region_list_bytes_upto(rs, n);
        let prev = region_list_bytes_upto(rs, n - 1);
        assert(le64(enc, 24 * i) == le64(prev, 24 * i));
        assert(le64(enc, 24 * i + 8) == le64(prev, 24 * i + 8));
        assert(le32(enc, 24 * i + 16) == le32(prev, 24 * i + 16));
        assert(le32(enc, 24 * i + 20) == le32(prev, 24 * i + 20));
    }
}

/// Round trip: writing a memory-region list into the block and reading
/// it back reproduces every record exactly, in original order.
pub proof fn lemma_region_list_round_trip(rs: Seq<MemoryRegion>)
    ensures
        region_list_bytes(rs).len() == 24 * rs.len(),
        regions_at(region_list_bytes(rs), rs.len() as int) == rs,
{
    lemma_region_list_bytes_len(rs, rs.len() as int);
    assert forall|i: int| 0 <= i < rs.len() implies regions_at(
        region_list_bytes(rs),
        rs.len() as int,
    )[i] == rs[i] by {
        lemma_region_list_index(rs, rs.len() as int, i);
    }
    assert(regions_at(region_list_bytes(rs), rs.len() as int) =~= rs);
}

/// Writes one region's 24-byte record.
pub fn encode_region(r: &MemoryRegion) -> (out: Vec<u8>)
    ensures
        out@ == region_bytes(*r),
{
    let mut out: Vec<u8> = Vec::new();
    let start = r.start;
    let end = r.end;
    let (tag, payload): (u32, u32) = match r.kind {
        MemoryRegionKind::Usable => (0, 0),
        MemoryRegionKind::Bootloader => (1, 0),
        MemoryRegionKind::Unknown(t) => (2, t),
    };
    out.push(((start >> 0) & 0xff) as u8);
    out.push(((start >> 8) & 0xff) as u8);
    out.push(((start >> 16) & 0xff) as u8);
    out.push(((start >> 24) & 0xff) as u8);
    out.push(((start >> 32) & 0xff) as u8);
    out.push(((start >> 40) & 0xff) as u8);
    out.push(((start >> 48) & 0xff) as u8);
    out.push(((start >> 56) & 0xff) as u8);
    out.push(((end >> 0) & 0xff) as u8);
    out.push(((end >> 8) & 0xff) as u8);
    out.push(((end >> 16) & 0xff) as u8);
    out.push(((end >> 24) & 0xff) as u8);
    out.push(((end >> 32) & 0xff) as u8);
    out.push(((end >> 40) & 0xff) as u8);
    out.push(((end >> 48) & 0xff) as u8);
    out.push(((end >> 56) & 0xff) as u8);
    out.push(((tag >> 0) & 0xff) as u8);
    out.push(((tag >> 8) & 0xff) as u8);
    out.push(((tag >> 16) & 0xff) as u8);
    out.push(((tag >> 24) & 0xff) as u8);
    out.push(((payload >> 0) & 0xff) as u8);
    out.push(((payload >> 8) & 0xff) as u8);
    out.push(((payload >> 16) & 0xff) as u8);
    out.push(((payload >> 24) & 0xff) as u8);
    proof {
        assert(tag == kind_tag(r.kind) && payload == kind_payload(r.kind));
        assert(forall|k: u64, sh: u64| sh < 64 ==> ((k >> sh) & 0xff) < 256) by (bit_vector);
        assert(out@ =~= region_bytes(*r));
    }
    out
}

/// Writes a whole region list as packed records.
#[verifier::loop_isolation(false)]
pub fn encode_regions(rs: &Vec<MemoryRegion>) -> (out: Vec<u8>)
    ensures
        out@ == region_list_bytes(rs@),
{
    let mut out: Vec<u8> = Vec::new();
    let mut i: usize = 0;
    while i < rs.len()
        invariant
            0 <= i <= rs@.len(),
            out@ == region_list_bytes_upto(rs@, i as int),
        decreases rs@.len() - i,
    {
        let mut record = encode_region(&rs[i]);
        out.append(&mut record);
        i = i + 1;
    }
    out
}

/// Reads the region record at byte offset `off`.
pub fn decode_region(b: &[u8], off: usize) -> (r: MemoryRegion)
    requires
        off + 24 <= b@.len(),
    ensures
        r == region_at(b@, off as int),
{
    let total = b.len();
    let start = read_u64_le(b, off);
    let end = read_u64_le(b, off + 8);
    let tag = read_u32_le(b, off + 16);
    let payload = read_u32_le(b, off + 20);
    let kind = if tag == 0 {
        MemoryRegionKind::Usable
    } else if tag == 1 {
        MemoryRegionKind::Bootloader
    } else {
        MemoryRegionKind::Unknown(payload)
    };
    MemoryRegion { start, end, kind }
}

/// Reads `count` packed region records back.
#[verifier::loop_isolation(false)]
pub fn decode_regions(b: &[u8], count: usize) -> (out: Vec<MemoryRegion>)
    requires
        24 * count <= b@.len(),
    ensures
        out@ == regions_at(b@, count as int),
{
    let total = b.len();
    let mut out: Vec<MemoryRegion> = Vec::new();
    let mut i: usize = 0;
    while i < count
        invariant
            0 <= i <= count,
            out@.len() == i,
            forall|k: int| 0 <= k < i ==> out@[k] == region_at(b@, 24 * k),
        decreases count - i,
    {
        out.push(decode_region(b, 24 * i));
        i = i + 1;
    }
    proof {
        assert(out@ =~= regions_at(b@, count as int));
    }
    out
}

} // verus!
