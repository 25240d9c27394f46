//! The kernel image loader: parses the kernel's 64-bit little-endian ELF
//! executable, plans the mapping of every loadable segment into the
//! kernel's fresh page-table hierarchy, and extracts the entry point and
//! the thread-local-storage template.

use vstd::prelude::*;

verus! {

use crate::addr::{align_down_frame, lemma_page_base_monotone, page_base};
use crate::frame_allocator::{can_supply, cursor_after, LegacyFrameAllocator};
use crate::frame_allocator::{lemma_can_supply_mono, lemma_can_supply_succ, next_free};
use crate::info::TlsTemplate;
use crate::level_4_entries::{marked_segments, UsedLevel4Entries};

/// The 16-bit little-endian value at offset `i`.
pub open spec fn le16(b: Seq<u8>, i: int) -> u16 {
    (b[i] + b[i + 1] * 0x100) as u16
}

/// The 32-bit little-endian value at offset `i`.
pub open spec fn le32(b: Seq<u8>, i: int) -> u32 {
    (b[i] + b[i + 1] * 0x100 + b[i + 2] * 0x1_0000 + b[i + 3] * 0x100_0000) as u32
}

/// The 64-bit little-endian value at offset `i`.
pub open spec fn le64(b: Seq<u8>, i: int) -> u64 {
    (b[i] + b[i + 1] * 0x100 + b[i + 2] * 0x1_0000 + b[i + 3] * 0x100_0000 + b[i + 4]
        * 0x1_0000_0000 + b[i + 5] * 0x100_0000_0000 + b[i + 6] * 0x1_0000_0000_0000 + b[i + 7]
        * 0x100_0000_0000_0000) as u64
}

/// Reads the 16-bit little-endian value at offset `off`.
pub fn read_u16_le(b: &[u8], off: usize) -> (r: u16)
    requires
        off + 2 <= b@.len(),
    ensures
        r == le16(b@, off as int),
{
    (b[off] as u16) + (b[off + 1] as u16) * 0x100
}

/// Reads the 32-bit little-endian value at offset `off`.
pub fn read_u32_le(b: &[u8], off: usize) -> (r: u32)
    requires
        off + 4 <= b@.len(),
    ensures
        r == le32(b@, off as int),
{
    (b[off] as u32) + (b[off + 1] as u32) * 0x100 + (b[off + 2] as u32) * 0x1_0000 + (b[off
        + 3] as u32) * 0x100_0000
}

/// Reads the 64-bit little-endian value at offset `off`.
pub fn read_u64_le(b: &[u8], off: usize) -> (r: u64)
    requires
        off + 8 <= b@.len(),
    ensures
        r == le64(b@, off as int),
{
    (b[off] as u64) + (b[off + 1] as u64) * 0x100 + (b[off + 2] as u64) * 0x1_0000 + (b[off
        + 3] as u64) * 0x100_0000 + (b[off + 4] as u64) * 0x1_0000_0000 + (b[off + 5] as u64)
        * 0x100_0000_0000 + (b[off + 6] as u64) * 0x1_0000_0000_0000 + (b[off + 7] as u64)
        * 0x100_0000_0000_0000
}

/// One program header of the kernel executable, as parsed from the
/// image.
#[derive(Clone, Copy, Debug, PartialEq, Eq, Structural)]
pub struct ProgramSegment {
    /// The segment type (1 is loadable, 7 is thread-local storage).
    pub p_type: u32,
    /// The permission flags (bit 0 execute, bit 1 write, bit 2 read).
    pub flags: u32,
    /// The offset of the segment's bytes in the image file.
    pub offset: u64,
    /// The virtual address the segment is loaded at.
    pub virtual_addr: u64,
    /// How many bytes the segment takes from the file.
    pub file_size: u64,
    /// How many bytes the segment occupies in memory; what lies past
    /// `file_size` is zero-filled.
    pub mem_size: u64,
}

impl ProgramSegment {
    /// A loadable segment that actually occupies memory.
    pub open spec fn loadable(self) -> bool {
        self.p_type == 1 && self.mem_size > 0
    }

    /// Whether the mapped pages are writable.
    pub open spec fn spec_writable(self) -> bool {
        self.flags & 2 == 2
    }

    /// Whether the mapped pages may be executed.
    pub open spec fn spec_executable(self) -> bool {
        self.flags & 1 == 1
    }
}

/// Offset of the program-header table in the image.
pub open spec fn spec_phoff(b: Seq<u8>) -> u64 {
    le64(b, 32)
}

/// Number of program headers in the image.
pub open spec fn spec_phnum(b: Seq<u8>) -> u16 {
    le16(b, 56)
}

/// The entry-point address the image header names.
pub open spec fn spec_entry(b: Seq<u8>) -> u64 {
    le64(b, 24)
}

/// A well-formed image header: the ELF magic, 64-bit class,
/// little-endian data, the 56-byte program-header records this layout
/// fixes, and a program-header table that lies inside the image.
pub open spec fn header_ok(b: Seq<u8>) -> bool {
    &&& b.len() >= 64
    &&& b[0] == 0x7f
    &&& b[1] == 0x45
    &&& b[2] == 0x4c
    &&& b[3] == 0x46
    &&& b[4] == 2
    &&& b[5] == 1
    &&& le16(b, 54) == 56
    &&& spec_phoff(b) + 56 * (spec_phnum(b) as int) <= b.len()
}

/// The program header at index `i` of the table.
pub open spec fn segment_at(b: Seq<u8>, i: int) -> ProgramSegment {
    let off = spec_phoff(b) + 56 * i;
    ProgramSegment {
        p_type: le32(b, off),
        flags: le32(b, off + 4),
        offset: le64(b, off + 8),
        virtual_addr: le64(b, off + 16),
        file_size: le64(b, off + 32),
        mem_size: le64(b, off + 40),
    }
}

/// All program headers of the image, in table order.
pub open spec fn segments_of(b: Seq<u8>) -> Seq<ProgramSegment> {
    Seq::new(spec_phnum(b) as nat, |i: int| segment_at(b, i))
}

/// Parses the image header; `None` exactly when the header is not
/// well formed.
pub fn parse_elf_header(b: &[u8]) -> (r: Option<(u64, u64, u16)>)
    ensures
        r is Some <==> header_ok(b@),
        r matches Some((entry, phoff, phnum)) ==> entry == spec_entry(b@) && phoff == spec_phoff(
            b@,
        ) && phnum == spec_phnum(b@),
{
    if b.len() < 64 {
        return None;
    }
    if !(b[0] == 0x7f && b[1] == 0x45 && b[2] == 0x4c && b[3] == 0x46) {
        return None;
    }
    if b[4] != 2 || b[5] != 1 {
        return None;
    }
    if read_u16_le(b, 54) != 56 {
        return None;
    }
    let phoff = read_u64_le(b, 32);
    let phnum = read_u16_le(b, 56);
    if phoff > b.len() as u64 || (phnum as u64) * 56 > b.len() as u64 - phoff {
        return None;
    }
    Some((read_u64_le(b, 24), phoff, phnum))
}

/// Parses the program header at table index `i`.
pub fn parse_program_header(b: &[u8], i: usize) -> (r: ProgramSegment)
    requires
        header_ok(b@),
        i < spec_phnum(b@),
    ensures
        r == segment_at(b@, i as int),
{
    proof {
        assert(56 * (i + 1) <= 56 * (spec_phnum(b@) as int)) by (nonlinear_arith)
            requires
                i < spec_phnum(b@),
        ;
        assert(spec_phoff(b@) + 56 * (i as int) + 56 <= b@.len());
    }
    let image_len = b.len();
    let phoff64 = read_u64_le(b, 32);
    proof {
        assert(phoff64 == spec_phoff(b@));
        assert(phoff64 + 56 * (i as int) + 56 <= image_len);
    }
    let off = (phoff64 as usize) + 56 * i;
    proof {
        assert(off + 56 <= b@.len());
        assert(off == spec_phoff(b@) + 56 * (i as int));
    }
    ProgramSegment {
        p_type: read_u32_le(b, off),
        flags: read_u32_le(b, off + 4),
        offset: read_u64_le(b, off + 8),
        virtual_addr: read_u64_le(b, off + 16),
        file_size: read_u64_le(b, off + 32),
        mem_size: read_u64_le(b, off + 40),
    }
}

/// Why the kernel image cannot be loaded.
#[derive(Clone, Copy, Debug, PartialEq, Eq, Structural)]
pub enum LoadError {
    /// The image header is not a well-formed 64-bit little-endian ELF
    /// header, or its program-header table lies outside the image.
    BadHeader,
    /// The header names no entry point.
    NoEntryPoint,
    /// A program header describes an impossible segment: file bytes
    /// outside the image, more file bytes than memory bytes, or a memory
    /// range that wraps the address space.
    BadSegment,
    /// The frame allocator ran out of usable frames for the segments.
    OutOfMemory,
}

/// One program header is internally consistent: its memory range does
/// not wrap, a loadable segment's file bytes lie inside the image and
/// fit its memory size, and a thread-local-storage segment's file bytes
/// fit its memory size.
pub open spec fn segment_valid(b: Seq<u8>, s: ProgramSegment) -> bool {
    &&& s.mem_size > 0 ==> s.virtual_addr + s.mem_size - 1 <= u64::MAX
    &&& s.loadable() ==> (s.file_size <= s.mem_size && s.offset + s.file_size <= b.len())
    &&& s.p_type == 7 ==> s.file_size <= s.mem_size
}

/// Every program header of the image is internally consistent.
pub open spec fn segments_valid(b: Seq<u8>) -> bool {
    forall|i: int|
        0 <= i < segments_of(b).len() ==> segment_valid(b, #[trigger] segments_of(b)[i])
}

/// The index of the first thread-local-storage segment at or after `i`,
/// or -1 when there is none.
pub open spec fn first_tls_from(segs: Seq<ProgramSegment>, i: int) -> int
    decreases segs.len() - i,
{
    if i < 0 || i >= segs.len() {
        -1
    } else if segs[i].p_type == 7 {
        i
    } else {
        first_tls_from(segs, i + 1)
    }
}

/// The thread-local-storage template of a segment list: sizes and start
/// of the first thread-local-storage segment, if any.
pub open spec fn tls_of(segs: Seq<ProgramSegment>) -> Option<TlsTemplate> {
    let k = first_tls_from(segs, 0);
    if k >= 0 {
        Some(
            TlsTemplate {
                start_addr: segs[k].virtual_addr,
                file_size: segs[k].file_size,
                mem_size: segs[k].mem_size,
            },
        )
    } else {
        None
    }
}

/// How many page frames a loadable segment needs: one per page its
/// memory range `[virtual_addr, virtual_addr + mem_size)` touches.
pub open spec fn page_count(seg: ProgramSegment) -> int
    recommends
        seg.mem_size > 0,
        seg.virtual_addr + seg.mem_size - 1 <= u64::MAX,
{
    (page_base((seg.virtual_addr + seg.mem_size - 1) as u64) - page_base(seg.virtual_addr)) / 4096
        + 1
}

/// The frames needed by the loadable segments among the first `n`.
pub open spec fn pages_upto(segs: Seq<ProgramSegment>, n: int) -> int
    decreases n,
{
    if n <= 0 {
        0
    } else {
        pages_upto(segs, n - 1) + if segs[n - 1].loadable() {
            page_count(segs[n - 1])
        } else {
            0int
        }
    }
}

/// The frames needed to load the whole image.
pub open spec fn total_pages(b: Seq<u8>) -> int {
    pages_upto(segments_of(b), segments_of(b).len() as int)
}

/// A loadable segment covers at least one page.
proof fn lemma_page_count_pos(seg: ProgramSegment)
    requires
        seg.mem_size > 0,
        seg.virtual_addr + seg.mem_size - 1 <= u64::MAX,
    ensures
        page_count(seg) >= 1,
{
    lemma_page_base_monotone(
        seg.virtual_addr,
        (seg.virtual_addr + seg.mem_size - 1) as u64,
    );
    let diff = page_base((seg.virtual_addr + seg.mem_size - 1) as u64) - page_base(
        seg.virtual_addr,
    );
    vstd::arithmetic::div_mod::lemma_div_pos_is_pos(diff, 4096);
}

/// Loading more segments never needs fewer frames.
proof fn lemma_pages_upto_mono(segs: Seq<ProgramSegment>, a: int, b: int)
    requires
        0 <= a <= b <= segs.len(),
        forall|k: int|
            0 <= k < segs.len() ==> ((#[trigger] segs[k]).mem_size > 0 ==> segs[k].virtual_addr
                + segs[k].mem_size - 1 <= u64::MAX),
    ensures
        pages_upto(segs, a) <= pages_upto(segs, b),
    decreases b - a,
{
    if a < b {
        lemma_pages_upto_mono(segs, a, b - 1);
        if segs[b - 1].loadable() {
            lemma_page_count_pos(segs[b - 1]);
        }
    }
}

/// The in-memory image of one loadable segment: its file bytes followed
/// by zero fill up to its memory size (the uninitialized-data section).
#[verifier::loop_isolation(false)]
pub fn segment_image(b: &[u8], seg: &ProgramSegment) -> (img: Vec<u8>)
    requires
        seg.offset + seg.file_size <= b@.len(),
        seg.file_size <= seg.mem_size,
        seg.mem_size <= usize::MAX,
    ensures
        img@.len() == seg.mem_size,
        forall|j: int| 0 <= j < seg.file_size ==> img@[j] == b@[seg.offset + j],
        forall|j: int| seg.file_size <= j < seg.mem_size ==> img@[j] == 0,
{
    let image_len = b.len();
    let mut img: Vec<u8> = Vec::new();
    let file_size = seg.file_size as usize;
    let mem_size = seg.mem_size as usize;
    let offset = seg.offset as usize;
    proof {
        assert(seg.offset <= image_len);
        assert(seg.file_size <= seg.mem_size <= usize::MAX);
    }
    let mut j: usize = 0;
    while j < file_size
        invariant
            0 <= j <= file_size,
            file_size == seg.file_size,
            offset == seg.offset,
            seg.offset + seg.file_size <= b@.len(),
            img@.len() == j,
            forall|k: int| 0 <= k < j ==> img@[k] == b@[seg.offset + k],
        decreases file_size - j,
    {
        img.push(b[offset + j]);
        j = j + 1;
    }
    let mut k: usize = file_size;
    while k < mem_size
        invariant
            file_size <= k <= mem_size,
            file_size == seg.file_size,
            mem_size == seg.mem_size,
            img@.len() == k,
            forall|m: int| 0 <= m < file_size ==> img@[m] == b@[seg.offset + m],
            forall|m: int| file_size <= m < k ==> img@[m] == 0,
        decreases mem_size - k,
    {
        img.push(0);
        k = k + 1;
    }
    img
}

/// The planned mapping of one loadable segment: page `start_page +
/// 4096 * j` of the kernel's address space is backed by `frames[j]`,
/// with write and no-execute flags taken from the segment.
#[derive(Debug)]
pub struct SegmentPlan {
    /// The segment this plan maps.
    pub segment: ProgramSegment,
    /// The first page of the covering page range.
    pub start_page: u64,
    /// One freshly allocated physical frame per covered page, in page
    /// order.
    pub frames: Vec<u64>,
    /// Whether the pages are mapped writable.
    pub writable: bool,
    /// Whether the pages stay executable (otherwise they are mapped
    /// no-execute).
    pub executable: bool,
}

/// Everything the kernel image contributes to the new address space:
/// the entry point, the thread-local-storage template, and one mapping
/// plan per loadable segment.
#[derive(Debug)]
pub struct LoadPlan {
    /// The entry-point address from the image header.
    pub entry_point: u64,
    /// The thread-local-storage template, when the image has one.
    pub tls_template: Option<TlsTemplate>,
    /// The per-segment mapping plans, in program-header order.
    pub segments: Vec<SegmentPlan>,
}

/// The frames of the first `n` segment plans, in dispensing order.
pub open spec fn plan_frames_upto(plans: Seq<SegmentPlan>, n: int) -> Seq<u64>
    decreases n,
{
    if n <= 0 {
        Seq::empty()
    } else {
        plan_frames_upto(plans, n - 1) + plans[n - 1].frames@
    }
}

/// All frames a load plan consumes, in dispensing order.
pub open spec fn plan_frames(plans: Seq<SegmentPlan>) -> Seq<u64> {
    plan_frames_upto(plans, plans.len() as int)
}

/// The loadable segments among the first `n`, in order.
pub open spec fn loadable_upto(segs: Seq<ProgramSegment>, n: int) -> Seq<ProgramSegment>
    decreases n,
{
    if n <= 0 {
        Seq::empty()
    } else {
        loadable_upto(segs, n - 1) + if segs[n - 1].loadable() {
            seq![segs[n - 1]]
        } else {
            Seq::empty()
        }
    }
}

/// The loadable segments of the image, in program-header order.
pub open spec fn loadable_segments(b: Seq<u8>) -> Seq<ProgramSegment> {
    loadable_upto(segments_of(b), segments_of(b).len() as int)
}

/// One plan entry correctly maps one loadable segment: the page range
/// covers exactly the segment's memory range, one frame per page, and
/// the protection flags come from the segment.
pub open spec fn plan_entry_ok(sp: SegmentPlan, seg: ProgramSegment) -> bool {
    &&& sp.segment == seg
    &&& sp.start_page == page_base(seg.virtual_addr)
    &&& sp.frames@.len() == page_count(seg)
    &&& sp.writable == seg.spec_writable()
    &&& sp.executable == seg.spec_executable()
}

/// Finds the first thread-local-storage segment and returns its
/// template.
fn find_tls(segments: &Vec<ProgramSegment>) -> (r: Option<TlsTemplate>)
    ensures
        r == tls_of(segments@),
{
    let mut i: usize = 0;
    while i < segments.len()
        invariant
            0 <= i <= segments@.len(),
            forall|j: int| 0 <= j < i ==> (#[trigger] segments@[j]).p_type != 7,
        decreases segments@.len() - i,
    {
        let seg = segments[i];
        if seg.p_type == 7 {
            proof {
                lemma_first_tls_skip(segments@, i as int);
            }
            return Some(
                TlsTemplate {
                    start_addr: seg.virtual_addr,
                    file_size: seg.file_size,
                    mem_size: seg.mem_size,
                },
            );
        }
        i = i + 1;
    }
    proof {
        lemma_first_tls_skip(segments@, segments@.len() as int);
    }
    None
}

proof fn lemma_first_tls_skip(segs: Seq<ProgramSegment>, i: int)
    requires
        0 <= i <= segs.len(),
        forall|j: int| 0 <= j < i ==> (#[trigger] segs[j]).p_type != 7,
    ensures
        first_tls_from(segs, 0) == first_tls_from(segs, i),
    decreases i,
{
    if i > 0 {
        lemma_first_tls_skip(segs, i - 1);
    }
}

/// The image as a whole can be loaded: well-formed header, an entry
/// point, and consistent program headers.
pub open spec fn image_ok(b: Seq<u8>) -> bool {
    header_ok(b) && spec_entry(b) != 0 && segments_valid(b)
}

/// The thread-local-storage template of the image, if it has one.
pub open spec fn spec_tls(b: Seq<u8>) -> Option<TlsTemplate> {
    tls_of(segments_of(b))
}

proof fn lemma_plan_frames_upto_push(plans: Seq<SegmentPlan>, p: SegmentPlan, k: int)
    requires
        0 <= k <= plans.len(),
    ensures
        plan_frames_upto(plans.push(p), k) == plan_frames_upto(plans, k),
    decreases k,
{
    if k > 0 {
        lemma_plan_frames_upto_push(plans, p, k - 1);
    }
}

/// Appending a plan appends exactly its frames.
proof fn lemma_plan_frames_push(plans: Seq<SegmentPlan>, p: SegmentPlan)
    ensures
        plan_frames(plans.push(p)) == plan_frames(plans) + p.frames@,
{
    lemma_plan_frames_upto_push(plans, p, plans.len() as int);
}

/// Parses every program header; `None` exactly when one of them is
/// inconsistent.
#[verifier::loop_isolation(false)]
fn parse_segments(b: &[u8]) -> (r: Option<Vec<ProgramSegment>>)
    requires
        header_ok(b@),
    ensures
        r is Some <==> segments_valid(b@),
        r matches Some(v) ==> v@ == segments_of(b@),
{
    let image_len = b.len();
    let phnum = read_u16_le(b, 56);
    let mut segments: Vec<ProgramSegment> = Vec::new();
    let mut i: usize = 0;
    while i < phnum as usize
        invariant
            0 <= i <= spec_phnum(b@),
            segments@.len() == i,
            forall|j: int| 0 <= j < i ==> segments@[j] == segment_at(b@, j),
            forall|j: int| 0 <= j < i ==> segment_valid(b@, #[trigger] segments@[j]),
        decreases spec_phnum(b@) - i,
    {
        let s = parse_program_header(b, i);
        proof {
            assert(segments_of(b@)[i as int] == s);
        }
        let mut bad = false;
        if s.mem_size > 0 && s.virtual_addr > u64::MAX - (s.mem_size - 1) {
            bad = true;
        }
        if s.p_type == 1 && s.mem_size > 0 && (s.file_size > s.mem_size || s.offset
            > image_len as u64 || s.file_size > image_len as u64 - s.offset) {
            bad = true;
        }
        if s.p_type == 7 && s.file_size > s.mem_size {
            bad = true;
        }
        if bad {
            proof {
                assert(!segment_valid(b@, segments_of(b@)[i as int]));
                assert(!segments_valid(b@));
            }
            return None;
        }
        proof {
            assert(segment_valid(b@, s));
        }
        segments.push(s);
        i = i + 1;
    }
    proof {
        assert(segments@ =~= segments_of(b@));
        assert forall|k: int| 0 <= k < segments_of(b@).len() implies segment_valid(
            b@,
            #[trigger] segments_of(b@)[k],
        ) by {
            assert(segments_of(b@)[k] == segments@[k]);
        }
        assert(segments_valid(b@));
    }
    Some(segments)
}

/// Allocates one frame per page the segment covers.  Succeeds exactly
/// when the map can still supply that many frames.
#[verifier::loop_isolation(false)]
#[verifier::rlimit(100)]
fn allocate_segment_frames(
    frame_allocator: &mut LegacyFrameAllocator,
    s: &ProgramSegment,
    Ghost(next0): Ghost<u64>,
    Ghost(consumed): Ghost<int>,
) -> (r: Option<Vec<u64>>)
    requires
        old(frame_allocator).wf(),
        s.loadable(),
        s.virtual_addr + s.mem_size - 1 <= u64::MAX,
        consumed >= 0,
        can_supply(old(frame_allocator).original@, next0, consumed as nat),
        old(frame_allocator).next_frame == cursor_after(
            old(frame_allocator).original@,
            next0,
            consumed as nat,
        ),
    ensures
        final(frame_allocator).wf(),
        final(frame_allocator).original@ == old(frame_allocator).original@,
        final(frame_allocator).start_frame == old(frame_allocator).start_frame,
        r is Some <==> can_supply(
            old(frame_allocator).original@,
            next0,
            (consumed + page_count(*s)) as nat,
        ),
        r matches Some(frames) ==> {
            &&& frames@.len() == page_count(*s)
            &&& final(frame_allocator).dispensed@ == old(frame_allocator).dispensed@ + frames@
            &&& final(frame_allocator).next_frame == cursor_after(
                old(frame_allocator).original@,
                next0,
                (consumed + page_count(*s)) as nat,
            )
        },
        r is None ==> old(frame_allocator).dispensed@.is_prefix_of(
            final(frame_allocator).dispensed@,
        ),
{
    let ghost regions0 = old(frame_allocator).original@;
    let ghost dispensed0 = old(frame_allocator).dispensed@;
    let start_page = align_down_frame(s.virtual_addr);
    let last_page = align_down_frame(s.virtual_addr + (s.mem_size - 1));
    proof {
        lemma_page_base_monotone(s.virtual_addr, (s.virtual_addr + (s.mem_size - 1)) as u64);
    }
    let count = (last_page - start_page) / 4096 + 1;
    proof {
        assert(count == page_count(*s));
    }
    let mut frames: Vec<u64> = Vec::new();
    let mut j: u64 = 0;
    while j < count
        invariant
            0 <= j <= count,
            frames@.len() == j,
            frame_allocator.wf(),
            frame_allocator.original@ == regions0,
            frame_allocator.start_frame == old(frame_allocator).start_frame,
            frame_allocator.dispensed@ == dispensed0 + frames@,
            can_supply(regions0, next0, (consumed + j) as nat),
            frame_allocator.next_frame == cursor_after(regions0, next0, (consumed + j) as nat),
        decreases count - j,
    {
        let ghost used: nat = (consumed + j) as nat;
        match frame_allocator.allocate_frame() {
            Some(f) => {
                proof {
                    lemma_can_supply_succ(regions0, next0, used);
                    assert(can_supply(regions0, next0, used + 1));
                    assert((consumed + j + 1) as nat == used + 1);
                }
                frames.push(f);
            },
            None => {
                proof {
                    lemma_can_supply_succ(regions0, next0, used);
                    assert(!can_supply(regions0, next0, used + 1));
                    if can_supply(regions0, next0, (consumed + page_count(*s)) as nat) {
                        lemma_can_supply_mono(
                            regions0,
                            next0,
                            used + 1,
                            (consumed + page_count(*s)) as nat,
                        );
                        assert(false);
                    }
                }
                return None;
            },
        }
        j = j + 1;
    }
    Some(frames)
}

/// Loads the kernel image: validates the header and every program
/// header, reserves the segments' level-4 slots in the tracker, and
/// allocates one physical frame per page covered by a loadable segment.
/// Nothing is reserved or consumed unless the image itself is valid.
/// Fails exactly when the header is malformed, the header names no
/// entry point, a program header is inconsistent, or the frame
/// allocator cannot supply the needed frames.
#[verifier::loop_isolation(false)]
#[verifier::rlimit(100)]
pub fn load_kernel(
    b: &[u8],
    frame_allocator: &mut LegacyFrameAllocator,
    used_entries: &mut UsedLevel4Entries,
) -> (r: Result<LoadPlan, LoadError>)
    requires
        old(frame_allocator).wf(),
        old(used_entries).wf(),
    ensures
        final(frame_allocator).wf(),
        final(used_entries).wf(),
        final(frame_allocator).original@ == old(frame_allocator).original@,
        final(frame_allocator).start_frame == old(frame_allocator).start_frame,
        r matches Err(LoadError::BadHeader) <==> !header_ok(b@),
        r matches Err(LoadError::NoEntryPoint) <==> header_ok(b@) && spec_entry(b@) == 0,
        r matches Err(LoadError::BadSegment) <==> header_ok(b@) && spec_entry(b@) != 0
            && !segments_valid(b@),
        r matches Err(LoadError::OutOfMemory) <==> image_ok(b@) && !can_supply(
            old(frame_allocator).original@,
            old(frame_allocator).next_frame,
            total_pages(b@) as nat,
        ),
        r is Ok <==> image_ok(b@) && can_supply(
            old(frame_allocator).original@,
            old(frame_allocator).next_frame,
            total_pages(b@) as nat,
        ),
        !(r matches Err(LoadError::OutOfMemory)) && r is Err ==> final(frame_allocator).dispensed@
            == old(frame_allocator).dispensed@ && final(frame_allocator).next_frame == old(
            frame_allocator,
        ).next_frame && final(used_entries)@ == old(used_entries)@,
        r matches Err(LoadError::OutOfMemory) ==> final(used_entries)@ == marked_segments(
            old(used_entries)@,
            segments_of(b@),
            0,
        ) && old(frame_allocator).dispensed@.is_prefix_of(final(frame_allocator).dispensed@),
        r matches Ok(plan) ==> {
            &&& plan.entry_point == spec_entry(b@)
            &&& plan.tls_template == spec_tls(b@)
            &&& plan.segments@.len() == loadable_segments(b@).len()
            &&& forall|k: int|
                0 <= k < plan.segments@.len() ==> plan_entry_ok(
                    #[trigger] plan.segments@[k],
                    loadable_segments(b@)[k],
                )
            &&& final(frame_allocator).dispensed@ == old(frame_allocator).dispensed@
                + plan_frames(plan.segments@)
            &&& plan_frames(plan.segments@).len() == total_pages(b@)
            &&& final(frame_allocator).next_frame == cursor_after(
                old(frame_allocator).original@,
                old(frame_allocator).next_frame,
                total_pages(b@) as nat,
            )
            &&& final(used_entries)@ == marked_segments(old(used_entries)@, segments_of(b@), 0)
        },
{
    let ghost regions0 = old(frame_allocator).original@;
    let ghost next0 = old(frame_allocator).next_frame;
    let ghost dispensed0 = old(frame_allocator).dispensed@;

    let (entry, _phoff, _phnum) = match parse_elf_header(b) {
        Some(h) => h,
        None => {
            return Err(LoadError::BadHeader);
        },
    };
    if entry == 0 {
        return Err(LoadError::NoEntryPoint);
    }
    let segments = match parse_segments(b) {
        Some(v) => v,
        None => {
            return Err(LoadError::BadSegment);
        },
    };

    used_entries.mark_segments(&segments, 0);
    let tls_template = find_tls(&segments);

    let mut plans: Vec<SegmentPlan> = Vec::new();
    let mut si: usize = 0;
    while si < segments.len()
        invariant
            0 <= si <= segments@.len(),
            frame_allocator.wf(),
            frame_allocator.original@ == regions0,
            frame_allocator.start_frame == old(frame_allocator).start_frame,
            plans@.len() == loadable_upto(segments@, si as int).len(),
            forall|k: int|
                0 <= k < plans@.len() ==> plan_entry_ok(
                    #[trigger] plans@[k],
                    loadable_upto(segments@, si as int)[k],
                ),
            frame_allocator.dispensed@ == dispensed0 + plan_frames(plans@),
            plan_frames(plans@).len() == pages_upto(segments@, si as int),
            0 <= pages_upto(segments@, si as int),
            can_supply(regions0, next0, pages_upto(segments@, si as int) as nat),
            frame_allocator.next_frame == cursor_after(
                regions0,
                next0,
                pages_upto(segments@, si as int) as nat,
            ),
        decreases segments@.len() - si,
    {
        let s = segments[si];
        let ghost consumed_before = pages_upto(segments@, si as int);
        if s.p_type == 1 && s.mem_size > 0 {
            proof {
                lemma_page_count_pos(s);
            }
            let frames = match allocate_segment_frames(
                frame_allocator,
                &s,
                Ghost(next0),
                Ghost(consumed_before),
            ) {
                Some(frames) => frames,
                None => {
                    proof {
                        assert(pages_upto(segments@, si as int + 1) == consumed_before
                            + page_count(s));
                        lemma_pages_upto_mono(segments@, si as int + 1, segments@.len() as int);
                        if can_supply(regions0, next0, total_pages(b@) as nat) {
                            lemma_can_supply_mono(
                                regions0,
                                next0,
                                (consumed_before + page_count(s)) as nat,
                                total_pages(b@) as nat,
                            );
                            assert(false);
                        }
                    }
                    return Err(LoadError::OutOfMemory);
                },
            };
            let plan = SegmentPlan {
                segment: s,
                start_page: align_down_frame(s.virtual_addr),
                frames,
                writable: s.flags & 2 == 2,
                executable: s.flags & 1 == 1,
            };
            proof {
                lemma_plan_frames_push(plans@, plan);
            }
            plans.push(plan);
            proof {
                assert(loadable_upto(segments@, si as int + 1) =~= loadable_upto(
                    segments@,
                    si as int,
                ) + seq![s]);
                assert(frame_allocator.dispensed@ =~= dispensed0 + plan_frames(plans@));
            }
        } else {
            proof {
                assert(loadable_upto(segments@, si as int + 1) =~= loadable_upto(
                    segments@,
                    si as int,
                ));
                assert(pages_upto(segments@, si as int + 1) == pages_upto(segments@, si as int));
            }
        }
        si = si + 1;
    }
    proof {
        assert(pages_upto(segments@, segments@.len() as int) == total_pages(b@));
    }
    Ok(LoadPlan { entry_point: entry, tls_template, segments: plans })
}

/// A valid image needs a non-negative number of frames.
pub proof fn lemma_total_pages_nonneg(b: Seq<u8>)
    requires
        segments_valid(b),
    ensures
        total_pages(b) >= 0,
{
    lemma_pages_upto_mono(segments_of(b), 0, segments_of(b).len() as int);
}

} // verus!
