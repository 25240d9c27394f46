//! The physical frame allocator: hands out unused 4 KiB frames from the
//! firmware memory map, one at a time, never revisiting a frame, and
//! later reconstructs the final usable/used memory map the kernel
//! receives.

use vstd::prelude::*;

verus! {

use crate::addr::{align_up_frame, page_round_up};
use crate::info::{MemoryRegion, MemoryRegionKind};
use crate::memory_map::{regions_wf, E820MemoryRegion};

/// The first frame-aligned address usable from region `r` once the
/// allocation cursor stands at `from`.
pub open spec fn candidate_from(r: E820MemoryRegion, from: u64) -> int {
    if page_round_up(r.start_addr) >= from {
        page_round_up(r.start_addr)
    } else {
        from as int
    }
}

/// Whether region `r` still holds a whole free frame once the cursor
/// stands at `from`.
pub open spec fn region_fits(r: E820MemoryRegion, from: u64) -> bool {
    r.usable() && candidate_from(r, from) + 4096 <= r.end()
}

/// The next frame the allocator dispenses when the cursor stands at
/// `from`: the candidate of the first region that still fits one, or -1
/// when no region does.
pub open spec fn next_free_from(regions: Seq<E820MemoryRegion>, from: u64, i: int) -> int
    decreases regions.len() - i,
{
    if i < 0 || i >= regions.len() {
        -1
    } else if region_fits(regions[i], from) {
        candidate_from(regions[i], from)
    } else {
        next_free_from(regions, from, i + 1)
    }
}

/// The next frame dispensed from cursor position `from`, or -1 when the
/// map is exhausted.
pub open spec fn next_free(regions: Seq<E820MemoryRegion>, from: u64) -> int {
    next_free_from(regions, from, 0)
}

/// Frame `f` lies wholly inside some usable region of the map.
pub open spec fn frame_in_usable(regions: Seq<E820MemoryRegion>, f: u64) -> bool {
    exists|i: int|
        0 <= i < regions.len() && (#[trigger] regions[i]).usable() && regions[i].start_addr <= f
            && f + 4096 <= regions[i].end()
}

/// A physical frame allocator over the firmware memory map.  Frames are
/// dispensed in address order from a monotonically advancing cursor that
/// starts at a configured floor (just past the kernel image, so the
/// kernel's own bytes are never handed out).  Nothing is ever freed.
pub struct LegacyFrameAllocator {
    /// The firmware memory map, untouched.
    pub original: Vec<E820MemoryRegion>,
    /// The next candidate frame address; every frame below it is spoken
    /// for.
    pub next_frame: u64,
    /// The configured floor: no frame below it is ever dispensed.
    pub start_frame: u64,
    /// Every frame dispensed so far, in the order handed out.
    pub dispensed: Ghost<Seq<u64>>,
}

impl LegacyFrameAllocator {
    /// The allocator's invariant: cursor and floor are frame-aligned and
    /// the cursor never retreats; every dispensed frame is aligned, at
    /// or above the floor, wholly below the cursor, inside some usable
    /// region, and the dispensed list is spaced a whole frame apart in
    /// dispensing order.
    pub open spec fn wf(&self) -> bool {
        &&& self.next_frame % 4096 == 0
        &&& self.start_frame % 4096 == 0
        &&& self.start_frame <= self.next_frame
        &&& regions_wf(self.original@)
        &&& forall|i: int|
            0 <= i < self.dispensed@.len() ==> {
                &&& (#[trigger] self.dispensed@[i]) % 4096 == 0
                &&& self.dispensed@[i] >= self.start_frame
                &&& self.dispensed@[i] + 4096 <= self.next_frame
                &&& frame_in_usable(self.original@, self.dispensed@[i])
            }
        &&& forall|i: int|
            0 <= i < self.dispensed@.len() - 1 ==> (#[trigger] self.dispensed@[i]) + 4096
                <= self.dispensed@[i + 1]
    }

    /// Creates an allocator whose first candidate frame is `frame`,
    /// skipping everything below it.
    pub fn new_starting_at(frame: u64, memory_map: Vec<E820MemoryRegion>) -> (r: Self)
        requires
            frame % 4096 == 0,
            regions_wf(memory_map@),
        ensures
            r.wf(),
            r.original@ == memory_map@,
            r.next_frame == frame,
            r.start_frame == frame,
            r.dispensed@ == Seq::<u64>::empty(),
    {
        LegacyFrameAllocator {
            original: memory_map,
            next_frame: frame,
            start_frame: frame,
            dispensed: Ghost(Seq::empty()),
        }
    }

    /// The number of records in the firmware map the allocator walks.
    pub fn len(&self) -> (n: usize)
        ensures
            n == self.original@.len(),
    {
        self.original.len()
    }

    /// Dispenses the next unused 4 KiB frame: the lowest frame-aligned
    /// address at or beyond the cursor that lies wholly inside a usable
    /// region, scanning regions in firmware order.  Returns `None` only
    /// when no usable region holds a whole frame beyond the cursor.  A
    /// dispensed frame is aligned, at or above the floor, inside a
    /// usable region, and never equals an earlier one.
    #[verifier::loop_isolation(false)]
    pub fn allocate_frame(&mut self) -> (r: Option<u64>)
        requires
            old(self).wf(),
        ensures
            final(self).wf(),
            final(self).original == old(self).original,
            final(self).start_frame == old(self).start_frame,
            ({
                let nf = next_free(old(self).original@, old(self).next_frame);
                if nf >= 0 {
                    &&& r == Some(nf as u64)
                    &&& nf % 4096 == 0
                    &&& nf >= old(self).next_frame
                    &&& frame_in_usable(old(self).original@, nf as u64)
                    &&& !old(self).dispensed@.contains(nf as u64)
                    &&& final(self).next_frame == nf + 4096
                    &&& final(self).dispensed@ == old(self).dispensed@.push(nf as u64)
                } else {
                    &&& r is None
                    &&& final(self).next_frame == old(self).next_frame
                    &&& final(self).dispensed@ == old(self).dispensed@
                }
            }),
    {
        let ghost regions = self.original@;
        let ghost from = self.next_frame;
        let mut i: usize = 0;
        while i < self.original.len()
            invariant
                0 <= i <= regions.len(),
                *self == *old(self),
                forall|j: int| 0 <= j < i ==> !region_fits(regions[j], from),
            decreases regions.len() - i,
        {
            let r = self.original[i];
            if r.region_type == 1 {
                let end = r.start_addr + r.len;
                match align_up_frame(r.start_addr) {
                    Some(aligned_start) => {
                        let c = if aligned_start >= self.next_frame {
                            aligned_start
                        } else {
                            self.next_frame
                        };
                        if end >= 4096 && c <= end - 4096 {
                            proof {
                                assert(c == candidate_from(regions[i as int], from));
                                assert(region_fits(regions[i as int], from));
                                lemma_next_free_skip(regions, from, i as int);
                                assert(next_free(regions, from) == c);
                                assert forall|k: int|
                                    0 <= k < self.dispensed@.len() implies self.dispensed@[k]
                                    != c by {
                                    assert(self.dispensed@[k] + 4096 <= from);
                                }
                                assert(!self.dispensed@.contains(c));
                            }
                            self.next_frame = c + 4096;
                            proof {
                                self.dispensed@ = self.dispensed@.push(c);
                            }
                            return Some(c);
                        }
                        proof {
                            assert(!region_fits(regions[i as int], from));
                        }
                    },
                    None => {
                        proof {
                            assert(!region_fits(regions[i as int], from));
                        }
                    },
                }
            }
            i = i + 1;
        }
        proof {
            lemma_next_free_skip(regions, from, regions.len() as int);
        }
        None
    }
}

/// What one firmware record contributes to the final memory map, given
/// the allocator's final cursor `next` and floor: a region that never
/// held a candidate frame at or above the floor, or whose candidates all
/// lie at or beyond the cursor, passes through usable; one wholly below
/// the cursor becomes bootloader-owned; one the cursor stands inside is
/// split at the cursor.  Firmware-reserved records pass through with
/// their raw type; empty records contribute nothing.
pub open spec fn region_outputs(r: E820MemoryRegion, next: u64, floor: u64) -> Seq<MemoryRegion> {
    let s = r.start_addr;
    let e = r.end();
    if e <= s {
        Seq::empty()
    } else if !r.usable() {
        seq![
            MemoryRegion {
                start: s,
                end: (s + r.len) as u64,
                kind: MemoryRegionKind::Unknown(r.region_type),
            },
        ]
    } else {
        let c = candidate_from(r, floor);
        if c + 4096 > e || next <= c {
            seq![MemoryRegion { start: s, end: (s + r.len) as u64, kind: MemoryRegionKind::Usable }]
        } else if next >= e {
            seq![
                MemoryRegion {
                    start: s,
                    end: (s + r.len) as u64,
                    kind: MemoryRegionKind::Bootloader,
                },
            ]
        } else {
            seq![
                MemoryRegion { start: s, end: next, kind: MemoryRegionKind::Bootloader },
                MemoryRegion { start: next, end: (s + r.len) as u64, kind: MemoryRegionKind::Usable },
            ]
        }
    }
}

/// The final memory map contributed by the first `n` firmware records.
pub open spec fn final_map_upto(
    regions: Seq<E820MemoryRegion>,
    next: u64,
    floor: u64,
    n: int,
) -> Seq<MemoryRegion>
    decreases n,
{
    if n <= 0 {
        Seq::empty()
    } else {
        final_map_upto(regions, next, floor, n - 1) + region_outputs(regions[n - 1], next, floor)
    }
}

/// The final memory map the kernel receives, reconstructed from the
/// firmware map and the allocator's cursor.
pub open spec fn final_map(
    regions: Seq<E820MemoryRegion>,
    next: u64,
    floor: u64,
) -> Seq<MemoryRegion> {
    final_map_upto(regions, next, floor, regions.len() as int)
}

impl LegacyFrameAllocator {
    /// Re-walks the firmware map and builds the final memory map: every
    /// usable region is passed through, turned bootloader-owned, or
    /// split at the allocation cursor; reserved regions pass through
    /// unchanged.
    #[verifier::loop_isolation(false)]
    pub fn construct_memory_map(self) -> (out: Vec<MemoryRegion>)
        requires
            self.wf(),
        ensures
            out@ == final_map(self.original@, self.next_frame, self.start_frame),
    {
        let ghost regions = self.original@;
        let next = self.next_frame;
        let floor = self.start_frame;
        let mut out: Vec<MemoryRegion> = Vec::new();
        let mut i: usize = 0;
        while i < self.original.len()
            invariant
                0 <= i <= regions.len(),
                out@ == final_map_upto(regions, next, floor, i as int),
            decreases regions.len() - i,
        {
            let r = self.original[i];
            if r.len > 0 {
                let e = r.start_addr + r.len;
                if r.region_type != 1 {
                    out.push(
                        MemoryRegion {
                            start: r.start_addr,
                            end: e,
                            kind: MemoryRegionKind::Unknown(r.region_type),
                        },
                    );
                } else {
                    match align_up_frame(r.start_addr) {
                        None => {
                            out.push(
                                MemoryRegion {
                                    start: r.start_addr,
                                    end: e,
                                    kind: MemoryRegionKind::Usable,
                                },
                            );
                        },
                        Some(aligned_start) => {
                            let c = if aligned_start >= floor {
                                aligned_start
                            } else {
                                floor
                            };
                            if e < 4096 || c > e - 4096 || next <= c {
                                out.push(
                                    MemoryRegion {
                                        start: r.start_addr,
                                        end: e,
                                        kind: MemoryRegionKind::Usable,
                                    },
                                );
                            } else if next >= e {
                                out.push(
                                    MemoryRegion {
                                        start: r.start_addr,
                                        end: e,
                                        kind: MemoryRegionKind::Bootloader,
                                    },
                                );
                            } else {
                                out.push(
                                    MemoryRegion {
                                        start: r.start_addr,
                                        end: next,
                                        kind: MemoryRegionKind::Bootloader,
                                    },
                                );
                                out.push(
                                    MemoryRegion {
                                        start: next,
                                        end: e,
                                        kind: MemoryRegionKind::Usable,
                                    },
                                );
                            }
                        },
                    }
                }
            }
            proof {
                assert(out@ =~= final_map_upto(regions, next, floor, i + 1));
            }
            i = i + 1;
        }
        out
    }
}

/// Scanning for the next free frame may skip regions that hold none.
proof fn lemma_next_free_skip(regions: Seq<E820MemoryRegion>, from: u64, i: int)
    requires
        0 <= i <= regions.len(),
        forall|j: int| 0 <= j < i ==> !region_fits(regions[j], from),
    ensures
        next_free(regions, from) == next_free_from(regions, from, i),
    decreases i,
{
    if i > 0 {
        lemma_next_free_skip(regions, from, i - 1);
    }
}

/// Whether the map can supply `n` more frames when the cursor stands at
/// `from`.
pub open spec fn can_supply(regions: Seq<E820MemoryRegion>, from: u64, n: nat) -> bool
    decreases n,
{
    n == 0 || (next_free(regions, from) >= 0 && can_supply(
        regions,
        (next_free(regions, from) + 4096) as u64,
        (n - 1) as nat,
    ))
}

/// Where the cursor stands after `n` successful allocations from `from`
/// (it stops moving once the map is exhausted).
pub open spec fn cursor_after(regions: Seq<E820MemoryRegion>, from: u64, n: nat) -> u64
    decreases n,
{
    if n == 0 {
        from
    } else if next_free(regions, from) >= 0 {
        cursor_after(regions, (next_free(regions, from) + 4096) as u64, (n - 1) as nat)
    } else {
        from
    }
}

/// The next dispensed frame, when one exists, is aligned, at or beyond
/// the cursor, and leaves room for its own 4 KiB.
pub proof fn lemma_next_free_bounds(regions: Seq<E820MemoryRegion>, from: u64)
    requires
        regions_wf(regions),
        from % 4096 == 0,
    ensures
        next_free(regions, from) >= 0 ==> {
            &&& from <= next_free(regions, from)
            &&& next_free(regions, from) + 4096 <= u64::MAX
            &&& next_free(regions, from) % 4096 == 0
        },
{
    lemma_next_free_from_bounds(regions, from, 0);
}

proof fn lemma_next_free_from_bounds(regions: Seq<E820MemoryRegion>, from: u64, i: int)
    requires
        regions_wf(regions),
        from % 4096 == 0,
        0 <= i <= regions.len(),
    ensures
        next_free_from(regions, from, i) >= 0 ==> {
            &&& from <= next_free_from(regions, from, i)
            &&& next_free_from(regions, from, i) + 4096 <= u64::MAX
            &&& next_free_from(regions, from, i) % 4096 == 0
        },
    decreases regions.len() - i,
{
    if i < regions.len() {
        if region_fits(regions[i], from) {
            crate::addr::lemma_page_round_up_aligned(regions[i].start_addr);
            assert(regions[i].start_addr + regions[i].len <= u64::MAX);
        } else {
            lemma_next_free_from_bounds(regions, from, i + 1);
        }
    }
}

/// Supplying one more frame succeeds exactly when the cursor after the
/// first `n` still finds a free frame, and then the cursor advances one
/// frame past it.
pub proof fn lemma_can_supply_succ(regions: Seq<E820MemoryRegion>, from: u64, n: nat)
    ensures
        can_supply(regions, from, n + 1) <==> (can_supply(regions, from, n) && next_free(
            regions,
            cursor_after(regions, from, n),
        ) >= 0),
        can_supply(regions, from, n + 1) ==> cursor_after(regions, from, n + 1) == ((next_free(
            regions,
            cursor_after(regions, from, n),
        ) + 4096) as u64),
    decreases n,
{
    let stepped = (next_free(regions, from) + 4096) as u64;
    assert(can_supply(regions, from, n + 1) == (next_free(regions, from) >= 0 && can_supply(
        regions,
        stepped,
        n,
    )));
    if next_free(regions, from) >= 0 {
        assert(cursor_after(regions, from, n + 1) == cursor_after(regions, stepped, n));
        if n == 0 {
            assert(cursor_after(regions, stepped, 0) == stepped);
        } else {
            lemma_can_supply_succ(regions, stepped, (n - 1) as nat);
            assert(can_supply(regions, from, n) == (next_free(regions, from) >= 0 && can_supply(
                regions,
                stepped,
                (n - 1) as nat,
            )));
            assert(cursor_after(regions, from, n) == cursor_after(regions, stepped, (n - 1) as nat));
        }
    } else {
        if n > 0 {
            assert(!can_supply(regions, from, n));
        }
        assert(cursor_after(regions, from, n) == from);
    }
}

/// Whoever can supply `n` frames can supply any smaller number.
pub proof fn lemma_can_supply_mono(regions: Seq<E820MemoryRegion>, from: u64, m: nat, n: nat)
    requires
        m <= n,
        can_supply(regions, from, n),
    ensures
        can_supply(regions, from, m),
    decreases m,
{
    if m > 0 {
        lemma_can_supply_mono(
            regions,
            (next_free(regions, from) + 4096) as u64,
            (m - 1) as nat,
            (n - 1) as nat,
        );
    }
}

/// Address `a` lies in some record of the firmware map.
pub open spec fn input_covers(regions: Seq<E820MemoryRegion>, a: u64) -> bool {
    exists|k: int|
        0 <= k < regions.len() && (#[trigger] regions[k]).start_addr <= a < regions[k].end()
}

/// Address `a` lies in some record of a final memory map.
pub open spec fn output_covers(map: Seq<MemoryRegion>, a: u64) -> bool {
    exists|k: int| 0 <= k < map.len() && (#[trigger] map[k]).start <= a < map[k].end
}

/// Region `r` is split in two by the final cursor position.
pub open spec fn is_split(r: E820MemoryRegion, next: u64, floor: u64) -> bool {
    region_outputs(r, next, floor).len() == 2
}

/// How many of the first `n` firmware records are split in the final
/// map.
pub open spec fn splits_upto(regions: Seq<E820MemoryRegion>, next: u64, floor: u64, n: int) -> int
    decreases n,
{
    if n <= 0 {
        0
    } else {
        splits_upto(regions, next, floor, n - 1) + if is_split(regions[n - 1], next, floor) {
            1int
        } else {
            0int
        }
    }
}

/// The exact shape of one record's contribution to the final map: a
/// non-empty record becomes one or two adjacent output records that
/// together cover exactly its byte range; a reserved record keeps its
/// raw type; a split record's consumed prefix is bootloader-owned up to
/// the cursor and the remainder stays usable, and a split happens only
/// when the cursor stands strictly inside the record.
pub proof fn lemma_region_outputs_exact(r: E820MemoryRegion, next: u64, floor: u64)
    requires
        r.start_addr + r.len <= u64::MAX,
    ensures
        ({
            let ro = region_outputs(r, next, floor);
            &&& r.len == 0 ==> ro.len() == 0
            &&& r.len > 0 ==> {
                &&& 1 <= ro.len() <= 2
                &&& ro[0].start == r.start_addr
                &&& ro[ro.len() - 1].end == r.end()
                &&& forall|k: int| 0 <= k < ro.len() ==> (#[trigger] ro[k]).start < ro[k].end
                &&& forall|k: int| 0 <= k < ro.len() - 1 ==> (#[trigger] ro[k]).end == ro[k
                    + 1].start
                &&& !r.usable() ==> ro.len() == 1 && ro[0].kind == MemoryRegionKind::Unknown(
                    r.region_type,
                )
                &&& r.usable() ==> forall|k: int|
                    0 <= k < ro.len() ==> (#[trigger] ro[k]).kind == MemoryRegionKind::Usable
                        || ro[k].kind == MemoryRegionKind::Bootloader
                &&& ro.len() == 2 ==> {
                    &&& ro[0].kind == MemoryRegionKind::Bootloader
                    &&& ro[1].kind == MemoryRegionKind::Usable
                    &&& ro[0].end == next
                    &&& r.start_addr < next < r.end()
                }
            }
        }),
{
}

/// One record's contribution covers exactly the record's own bytes.
proof fn lemma_region_outputs_cover(r: E820MemoryRegion, next: u64, floor: u64, a: u64)
    requires
        r.start_addr + r.len <= u64::MAX,
    ensures
        output_covers(region_outputs(r, next, floor), a) <==> (r.start_addr <= a < r.end()),
{
    let ro = region_outputs(r, next, floor);
    lemma_region_outputs_exact(r, next, floor);
    if r.start_addr <= a < r.end() {
        if ro.len() == 2 && a >= next {
            assert(ro[1].start <= a < ro[1].end);
        } else {
            assert(ro[0].start <= a < ro[0].end);
        }
    }
}

/// Concatenation covers an address exactly when one of the parts does.
proof fn lemma_output_covers_concat(x: Seq<MemoryRegion>, y: Seq<MemoryRegion>, a: u64)
    ensures
        output_covers(x + y, a) <==> (output_covers(x, a) || output_covers(y, a)),
{
    if output_covers(x, a) {
        let k = choose|k: int| 0 <= k < x.len() && (#[trigger] x[k]).start <= a < x[k].end;
        assert((x + y)[k].start <= a < (x + y)[k].end);
    }
    if output_covers(y, a) {
        let k = choose|k: int| 0 <= k < y.len() && (#[trigger] y[k]).start <= a < y[k].end;
        assert((x + y)[x.len() + k].start <= a < (x + y)[x.len() + k].end);
    }
    if output_covers(x + y, a) {
        let k = choose|k: int| 0 <= k < (x + y).len() && (#[trigger] (x + y)[k]).start <= a < (x
            + y)[k].end;
        if k < x.len() {
            assert(x[k].start <= a < x[k].end);
        } else {
            assert(y[k - x.len()].start <= a < y[k - x.len()].end);
        }
    }
}

proof fn lemma_covers_upto(regions: Seq<E820MemoryRegion>, next: u64, floor: u64, n: int, a: u64)
    requires
        regions_wf(regions),
        0 <= n <= regions.len(),
    ensures
        output_covers(final_map_upto(regions, next, floor, n), a) <==> exists|k: int|
            0 <= k < n && (#[trigger] regions[k]).start_addr <= a < regions[k].end(),
    decreases n,
{
    if n > 0 {
        lemma_covers_upto(regions, next, floor, n - 1, a);
        lemma_output_covers_concat(
            final_map_upto(regions, next, floor, n - 1),
            region_outputs(regions[n - 1], next, floor),
            a,
        );
        lemma_region_outputs_cover(regions[n - 1], next, floor, a);
        if exists|k: int| 0 <= k < n && (#[trigger] regions[k]).start_addr <= a < regions[k].end() {
            let k = choose|k: int|
                0 <= k < n && (#[trigger] regions[k]).start_addr <= a < regions[k].end();
            if k < n - 1 {
                assert(exists|k: int|
                    0 <= k < n - 1 && (#[trigger] regions[k]).start_addr <= a < regions[k].end());
            }
        }
    }
}

/// Coverage: the final memory map covers exactly the bytes the firmware
/// map covers — no byte is lost and none invented, whatever the cursor
/// and floor.
pub proof fn lemma_final_map_covers(regions: Seq<E820MemoryRegion>, next: u64, floor: u64, a: u64)
    requires
        regions_wf(regions),
    ensures
        output_covers(final_map(regions, next, floor), a) <==> input_covers(regions, a),
{
    lemma_covers_upto(regions, next, floor, regions.len() as int, a);
}

proof fn lemma_one_split_upto(regions: Seq<E820MemoryRegion>, next: u64, floor: u64, n: int)
    requires
        regions_wf(regions),
        crate::memory_map::regions_disjoint(regions),
        0 <= n <= regions.len(),
    ensures
        0 <= splits_upto(regions, next, floor, n) <= 1,
        splits_upto(regions, next, floor, n) == 1 ==> exists|k: int|
            0 <= k < n && is_split(#[trigger] regions[k], next, floor),
        final_map_upto(regions, next, floor, n).len() <= n + splits_upto(regions, next, floor, n),
    decreases n,
{
    if n > 0 {
        lemma_one_split_upto(regions, next, floor, n - 1);
        let r = regions[n - 1];
        lemma_region_outputs_exact(r, next, floor);
        if is_split(r, next, floor) {
            if splits_upto(regions, next, floor, n - 1) == 1 {
                let k = choose|k: int|
                    0 <= k < n - 1 && is_split(#[trigger] regions[k], next, floor);
                lemma_region_outputs_exact(regions[k], next, floor);
                assert(regions[k].start_addr < next < regions[k].end());
                assert(r.start_addr < next < r.end());
                assert(false);
            }
            assert(exists|k: int| 0 <= k < n && is_split(#[trigger] regions[k], next, floor));
        } else {
            if splits_upto(regions, next, floor, n) == 1 {
                let k = choose|k: int|
                    0 <= k < n - 1 && is_split(#[trigger] regions[k], next, floor);
                assert(exists|k: int| 0 <= k < n && is_split(#[trigger] regions[k], next, floor));
            }
        }
    }
}

/// At most one record of a disjoint firmware map is split, so the final
/// map holds at most one record more than the firmware map.
pub proof fn lemma_final_map_at_most_one_split(
    regions: Seq<E820MemoryRegion>,
    next: u64,
    floor: u64,
)
    requires
        regions_wf(regions),
        crate::memory_map::regions_disjoint(regions),
    ensures
        splits_upto(regions, next, floor, regions.len() as int) <= 1,
        final_map(regions, next, floor).len() <= regions.len() + 1,
{
    lemma_one_split_upto(regions, next, floor, regions.len() as int);
}

/// No frame is ever dispensed twice: the dispensed list of a
/// well-formed allocator holds pairwise distinct frames.
pub proof fn lemma_dispensed_distinct(a: &LegacyFrameAllocator)
    requires
        a.wf(),
    ensures
        forall|i: int, j: int|
            0 <= i < j < a.dispensed@.len() ==> a.dispensed@[i] != a.dispensed@[j],
{
    assert forall|i: int, j: int|
        0 <= i < j < a.dispensed@.len() implies a.dispensed@[i] != a.dispensed@[j] by {
        lemma_dispensed_increasing(a.dispensed@, i, j);
    }
}

proof fn lemma_dispensed_increasing(s: Seq<u64>, i: int, j: int)
    requires
        0 <= i < j < s.len(),
        forall|k: int| 0 <= k < s.len() - 1 ==> (#[trigger] s[k]) + 4096 <= s[k + 1],
    ensures
        s[i] + 4096 <= s[j],
    decreases j - i,
{
    if j > i + 1 {
        lemma_dispensed_increasing(s, i, j - 1);
    }
}

/// The frames of a `(page, frame)` list, in order.
pub open spec fn pair_frames(ps: Seq<(u64, u64)>) -> Seq<u64> {
    Seq::new(ps.len(), |i: int| ps[i].1)
}

/// Backs `count` consecutive pages starting at `start` with freshly
/// allocated frames.  Succeeds exactly when the map can supply `count`
/// more frames.
#[verifier::loop_isolation(false)]
#[verifier::rlimit(100)]
pub fn allocate_backed_pages(
    frame_allocator: &mut LegacyFrameAllocator,
    start: u64,
    count: u64,
    Ghost(next0): Ghost<u64>,
    Ghost(consumed): Ghost<int>,
) -> (r: Option<Vec<(u64, u64)>>)
    requires
        old(frame_allocator).wf(),
        start + 4096 * count <= u64::MAX + 4096,
        consumed >= 0,
        can_supply(old(frame_allocator).original@, next0, consumed as nat),
        old(frame_allocator).next_frame == cursor_after(
            old(frame_allocator).original@,
            next0,
            consumed as nat,
        ),
    ensures
        final(frame_allocator).wf(),
        final(frame_allocator).original@ == old(frame_allocator).original@,
        final(frame_allocator).start_frame == old(frame_allocator).start_frame,
        r is Some <==> can_supply(
            old(frame_allocator).original@,
            next0,
            (consumed + count) as nat,
        ),
        r matches Some(pages) ==> {
            &&& pages@.len() == count
            &&& forall|i: int| 0 <= i < count ==> (#[trigger] pages@[i]).0 == start + 4096 * i
            &&& forall|i: int|
                0 <= i < count ==> (#[trigger] pages@[i]).1 == next_free(
                    old(frame_allocator).original@,
                    cursor_after(old(frame_allocator).original@, next0, (consumed + i) as nat),
                )
            &&& final(frame_allocator).dispensed@ == old(frame_allocator).dispensed@ + pair_frames(
                pages@,
            )
            &&& final(frame_allocator).next_frame == cursor_after(
                old(frame_allocator).original@,
                next0,
                (consumed + count) as nat,
            )
        },
        r is None ==> old(frame_allocator).dispensed@.is_prefix_of(
            final(frame_allocator).dispensed@,
        ),
{
    let ghost regions0 = old(frame_allocator).original@;
    let ghost dispensed0 = old(frame_allocator).dispensed@;
    let mut pages: Vec<(u64, u64)> = Vec::new();
    let mut i: u64 = 0;
    while i < count
        invariant
            0 <= i <= count,
            pages@.len() == i,
            forall|k: int| 0 <= k < i ==> (#[trigger] pages@[k]).0 == start + 4096 * k,
            forall|k: int|
                0 <= k < i ==> (#[trigger] pages@[k]).1 == next_free(
                    regions0,
                    cursor_after(regions0, next0, (consumed + k) as nat),
                ),
            frame_allocator.wf(),
            frame_allocator.original@ == regions0,
            frame_allocator.start_frame == old(frame_allocator).start_frame,
            frame_allocator.dispensed@ == dispensed0 + pair_frames(pages@),
            can_supply(regions0, next0, (consumed + i) as nat),
            frame_allocator.next_frame == cursor_after(regions0, next0, (consumed + i) as nat),
        decreases count - i,
    {
        let ghost used: nat = (consumed + i) as nat;
        let page = start + 4096 * i;
        match frame_allocator.allocate_frame() {
            Some(f) => {
                proof {
                    lemma_can_supply_succ(regions0, next0, used);
                    assert((consumed + i + 1) as nat == used + 1);
                }
                pages.push((page, f));
                proof {
                    assert(pair_frames(pages@) =~= pair_frames(pages@.drop_last()).push(f));
                    assert(frame_allocator.dispensed@ =~= dispensed0 + pair_frames(pages@));
                }
            },
            None => {
                proof {
                    lemma_can_supply_succ(regions0, next0, used);
                    if can_supply(regions0, next0, (consumed + count) as nat) {
                        lemma_can_supply_mono(regions0, next0, used + 1, (consumed + count) as nat);
                        assert(false);
                    }
                }
                return None;
            },
        }
        i = i + 1;
    }
    Some(pages)
}

/// The final map holds record `rec` somewhere.
pub open spec fn map_has_record(map: Seq<MemoryRegion>, rec: MemoryRegion) -> bool {
    exists|j: int| 0 <= j < map.len() && map[j] == rec
}

proof fn lemma_final_map_has_region_outputs(
    regions: Seq<E820MemoryRegion>,
    next: u64,
    floor: u64,
    n: int,
    i: int,
    k: int,
)
    requires
        0 <= i < n <= regions.len(),
        0 <= k < region_outputs(regions[i], next, floor).len(),
    ensures
        map_has_record(
            final_map_upto(regions, next, floor, n),
            region_outputs(regions[i], next, floor)[k],
        ),
    decreases n,
{
    let rec = region_outputs(regions[i], next, floor)[k];
    if i == n - 1 {
        let prev = final_map_upto(regions, next, floor, n - 1);
        assert(final_map_upto(regions, next, floor, n)[prev.len() + k] == rec);
    } else {
        lemma_final_map_has_region_outputs(regions, next, floor, n - 1, i, k);
        let prev = final_map_upto(regions, next, floor, n - 1);
        let j = choose|j: int| 0 <= j < prev.len() && prev[j] == rec;
        assert(final_map_upto(regions, next, floor, n)[j] == rec);
    }
}

/// A frame-aligned address at or above `s` is at or above the first
/// frame boundary above `s`.
proof fn lemma_aligned_at_least_round_up(f: u64, s: u64)
    requires
        f % 4096 == 0,
        s <= f,
    ensures
        crate::addr::page_round_up(s) <= f,
{
    vstd::arithmetic::div_mod::lemma_fundamental_div_mod(f as int, 4096);
    vstd::arithmetic::div_mod::lemma_fundamental_div_mod(s as int, 4096);
    if s % 4096 != 0 {
        let qf = f as int / 4096;
        let qs = s as int / 4096;
        assert(f == 4096 * qf);
        assert(s == 4096 * qs + s % 4096);
        assert(qf > qs) by (nonlinear_arith)
            requires
                4096 * qf >= 4096 * qs + s % 4096,
                0 < s % 4096 < 4096,
        ;
        assert(4096 * qf >= 4096 * (qs + 1)) by (nonlinear_arith)
            requires
                qf >= qs + 1,
        ;
    }
}

/// Consistency of dispensing and the final map: every frame the
/// allocator ever handed out lies wholly inside a bootloader-owned
/// record of the final memory map — the kernel is never told a consumed
/// frame is usable.
pub proof fn lemma_dispensed_frames_bootloader(a: &LegacyFrameAllocator, k: int)
    requires
        a.wf(),
        0 <= k < a.dispensed@.len(),
    ensures
        exists|j: int|
            {
                &&& 0 <= j < final_map(a.original@, a.next_frame, a.start_frame).len()
                &&& (#[trigger] final_map(a.original@, a.next_frame, a.start_frame)[j]).kind
                    == MemoryRegionKind::Bootloader
                &&& final_map(a.original@, a.next_frame, a.start_frame)[j].start
                    <= a.dispensed@[k]
                &&& a.dispensed@[k] + 4096 <= final_map(a.original@, a.next_frame, a.start_frame)[j].end
            },
{
    let map = final_map(a.original@, a.next_frame, a.start_frame);
    let f = a.dispensed@[k];
    let regions = a.original@;
    let next = a.next_frame;
    let floor = a.start_frame;
    let i = choose|i: int|
        0 <= i < regions.len() && (#[trigger] regions[i]).usable() && regions[i].start_addr <= f
            && f + 4096 <= regions[i].end();
    let r = regions[i];
    lemma_aligned_at_least_round_up(f, r.start_addr);
    let c = candidate_from(r, floor);
    assert(c <= f);
    assert(f + 4096 <= next);
    assert(c + 4096 <= r.end());
    // The region cannot pass through usable: its candidate fits and the
    // cursor stands past the dispensed frame, so its prefix (up to the
    // cursor or the region end) is bootloader-owned and holds the frame.
    let ro = region_outputs(r, next, floor);
    assert(ro[0].kind == MemoryRegionKind::Bootloader && ro[0].start <= f && f + 4096 <= ro[0].end);
    lemma_final_map_has_region_outputs(regions, next, floor, regions.len() as int, i, 0);
    let j = choose|j: int| 0 <= j < map.len() && map[j] == ro[0];
    assert(0 <= j < map.len() && (#[trigger] map[j]).kind == MemoryRegionKind::Bootloader
        && map[j].start <= f && f + 4096 <= map[j].end);
}

/// The firmware records are non-empty and contiguous ascending: each
/// one begins where the previous one ends.
pub open spec fn regions_contiguous(regions: Seq<E820MemoryRegion>) -> bool {
    &&& forall|i: int| 0 <= i < regions.len() ==> (#[trigger] regions[i]).len > 0
    &&& forall|i: int|
        0 <= i < regions.len() - 1 ==> (#[trigger] regions[i]).end() == regions[i + 1].start_addr
}

proof fn lemma_final_map_contiguous_upto(
    regions: Seq<E820MemoryRegion>,
    next: u64,
    floor: u64,
    n: int,
)
    requires
        regions_wf(regions),
        regions_contiguous(regions),
        0 < n <= regions.len(),
    ensures
        final_map_upto(regions, next, floor, n).len() > 0,
        final_map_upto(regions, next, floor, n)[0].start == regions[0].start_addr,
        final_map_upto(regions, next, floor, n).last().end == regions[n - 1].end(),
        forall|j: int|
            0 <= j < final_map_upto(regions, next, floor, n).len() ==> (#[trigger] final_map_upto(
                regions,
                next,
                floor,
                n,
            )[j]).start < final_map_upto(regions, next, floor, n)[j].end,
        forall|j: int|
            0 <= j < final_map_upto(regions, next, floor, n).len() - 1 ==> (
            #[trigger] final_map_upto(regions, next, floor, n)[j]).end == final_map_upto(
                regions,
                next,
                floor,
                n,
            )[j + 1].start,
    decreases n,
{
    lemma_region_outputs_exact(regions[n - 1], next, floor);
    if n > 1 {
        lemma_final_map_contiguous_upto(regions, next, floor, n - 1);
    }
}

/// The final map of a contiguous-ascending firmware map covers the very
/// same span without gaps or overlaps, in order: it begins where the
/// firmware map begins, ends where it ends, every record is non-empty,
/// and each record begins exactly where the previous one ends.
pub proof fn lemma_final_map_contiguous(regions: Seq<E820MemoryRegion>, next: u64, floor: u64)
    requires
        regions_wf(regions),
        regions_contiguous(regions),
        regions.len() > 0,
    ensures
        final_map(regions, next, floor).len() > 0,
        final_map(regions, next, floor)[0].start == regions[0].start_addr,
        final_map(regions, next, floor).last().end == regions.last().end(),
        forall|j: int|
            0 <= j < final_map(regions, next, floor).len() ==> (#[trigger] final_map(
                regions,
                next,
                floor,
            )[j]).start < final_map(regions, next, floor)[j].end,
        forall|j: int|
            0 <= j < final_map(regions, next, floor).len() - 1 ==> (#[trigger] final_map(
                regions,
                next,
                floor,
            )[j]).end == final_map(regions, next, floor)[j + 1].start,
{
    lemma_final_map_contiguous_upto(regions, next, floor, regions.len() as int);
}

/// Address `a` lies in some usable record of the firmware map.
pub open spec fn input_covers_usable(regions: Seq<E820MemoryRegion>, a: u64) -> bool {
    exists|k: int|
        0 <= k < regions.len() && (#[trigger] regions[k]).usable() && regions[k].start_addr <= a
            < regions[k].end()
}

/// Address `a` lies in an output record the bootloader classified
/// itself (usable or bootloader-owned, not a reserved pass-through).
pub open spec fn output_covers_classified(map: Seq<MemoryRegion>, a: u64) -> bool {
    exists|k: int|
        0 <= k < map.len() && !((#[trigger] map[k]).kind is Unknown) && map[k].start <= a
            < map[k].end
}

proof fn lemma_region_outputs_cover_usable(r: E820MemoryRegion, next: u64, floor: u64, a: u64)
    requires
        r.start_addr + r.len <= u64::MAX,
    ensures
        output_covers_classified(region_outputs(r, next, floor), a) <==> (r.usable()
            && r.start_addr <= a < r.end()),
{
    let ro = region_outputs(r, next, floor);
    lemma_region_outputs_exact(r, next, floor);
    if r.usable() && r.start_addr <= a < r.end() {
        if ro.len() == 2 && a >= next {
            assert(!(ro[1].kind is Unknown) && ro[1].start <= a < ro[1].end);
        } else {
            assert(!(ro[0].kind is Unknown) && ro[0].start <= a < ro[0].end);
        }
    }
}

proof fn lemma_covers_classified_concat(x: Seq<MemoryRegion>, y: Seq<MemoryRegion>, a: u64)
    ensures
        output_covers_classified(x + y, a) <==> (output_covers_classified(x, a)
            || output_covers_classified(y, a)),
{
    if output_covers_classified(x, a) {
        let k = choose|k: int|
            0 <= k < x.len() && !((#[trigger] x[k]).kind is Unknown) && x[k].start <= a < x[k].end;
        assert(!((x + y)[k].kind is Unknown) && (x + y)[k].start <= a < (x + y)[k].end);
    }
    if output_covers_classified(y, a) {
        let k = choose|k: int|
            0 <= k < y.len() && !((#[trigger] y[k]).kind is Unknown) && y[k].start <= a < y[k].end;
        assert(!((x + y)[x.len() + k].kind is Unknown) && (x + y)[x.len() + k].start <= a < (x
            + y)[x.len() + k].end);
    }
    if output_covers_classified(x + y, a) {
        let k = choose|k: int|
            0 <= k < (x + y).len() && !((#[trigger] (x + y)[k]).kind is Unknown) && (x
                + y)[k].start <= a < (x + y)[k].end;
        if k < x.len() {
            assert(!(x[k].kind is Unknown) && x[k].start <= a < x[k].end);
        } else {
            assert(!(y[k - x.len()].kind is Unknown) && y[k - x.len()].start <= a < y[k
                - x.len()].end);
        }
    }
}

proof fn lemma_covers_usable_upto(
    regions: Seq<E820MemoryRegion>,
    next: u64,
    floor: u64,
    n: int,
    a: u64,
)
    requires
        regions_wf(regions),
        0 <= n <= regions.len(),
    ensures
        output_covers_classified(final_map_upto(regions, next, floor, n), a) <==> exists|k: int|
            0 <= k < n && (#[trigger] regions[k]).usable() && regions[k].start_addr <= a
                < regions[k].end(),
    decreases n,
{
    if n > 0 {
        lemma_covers_usable_upto(regions, next, floor, n - 1, a);
        lemma_covers_classified_concat(
            final_map_upto(regions, next, floor, n - 1),
            region_outputs(regions[n - 1], next, floor),
            a,
        );
        lemma_region_outputs_cover_usable(regions[n - 1], next, floor, a);
        if exists|k: int|
            0 <= k < n && (#[trigger] regions[k]).usable() && regions[k].start_addr <= a
                < regions[k].end() {
            let k = choose|k: int|
                0 <= k < n && (#[trigger] regions[k]).usable() && regions[k].start_addr <= a
                    < regions[k].end();
            if k < n - 1 {
                assert(exists|k: int|
                    0 <= k < n - 1 && (#[trigger] regions[k]).usable() && regions[k].start_addr
                        <= a < regions[k].end());
            }
        }
    }
}

/// Coverage by kind: the bytes of the firmware map's usable records are
/// exactly the bytes the final map tags usable or bootloader-owned; the
/// reserved pass-through records touch none of them and lose none.
pub proof fn lemma_final_map_covers_usable(
    regions: Seq<E820MemoryRegion>,
    next: u64,
    floor: u64,
    a: u64,
)
    requires
        regions_wf(regions),
    ensures
        output_covers_classified(final_map(regions, next, floor), a) <==> input_covers_usable(
            regions,
            a,
        ),
{
    lemma_covers_usable_upto(regions, next, floor, regions.len() as int, a);
}

} // verus!
