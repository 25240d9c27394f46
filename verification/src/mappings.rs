//! The mapping orchestrator: drives the kernel loader, then plans the
//! kernel stack, the identity mappings the context switch needs, a fresh
//! descriptor-table frame, and the framebuffer mapping.  The hardware
//! steps themselves (control-register bits, page-table writes) happen
//! outside this crate, following the plan computed here.

use vstd::prelude::*;

verus! {

use crate::addr::{align_down_frame, lemma_common_alignments, lemma_slot_base_bound, page_base, slot_base};
use crate::frame_allocator::{
    allocate_backed_pages,
    can_supply,
    cursor_after,
    lemma_can_supply_mono,
    lemma_can_supply_succ,
    pair_frames,
    LegacyFrameAllocator,
};
use crate::info::{FrameBufferInfo, TlsTemplate};
use crate::level_4_entries::{first_free, marked_segments, UsedLevel4Entries};
use crate::loader::{
    image_ok,
    load_kernel,
    loadable_segments,
    plan_entry_ok,
    plan_frames,
    segments_of,
    spec_entry,
    spec_tls,
    total_pages,
    LoadError,
    SegmentPlan,
};

/// Required system information queried from the firmware by the earlier
/// boot stages.
#[derive(Clone, Copy, Debug)]
pub struct SystemInfo {
    /// Start address of the pixel- or character-based framebuffer.
    pub framebuffer_addr: u64,
    /// Layout of the framebuffer.
    pub framebuffer_info: FrameBufferInfo,
    /// Address of the ACPI root pointer structure, when one was found.
    pub rsdp_addr: Option<u64>,
}

/// The addresses of all memory mappings the orchestrator set up.
#[derive(Debug)]
pub struct Mappings {
    /// The entry point address of the kernel.
    pub entry_point: u64,
    /// The start address of the stack's highest page; the initial stack
    /// pointer of the kernel.
    pub stack_end: u64,
    /// Keeps track of used level-4 entries, useful for finding free
    /// virtual memory later.
    pub used_entries: UsedLevel4Entries,
    /// The virtual address the framebuffer was mapped at.
    pub framebuffer: u64,
    /// The thread-local-storage template of the kernel executable, if
    /// it has one.
    pub tls_template: Option<TlsTemplate>,
}

/// Every page-to-frame assignment the orchestrator decided: what the
/// hardware layer must write into the kernel's page-table hierarchy.
#[derive(Debug)]
pub struct MappingPlan {
    /// One mapping plan per loadable kernel segment.
    pub kernel_segments: Vec<SegmentPlan>,
    /// The kernel stack: `(page, frame)` pairs, mapped present and
    /// writable, in ascending page order.
    pub stack_pages: Vec<(u64, u64)>,
    /// Frames identity-mapped (present, not writable) so the context
    /// switch routine stays executable across the hierarchy swap.
    pub context_switch_frames: Vec<u64>,
    /// A fresh frame for the global descriptor table, identity-mapped.
    pub gdt_frame: u64,
    /// The framebuffer: `(page, frame)` pairs, mapped present and
    /// writable, in ascending order.
    pub framebuffer_pages: Vec<(u64, u64)>,
}

/// Why the mappings could not be set up.
#[derive(Clone, Copy, Debug, PartialEq, Eq, Structural)]
pub enum MapError {
    /// The kernel image is malformed.
    Image(LoadError),
    /// The frame allocator ran out of usable frames.
    OutOfMemory,
    /// No free level-4 slot remained for the stack or the framebuffer.
    NoVirtualSlot,
}

/// A freshly constructed level-4 tracker: only slot 0 reserved.
pub open spec fn fresh_tracker() -> Seq<bool> {
    Seq::new(512, |i: int| i == 0)
}

/// The tracker state after the kernel's segments are marked.
pub open spec fn tracker_after_load(kb: Seq<u8>) -> Seq<bool> {
    marked_segments(fresh_tracker(), segments_of(kb), 0)
}

/// The tracker state after the stack slot is claimed as well.
pub open spec fn tracker_after_stack(kb: Seq<u8>) -> Seq<bool> {
    tracker_after_load(kb).update(first_free(tracker_after_load(kb)), true)
}

/// How many page frames the framebuffer's byte range touches.
pub open spec fn fb_page_count(addr: u64, size: u64) -> int
    recommends
        size > 0,
        addr + size - 1 <= u64::MAX,
{
    (page_base((addr + size - 1) as u64) - page_base(addr)) / 4096 + 1
}

/// Pairs each framebuffer page with the physical frame it shows.
#[verifier::loop_isolation(false)]
fn build_framebuffer_pages(fb_virt: u64, fb_frame_start: u64, n: u64) -> (pages: Vec<(u64, u64)>)
    requires
        fb_virt + 4096 * n <= u64::MAX + 4096,
        fb_frame_start + 4096 * n <= u64::MAX + 4096,
    ensures
        pages@.len() == n,
        forall|i: int|
            0 <= i < n ==> (#[trigger] pages@[i]).0 == fb_virt + 4096 * i && pages@[i].1
                == fb_frame_start + 4096 * i,
{
    let mut pages: Vec<(u64, u64)> = Vec::new();
    let mut i: u64 = 0;
    while i < n
        invariant
            0 <= i <= n,
            pages@.len() == i,
            forall|k: int|
                0 <= k < i ==> (#[trigger] pages@[k]).0 == fb_virt + 4096 * k && pages@[k].1
                    == fb_frame_start + 4096 * k,
        decreases n - i,
    {
        pages.push((fb_virt + 4096 * i, fb_frame_start + 4096 * i));
        i = i + 1;
    }
    pages
}


/// Claims a fresh virtual region for the framebuffer and pairs each of
/// its pages with the physical frame it shows.  `None` exactly when no
/// level-4 slot is free.
#[verifier::loop_isolation(false)]
#[verifier::rlimit(100)]
fn plan_framebuffer(
    used_entries: &mut UsedLevel4Entries,
    framebuffer_addr: u64,
    framebuffer_size: u64,
) -> (r: Option<(u64, Vec<(u64, u64)>)>)
    requires
        old(used_entries).wf(),
        framebuffer_size > 0,
        framebuffer_addr + framebuffer_size - 1 <= u64::MAX,
        framebuffer_size + 4095 <= 0x80_0000_0000,
    ensures
        final(used_entries).wf(),
        ({
            let ff = first_free(old(used_entries)@);
            if ff < 512 {
                &&& r matches Some((virt, pages)) ==> {
                    &&& virt == slot_base(ff as u16)
                    &&& pages@.len() == fb_page_count(framebuffer_addr, framebuffer_size)
                    &&& forall|i: int|
                        0 <= i < pages@.len() ==> (#[trigger] pages@[i]).0 == virt + 4096 * i
                            && pages@[i].1 == page_base(framebuffer_addr) + 4096 * i
                }
                &&& r is Some
                &&& final(used_entries)@ == old(used_entries)@.update(ff, true)
            } else {
                &&& r is None
                &&& final(used_entries)@ == old(used_entries)@
            }
        }),
{
    let fb_frame_start = align_down_frame(framebuffer_addr);
    let fb_last_frame = align_down_frame(framebuffer_addr + (framebuffer_size - 1));
    proof {
        crate::addr::lemma_page_base_monotone(
            framebuffer_addr,
            (framebuffer_addr + (framebuffer_size - 1)) as u64,
        );
    }
    let n = (fb_last_frame - fb_frame_start) / 4096 + 1;
    proof {
        assert(n == fb_page_count(framebuffer_addr, framebuffer_size));
        lemma_common_alignments();
    }
    let framebuffer_virt = match used_entries.get_free_address(framebuffer_size, 4096) {
        Some(a) => a,
        None => {
            proof {
                crate::level_4_entries::lemma_first_free_properties(old(used_entries)@);
            }
            return None;
        },
    };
    let ghost ff = first_free(old(used_entries)@);
    proof {
        crate::level_4_entries::lemma_first_free_properties(old(used_entries)@);
        assert(ff < 512);
        assert(framebuffer_virt == slot_base(ff as u16));
        lemma_slot_base_bound(ff as u16);
        assert(4096 * (n as int) == fb_last_frame - fb_frame_start + 4096);
        assert(framebuffer_virt + 4096 * n <= u64::MAX + 4096);
        assert(fb_frame_start + 4096 * n <= u64::MAX + 4096);
    }
    let pages = build_framebuffer_pages(framebuffer_virt, fb_frame_start, n);
    Some((framebuffer_virt, pages))
}

/// Plans every mapping the kernel needs: loads the kernel image into
/// the plan, claims a level-4 slot for a 20-page stack and backs it
/// with fresh frames, identity-maps the context-switch routine's two
/// frames and a fresh descriptor-table frame, and maps the framebuffer
/// at a freshly claimed virtual address.  The processor-feature step of
/// the boot sequence (no-execute and write-protection bits) is a
/// hardware action the outside layer performs before writing any
/// mapping from this plan.  Succeeds exactly when the image is valid,
/// the frame allocator can supply every needed frame, and two level-4
/// slots are free after the kernel's own ranges are reserved.
#[verifier::loop_isolation(false)]
#[verifier::rlimit(100)]
pub fn set_up_mappings(
    kernel_bytes: &[u8],
    frame_allocator: &mut LegacyFrameAllocator,
    framebuffer_addr: u64,
    framebuffer_size: usize,
    context_switch_addr: u64,
) -> (r: Result<(Mappings, MappingPlan), MapError>)
    requires
        old(frame_allocator).wf(),
        framebuffer_size > 0,
        framebuffer_addr + framebuffer_size - 1 <= u64::MAX,
        framebuffer_size + 4095 <= 0x80_0000_0000,
        context_switch_addr < 0xffff_ffff_ffff_f000,
    ensures
        final(frame_allocator).wf(),
        final(frame_allocator).original@ == old(frame_allocator).original@,
        final(frame_allocator).start_frame == old(frame_allocator).start_frame,
        ({
            let kb = kernel_bytes@;
            let t = total_pages(kb);
            let ff1 = first_free(tracker_after_load(kb));
            let ff2 = first_free(tracker_after_stack(kb));
            let regions0 = old(frame_allocator).original@;
            let next0 = old(frame_allocator).next_frame;
            &&& (r matches Err(MapError::Image(e)) ==> (e matches LoadError::BadHeader
                || e matches LoadError::NoEntryPoint || e matches LoadError::BadSegment))
            &&& (r matches Err(MapError::Image(e)) && e matches LoadError::BadHeader <==> !crate::loader::header_ok(kb))
            &&& (r matches Err(MapError::Image(e)) && e matches LoadError::NoEntryPoint <==> crate::loader::header_ok(kb) && spec_entry(kb) == 0)
            &&& (r matches Err(MapError::Image(e)) && e matches LoadError::BadSegment <==> crate::loader::header_ok(kb) && spec_entry(kb) != 0 && !crate::loader::segments_valid(kb))
            &&& (r matches Err(MapError::OutOfMemory) <==> image_ok(kb) && (!can_supply(
                regions0,
                next0,
                t as nat,
            ) || (ff1 < 512 && !can_supply(regions0, next0, (t + 21) as nat))))
            &&& (r matches Err(MapError::NoVirtualSlot) <==> image_ok(kb) && can_supply(
                regions0,
                next0,
                t as nat,
            ) && (ff1 == 512 || (can_supply(regions0, next0, (t + 21) as nat) && ff2 == 512)))
            &&& (r is Ok <==> image_ok(kb) && can_supply(regions0, next0, (t + 21) as nat) && ff1
                < 512 && ff2 < 512)
            &&& (r matches Ok((m, plan)) ==> {
                &&& m.entry_point == spec_entry(kb)
                &&& m.tls_template == spec_tls(kb)
                &&& plan.kernel_segments@.len() == loadable_segments(kb).len()
                &&& forall|k: int|
                    0 <= k < plan.kernel_segments@.len() ==> plan_entry_ok(
                        #[trigger] plan.kernel_segments@[k],
                        loadable_segments(kb)[k],
                    )
                &&& m.stack_end == slot_base(ff1 as u16) + 19 * 4096
                &&& plan.stack_pages@.len() == 20
                &&& forall|i: int|
                    0 <= i < 20 ==> (#[trigger] plan.stack_pages@[i]).0 == slot_base(ff1 as u16)
                        + 4096 * i
                &&& plan.context_switch_frames@ == seq![
                    page_base(context_switch_addr),
                    (page_base(context_switch_addr) + 4096) as u64,
                ]
                &&& m.framebuffer == slot_base(ff2 as u16)
                &&& plan.framebuffer_pages@.len() == fb_page_count(
                    framebuffer_addr,
                    framebuffer_size as u64,
                )
                &&& forall|i: int|
                    0 <= i < plan.framebuffer_pages@.len() ==> (
                    #[trigger] plan.framebuffer_pages@[i]).0 == m.framebuffer + 4096 * i
                        && plan.framebuffer_pages@[i].1 == page_base(framebuffer_addr) + 4096 * i
                &&& final(frame_allocator).dispensed@ == old(frame_allocator).dispensed@
                    + plan_frames(plan.kernel_segments@) + pair_frames(plan.stack_pages@) + seq![
                    plan.gdt_frame,
                ]
                &&& m.used_entries.wf()
                &&& m.used_entries@ == tracker_after_stack(kb).update(ff2, true)
            })
        }),
{
    let ghost kb = kernel_bytes@;
    let ghost regions0 = old(frame_allocator).original@;
    let ghost next0 = old(frame_allocator).next_frame;
    let ghost disp0 = old(frame_allocator).dispensed@;

    let mut used_entries = UsedLevel4Entries::new();
    proof {
        assert(used_entries@ =~= fresh_tracker());
    }

    let load_plan = match load_kernel(kernel_bytes, frame_allocator, &mut used_entries) {
        Ok(p) => p,
        Err(e) => {
            proof {
                if image_ok(kb) && can_supply(
                    regions0,
                    next0,
                    (total_pages(kb) + 21) as nat,
                ) {
                    crate::loader::lemma_total_pages_nonneg(kb);
                    lemma_can_supply_mono(
                        regions0,
                        next0,
                        total_pages(kb) as nat,
                        (total_pages(kb) + 21) as nat,
                    );
                }
            }
            if matches!(e, LoadError::OutOfMemory) {
                return Err(MapError::OutOfMemory);
            }
            return Err(MapError::Image(e));
        },
    };
    let ghost t = total_pages(kb);
    proof {
        assert(used_entries@ == tracker_after_load(kb));
        assert(t >= 0);
    }

    let stack_size = crate::PAGE_SIZE * 20;
    proof {
        lemma_common_alignments();
    }
    let stack_start_addr = match used_entries.get_free_address(stack_size, 16) {
        Some(a) => a,
        None => {
            proof {
                crate::level_4_entries::lemma_first_free_properties(tracker_after_load(kb));
                assert(first_free(tracker_after_load(kb)) == 512);
                if can_supply(regions0, next0, (t + 21) as nat) {
                    lemma_can_supply_mono(regions0, next0, t as nat, (t + 21) as nat);
                }
            }
            return Err(MapError::NoVirtualSlot);
        },
    };
    let ghost ff1 = first_free(tracker_after_load(kb));
    proof {
        crate::level_4_entries::lemma_first_free_properties(tracker_after_load(kb));
        assert(ff1 < 512);
        assert(stack_start_addr == slot_base(ff1 as u16));
        lemma_slot_base_bound(ff1 as u16);
        assert(used_entries@ == tracker_after_stack(kb));
    }

    let stack_pages = match allocate_backed_pages(
        frame_allocator,
        stack_start_addr,
        20,
        Ghost(next0),
        Ghost(t),
    ) {
        Some(p) => p,
        None => {
            proof {
                if can_supply(regions0, next0, (t + 21) as nat) {
                    lemma_can_supply_mono(regions0, next0, (t + 20) as nat, (t + 21) as nat);
                    assert(false);
                }
            }
            return Err(MapError::OutOfMemory);
        },
    };
    let stack_end = stack_start_addr + 4096 * 19;

    let cs_frame = align_down_frame(context_switch_addr);
    let mut context_switch_frames: Vec<u64> = Vec::new();
    context_switch_frames.push(cs_frame);
    context_switch_frames.push(cs_frame + 4096);
    proof {
        assert(context_switch_frames@ =~= seq![
            page_base(context_switch_addr),
            (page_base(context_switch_addr) + 4096) as u64,
        ]);
    }

    let gdt_frame = match frame_allocator.allocate_frame() {
        Some(f) => {
            proof {
                lemma_can_supply_succ(regions0, next0, (t + 20) as nat);
                assert(can_supply(regions0, next0, (t + 21) as nat));
            }
            f
        },
        None => {
            proof {
                lemma_can_supply_succ(regions0, next0, (t + 20) as nat);
                assert(!can_supply(regions0, next0, (t + 21) as nat));
            }
            return Err(MapError::OutOfMemory);
        },
    };

    let fb_size = framebuffer_size as u64;
    let (framebuffer_virt, framebuffer_pages) = match plan_framebuffer(
        &mut used_entries,
        framebuffer_addr,
        fb_size,
    ) {
        Some(pair) => pair,
        None => {
            proof {
                crate::level_4_entries::lemma_first_free_properties(tracker_after_stack(kb));
            }
            return Err(MapError::NoVirtualSlot);
        },
    };
    let ghost ff2 = first_free(tracker_after_stack(kb));

    let ghost ks = load_plan.segments@;
    proof {
        lemma_can_supply_mono(regions0, next0, t as nat, (t + 21) as nat);
        assert(frame_allocator.dispensed@ =~= disp0 + plan_frames(ks) + pair_frames(
            stack_pages@,
        ) + seq![gdt_frame]);
    }

    let mappings = Mappings {
        entry_point: load_plan.entry_point,
        stack_end,
        used_entries,
        framebuffer: framebuffer_virt,
        tls_template: load_plan.tls_template,
    };
    let plan = MappingPlan {
        kernel_segments: load_plan.segments,
        stack_pages,
        context_switch_frames,
        gdt_frame,
        framebuffer_pages,
    };
    Ok((mappings, plan))
}

} // verus!
