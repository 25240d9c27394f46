//! The firmware-reported physical memory map: raw E820-style records as
//! the earlier boot stage hands them over.

use vstd::prelude::*;

verus! {

/// One record of the firmware physical-memory query: a byte range and a
/// raw firmware type code (type 1 is usable conventional memory).
#[derive(Clone, Copy, Debug, PartialEq, Eq, Structural)]
pub struct E820MemoryRegion {
    /// The physical start address of the range.
    pub start_addr: u64,
    /// The length of the range in bytes.
    pub len: u64,
    /// The firmware type code of the range.
    pub region_type: u32,
}

impl E820MemoryRegion {
    /// Usable conventional memory carries firmware type 1.
    pub open spec fn usable(self) -> bool {
        self.region_type == 1
    }

    /// The exclusive end of the range, as an unbounded integer.
    pub open spec fn end(self) -> int {
        self.start_addr + self.len
    }
}

/// No record's byte range runs past the 64-bit physical address space.
pub open spec fn regions_wf(regions: Seq<E820MemoryRegion>) -> bool {
    forall|i: int|
        0 <= i < regions.len() ==> (#[trigger] regions[i]).start_addr + regions[i].len <= u64::MAX
}

/// The records' byte ranges are pairwise disjoint.
pub open spec fn regions_disjoint(regions: Seq<E820MemoryRegion>) -> bool {
    forall|i: int, j: int|
        0 <= i < regions.len() && 0 <= j < regions.len() && i != j ==> (#[trigger] regions[i]).end()
            <= (#[trigger] regions[j]).start_addr || regions[j].end() <= regions[i].start_addr
}

/// The highest end address among the first `n` records.
pub open spec fn max_end_upto(regions: Seq<E820MemoryRegion>, n: int) -> int
    decreases n,
{
    if n <= 0 {
        0
    } else {
        let prev = max_end_upto(regions, n - 1);
        if regions[n - 1].end() > prev {
            regions[n - 1].end()
        } else {
            prev
        }
    }
}

/// The highest physical address reported by the firmware map (the end of
/// the topmost record).
pub fn max_phys_addr(regions: &Vec<E820MemoryRegion>) -> (r: u64)
    requires
        regions@.len() > 0,
        regions_wf(regions@),
    ensures
        r == max_end_upto(regions@, regions@.len() as int),
{
    let mut best: u64 = 0;
    let mut i: usize = 0;
    while i < regions.len()
        invariant
            0 <= i <= regions@.len(),
            regions_wf(regions@),
            best == max_end_upto(regions@, i as int),
        decreases regions@.len() - i,
    {
        let r = regions[i];
        let end = r.start_addr + r.len;
        if end > best {
            best = end;
        }
        i = i + 1;
    }
    best
}

} // verus!
