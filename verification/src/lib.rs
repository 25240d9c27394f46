//! Verified core of a minimal x86-64 bootloader: the physical frame
//! allocator, the level-4 virtual-address tracker, the kernel ELF loader,
//! the mapping planner, and the hand-off information block the kernel
//! receives.  Everything that touches hardware (page-table writes, control
//! registers, the final context switch) lives outside this crate; the logic
//! that decides *what* to map, *which* frames to hand out, and *what* the
//! kernel sees is verified here.

pub mod addr;
pub mod frame_allocator;
pub mod handoff;
pub mod info;
pub mod level_4_entries;
pub mod loader;
pub mod logger;
pub mod mappings;
pub mod memory_map;

use vstd::prelude::*;

verus! {

/// Size in bytes of one physical page frame.
pub const PAGE_SIZE: u64 = 4096;

} // verus!
