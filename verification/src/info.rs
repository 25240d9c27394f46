//! The hand-off information structures passed from the bootloader to the
//! kernel: the final memory map, framebuffer description, optional ACPI
//! root pointer address, and optional thread-local-storage template.

use vstd::prelude::*;

verus! {

/// Kind of a region in the final memory map handed to the kernel.
#[derive(Clone, Copy, Debug, PartialEq, Eq, Structural)]
pub enum MemoryRegionKind {
    /// Unused conventional memory, free for the kernel.
    Usable,
    /// Memory consumed by the bootloader (kernel image, page tables,
    /// stack, boot info); the kernel must not reuse it.
    Bootloader,
    /// A firmware-reported region of some other type, carried through
    /// with its raw firmware type code.
    Unknown(u32),
}

/// A physical memory region `[start, end)` of the final memory map.
#[derive(Clone, Copy, Debug, PartialEq, Eq, Structural)]
pub struct MemoryRegion {
    /// The physical start address of the region.
    pub start: u64,
    /// The physical end address (exclusive) of the region.
    pub end: u64,
    /// The memory type of the region.
    pub kind: MemoryRegionKind,
}

impl MemoryRegion {
    /// Creates a new empty memory region (with length 0).
    pub fn empty() -> (r: Self)
        ensures
            r.start == 0,
            r.end == 0,
            r.kind == MemoryRegionKind::Bootloader,
    {
        MemoryRegion { start: 0, end: 0, kind: MemoryRegionKind::Bootloader }
    }
}

/// The list of final memory-map records as the kernel receives it.
pub struct MemoryRegions {
    /// The records of the map, in firmware order.
    pub regions: Vec<MemoryRegion>,
}

impl View for MemoryRegions {
    type V = Seq<MemoryRegion>;

    open spec fn view(&self) -> Seq<MemoryRegion> {
        self.regions@
    }
}

impl MemoryRegions {
    /// Wraps a list of records without changing it.
    pub fn new(regions: Vec<MemoryRegion>) -> (r: Self)
        ensures
            r@ == regions@,
    {
        MemoryRegions { regions }
    }

    /// The number of records.
    pub fn len(&self) -> (n: usize)
        ensures
            n == self@.len(),
    {
        self.regions.len()
    }

    /// Reads one record back.
    pub fn get(&self, i: usize) -> (r: MemoryRegion)
        requires
            i < self@.len(),
        ensures
            r == self@[i as int],
    {
        self.regions[i]
    }
}

/// Describes the layout of the pixel- or character-based framebuffer.
#[derive(Clone, Copy, Debug, PartialEq, Eq, Structural)]
pub struct FrameBufferInfo {
    /// The total size of the buffer in bytes.
    pub byte_len: usize,
    /// The width in pixels (or characters, for a text-mode buffer).
    pub horizontal_resolution: usize,
    /// The height in pixels (or characters, for a text-mode buffer).
    pub vertical_resolution: usize,
}

/// The framebuffer mapping the kernel receives: where the buffer was
/// mapped in its address space, how long it is, and its layout.
#[derive(Clone, Copy, Debug, PartialEq, Eq, Structural)]
pub struct FrameBuffer {
    /// The virtual address the framebuffer is mapped at.
    pub buffer_start: u64,
    /// The length of the buffer in bytes.
    pub buffer_byte_len: usize,
    /// Layout and pixel format of the buffer.
    pub info: FrameBufferInfo,
}

impl FrameBuffer {
    /// Returns layout and pixel format information of the framebuffer.
    pub fn info(&self) -> (r: FrameBufferInfo)
        ensures
            r == self.info,
    {
        self.info
    }
}

/// The thread-local-storage template of the kernel executable: where the
/// initialization image starts, how many bytes come from the file, and how
/// many bytes each per-thread copy occupies in memory.
#[derive(Clone, Copy, Debug, PartialEq, Eq, Structural)]
pub struct TlsTemplate {
    /// The virtual start address of the template.
    pub start_addr: u64,
    /// The number of data bytes in the template file image.
    pub file_size: u64,
    /// The total number of bytes a per-thread copy occupies; at least
    /// `file_size`, the remainder is zero-initialized.
    pub mem_size: u64,
}

/// A two-variant tagged optional value with a layout that does not depend
/// on which compiler produced the kernel binary.
#[derive(Clone, Copy, Debug, PartialEq, Eq, Structural)]
pub enum Optional<T> {
    /// A value is present.
    Present(T),
    /// No value.
    Absent,
}

impl<T> Optional<T> {
    /// Converts the `Optional` into a standard `Option`.
    pub fn into_option(self) -> (r: Option<T>)
        ensures
            self is Present <==> r is Some,
            self matches Optional::Present(x) ==> r == Option::Some(x),
    {
        match self {
            Optional::Present(x) => Option::Some(x),
            Optional::Absent => Option::None,
        }
    }

    /// Converts from `&mut Optional<T>` to `Option<&mut T>`.
    pub fn as_mut(&mut self) -> (r: Option<&mut T>)
        ensures
            *old(self) is Present <==> r is Some,
    {
        match self {
            Optional::Present(x) => Option::Some(x),
            Optional::Absent => Option::None,
        }
    }

    /// Converts from `&Optional<T>` to `Option<&T>`.
    pub fn as_ref(&self) -> (r: Option<&T>)
        ensures
            self is Present <==> r is Some,
            r matches Option::Some(x) ==> self == Optional::Present(*x),
    {
        match self {
            Optional::Present(x) => Option::Some(x),
            Optional::Absent => Option::None,
        }
    }
}

/// The hand-off information block the bootloader passes to the kernel
/// entry point.
pub struct BootInfo {
    /// The final map of physical memory, with bootloader-consumed
    /// regions marked.
    pub memory_regions: MemoryRegions,
    /// The framebuffer mapping for screen output.
    pub framebuffer: FrameBuffer,
    /// The physical address of the ACPI root pointer structure, if one
    /// was found.
    pub rsdp_addr: Optional<u64>,
    /// The thread-local-storage template of the kernel executable, if
    /// it has one.
    pub tls_template: Optional<TlsTemplate>,
}

} // verus!
