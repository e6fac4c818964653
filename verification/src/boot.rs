//! The bootloader's arithmetic: how far physical memory reaches, and where
//! the kernel stack is mapped and starts.
use vstd::prelude::*;
use crate::frames::MemoryRegion;

verus! {

/// The bytes of a page as the bootloader counts them.
pub const PAGE: u64 = 0x1000;

/// Physical memory is mapped at least up to here, to cover the I/O APIC.
pub const MIN_PHYS_REACH: u64 = 0x1_0000_0000;

/// What the bootloader reads from its configuration file.
#[derive(Clone, Debug)]
pub struct BootConfig {
    pub kernel_stack_address: u64,
    pub kernel_stack_size: u64,
    pub kernel_stack_auto_grow: u64,
    pub physical_memory_offset: u64,
    pub kernel_path: String,
}

/// The end of a region.
pub open spec fn region_end(r: MemoryRegion) -> int {
    r.phys_start + r.page_count * (PAGE as int)
}

/// No region's end overflows.
pub open spec fn ends_fit(m: Seq<MemoryRegion>) -> bool {
    forall|i: int| 0 <= i < m.len() ==> region_end(#[trigger] m[i]) <= u64::MAX
}

/// The largest end among the first `n` regions (0 for none).
pub open spec fn max_end(m: Seq<MemoryRegion>, n: int) -> int
    decreases n,
{
    if n <= 0 {
        0
    } else {
        let e = region_end(m[n - 1]);
        let rest = max_end(m, n - 1);
        if e > rest {
            e
        } else {
            rest
        }
    }
}

/// The highest physical address that the memory map reaches, and at least
/// `MIN_PHYS_REACH`.
pub fn max_phys_addr(mmap: &Vec<MemoryRegion>) -> (r: u64)
    requires
        mmap@.len() > 0,
        ends_fit(mmap@),
    ensures
        r == (if max_end(mmap@, mmap@.len() as int) > MIN_PHYS_REACH {
            max_end(mmap@, mmap@.len() as int)
        } else {
            MIN_PHYS_REACH as int
        }),
{
    let mut best: u64 = 0;
    let mut i: usize = 0;
    while i < mmap.len()
        invariant
            i <= mmap@.len(),
            ends_fit(mmap@),
            best == max_end(mmap@, i as int),
        decreases mmap@.len() - i,
    {
        let m = mmap[i];
        assert(region_end(mmap@[i as int]) <= u64::MAX);
        assert(m.page_count * 0x1000 <= u64::MAX) by (nonlinear_arith)
            requires
                m.phys_start + m.page_count * 0x1000 <= u64::MAX,
                m.phys_start >= 0,
        ;
        let end: u64 = m.phys_start + m.page_count * PAGE;
        if end > best {
            best = end;
        }
        i = i + 1;
    }
    if best > MIN_PHYS_REACH {
        best
    } else {
        MIN_PHYS_REACH
    }
}

/// Every region of the map ends at or below the reach of physical memory,
/// so mapping up to it covers the whole map.
pub proof fn law_every_region_is_covered(m: Seq<MemoryRegion>, n: int, i: int)
    requires
        0 <= i < n <= m.len(),
    ensures
        region_end(m[i]) <= max_end(m, n),
    decreases n,
{
    if i < n - 1 {
        law_every_region_is_covered(m, n - 1, i);
    }
}

/// The number of pages mapped for the kernel stack: its size, or a
/// growable stack's reach in pages.
pub fn kernel_stack_pages(config: &BootConfig) -> (n: u64)
    ensures
        n == (if config.kernel_stack_auto_grow == 0 {
            config.kernel_stack_size
        } else {
            config.kernel_stack_auto_grow / PAGE
        }),
{
    if config.kernel_stack_auto_grow == 0 {
        config.kernel_stack_size
    } else {
        config.kernel_stack_auto_grow / PAGE
    }
}

/// Where the kernel starts its stack: eight bytes below the end of the
/// configured stack.
pub fn kernel_stack_top(config: &BootConfig) -> (top: u64)
    requires
        config.kernel_stack_address + config.kernel_stack_size * PAGE <= u64::MAX,
        config.kernel_stack_address + config.kernel_stack_size * PAGE >= 8,
    ensures
        top == config.kernel_stack_address + config.kernel_stack_size * PAGE - 8,
{
    assert(config.kernel_stack_size * 0x1000 <= u64::MAX) by (nonlinear_arith)
        requires
            config.kernel_stack_address + config.kernel_stack_size * 0x1000 <= u64::MAX,
            config.kernel_stack_address >= 0,
    ;
    config.kernel_stack_address + config.kernel_stack_size * PAGE - 8
}

} // verus!
