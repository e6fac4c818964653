use ysos::boot::{kernel_stack_pages, kernel_stack_top, max_phys_addr, BootConfig};
use ysos::frames::{phys_frame_to_u32, u32_to_phys_frame, BootInfoFrameAllocator, MemoryRegion, CONVENTIONAL};

fn region(ty: u32, phys_start: u64, page_count: u64) -> MemoryRegion {
    MemoryRegion { ty, phys_start, page_count }
}

fn map() -> Vec<MemoryRegion> {
    vec![
        region(CONVENTIONAL, 0x1000, 2),
        region(3, 0x10_0000, 4),
        region(CONVENTIONAL, 0x20_0000, 0),
        region(CONVENTIONAL, 0x30_0000, 1),
    ]
}

#[test]
fn frames_come_from_conventional_regions_in_order() {
    let mut a = BootInfoFrameAllocator::init(map(), 1000);
    assert_eq!(a.allocate_frame(), Some(0x1000));
    assert_eq!(a.allocate_frame(), Some(0x2000));
    assert_eq!(a.allocate_frame(), Some(0x30_0000));
    assert_eq!(a.allocate_frame(), None);
    assert_eq!(a.frames_used(), 4);
    assert_eq!(a.frames_total(), 1000);
}

#[test]
fn a_freed_frame_is_handed_out_first() {
    let mut a = BootInfoFrameAllocator::init(map(), 8);
    assert_eq!(a.allocate_frame(), Some(0x1000));
    a.deallocate_frame(0x5000);
    a.deallocate_frame(0x7000);
    assert_eq!(a.recycled_count(), 2);
    assert_eq!(a.allocate_frame(), Some(0x7000));
    assert_eq!(a.allocate_frame(), Some(0x5000));
    assert_eq!(a.frames_used(), 1);
    assert_eq!(a.allocate_frame(), Some(0x2000));
    assert_eq!(a.recycled_count(), 0);
}

#[test]
fn unaligned_region_starts_are_aligned_down() {
    let mut a = BootInfoFrameAllocator::init(vec![region(CONVENTIONAL, 0x1234, 2)], 2);
    assert_eq!(a.allocate_frame(), Some(0x1000));
    assert_eq!(a.allocate_frame(), Some(0x2000));
}

#[test]
fn memory_usage_in_bytes() {
    let mut a = BootInfoFrameAllocator::init(map(), 10);
    a.allocate_frame();
    a.allocate_frame();
    a.deallocate_frame(0x1000);
    assert_eq!(a.memory_usage(), (4096, 40960));
    assert_eq!(u32_to_phys_frame(3), 0x3000);
}

#[test]
fn physical_memory_reach() {
    let low = vec![region(CONVENTIONAL, 0x1000, 2), region(3, 0x8000, 1)];
    assert_eq!(max_phys_addr(&low), 0x1_0000_0000);
    let high = vec![region(CONVENTIONAL, 0x1_0000_0000, 0x10), region(3, 0x8000, 1)];
    assert_eq!(max_phys_addr(&high), 0x1_0001_0000);
}

#[test]
fn kernel_stack_layout() {
    let mut c = BootConfig {
        kernel_stack_address: 0xFFFF_FF01_0000_0000,
        kernel_stack_size: 512,
        kernel_stack_auto_grow: 0,
        physical_memory_offset: 0xFFFF_8000_0000_0000,
        kernel_path: "\\KERNEL.ELF".to_string(),
    };
    assert_eq!(kernel_stack_pages(&c), 512);
    assert_eq!(kernel_stack_top(&c), 0xFFFF_FF01_0020_0000 - 8);
    c.kernel_stack_auto_grow = 0x2000;
    assert_eq!(kernel_stack_pages(&c), 2);
}

#[test]
fn frame_keys_round_trip() {
    assert_eq!(phys_frame_to_u32(u32_to_phys_frame(77)), 77);
    assert_eq!(u32_to_phys_frame(phys_frame_to_u32(0x5000)), 0x5000);
    assert_eq!(u32_to_phys_frame(u32::MAX), (u32::MAX as u64) * 4096);
    assert_eq!(phys_frame_to_u32((u32::MAX as u64) * 4096), u32::MAX);
}
