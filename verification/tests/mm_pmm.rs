use elminux::mm::pmm::BuddyAllocator;
use elminux::mm::{init_from_e820, region_type, E820Entry, MemoryRegionType};
use elminux::mm::e820;

fn fresh(base: u64, frames: usize) -> BuddyAllocator {
    let mut p = BuddyAllocator::new();
    p.init(base, frames);
    p
}

#[test]
fn alloc_three_frames_then_free() {
    let mut p = fresh(0x100_0000, 16);
    let f1 = p.alloc_frame().unwrap();
    let f2 = p.alloc_frame().unwrap();
    let f3 = p.alloc_frame().unwrap();
    assert_eq!(f1, 0x100_0000);
    assert_eq!(f2, 0x100_1000);
    assert_eq!(f3, 0x100_2000);
    assert!(p.is_allocated(0) && p.is_allocated(1) && p.is_allocated(2));
    assert!(!p.is_allocated(3));
    p.free_frame(f1);
    p.free_frame(f2);
    p.free_frame(f3);
    assert!(!p.is_allocated(0) && !p.is_allocated(1) && !p.is_allocated(2));
    // The last frame freed is the next one handed out.
    assert_eq!(p.alloc_frame(), Some(f3));
}

#[test]
fn free_after_alloc_restores_state() {
    let mut p = fresh(0x20_0000, 4);
    let f = p.alloc_frame().unwrap();
    p.free_frame(f);
    // Same order of hand-out as a fresh allocator.
    let mut q = fresh(0x20_0000, 4);
    for _ in 0..4 {
        assert_eq!(p.alloc_frame(), q.alloc_frame());
    }
    assert_eq!(p.alloc_frame(), None);
}

#[test]
fn successive_frames_are_distinct_and_aligned() {
    let mut p = fresh(0x40_0000, 8);
    let mut seen = Vec::new();
    while let Some(f) = p.alloc_frame() {
        assert_eq!(f % 4096, 0);
        assert!(f >= 0x40_0000 && f < 0x40_0000 + 8 * 4096);
        assert!(!seen.contains(&f));
        seen.push(f);
    }
    assert_eq!(seen.len(), 8);
}

#[test]
fn exhausted_allocator_returns_none() {
    let mut p = fresh(0x1000, 1);
    assert!(p.has_free_frames(1));
    assert!(!p.has_free_frames(2));
    assert!(p.alloc_frame().is_some());
    assert!(!p.has_free_frames(1));
    assert!(p.has_free_frames(0));
    assert_eq!(p.alloc_frame(), None);
}

#[test]
fn free_ignores_misaligned_and_out_of_range() {
    let mut p = fresh(0x10_0000, 2);
    let a = p.alloc_frame().unwrap();
    let b = p.alloc_frame().unwrap();
    p.free_frame(a + 8);
    p.free_frame(0x10_0000 + 2 * 4096);
    assert_eq!(p.alloc_frame(), None);
    p.free_frame(b);
    assert_eq!(p.alloc_frame(), Some(b));
}

#[test]
fn empty_allocator_has_nothing() {
    let mut p = BuddyAllocator::new();
    assert_eq!(p.alloc_frame(), None);
    assert!(!p.is_allocated(0));
}

#[test]
fn e820_region_types() {
    assert!(region_type(e820::USABLE) == MemoryRegionType::Usable);
    assert!(region_type(e820::RESERVED) == MemoryRegionType::Reserved);
    assert!(region_type(e820::ACPI_RECLAIMABLE) == MemoryRegionType::AcpiReclaimable);
    assert!(region_type(e820::ACPI_NVS) == MemoryRegionType::AcpiNvs);
    assert!(region_type(e820::BAD) == MemoryRegionType::BadMemory);
    assert!(region_type(99) == MemoryRegionType::Reserved);
}

#[test]
fn init_from_e820_picks_region_above_16mib() {
    let entries = [
        E820Entry { addr: 0, size: 0x9F000, typ: e820::USABLE },
        E820Entry { addr: 0x9F000, size: 0x1000, typ: e820::RESERVED },
        E820Entry { addr: 0x10_0000, size: 0x7F0_0000, typ: e820::USABLE },
    ];
    let mut p = BuddyAllocator::new();
    let pages = init_from_e820(&entries, &mut p);
    assert_eq!(pages, 0x9F + 0x7F00);
    // 0x1000000..0x8000000 is 28672 pages; one bitmap page is kept back.
    assert_eq!(p.alloc_frame(), Some(0x100_1000));
}

#[test]
fn init_from_e820_prefers_largest_region() {
    let entries = [
        E820Entry { addr: 0x200_0000, size: 0x10_0000, typ: e820::USABLE },
        E820Entry { addr: 0x400_0000, size: 0x40_0000, typ: e820::USABLE },
        E820Entry { addr: 0x900_0000, size: 0x1_0000, typ: e820::ACPI_NVS },
    ];
    let mut p = BuddyAllocator::new();
    let pages = init_from_e820(&entries, &mut p);
    assert_eq!(pages, 0x100 + 0x400);
    assert_eq!(p.alloc_frame(), Some(0x400_1000));
}

#[test]
fn init_from_e820_without_usable_memory_leaves_allocator_empty() {
    let entries = [
        E820Entry { addr: 0x200_0000, size: 0x10_0000, typ: e820::RESERVED },
        E820Entry { addr: 0x10_0000, size: 0x800, typ: e820::USABLE },
    ];
    let mut p = BuddyAllocator::new();
    assert_eq!(init_from_e820(&entries, &mut p), 0);
    assert_eq!(p.alloc_frame(), None);
}
