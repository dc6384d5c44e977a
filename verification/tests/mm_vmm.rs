use elminux::mm::pmm::BuddyAllocator;
use elminux::mm::vmm::{
    alloc_root_table, flags_to_bits, map_kernel_higher_half, map_page, map_plan, pd_index,
    pdpt_index, pml4_index, pt_index, teardown_identity, unmap_page, walk, PageFlags,
    PageTableMemory, KERNEL_BASE, PTE_HUGE, PTE_NOEXECUTE, PTE_PRESENT, PTE_USER, PTE_WRITABLE,
};

fn setup(frames: usize) -> (PageTableMemory, BuddyAllocator, u64) {
    let mut pmm = BuddyAllocator::new();
    pmm.init(0x20_0000, frames);
    let mut mem = PageTableMemory::new();
    let root = alloc_root_table(&mut mem, &mut pmm).unwrap();
    (mem, pmm, root)
}

fn rw() -> PageFlags {
    let mut f = PageFlags::new();
    f.writable = true;
    f
}

#[test]
fn table_indices() {
    let v: u64 = 0xFFFF_8000_4020_3000;
    assert_eq!(pml4_index(v), 256);
    assert_eq!(pdpt_index(v), 1);
    assert_eq!(pd_index(v), 1);
    assert_eq!(pt_index(v), 3);
    assert_eq!(pml4_index(0), 0);
    assert_eq!(pt_index(0xFFF), 0);
    assert_eq!(pt_index(0x1FF000), 511);
}

#[test]
fn flags_encode_to_pte_bits() {
    let f = PageFlags::new();
    assert_eq!(flags_to_bits(f), PTE_PRESENT);
    let mut g = rw();
    g.user = true;
    g.no_execute = true;
    assert_eq!(flags_to_bits(g), PTE_PRESENT | PTE_WRITABLE | PTE_USER | PTE_NOEXECUTE);
    let all = PageFlags {
        present: true,
        writable: true,
        user: true,
        write_through: true,
        cache_disable: true,
        accessed: true,
        dirty: true,
        huge: true,
        no_execute: true,
    };
    assert_eq!(flags_to_bits(all), 0x8000_0000_0000_00FF);
}

#[test]
fn root_table_is_first_free_frame() {
    let (mem, _pmm, root) = setup(8);
    assert_eq!(root, 0x20_0000);
    assert_eq!(mem.read_word(root), 0);
    assert_eq!(walk(&mem, root, 0x1000), None);
}

#[test]
fn map_then_walk_reaches_leaf() {
    let (mut mem, mut pmm, root) = setup(8);
    let virt = 0x4000_1000;
    assert_eq!(map_plan(&mem, root, virt), (3, false));
    map_page(&mut mem, &mut pmm, root, virt, 0x5000, rw());
    assert_eq!(mem.read_word(root), 0x20_1000 | 3);
    assert_eq!(mem.read_word(0x20_1000 + 8), 0x20_2000 | 3);
    assert_eq!(mem.read_word(0x20_2000), 0x20_3000 | 3);
    let pte = walk(&mem, root, virt).unwrap();
    assert_eq!(pte, 0x20_3000 + 8);
    assert_eq!(mem.read_word(pte), 0x5003);
    // A neighbouring page shares every table.
    assert_eq!(map_plan(&mem, root, virt + 0x1000), (0, false));
    map_page(&mut mem, &mut pmm, root, virt + 0x1000, 0x6000, rw());
    assert_eq!(walk(&mem, root, virt + 0x1000), Some(0x20_3000 + 16));
    assert_eq!(pmm.alloc_frame(), Some(0x20_4000));
}

#[test]
fn user_mapping_marks_intermediate_entries_user() {
    let (mut mem, mut pmm, root) = setup(8);
    let mut f = rw();
    f.user = true;
    map_page(&mut mem, &mut pmm, root, 0x40_0000, 0x9000, f);
    assert_eq!(mem.read_word(root) & PTE_USER, PTE_USER);
    let pte = walk(&mem, root, 0x40_0000).unwrap();
    assert_eq!(mem.read_word(pte), 0x9000 | 7);
}

#[test]
fn unmap_after_map_clears_leaf() {
    let (mut mem, mut pmm, root) = setup(8);
    map_page(&mut mem, &mut pmm, root, 0x7000_0000, 0xA000, rw());
    let pte = walk(&mem, root, 0x7000_0000).unwrap();
    assert!(unmap_page(&mut mem, root, 0x7000_0000));
    assert_eq!(mem.read_word(pte), 0);
    assert_eq!(walk(&mem, root, 0x7000_0000), Some(pte));
    assert!(unmap_page(&mut mem, root, 0x7000_0000));
    assert!(!unmap_page(&mut mem, root, 0x1_0000_0000_0000));
}

#[test]
fn unmap_leaves_huge_leaf_alone() {
    let (mut mem, mut pmm, root) = setup(8);
    let mut f = rw();
    f.huge = true;
    map_page(&mut mem, &mut pmm, root, 0x3000, 0xB000, f);
    let pte = walk(&mem, root, 0x3000).unwrap();
    assert_eq!(mem.read_word(pte) & PTE_HUGE, PTE_HUGE);
    assert!(!unmap_page(&mut mem, root, 0x3000));
    assert_eq!(mem.read_word(pte), 0xB000 | 3 | PTE_HUGE);
}

#[test]
fn kernel_higher_half_maps_every_page() {
    let (mut mem, mut pmm, root) = setup(16);
    assert!(map_kernel_higher_half(&mut mem, &mut pmm, root, 0x10_0800, 0x10_2001));
    for (i, phys) in [0x10_0000u64, 0x10_1000, 0x10_2000].iter().enumerate() {
        let pte = walk(&mem, root, KERNEL_BASE + phys).unwrap();
        assert_eq!(mem.read_word(pte), phys | 3, "page {}", i);
    }
    assert_eq!(walk(&mem, root, KERNEL_BASE + 0x10_3000).map(|p| mem.read_word(p)), Some(0));
}

#[test]
fn kernel_higher_half_stops_without_frames() {
    let (mut mem, mut pmm, root) = setup(2);
    assert!(!map_kernel_higher_half(&mut mem, &mut pmm, root, 0, 0x1000));
    assert!(map_kernel_higher_half(&mut mem, &mut pmm, root, 0x5000, 0x5000));
}

#[test]
fn teardown_clears_first_four_pdpt_entries() {
    let (mut mem, mut pmm, root) = setup(16);
    map_page(&mut mem, &mut pmm, root, 0, 0, rw());
    map_page(&mut mem, &mut pmm, root, 0x4000_0000, 0, rw());
    map_page(&mut mem, &mut pmm, root, 0x20_0000_0000, 0, rw());
    let pdpt = mem.read_word(root) & !0xFFF;
    assert_ne!(mem.read_word(pdpt), 0);
    assert_ne!(mem.read_word(pdpt + 8), 0);
    let far = mem.read_word(pdpt + 8 * 128);
    assert_ne!(far, 0);
    teardown_identity(&mut mem, root);
    for k in 0..4u64 {
        assert_eq!(mem.read_word(pdpt + 8 * k), 0);
    }
    assert_eq!(mem.read_word(pdpt + 8 * 128), far);
    assert_ne!(mem.read_word(root), 0);
}

#[test]
fn teardown_without_identity_map_changes_nothing() {
    let (mut mem, _pmm, root) = setup(4);
    teardown_identity(&mut mem, root);
    assert_eq!(mem.read_word(root), 0);
}

#[test]
fn mapping_a_page_keeps_other_pages() {
    let (mut mem, mut pmm, root) = setup(16);
    map_page(&mut mem, &mut pmm, root, 0x4000_1000, 0x5000, rw());
    let first = walk(&mem, root, 0x4000_1000).unwrap();
    map_page(&mut mem, &mut pmm, root, 0x7F_FFFF_F000, 0x6000, rw());
    map_page(&mut mem, &mut pmm, root, 0x4020_1000, 0x7000, rw());
    assert_eq!(walk(&mem, root, 0x4000_1000), Some(first));
    assert_eq!(mem.read_word(first), 0x5003);
    let second = walk(&mem, root, 0x7F_FFFF_F000).unwrap();
    assert_eq!(mem.read_word(second), 0x6003);
    assert_ne!(first, second);
}

#[test]
fn unmapping_a_page_keeps_other_pages() {
    let (mut mem, mut pmm, root) = setup(16);
    map_page(&mut mem, &mut pmm, root, 0x1000, 0x5000, rw());
    map_page(&mut mem, &mut pmm, root, 0x2000, 0x6000, rw());
    assert!(unmap_page(&mut mem, root, 0x1000));
    let pte = walk(&mem, root, 0x2000).unwrap();
    assert_eq!(mem.read_word(pte), 0x6003);
    assert_eq!(mem.read_word(walk(&mem, root, 0x1000).unwrap()), 0);
}

#[test]
fn kernel_higher_half_keeps_other_mappings() {
    let (mut mem, mut pmm, root) = setup(16);
    map_page(&mut mem, &mut pmm, root, 0x4000_1000, 0x7000, rw());
    assert!(map_kernel_higher_half(&mut mem, &mut pmm, root, 0x1000, 0x3000));
    let pte = walk(&mem, root, 0x4000_1000).unwrap();
    assert_eq!(mem.read_word(pte), 0x7003);
    assert_eq!(mem.read_word(walk(&mem, root, KERNEL_BASE + 0x2000).unwrap()), 0x2003);
}

#[test]
fn kernel_higher_half_maps_pages_before_running_out() {
    // Root plus three tables leave no frame for a second page table: the
    // first 2 MiB of the range map, the page after them does not.
    let (mut mem, mut pmm, root) = setup(4);
    assert!(!map_kernel_higher_half(&mut mem, &mut pmm, root, 0x1F_F000, 0x20_1000));
    assert_eq!(mem.read_word(walk(&mem, root, KERNEL_BASE + 0x1F_F000).unwrap()), 0x1F_F003);
    assert_eq!(walk(&mem, root, KERNEL_BASE + 0x20_0000), None);
    assert_eq!(map_plan(&mem, root, KERNEL_BASE + 0x20_0000), (1, false));
}

#[test]
fn map_page_keeps_present_directory_entries() {
    let (mut mem, mut pmm, root) = setup(8);
    map_page(&mut mem, &mut pmm, root, 0x40_0000, 0x9000, rw());
    assert_eq!(mem.read_word(root), 0x20_1000 | 3);
    let mut f = rw();
    f.user = true;
    map_page(&mut mem, &mut pmm, root, 0x40_1000, 0xA000, f);
    assert_eq!(mem.read_word(root), 0x20_1000 | 7);
    assert_eq!(mem.read_word(0x20_1000), 0x20_2000 | 7);
}

#[test]
fn map_page_gives_no_other_page_a_mapping() {
    let (mut mem, mut pmm, root) = setup(8);
    map_page(&mut mem, &mut pmm, root, 0x4000_1000, 0x7000, rw());
    // The new tables are zero: a neighbour in the same page table reads an
    // empty entry, one in the same directory stops at an empty entry.
    let next = walk(&mem, root, 0x4000_2000).unwrap();
    assert_eq!(mem.read_word(next), 0);
    assert_eq!(walk(&mem, root, 0x4020_0000), None);
    assert_eq!(walk(&mem, root, 0x8000_0000), None);
    assert_eq!(walk(&mem, root, 0x80_0000_0000), None);
}
