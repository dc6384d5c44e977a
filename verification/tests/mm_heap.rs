use elminux::mm::heap::{slab_size_for, SlabAllocator, SlabCache, NULL};
use elminux::mm::pmm::BuddyAllocator;

fn pmm(frames: usize) -> BuddyAllocator {
    let mut p = BuddyAllocator::new();
    p.init(0x100_0000, frames);
    p
}

#[test]
fn slab_sizes_round_up_to_classes() {
    assert_eq!(slab_size_for(1, 1), Some(32));
    assert_eq!(slab_size_for(8, 8), Some(32));
    assert_eq!(slab_size_for(33, 8), Some(64));
    assert_eq!(slab_size_for(100, 4), Some(128));
    assert_eq!(slab_size_for(129, 1), Some(256));
    assert_eq!(slab_size_for(1000, 8), Some(1024));
    assert_eq!(slab_size_for(2048, 8), Some(2048));
    assert_eq!(slab_size_for(4096, 4096), Some(4096));
    assert_eq!(slab_size_for(16, 512), Some(512));
    assert_eq!(slab_size_for(0, 1), Some(32));
}

#[test]
fn slab_sizes_above_a_page_are_refused() {
    assert_eq!(slab_size_for(4097, 8), None);
    assert_eq!(slab_size_for(8, 8192), None);
}

#[test]
fn allocate_carves_a_frame() {
    let mut p = pmm(4);
    let mut h = SlabAllocator::new();
    let a = h.allocate(&mut p, 32, 8);
    let b = h.allocate(&mut p, 32, 8);
    assert_eq!(a, 0x100_0000);
    assert_eq!(b, 0x100_0020);
    let c = h.allocate(&mut p, 100, 8);
    assert_eq!(c, 0x100_1000);
}

#[test]
fn allocate_reuses_last_freed() {
    let mut p = pmm(4);
    let mut h = SlabAllocator::new();
    let a = h.allocate(&mut p, 64, 8);
    let b = h.allocate(&mut p, 64, 8);
    h.dealloc(a, 64, 8);
    assert_eq!(h.allocate(&mut p, 64, 8), a);
    h.dealloc(b, 64, 8);
    h.dealloc(a, 64, 8);
    assert_eq!(h.allocate(&mut p, 64, 8), a);
    assert_eq!(h.allocate(&mut p, 64, 8), b);
}

#[test]
fn oversized_or_exhausted_requests_get_null() {
    let mut p = pmm(1);
    let mut h = SlabAllocator::new();
    assert_eq!(h.allocate(&mut p, 8192, 8), NULL);
    assert_eq!(h.allocate(&mut p, 4096, 8), 0x100_0000);
    assert_eq!(h.allocate(&mut p, 4096, 8), NULL);
    assert_eq!(h.allocate(&mut p, 32, 8), NULL);
}

#[test]
fn slab_cache_grows_and_pops() {
    let mut p = pmm(2);
    let mut c = SlabCache::new(2048);
    assert_eq!(c.allocate(&mut p), 0x100_0000);
    assert_eq!(c.allocate(&mut p), 0x100_0800);
    assert_eq!(c.allocate(&mut p), 0x100_1000);
    c.dealloc(0x1234);
    assert_eq!(c.allocate(&mut p), 0x1234);
}

/// Allocation pattern of the boot-time heap self-test, checked on the
/// slab allocator: live objects never overlap.
#[test]
fn heap_stress_pattern_objects_do_not_overlap() {
    let mut p = pmm(256);
    let mut h = SlabAllocator::new();
    let sizes = [32usize, 128, 512, 1024, 64, 256, 2048, 4096];
    let mut live: Vec<(u64, usize)> = Vec::new();
    for round in 0..64 {
        let size = sizes[round % sizes.len()];
        let ptr = h.allocate(&mut p, size, 8);
        assert_ne!(ptr, NULL);
        assert_eq!(ptr % size as u64, 0);
        for &(q, qs) in &live {
            let disjoint = ptr + size as u64 <= q || q + qs as u64 <= ptr;
            assert!(disjoint, "objects overlap");
        }
        live.push((ptr, size));
    }
    while let Some((ptr, size)) = live.pop() {
        h.dealloc(ptr, size, 8);
    }
    let mut small = Vec::new();
    for _ in 0..100 {
        let ptr = h.allocate(&mut p, 32, 8);
        assert!(!small.contains(&ptr));
        small.push(ptr);
    }
}
