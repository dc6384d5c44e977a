//! Memory manager: physical frames (buddy allocator), page tables and the
//! kernel heap (slab allocator).
pub mod e820;
pub mod heap;
pub mod pmm;
pub mod vmm;

use vstd::prelude::*;
use crate::mm::pmm::{BuddyAllocator, MAX_BLOCKS};

verus! {

/// e820 memory map entry (BIOS format, as handed over by the PVH boot).
#[derive(Clone, Copy)]
pub struct E820Entry {
    pub addr: u64,
    pub size: u64,
    pub typ: u32,
}

/// Memory region descriptor.
#[derive(Clone, Copy)]
pub struct MemoryRegion {
    pub base: u64,
    pub length: u64,
    pub typ: MemoryRegionType,
}

/// Memory region types.
#[derive(Clone, Copy, PartialEq, Eq, Structural)]
pub enum MemoryRegionType {
    Usable,
    Reserved,
    AcpiReclaimable,
    AcpiNvs,
    BadMemory,
    BootloaderReclaimable,
    Kernel,
    Framebuffer,
}

/// Lowest address handed to the frame allocator (16 MiB): the kernel is
/// loaded around 1 MiB.
pub const PMM_MIN_ADDR: u64 = 0x100_0000;

/// Region type of an e820 type code; unknown codes count as reserved.
pub open spec fn region_type_spec(typ: u32) -> MemoryRegionType {
    if typ == e820::USABLE {
        MemoryRegionType::Usable
    } else if typ == e820::RESERVED {
        MemoryRegionType::Reserved
    } else if typ == e820::ACPI_RECLAIMABLE {
        MemoryRegionType::AcpiReclaimable
    } else if typ == e820::ACPI_NVS {
        MemoryRegionType::AcpiNvs
    } else if typ == e820::BAD {
        MemoryRegionType::BadMemory
    } else {
        MemoryRegionType::Reserved
    }
}

/// Convert an e820 type code into a region type.
pub fn region_type(typ: u32) -> (r: MemoryRegionType)
    ensures
        r == region_type_spec(typ),
{
    match typ {
        1 => MemoryRegionType::Usable,
        2 => MemoryRegionType::Reserved,
        3 => MemoryRegionType::AcpiReclaimable,
        4 => MemoryRegionType::AcpiNvs,
        5 => MemoryRegionType::BadMemory,
        _ => MemoryRegionType::Reserved,
    }
}

/// Usable RAM of at least one page.
pub open spec fn usable(e: E820Entry) -> bool {
    e.typ == e820::USABLE && e.size >= 4096
}

/// Whole pages of usable RAM in `s`.
pub open spec fn usable_pages(s: Seq<E820Entry>) -> int
    decreases s.len(),
{
    if s.len() == 0 {
        0
    } else {
        usable_pages(s.drop_last()) + if usable(s.last()) {
            s.last().size / 4096
        } else {
            0
        }
    }
}

/// The candidate region an entry offers the frame allocator: the part above
/// `PMM_MIN_ADDR`, as (base, whole pages); entries wholly below offer
/// nothing.
pub open spec fn candidate(e: E820Entry) -> (int, int) {
    let end = e.addr + e.size;
    if !usable(e) {
        (0, 0)
    } else if e.addr < PMM_MIN_ADDR && end > PMM_MIN_ADDR {
        (PMM_MIN_ADDR as int, (end - PMM_MIN_ADDR) / 4096)
    } else if e.addr >= PMM_MIN_ADDR {
        (e.addr as int, (e.size / 4096) as int)
    } else {
        (0, 0)
    }
}

/// The region chosen for the frame allocator among the entries of `s`: the
/// candidate with the most pages, the earliest one on ties; (0, 0) when no
/// entry offers any page.
pub open spec fn chosen_region(s: Seq<E820Entry>) -> (int, int)
    decreases s.len(),
{
    if s.len() == 0 {
        (0, 0)
    } else {
        let prev = chosen_region(s.drop_last());
        let c = candidate(s.last());
        if c.1 > prev.1 {
            c
        } else {
            prev
        }
    }
}

/// Pages reserved at the start of the chosen region for the allocator's
/// bitmap (one bit per page, rounded generously).
pub open spec fn bitmap_pages(pages: int) -> int {
    (pages + 4095) / 262144int + 1
}

proof fn lemma_candidate_pages_nonneg(s: Seq<E820Entry>)
    ensures
        chosen_region(s).1 >= 0,
    decreases s.len(),
{
    if s.len() > 0 {
        lemma_candidate_pages_nonneg(s.drop_last());
    }
}

/// Only usable RAM counts: an e820 entry whose type is not USABLE (1) adds
/// no page to the usable count and is never the region handed to the frame
/// allocator, wherever it stands in the map.
pub proof fn law_e820_ignores_unusable(s: Seq<E820Entry>, i: int, e: E820Entry)
    requires
        0 <= i <= s.len(),
        e.typ != e820::USABLE,
    ensures
        usable_pages(s.insert(i, e)) == usable_pages(s),
        chosen_region(s.insert(i, e)) == chosen_region(s),
    decreases s.len(),
{
    let t = s.insert(i, e);
    if i == s.len() {
        assert(t.drop_last() =~= s);
        assert(t.last() == e);
        lemma_candidate_pages_nonneg(s);
    } else {
        law_e820_ignores_unusable(s.drop_last(), i, e);
        assert(t.drop_last() =~= s.drop_last().insert(i, e));
        assert(t.last() == s.last());
    }
}

/// A usable entry of at least one page adds its whole pages to the count.
pub proof fn law_e820_counts_usable(s: Seq<E820Entry>, e: E820Entry)
    requires
        e.typ == e820::USABLE,
        e.size >= 4096,
    ensures
        usable_pages(s.push(e)) == usable_pages(s) + e.size / 4096,
{
    assert(s.push(e).drop_last() =~= s);
}

proof fn lemma_usable_pages_mono(s: Seq<E820Entry>, k: int)
    requires
        0 <= k <= s.len(),
    ensures
        usable_pages(s.take(k)) <= usable_pages(s),
        usable_pages(s) >= 0,
    decreases s.len(),
{
    if s.len() > 0 {
        if k < s.len() {
            assert(s.drop_last().take(k) =~= s.take(k));
            lemma_usable_pages_mono(s.drop_last(), k);
        } else {
            assert(s.take(k) =~= s);
            lemma_usable_pages_mono(s.drop_last(), 0);
        }
    }
}

proof fn lemma_chosen_bound(s: Seq<E820Entry>)
    requires
        forall|i: int| 0 <= i < s.len() && usable(s[i]) ==> s[i].addr + s[i].size <= u64::MAX,
    ensures
        chosen_region(s).1 >= 0,
        chosen_region(s).0 >= 0,
        chosen_region(s).0 + chosen_region(s).1 * 4096 <= u64::MAX,
        chosen_region(s).1 <= usable_pages(s),
    decreases s.len(),
{
    if s.len() > 0 {
        lemma_chosen_bound(s.drop_last());
        let e = s.last();
        assert(usable(e) ==> e.addr + e.size <= u64::MAX);
        let c = candidate(e);
        if usable(e) && e.addr < PMM_MIN_ADDR && e.addr + e.size > PMM_MIN_ADDR {
            let d = e.addr + e.size - PMM_MIN_ADDR;
            assert((d / 4096) * 4096 <= d) by (nonlinear_arith)
                requires
                    d >= 0,
            ;
            assert(d <= e.size);
        } else if usable(e) && e.addr >= PMM_MIN_ADDR {
            let d = e.size as int;
            assert((d / 4096) * 4096 <= d) by (nonlinear_arith)
                requires
                    d >= 0,
            ;
        }
    }
}

/// The map can be used: no usable entry runs past the top of the address
/// space, and the count of usable pages fits in a `usize`.
pub open spec fn e820_ok(s: Seq<E820Entry>) -> bool {
    &&& forall|i: int| 0 <= i < s.len() && usable(s[i]) ==> s[i].addr + s[i].size <= u64::MAX
    &&& usable_pages(s) <= usize::MAX
}

/// `new` is the frame allocator `old` after taking over the region chosen
/// from the map `s`: the chosen region minus its bitmap pages, when any
/// page is left; otherwise `old` unchanged.
pub open spec fn pmm_after_e820(old: BuddyAllocator, new: BuddyAllocator, s: Seq<E820Entry>) -> bool {
    let (base, pages) = chosen_region(s);
    let bp = bitmap_pages(pages);
    if base != 0 && pages > 0 && pages - bp > 0 {
        new.is_fresh((base + bp * 4096) as u64, (pages - bp) as usize)
    } else {
        new == old
    }
}

/// Whether `entries` satisfies [`e820_ok`].
pub fn e820_check(entries: &[E820Entry]) -> (r: bool)
    ensures
        r == e820_ok(entries@),
{
    let mut total: u64 = 0;
    let mut i: usize = 0;
    while i < entries.len()
        invariant
            i <= entries@.len(),
            total == usable_pages(entries@.take(i as int)),
            total <= usize::MAX,
            forall|j: int| 0 <= j < i && usable(entries@[j]) ==> entries@[j].addr + entries@[j].size <= u64::MAX,
        decreases entries@.len() - i,
    {
        let e = entries[i];
        proof {
            assert(entries@.take(i + 1).drop_last() =~= entries@.take(i as int));
            assert(entries@.take(i + 1).last() == e);
        }
        if e.typ == e820::USABLE && e.size >= 4096 {
            if e.addr > u64::MAX - e.size {
                return false;
            }
            let pages = e.size / 4096;
            if pages > (usize::MAX as u64) || total > (usize::MAX as u64) - pages {
                proof {
                    lemma_usable_pages_mono(entries@, i + 1);
                }
                return false;
            }
            total = total + pages;
        }
        i = i + 1;
    }
    assert(entries@.take(entries@.len() as int) =~= entries@);
    true
}

/// Initialise the frame allocator from the e820 memory map `entries`: pick
/// the largest usable region above 16 MiB (the earliest on ties), keep its
/// first pages for the allocator's bitmap, and hand the rest to `pmm`.
/// Returns the number of usable pages in the map.
pub fn init_from_e820(entries: &[E820Entry], pmm: &mut BuddyAllocator) -> (r: usize)
    requires
        e820_ok(entries@),
    ensures
        r == usable_pages(entries@),
        pmm_after_e820(*old(pmm), *final(pmm), entries@),
{
    let mut total_usable_pages: usize = 0;
    let mut pmm_base: u64 = 0;
    let mut pmm_pages: u64 = 0;
    let mut i: usize = 0;
    while i < entries.len()
        invariant
            i <= entries@.len(),
            e820_ok(entries@),
            total_usable_pages == usable_pages(entries@.take(i as int)),
            (pmm_base as int, pmm_pages as int) == chosen_region(entries@.take(i as int)),
        decreases entries@.len() - i,
    {
        let entry = entries[i];
        let _typ = region_type(entry.typ);
        proof {
            assert(entries@.take(i + 1).drop_last() =~= entries@.take(i as int));
            assert(entries@.take(i + 1).last() == entry);
            lemma_usable_pages_mono(entries@, i + 1);
        }
        if entry.typ == e820::USABLE && entry.size >= 4096 {
            let pages = entry.size / 4096;
            total_usable_pages = total_usable_pages + (pages as usize);
            let region_end = entry.addr + entry.size;
            if entry.addr < PMM_MIN_ADDR && region_end > PMM_MIN_ADDR {
                let usable_start = PMM_MIN_ADDR;
                let usable_size = region_end - usable_start;
                let usable_pages = usable_size / 4096;
                if usable_pages > pmm_pages {
                    pmm_base = usable_start;
                    pmm_pages = usable_pages;
                }
            } else if entry.addr >= PMM_MIN_ADDR && pages > pmm_pages {
                pmm_base = entry.addr;
                pmm_pages = pages;
            }
        }
        let _region = MemoryRegion { base: entry.addr, length: entry.size, typ: _typ };
        i = i + 1;
    }
    proof {
        assert(entries@.take(entries@.len() as int) =~= entries@);
        lemma_chosen_bound(entries@);
    }
    if pmm_base != 0 && pmm_pages > 0 {
        let bitmap_pages = (pmm_pages + 4095) / (4096 * 64) + 1;
        proof {
            assert(bitmap_pages <= pmm_pages) by (nonlinear_arith)
                requires
                    pmm_pages >= 1,
                    bitmap_pages == (pmm_pages + 4095) / 262144int + 1,
            ;
        }
        let adjusted_base = pmm_base + bitmap_pages * 4096;
        let adjusted_pages = pmm_pages - bitmap_pages;
        if adjusted_pages > 0 {
            proof {
                let m = if (adjusted_pages as usize) < MAX_BLOCKS {
                    adjusted_pages as int
                } else {
                    MAX_BLOCKS as int
                };
                assert(adjusted_base + m * 4096 <= pmm_base + pmm_pages * 4096);
            }
            pmm.init(adjusted_base, adjusted_pages as usize);
        }
    }
    total_usable_pages
}

/// Initialise memory management from a boot-loader memory map.  The frame
/// allocator is set up by `init_from_e820`; this entry point does nothing.
pub fn init(_memory_map: &[MemoryRegion]) {
}

} // verus!
