//! Virtual memory: the 4-level x86_64 page-table walker and page mapping.
//!
//! Physical memory holding the page tables is modelled by
//! [`PageTableMemory`]: a word-addressed memory (never-written words read as
//! zero) together with the set of pages that are page tables and their
//! level (4 = PML4, 1 = PT).
use vstd::prelude::*;
use std::collections::HashMap;
use crate::mm::pmm::{BuddyAllocator, MAX_ORDER};

verus! {

broadcast use vstd::std_specs::hash::group_hash_axioms;

pub const PML4_SHIFT: usize = 39;

pub const PDPT_SHIFT: usize = 30;

pub const PD_SHIFT: usize = 21;

pub const PT_SHIFT: usize = 12;

pub const PAGE_SIZE: usize = 4096;

pub const PAGE_SIZE_U64: u64 = 4096;

/// Higher-half base address for the kernel mapping.
pub const KERNEL_BASE: u64 = 0xFFFF_8000_0000_0000;

pub const PTE_PRESENT: u64 = 1;

pub const PTE_WRITABLE: u64 = 2;

pub const PTE_USER: u64 = 4;

pub const PTE_WRITETHROUGH: u64 = 8;

pub const PTE_CACHEDISABLE: u64 = 16;

pub const PTE_ACCESSED: u64 = 32;

pub const PTE_DIRTY: u64 = 64;

pub const PTE_HUGE: u64 = 128;

pub const PTE_GLOBAL: u64 = 256;

pub const PTE_NOEXECUTE: u64 = 0x8000_0000_0000_0000;

/// Mask selecting the frame address of an entry.
pub const ADDR_MASK: u64 = 0xFFFF_FFFF_FFFF_F000;

// ─── Entry and index arithmetic ─────────────────────────────────────────────

/// Nine-bit table index of `virt` starting at bit `shift`.
pub open spec fn table_index(virt: u64, shift: u64) -> int {
    ((virt >> shift) & 0x1FFu64) as int
}

pub open spec fn present(e: u64) -> bool {
    e & PTE_PRESENT != 0
}

pub open spec fn huge(e: u64) -> bool {
    e & PTE_HUGE != 0
}

pub open spec fn user(e: u64) -> bool {
    e & PTE_USER != 0
}

/// Physical address of the table (or frame) an entry refers to.
pub open spec fn table_of(e: u64) -> u64 {
    e & ADDR_MASK
}

/// A page-aligned address.
pub open spec fn page_aligned(a: u64) -> bool {
    a & 0xFFFu64 == 0
}

/// Address of entry `i` of the table at `table`.
pub open spec fn entry_at(table: u64, i: int) -> u64 {
    (table + 8 * i) as u64
}

proof fn lemma_index_bound(virt: u64, shift: u64)
    ensures
        0 <= table_index(virt, shift) < 512,
{
    assert((virt >> shift) & 0x1FFu64 < 512) by (bit_vector);
}

proof fn lemma_table_of(e: u64)
    ensures
        page_aligned(table_of(e)),
        table_of(e) <= 0xFFFF_FFFF_FFFF_F000u64,
{
    assert((e & 0xFFFF_FFFF_FFFF_F000u64) & 0xFFFu64 == 0) by (bit_vector);
    assert(e & 0xFFFF_FFFF_FFFF_F000u64 <= 0xFFFF_FFFF_FFFF_F000u64) by (bit_vector);
}

proof fn lemma_aligned_bound(t: u64)
    requires
        page_aligned(t),
    ensures
        t <= 0xFFFF_FFFF_FFFF_F000u64,
        t % 4096 == 0,
{
    assert(t <= 0xFFFF_FFFF_FFFF_F000u64 && t % 4096 == 0) by (bit_vector)
        requires
            t & 0xFFFu64 == 0,
    ;
}

proof fn lemma_mod_aligned(t: u64)
    requires
        t % 4096 == 0,
    ensures
        page_aligned(t),
{
    assert(t & 0xFFFu64 == 0) by (bit_vector)
        requires
            t % 4096 == 0,
    ;
}

/// Entries of distinct aligned tables lie at distinct addresses.
proof fn lemma_entry_distinct(p: u64, i: int, q: u64, j: int)
    requires
        page_aligned(p),
        page_aligned(q),
        0 <= i < 512,
        0 <= j < 512,
        entry_at(p, i) == entry_at(q, j),
    ensures
        p == q,
        i == j,
{
    lemma_aligned_bound(p);
    lemma_aligned_bound(q);
    assert(p == q) by (nonlinear_arith)
        requires
            p % 4096 == 0,
            q % 4096 == 0,
            0 <= i < 512,
            0 <= j < 512,
            p + 8 * i == q + 8 * j,
    ;
}

/// Linking a fresh aligned table with intermediate bits.
proof fn lemma_link(t: u64, inter: u64)
    requires
        page_aligned(t),
        inter == 3 || inter == 7,
    ensures
        present(t | inter),
        !huge(t | inter),
        table_of(t | inter) == t,
        user(t | inter) == (inter == 7),
{
    assert(((t | inter) & 1u64 != 0) && ((t | inter) & 128u64 == 0) && ((t | inter)
        & 0xFFFF_FFFF_FFFF_F000u64 == t) && (((t | inter) & 4u64 != 0) == (inter == 7)))
        by (bit_vector)
        requires
            t & 0xFFFu64 == 0,
            inter == 3 || inter == 7,
    ;
}

/// Setting the user bit keeps presence, size and target.
proof fn lemma_or_user(e: u64)
    ensures
        present(e | PTE_USER) == present(e),
        huge(e | PTE_USER) == huge(e),
        table_of(e | PTE_USER) == table_of(e),
        user(e | PTE_USER),
{
    assert((((e | 4u64) & 1u64 != 0) == (e & 1u64 != 0)) && (((e | 4u64) & 128u64 != 0) == (e
        & 128u64 != 0)) && ((e | 4u64) & 0xFFFF_FFFF_FFFF_F000u64 == e & 0xFFFF_FFFF_FFFF_F000u64)
        && ((e | 4u64) & 4u64 != 0)) by (bit_vector);
}

proof fn lemma_zero_not_present()
    ensures
        !present(0),
{
    assert(0u64 & 1u64 == 0) by (bit_vector);
}

/// Index into the PML4 for `virt` (bits 39..48).
pub fn pml4_index(virt: u64) -> (r: usize)
    ensures
        r == table_index(virt, 39),
        r < 512,
{
    proof {
        lemma_index_bound(virt, 39);
    }
    ((virt >> 39u64) & 0x1FF) as usize
}

/// Index into the PDPT for `virt` (bits 30..39).
pub fn pdpt_index(virt: u64) -> (r: usize)
    ensures
        r == table_index(virt, 30),
        r < 512,
{
    proof {
        lemma_index_bound(virt, 30);
    }
    ((virt >> 30u64) & 0x1FF) as usize
}

/// Index into the PD for `virt` (bits 21..30).
pub fn pd_index(virt: u64) -> (r: usize)
    ensures
        r == table_index(virt, 21),
        r < 512,
{
    proof {
        lemma_index_bound(virt, 21);
    }
    ((virt >> 21u64) & 0x1FF) as usize
}

/// Index into the PT for `virt` (bits 12..21).
pub fn pt_index(virt: u64) -> (r: usize)
    ensures
        r == table_index(virt, 12),
        r < 512,
{
    proof {
        lemma_index_bound(virt, 12);
    }
    ((virt >> 12u64) & 0x1FF) as usize
}

// ─── Flags ──────────────────────────────────────────────────────────────────

/// Page table entry flags.
#[derive(Clone, Copy)]
pub struct PageFlags {
    pub present: bool,
    pub writable: bool,
    pub user: bool,
    pub write_through: bool,
    pub cache_disable: bool,
    pub accessed: bool,
    pub dirty: bool,
    pub huge: bool,
    pub no_execute: bool,
}

impl PageFlags {
    /// Present, read-only, supervisor, executable.
    pub fn new() -> (r: Self)
        ensures
            r.present,
            !r.writable,
            !r.user,
            !r.write_through,
            !r.cache_disable,
            !r.accessed,
            !r.dirty,
            !r.huge,
            !r.no_execute,
    {
        PageFlags {
            present: true,
            writable: false,
            user: false,
            write_through: false,
            cache_disable: false,
            accessed: false,
            dirty: false,
            huge: false,
            no_execute: false,
        }
    }
}

/// Value of `v` when `b` holds, else 0.
pub open spec fn flag(b: bool, v: u64) -> int {
    if b {
        v as int
    } else {
        0
    }
}

/// Raw PTE bits of `f`: each flag contributes its own bit.
pub open spec fn pte_bits(f: PageFlags) -> int {
    flag(f.present, PTE_PRESENT) + flag(f.writable, PTE_WRITABLE) + flag(f.user, PTE_USER)
        + flag(f.write_through, PTE_WRITETHROUGH) + flag(f.cache_disable, PTE_CACHEDISABLE)
        + flag(f.accessed, PTE_ACCESSED) + flag(f.dirty, PTE_DIRTY) + flag(f.huge, PTE_HUGE)
        + flag(f.no_execute, PTE_NOEXECUTE)
}

/// Convert [`PageFlags`] into raw x86_64 PTE bits.
pub fn flags_to_bits(flags: PageFlags) -> (r: u64)
    ensures
        r == pte_bits(flags),
{
    let mut bits = 0u64;
    if flags.present {
        assert(bits | 1u64 == bits + 1u64) by (bit_vector)
            requires
                bits < 1u64,
        ;
        bits |= PTE_PRESENT;
    }
    if flags.writable {
        assert(bits | 2u64 == bits + 2u64) by (bit_vector)
            requires
                bits < 2u64,
        ;
        bits |= PTE_WRITABLE;
    }
    if flags.user {
        assert(bits | 4u64 == bits + 4u64) by (bit_vector)
            requires
                bits < 4u64,
        ;
        bits |= PTE_USER;
    }
    if flags.write_through {
        assert(bits | 8u64 == bits + 8u64) by (bit_vector)
            requires
                bits < 8u64,
        ;
        bits |= PTE_WRITETHROUGH;
    }
    if flags.cache_disable {
        assert(bits | 16u64 == bits + 16u64) by (bit_vector)
            requires
                bits < 16u64,
        ;
        bits |= PTE_CACHEDISABLE;
    }
    if flags.accessed {
        assert(bits | 32u64 == bits + 32u64) by (bit_vector)
            requires
                bits < 32u64,
        ;
        bits |= PTE_ACCESSED;
    }
    if flags.dirty {
        assert(bits | 64u64 == bits + 64u64) by (bit_vector)
            requires
                bits < 64u64,
        ;
        bits |= PTE_DIRTY;
    }
    if flags.huge {
        assert(bits | 128u64 == bits + 128u64) by (bit_vector)
            requires
                bits < 128u64,
        ;
        bits |= PTE_HUGE;
    }
    if flags.no_execute {
        assert(bits | 0x8000_0000_0000_0000u64 == bits + 0x8000_0000_0000_0000u64) by (bit_vector)
            requires
                bits < 0x8000_0000_0000_0000u64,
        ;
        bits |= PTE_NOEXECUTE;
    }
    bits
}


// ─── Page-table memory ──────────────────────────────────────────────────────

/// Word at address `a` of memory `m` (never-written words read as zero).
pub open spec fn word_of(m: Map<u64, u64>, a: u64) -> u64 {
    if m.contains_key(a) {
        m[a]
    } else {
        0
    }
}

/// An entry of a level-`level` table refers to a lower-level table: it is
/// present and, below the PML4, does not map a huge page.
pub open spec fn points(level: nat, e: u64) -> bool {
    present(e) && (level == 4 || !huge(e))
}

/// `a` lies in the 4 KiB page at `p`.
pub open spec fn in_page(a: u64, p: u64) -> bool {
    p <= a < p + 4096
}

/// Every table page is aligned and has a level in 1..=4, and every entry of
/// a table of level 2 or more that refers to a table refers to a table one
/// level down.
pub open spec fn tables_wf(m: Map<u64, u64>, t: Map<u64, nat>) -> bool {
    &&& forall|p: u64| #[trigger] t.contains_key(p) ==> page_aligned(p) && 1 <= t[p] <= 4
    &&& forall|p: u64, i: int|
        t.contains_key(p) && t[p] >= 2 && 0 <= i < 512 && points(
            t[p],
            #[trigger] word_of(m, entry_at(p, i)),
        ) ==> t.contains_key(table_of(word_of(m, entry_at(p, i)))) && t[table_of(
            word_of(m, entry_at(p, i)),
        )] == t[p] - 1
}

proof fn lemma_write_preserves(m: Map<u64, u64>, t: Map<u64, nat>, a: u64, v: u64)
    requires
        tables_wf(m, t),
        forall|p: u64, i: int|
            t.contains_key(p) && t[p] >= 2 && 0 <= i < 512 && entry_at(p, i) == a && points(
                t[p],
                v,
            ) ==> t.contains_key(table_of(v)) && t[table_of(v)] == t[p] - 1,
    ensures
        tables_wf(m.insert(a, v), t),
{
    let m2 = m.insert(a, v);
    assert forall|p: u64, i: int|
        t.contains_key(p) && t[p] >= 2 && 0 <= i < 512 && points(
            t[p],
            #[trigger] word_of(m2, entry_at(p, i)),
        ) implies t.contains_key(table_of(word_of(m2, entry_at(p, i)))) && t[table_of(
        word_of(m2, entry_at(p, i)),
    )] == t[p] - 1 by {
        if entry_at(p, i) != a {
            assert(word_of(m2, entry_at(p, i)) == word_of(m, entry_at(p, i)));
        }
    }
}

proof fn lemma_add_table(m: Map<u64, u64>, t: Map<u64, nat>, p: u64, l: nat)
    requires
        tables_wf(m, t),
        !t.contains_key(p),
        page_aligned(p),
        1 <= l <= 4,
        forall|i: int| 0 <= i < 512 ==> word_of(m, #[trigger] entry_at(p, i)) == 0,
    ensures
        tables_wf(m, t.insert(p, l)),
{
    let t2 = t.insert(p, l);
    assert forall|q: u64, i: int|
        t2.contains_key(q) && t2[q] >= 2 && 0 <= i < 512 && points(
            t2[q],
            #[trigger] word_of(m, entry_at(q, i)),
        ) implies t2.contains_key(table_of(word_of(m, entry_at(q, i)))) && t2[table_of(
        word_of(m, entry_at(q, i)),
    )] == t2[q] - 1 by {
        if q == p {
            assert(word_of(m, entry_at(p, i)) == 0);
            lemma_zero_not_present();
        } else {
            assert(t.contains_key(table_of(word_of(m, entry_at(q, i)))));
            assert(table_of(word_of(m, entry_at(q, i))) != p);
        }
    }
}

/// Each page table is referred to by at most one entry: two entries of
/// tables of level 2 or more that refer to tables refer to different
/// tables, unless they are the same entry.
pub open spec fn unaliased(m: Map<u64, u64>, t: Map<u64, nat>) -> bool {
    forall|p: u64, i: int, q: u64, j: int|
        #![trigger word_of(m, entry_at(p, i)), word_of(m, entry_at(q, j))]
        t.contains_key(p) && t[p] >= 2 && 0 <= i < 512 && points(t[p], word_of(m, entry_at(p, i)))
            && t.contains_key(q) && t[q] >= 2 && 0 <= j < 512 && points(
            t[q],
            word_of(m, entry_at(q, j)),
        ) && table_of(word_of(m, entry_at(p, i))) == table_of(word_of(m, entry_at(q, j))) ==> p
            == q && i == j
}

/// Writing `v` at `a` keeps the tables unaliased when no other entry
/// refers to the table `v` refers to.
proof fn lemma_unaliased_write(m: Map<u64, u64>, t: Map<u64, nat>, a: u64, v: u64)
    requires
        unaliased(m, t),
        tables_wf(m, t),
        forall|q: u64, j: int|
            t.contains_key(q) && t[q] >= 2 && 0 <= j < 512 && entry_at(q, j) != a && points(
                t[q],
                #[trigger] word_of(m, entry_at(q, j)),
            ) && (exists|p: u64, i: int|
                t.contains_key(p) && t[p] >= 2 && 0 <= i < 512 && entry_at(p, i) == a && points(
                    t[p],
                    v,
                )) ==> table_of(word_of(m, entry_at(q, j))) != table_of(v),
    ensures
        unaliased(m.insert(a, v), t),
{
    let m2 = m.insert(a, v);
    assert forall|p: u64, i: int, q: u64, j: int|
        t.contains_key(p) && t[p] >= 2 && 0 <= i < 512 && points(
            t[p],
            #[trigger] word_of(m2, entry_at(p, i)),
        ) && t.contains_key(q) && t[q] >= 2 && 0 <= j < 512 && points(
            t[q],
            #[trigger] word_of(m2, entry_at(q, j)),
        ) && table_of(word_of(m2, entry_at(p, i))) == table_of(
            word_of(m2, entry_at(q, j)),
        ) implies p == q && i == j by {
        if entry_at(p, i) == a && entry_at(q, j) == a {
            lemma_entry_distinct(p, i, q, j);
        } else if entry_at(p, i) == a {
            assert(word_of(m2, entry_at(q, j)) == word_of(m, entry_at(q, j)));
        } else if entry_at(q, j) == a {
            assert(word_of(m2, entry_at(p, i)) == word_of(m, entry_at(p, i)));
        } else {
            assert(word_of(m2, entry_at(p, i)) == word_of(m, entry_at(p, i)));
            assert(word_of(m2, entry_at(q, j)) == word_of(m, entry_at(q, j)));
        }
    }
}

/// A new table whose entries are all zero keeps the tables unaliased.
proof fn lemma_unaliased_add_table(m: Map<u64, u64>, t: Map<u64, nat>, p: u64, l: nat)
    requires
        unaliased(m, t),
        forall|i: int| 0 <= i < 512 ==> word_of(m, #[trigger] entry_at(p, i)) == 0,
    ensures
        unaliased(m, t.insert(p, l)),
{
    let t2 = t.insert(p, l);
    lemma_zero_not_present();
    assert forall|q: u64, i: int, r: u64, j: int|
        t2.contains_key(q) && t2[q] >= 2 && 0 <= i < 512 && points(
            t2[q],
            #[trigger] word_of(m, entry_at(q, i)),
        ) && t2.contains_key(r) && t2[r] >= 2 && 0 <= j < 512 && points(
            t2[r],
            #[trigger] word_of(m, entry_at(r, j)),
        ) && table_of(word_of(m, entry_at(q, i))) == table_of(
            word_of(m, entry_at(r, j)),
        ) implies q == r && i == j by {
        if q == p {
            assert(word_of(m, entry_at(p, i)) == 0);
        }
        if r == p {
            assert(word_of(m, entry_at(p, j)) == 0);
        }
    }
}

/// Physical memory holding page tables.
pub struct PageTableMemory {
    /// Words that have been written, by physical address.
    words: HashMap<u64, u64>,
    /// Pages that are page tables, with their level (4 = PML4, 1 = PT).
    tables: Ghost<Map<u64, nat>>,
}

impl PageTableMemory {
    /// Written words by address.
    pub closed spec fn mem(&self) -> Map<u64, u64> {
        self.words@
    }

    /// Word at physical address `a`.
    pub open spec fn word(&self, a: u64) -> u64 {
        word_of(self.mem(), a)
    }

    /// Page-table pages and their levels.
    pub closed spec fn tables(&self) -> Map<u64, nat> {
        self.tables@
    }

    /// `p` is a page table of level `level`.
    pub open spec fn is_table(&self, p: u64, level: nat) -> bool {
        self.tables().contains_key(p) && self.tables()[p] == level
    }

    pub open spec fn wf(&self) -> bool {
        tables_wf(self.mem(), self.tables())
    }

    /// No page table is referred to by two entries.
    pub open spec fn is_unaliased(&self) -> bool {
        unaliased(self.mem(), self.tables())
    }

    /// Address of the PML4 entry for `virt`.
    pub open spec fn e4(&self, pml4: u64, virt: u64) -> u64 {
        entry_at(pml4, table_index(virt, 39))
    }

    /// Address of the PDPT entry for `virt`, following the PML4 entry.
    pub open spec fn e3(&self, pml4: u64, virt: u64) -> u64 {
        entry_at(table_of(self.word(self.e4(pml4, virt))), table_index(virt, 30))
    }

    /// Address of the PD entry for `virt`, following the PDPT entry.
    pub open spec fn e2(&self, pml4: u64, virt: u64) -> u64 {
        entry_at(table_of(self.word(self.e3(pml4, virt))), table_index(virt, 21))
    }

    /// Address of the PT entry for `virt`, following the PD entry.
    pub open spec fn e1(&self, pml4: u64, virt: u64) -> u64 {
        entry_at(table_of(self.word(self.e2(pml4, virt))), table_index(virt, 12))
    }

    /// The hardware walk: the address of the entry that maps `virt` (a huge
    /// PDPT or PD entry, or the PT entry), or `None` when a level on the way
    /// is not present.
    pub open spec fn walk_spec(&self, pml4: u64, virt: u64) -> Option<u64> {
        let w4 = self.word(self.e4(pml4, virt));
        let w3 = self.word(self.e3(pml4, virt));
        let w2 = self.word(self.e2(pml4, virt));
        if !present(w4) {
            None
        } else if !present(w3) {
            None
        } else if huge(w3) {
            Some(self.e3(pml4, virt))
        } else if !present(w2) {
            None
        } else if huge(w2) {
            Some(self.e2(pml4, virt))
        } else {
            Some(self.e1(pml4, virt))
        }
    }

    /// The entry the walk for `virt` ends at, or 0 when the walk stops at a
    /// level that is not present: what the hardware reads for `virt`.
    pub open spec fn leaf_word(&self, pml4: u64, virt: u64) -> u64 {
        match self.walk_spec(pml4, virt) {
            Some(a) => self.word(a),
            None => 0,
        }
    }

    /// `virt` is mapped by a 4 KiB page: every level of its walk is present
    /// and neither the PDPT nor the PD entry maps a huge page.
    pub open spec fn maps_4k(&self, pml4: u64, virt: u64) -> bool {
        let w4 = self.word(self.e4(pml4, virt));
        let w3 = self.word(self.e3(pml4, virt));
        let w2 = self.word(self.e2(pml4, virt));
        present(w4) && present(w3) && !huge(w3) && present(w2) && !huge(w2)
    }

    /// Number of page-table pages `map_page` allocates for `virt`.
    pub open spec fn map_needs(&self, pml4: u64, virt: u64) -> nat {
        let w4 = self.word(self.e4(pml4, virt));
        let w3 = self.word(self.e3(pml4, virt));
        let w2 = self.word(self.e2(pml4, virt));
        if !present(w4) {
            3
        } else if !present(w3) {
            2
        } else if huge(w3) {
            0
        } else if !present(w2) {
            1
        } else {
            0
        }
    }

    /// The walk for `virt` meets an existing 1 GiB or 2 MiB mapping.
    pub open spec fn map_collides(&self, pml4: u64, virt: u64) -> bool {
        let w4 = self.word(self.e4(pml4, virt));
        let w3 = self.word(self.e3(pml4, virt));
        let w2 = self.word(self.e2(pml4, virt));
        present(w4) && present(w3) && (huge(w3) || (present(w2) && huge(w2)))
    }

    /// Empty physical memory: every word reads zero, no page tables.
    pub fn new() -> (r: Self)
        ensures
            r.wf(),
            r.is_unaliased(),
            r.mem() == Map::<u64, u64>::empty(),
            r.tables() == Map::<u64, nat>::empty(),
    {
        PageTableMemory { words: HashMap::new(), tables: Ghost(Map::empty()) }
    }

    /// Read the word at physical address `a`.
    pub fn read_word(&self, a: u64) -> (r: u64)
        ensures
            r == self.word(a),
    {
        match self.words.get(&a) {
            Some(v) => *v,
            None => 0,
        }
    }

    fn write_word(&mut self, a: u64, v: u64)
        ensures
            final(self).mem() == old(self).mem().insert(a, v),
            final(self).tables() == old(self).tables(),
    {
        self.words.insert(a, v);
    }
}

/// Free frames of `pmm` are page aligned and are not page tables of `mem`.
pub open spec fn frames_fresh(pmm: &BuddyAllocator, mem: &PageTableMemory) -> bool {
    &&& pmm.base() % 4096 == 0
    &&& forall|j: int|
        0 <= j < pmm.free_list(0).len() ==> !mem.tables().contains_key(
            #[trigger] pmm.frame_addr(pmm.free_list(0)[j] as int) as u64,
        )
}

/// `a` lies in one of the pages of the first `k` frames of `l`.
pub open spec fn in_fresh(pmm: &BuddyAllocator, l: Seq<usize>, k: int, a: u64) -> bool {
    exists|j: int| 0 <= j < k && #[trigger] in_page(a, pmm.frame_addr(l[j] as int) as u64)
}

// ─── Walker ─────────────────────────────────────────────────────────────────

/// Walk the 4-level hierarchy for `virt` and return the address of the entry
/// mapping it: a huge PDPT or PD entry, or the PT entry.  `None` when a
/// level on the way is not present.
pub fn walk(mem: &PageTableMemory, pml4: u64, virt: u64) -> (r: Option<u64>)
    requires
        page_aligned(pml4),
    ensures
        r == mem.walk_spec(pml4, virt),
{
    proof {
        lemma_aligned_bound(pml4);
    }
    let pml4e = pml4 + 8 * (pml4_index(virt) as u64);
    let w4 = mem.read_word(pml4e);
    if w4 & PTE_PRESENT == 0 {
        return None;
    }
    let pdpt = w4 & ADDR_MASK;
    proof {
        lemma_table_of(w4);
    }
    let pdpte = pdpt + 8 * (pdpt_index(virt) as u64);
    let w3 = mem.read_word(pdpte);
    if w3 & PTE_PRESENT == 0 {
        return None;
    }
    if w3 & PTE_HUGE != 0 {
        return Some(pdpte);
    }
    let pd = w3 & ADDR_MASK;
    proof {
        lemma_table_of(w3);
    }
    let pde = pd + 8 * (pd_index(virt) as u64);
    let w2 = mem.read_word(pde);
    if w2 & PTE_PRESENT == 0 {
        return None;
    }
    if w2 & PTE_HUGE != 0 {
        return Some(pde);
    }
    let pt = w2 & ADDR_MASK;
    proof {
        lemma_table_of(w2);
    }
    let pte = pt + 8 * (pt_index(virt) as u64);
    Some(pte)
}


/// An entry of an aligned table lies outside every other aligned page.
proof fn lemma_not_in_page(p: u64, i: int, t: u64)
    requires
        page_aligned(p),
        page_aligned(t),
        p != t,
        0 <= i < 512,
    ensures
        !in_page(entry_at(p, i), t),
{
    lemma_aligned_bound(p);
    lemma_aligned_bound(t);
    if in_page(entry_at(p, i), t) {
        assert(false) by (nonlinear_arith)
            requires
                p % 4096 == 0,
                t % 4096 == 0,
                0 <= i < 512,
                t <= p + 8 * i < t + 4096,
                p != t,
        ;
    }
}

/// Frames of an allocator with an aligned base are aligned pages.
proof fn lemma_frame_aligned(pmm: &BuddyAllocator, idx: int)
    requires
        pmm.wf(),
        pmm.base() % 4096 == 0,
        0 <= idx < pmm.total(),
    ensures
        page_aligned(pmm.frame_addr(idx) as u64),
        pmm.frame_addr(idx) <= 0xFFFF_FFFF_FFFF_F000u64,
        pmm.frame_addr(idx) == pmm.frame_addr(idx) as u64,
{
    pmm.lemma_wf_facts();
    let b = pmm.base() as int;
    assert(pmm.frame_addr(idx) + 4096 <= b + pmm.total() * 4096) by (nonlinear_arith)
        requires
            0 <= idx < pmm.total(),
            pmm.frame_addr(idx) == b + idx * 4096,
    ;
    assert((b + idx * 4096) % 4096 == 0) by (nonlinear_arith)
        requires
            b % 4096 == 0,
            idx >= 0,
    ;
    lemma_mod_aligned(pmm.frame_addr(idx) as u64);
}

/// Allocate a zeroed page-table page from `pmm`: the head of the order-0
/// free list, with all 512 entries cleared.
pub fn alloc_table(mem: &mut PageTableMemory, pmm: &mut BuddyAllocator) -> (r: Option<u64>)
    requires
        old(mem).wf(),
        old(pmm).wf(),
        old(pmm).base() % 4096 == 0,
    ensures
        final(mem).wf(),
        final(pmm).wf(),
        final(pmm).base() == old(pmm).base(),
        final(pmm).total() == old(pmm).total(),
        final(mem).tables() == old(mem).tables(),
        old(mem).is_unaliased() ==> final(mem).is_unaliased(),
        old(pmm).free_list(0).len() == 0 ==> r.is_none() && final(mem).mem() == old(mem).mem()
            && final(pmm).free_lists_view() == old(pmm).free_lists_view(),
        old(pmm).free_list(0).len() > 0 ==> {
            let t = old(pmm).frame_addr(old(pmm).free_list(0)[0] as int) as u64;
            &&& r == Some(t)
            &&& page_aligned(t)
            &&& final(pmm).free_lists_view() == old(pmm).free_lists_view().update(
                0,
                old(pmm).free_list(0).drop_first(),
            )
            &&& forall|k: int| 0 <= k < 512 ==> final(mem).word(#[trigger] entry_at(t, k)) == 0
            &&& forall|a: u64| !in_page(a, t) ==> final(mem).word(a) == old(mem).word(a)
        },
{
    proof {
        pmm.lemma_wf_facts();
    }
    let ghost l0 = pmm.free_list(0);
    let frame = match pmm.alloc_frame() {
        Some(f) => f,
        None => {
            return None;
        },
    };
    proof {
        lemma_frame_aligned(old(pmm), l0[0] as int);
        lemma_aligned_bound(frame);
    }
    let mut k: u64 = 0;
    while k < 512
        invariant
            k <= 512,
            page_aligned(frame),
            frame <= 0xFFFF_FFFF_FFFF_F000u64,
            mem.wf(),
            mem.tables() == old(mem).tables(),
            old(mem).is_unaliased() ==> mem.is_unaliased(),
            forall|j: int| 0 <= j < k ==> mem.word(#[trigger] entry_at(frame, j)) == 0,
            forall|a: u64| !in_page(a, frame) ==> mem.word(a) == old(mem).word(a),
        decreases 512 - k,
    {
        let a = frame + 8 * k;
        proof {
            lemma_zero_not_present();
            lemma_write_preserves(mem.mem(), mem.tables(), a, 0);
            if old(mem).is_unaliased() {
                lemma_unaliased_write(mem.mem(), mem.tables(), a, 0);
            }
        }
        mem.write_word(a, 0);
        k = k + 1;
    }
    Some(frame)
}


proof fn lemma_user_or_idem(e: u64)
    requires
        user(e),
    ensures
        e | PTE_USER == e,
{
    assert(e | 4u64 == e) by (bit_vector)
        requires
            e & 4u64 != 0,
    ;
}

/// A directory entry on `map_page`'s walk after the call (`new_w`): when the
/// level was present (`was`, old value `old_w`) it is kept, with the user
/// bit added for a user mapping; otherwise it links a new table as present
/// and writable, and user-accessible for a user mapping.
pub open spec fn dir_entry_set(was: bool, old_w: u64, new_w: u64, user_leaf: bool) -> bool {
    if was {
        new_w == (if user_leaf {
            old_w | PTE_USER
        } else {
            old_w
        })
    } else {
        new_w == table_of(new_w) | (if user_leaf {
            7u64
        } else {
            3u64
        })
    }
}

/// Every page table of `m1` that `m0` did not have reads zero, except at
/// the entries `a`, `b` and `c`.
pub open spec fn new_tables_zero(m0: PageTableMemory, m1: PageTableMemory, a: u64, b: u64, c: u64) -> bool {
    forall|t: u64, k: int|
        #[trigger] m1.tables().contains_key(t) && !m0.tables().contains_key(t) && 0 <= k < 512
            && entry_at(t, k) != a && entry_at(t, k) != b && entry_at(t, k) != c ==> m1.word(
            #[trigger] entry_at(t, k),
        ) == 0
}

/// Make sure entry `entry` (entry `i` of table `p`) refers to a next-level
/// table: allocate and link a zeroed table when it is not present, else set
/// the user bit when asked.  Returns the next-level table address.
fn next_table(
    mem: &mut PageTableMemory,
    pmm: &mut BuddyAllocator,
    entry: u64,
    Ghost(p): Ghost<u64>,
    Ghost(i): Ghost<int>,
    inter: u64,
    set_user: bool,
) -> (r: u64)
    requires
        old(mem).wf(),
        old(pmm).wf(),
        frames_fresh(old(pmm), old(mem)),
        old(mem).tables().contains_key(p),
        old(mem).tables()[p] >= 2,
        0 <= i < 512,
        entry == entry_at(p, i),
        inter == 3 || inter == 7,
        set_user == (inter == 7),
        !present(old(mem).word(entry)) ==> old(pmm).free_list(0).len() > 0,
    ensures
        final(mem).wf(),
        final(pmm).wf(),
        frames_fresh(final(pmm), final(mem)),
        final(pmm).base() == old(pmm).base(),
        final(pmm).total() == old(pmm).total(),
        forall|q: u64|
            old(mem).tables().contains_key(q) ==> final(mem).tables().contains_key(q) && final(mem).tables()[q] == old(mem).tables()[q],
        old(mem).is_unaliased() ==> final(mem).is_unaliased(),
        present(final(mem).word(entry)),
        r == table_of(final(mem).word(entry)),
        set_user ==> user(final(mem).word(entry)),
        points(old(mem).tables()[p], final(mem).word(entry)) ==> final(mem).is_table(
            r,
            (old(mem).tables()[p] - 1) as nat,
        ),
        !present(old(mem).word(entry)) ==> {
            let t = old(pmm).frame_addr(old(pmm).free_list(0)[0] as int) as u64;
            &&& r == t
            &&& !old(mem).tables().contains_key(t)
            &&& final(mem).word(entry) == t | inter
            &&& !huge(final(mem).word(entry))
            &&& final(mem).tables() == old(mem).tables().insert(
                t,
                (old(mem).tables()[p] - 1) as nat,
            )
            &&& final(pmm).free_lists_view() == old(pmm).free_lists_view().update(
                0,
                old(pmm).free_list(0).drop_first(),
            )
            &&& forall|k: int| 0 <= k < 512 ==> final(mem).word(#[trigger] entry_at(t, k)) == 0
            &&& forall|a: u64|
                a != entry && !in_page(a, t) ==> final(mem).word(a) == old(mem).word(a)
        },
        present(old(mem).word(entry)) ==> {
            &&& final(mem).word(entry) == (if set_user {
                old(mem).word(entry) | PTE_USER
            } else {
                old(mem).word(entry)
            })
            &&& huge(final(mem).word(entry)) == huge(old(mem).word(entry))
            &&& r == table_of(old(mem).word(entry))
            &&& final(mem).tables() == old(mem).tables()
            &&& final(pmm).free_lists_view() == old(pmm).free_lists_view()
            &&& forall|a: u64| a != entry ==> final(mem).word(a) == old(mem).word(a)
        },
{
    let ghost level: nat = old(mem).tables()[p];
    proof {
        lemma_aligned_bound(p);
    }
    let w = mem.read_word(entry);
    if w & PTE_PRESENT == 0 {
        proof {
            pmm.lemma_wf_facts();
            lemma_frame_aligned(old(pmm), old(pmm).free_list(0)[0] as int);
        }
        let ghost l0 = old(pmm).free_list(0);
        let t = match alloc_table(mem, pmm) {
            Some(t) => t,
            None => {
                assert(false);
                return 0;
            },
        };
        let ghost m1 = mem.mem();
        proof {
            assert(!old(mem).tables().contains_key(t)) by {
                assert(old(pmm).frame_addr(l0[0] as int) as u64 == t);
            }
            lemma_not_in_page(p, i, t);
            lemma_add_table(mem.mem(), mem.tables(), t, (level - 1) as nat);
            if old(mem).is_unaliased() {
                lemma_unaliased_add_table(mem.mem(), mem.tables(), t, (level - 1) as nat);
            }
        }
        mem.tables = Ghost(mem.tables@.insert(t, (level - 1) as nat));
        proof {
            lemma_link(t, inter);
            assert forall|q: u64, j: int|
                mem.tables().contains_key(q) && mem.tables()[q] >= 2 && 0 <= j < 512 && entry_at(
                    q,
                    j,
                ) == entry && points(mem.tables()[q], t | inter) implies mem.tables().contains_key(
                table_of(t | inter),
            ) && mem.tables()[table_of(t | inter)] == mem.tables()[q] - 1 by {
                lemma_entry_distinct(q, j, p, i);
            }
            lemma_write_preserves(mem.mem(), mem.tables(), entry, t | inter);
            if old(mem).is_unaliased() {
                assert forall|q: u64, j: int|
                    mem.tables().contains_key(q) && mem.tables()[q] >= 2 && 0 <= j < 512 && entry_at(
                        q,
                        j,
                    ) != entry && points(mem.tables()[q], #[trigger] word_of(mem.mem(), entry_at(q, j)))
                        implies table_of(word_of(mem.mem(), entry_at(q, j))) != table_of(t | inter) by {
                    if q == t {
                        lemma_zero_not_present();
                        assert(word_of(mem.mem(), entry_at(t, j)) == 0);
                    } else {
                        lemma_not_in_page(q, j, t);
                        assert(word_of(mem.mem(), entry_at(q, j)) == word_of(
                            old(mem).mem(),
                            entry_at(q, j),
                        ));
                        assert(old(mem).tables().contains_key(
                            table_of(word_of(old(mem).mem(), entry_at(q, j))),
                        ));
                    }
                }
                lemma_unaliased_write(mem.mem(), mem.tables(), entry, t | inter);
            }
        }
        mem.write_word(entry, t | inter);
        proof {
            assert forall|j: int|
                0 <= j < pmm.free_list(0).len() implies !mem.tables().contains_key(
                #[trigger] pmm.frame_addr(pmm.free_list(0)[j] as int) as u64,
            ) by {
                assert(pmm.free_list(0)[j] == l0[j + 1]);
                assert(l0[j + 1] != l0[0]);
                assert(old(pmm).frame_addr(l0[j + 1] as int) != old(pmm).frame_addr(
                    l0[0] as int,
                ));
                assert(!old(mem).tables().contains_key(
                    old(pmm).frame_addr(l0[j + 1] as int) as u64,
                ));
                lemma_frame_aligned(old(pmm), l0[j + 1] as int);
            }
            assert forall|k: int| 0 <= k < 512 implies mem.word(#[trigger] entry_at(t, k)) == 0 by {
                assert(entry_at(t, k) != entry) by {
                    if entry_at(t, k) == entry {
                        lemma_entry_distinct(t, k, p, i);
                    }
                }
            }
        }
        t
    } else {
        if set_user && (w & PTE_USER == 0) {
            proof {
                lemma_or_user(w);
                assert forall|q: u64, j: int|
                    mem.tables().contains_key(q) && mem.tables()[q] >= 2 && 0 <= j < 512
                        && entry_at(q, j) == entry && points(
                        mem.tables()[q],
                        w | PTE_USER,
                    ) implies mem.tables().contains_key(table_of(w | PTE_USER))
                    && mem.tables()[table_of(w | PTE_USER)] == mem.tables()[q] - 1 by {
                    lemma_entry_distinct(q, j, p, i);
                    assert(points(level, w));
                    assert(word_of(mem.mem(), entry_at(p, i)) == w);
                }
                lemma_write_preserves(mem.mem(), mem.tables(), entry, w | PTE_USER);
                if old(mem).is_unaliased() {
                    assert forall|q: u64, j: int|
                        mem.tables().contains_key(q) && mem.tables()[q] >= 2 && 0 <= j < 512
                            && entry_at(q, j) != entry && points(
                            mem.tables()[q],
                            #[trigger] word_of(mem.mem(), entry_at(q, j)),
                        ) && (exists|p2: u64, i2: int|
                            mem.tables().contains_key(p2) && mem.tables()[p2] >= 2 && 0 <= i2 < 512
                                && entry_at(p2, i2) == entry && points(
                                mem.tables()[p2],
                                w | PTE_USER,
                            )) implies table_of(word_of(mem.mem(), entry_at(q, j))) != table_of(
                        w | PTE_USER,
                    ) by {
                        let (p2, i2) = choose|p2: u64, i2: int|
                            mem.tables().contains_key(p2) && mem.tables()[p2] >= 2 && 0 <= i2 < 512
                                && entry_at(p2, i2) == entry && points(
                                mem.tables()[p2],
                                w | PTE_USER,
                            );
                        lemma_entry_distinct(p2, i2, p, i);
                        assert(word_of(mem.mem(), entry_at(p, i)) == w);
                        assert(points(level, w));
                    }
                    lemma_unaliased_write(mem.mem(), mem.tables(), entry, w | PTE_USER);
                }
            }
            mem.write_word(entry, w | PTE_USER);
        } else {
            proof {
                if set_user {
                    lemma_user_or_idem(w);
                }
            }
        }
        proof {
            lemma_or_user(w);
            if points(level, mem.word(entry)) {
                assert(points(level, w));
                assert(word_of(old(mem).mem(), entry_at(p, i)) == w);
            }
        }
        w & ADDR_MASK
    }
}


/// Build the walk for `virt` (allocating missing levels) and write its
/// leaf entry; `map_page` states what this means for other pages.
fn map_page_levels(
    mem: &mut PageTableMemory,
    pmm: &mut BuddyAllocator,
    pml4: u64,
    virt: u64,
    phys: u64,
    flags: PageFlags,
)
    requires
        old(mem).wf(),
        old(pmm).wf(),
        frames_fresh(old(pmm), old(mem)),
        old(mem).is_table(pml4, 4),
        old(pmm).free_list(0).len() >= old(mem).map_needs(pml4, virt),
        !old(mem).map_collides(pml4, virt),
    ensures
        final(mem).wf(),
        final(pmm).wf(),
        frames_fresh(final(pmm), final(mem)),
        final(pmm).base() == old(pmm).base(),
        final(pmm).total() == old(pmm).total(),
        forall|q: u64|
            old(mem).tables().contains_key(q) ==> final(mem).tables().contains_key(q) && final(mem).tables()[q] == old(mem).tables()[q],
        final(pmm).free_lists_view() == old(pmm).free_lists_view().update(
            0,
            old(pmm).free_list(0).skip(old(mem).map_needs(pml4, virt) as int),
        ),
        old(mem).is_unaliased() ==> final(mem).is_unaliased(),
        final(mem).is_table(table_of(final(mem).word(final(mem).e4(pml4, virt))), 3),
        final(mem).is_table(table_of(final(mem).word(final(mem).e3(pml4, virt))), 2),
        final(mem).is_table(table_of(final(mem).word(final(mem).e2(pml4, virt))), 1),
        !present(old(mem).word(old(mem).e4(pml4, virt))) ==> !old(mem).tables().contains_key(
            table_of(final(mem).word(final(mem).e4(pml4, virt))),
        ),
        !(present(old(mem).word(old(mem).e4(pml4, virt))) && present(
            old(mem).word(old(mem).e3(pml4, virt)),
        )) ==> !old(mem).tables().contains_key(table_of(final(mem).word(final(mem).e3(pml4, virt)))),
        !(present(old(mem).word(old(mem).e4(pml4, virt))) && present(
            old(mem).word(old(mem).e3(pml4, virt)),
        ) && present(old(mem).word(old(mem).e2(pml4, virt)))) ==> !old(mem).tables().contains_key(
            table_of(final(mem).word(final(mem).e2(pml4, virt))),
        ),
        dir_entry_set(
            present(old(mem).word(old(mem).e4(pml4, virt))),
            old(mem).word(old(mem).e4(pml4, virt)),
            final(mem).word(final(mem).e4(pml4, virt)),
            flags.user,
        ),
        dir_entry_set(
            present(old(mem).word(old(mem).e4(pml4, virt))) && present(old(mem).word(old(mem).e3(pml4, virt))),
            old(mem).word(old(mem).e3(pml4, virt)),
            final(mem).word(final(mem).e3(pml4, virt)),
            flags.user,
        ),
        dir_entry_set(
            present(old(mem).word(old(mem).e4(pml4, virt))) && present(old(mem).word(old(mem).e3(pml4, virt)))
                && present(old(mem).word(old(mem).e2(pml4, virt))),
            old(mem).word(old(mem).e2(pml4, virt)),
            final(mem).word(final(mem).e2(pml4, virt)),
            flags.user,
        ),
        new_tables_zero(
            *old(mem),
            *final(mem),
            final(mem).e3(pml4, virt),
            final(mem).e2(pml4, virt),
            final(mem).e1(pml4, virt),
        ),
        final(mem).maps_4k(pml4, virt),
        final(mem).walk_spec(pml4, virt) == Some(final(mem).e1(pml4, virt)),
        final(mem).word(final(mem).e1(pml4, virt)) == (phys & ADDR_MASK) | (pte_bits(
            flags,
        ) as u64),
        flags.user ==> user(final(mem).word(final(mem).e4(pml4, virt))) && user(
            final(mem).word(final(mem).e3(pml4, virt)),
        ) && user(final(mem).word(final(mem).e2(pml4, virt))),
        present(old(mem).word(old(mem).e4(pml4, virt))) ==> table_of(
            final(mem).word(final(mem).e4(pml4, virt)),
        ) == table_of(old(mem).word(old(mem).e4(pml4, virt))),
        present(old(mem).word(old(mem).e4(pml4, virt))) && present(
            old(mem).word(old(mem).e3(pml4, virt)),
        ) ==> table_of(final(mem).word(final(mem).e3(pml4, virt))) == table_of(
            old(mem).word(old(mem).e3(pml4, virt)),
        ),
        present(old(mem).word(old(mem).e4(pml4, virt))) && present(
            old(mem).word(old(mem).e3(pml4, virt)),
        ) && present(old(mem).word(old(mem).e2(pml4, virt))) ==> table_of(
            final(mem).word(final(mem).e2(pml4, virt)),
        ) == table_of(old(mem).word(old(mem).e2(pml4, virt))),
        forall|a: u64|
            final(mem).word(a) != old(mem).word(a) ==> a == final(mem).e4(pml4, virt) || a
                == final(mem).e3(pml4, virt) || a == final(mem).e2(pml4, virt) || a == final(mem).e1(pml4, virt) || in_fresh(
                old(pmm),
                old(pmm).free_list(0),
                old(mem).map_needs(pml4, virt) as int,
                a,
            ),
{
    let ghost l0 = old(pmm).free_list(0);
    let ghost k = old(mem).map_needs(pml4, virt) as int;
    let ghost m0 = *old(mem);
    let ghost w4 = old(mem).word(old(mem).e4(pml4, virt));
    let ghost w3 = old(mem).word(old(mem).e3(pml4, virt));
    let ghost w2 = old(mem).word(old(mem).e2(pml4, virt));
    proof {
        lemma_aligned_bound(pml4);
        lemma_zero_not_present();
        old(pmm).lemma_wf_facts();
    }
    let mut intermediate = PTE_PRESENT | PTE_WRITABLE;
    assert(intermediate == 3) by (bit_vector)
        requires
            intermediate == 1u64 | 2u64,
    ;
    if flags.user {
        assert(intermediate | 4u64 == 7) by (bit_vector)
            requires
                intermediate == 3,
        ;
        intermediate |= PTE_USER;
    }
    assert(intermediate == (if flags.user {
        7u64
    } else {
        3u64
    }));
    // PML4 entry -> PDPT.
    let i4 = pml4_index(virt);
    let pml4e = pml4 + 8 * (i4 as u64);
    assert(pml4e == old(mem).e4(pml4, virt));
    assert(m0.word(pml4e) == w4);
    let pdpt = next_table(mem, pmm, pml4e, Ghost(pml4), Ghost(i4 as int), intermediate, flags.user);
    let ghost n1: int = if present(w4) {
        0
    } else {
        1
    };
    let ghost m1 = *mem;
    proof {
        lemma_table_of(m1.word(pml4e));
        lemma_aligned_bound(pdpt);
        if present(w4) {
            assert(pmm.free_lists_view() == old(pmm).free_lists_view());
            assert(pmm.free_list(0) == l0);
        } else {
            assert(pmm.free_list(0) == l0.drop_first());
        }
        assert(pmm.free_list(0) =~= l0.skip(n1));
        assert forall|a: u64| m1.word(a) != m0.word(a) implies a == pml4e || in_fresh(
            old(pmm),
            l0,
            n1,
            a,
        ) by {
            if !present(w4) && a != pml4e {
                assert(in_page(a, old(pmm).frame_addr(l0[0] as int) as u64));
            }
        }
    }
    // PDPT entry -> PD.
    let i3 = pdpt_index(virt);
    let pdpte = pdpt + 8 * (i3 as u64);
    proof {
        if present(w4) {
            assert(pdpte == old(mem).e3(pml4, virt));
            assert(pdpt != pml4);
            if pdpte == pml4e {
                lemma_entry_distinct(pdpt, i3 as int, pml4, i4 as int);
            }
            assert(m1.word(pdpte) == w3);
        } else {
            assert(m1.word(entry_at(pdpt, i3 as int)) == 0);
        }
    }
    let pd = next_table(mem, pmm, pdpte, Ghost(pdpt), Ghost(i3 as int), intermediate, flags.user);
    let ghost n2: int = if present(w4) && present(w3) {
        0
    } else if present(w4) {
        1
    } else {
        2
    };
    let ghost m2 = *mem;
    let w3n = mem.read_word(pdpte);
    if w3n & PTE_HUGE != 0 {
        // the walk meets an existing 1 GiB page: excluded by `map_collides`
        assert(false);
        return ;
    }
    proof {
        lemma_table_of(w3n);
        lemma_aligned_bound(pd);
        assert(pmm.free_list(0) =~= l0.skip(n2));
        assert(pdpt != pml4);
        if pml4e == pdpte {
            lemma_entry_distinct(pdpt, i3 as int, pml4, i4 as int);
        }
        if !present(m1.word(pdpte)) {
            let t2 = old(pmm).frame_addr(l0[n1] as int) as u64;
            lemma_not_in_page(pml4, i4 as int, t2);
        }
        assert(m2.word(pml4e) == m1.word(pml4e));
        assert forall|a: u64| m2.word(a) != m0.word(a) implies a == pml4e || a == pdpte
            || in_fresh(old(pmm), l0, n2, a) by {
            if m1.word(a) != m0.word(a) {
                if a != pml4e {
                    let j = choose|j: int|
                        0 <= j < n1 && #[trigger] in_page(
                            a,
                            old(pmm).frame_addr(l0[j] as int) as u64,
                        );
                    assert(in_page(a, old(pmm).frame_addr(l0[j] as int) as u64));
                }
            } else {
                if a != pdpte {
                    assert(in_page(a, old(pmm).frame_addr(l0[n1] as int) as u64));
                }
            }
        }
    }
    // PD entry -> PT.
    let i2 = pd_index(virt);
    let pde = pd + 8 * (i2 as u64);
    proof {
        assert(pd != pdpt && pd != pml4);
        if pde == pdpte {
            lemma_entry_distinct(pd, i2 as int, pdpt, i3 as int);
        }
        if pde == pml4e {
            lemma_entry_distinct(pd, i2 as int, pml4, i4 as int);
        }
        if present(w4) && present(w3) {
            assert(pde == old(mem).e2(pml4, virt));
            assert(m2.word(pde) == w2);
        } else {
            assert(m2.word(entry_at(pd, i2 as int)) == 0);
        }
    }
    let pt = next_table(mem, pmm, pde, Ghost(pd), Ghost(i2 as int), intermediate, flags.user);
    let ghost n3: int = k;
    let ghost m3 = *mem;
    let w2n = mem.read_word(pde);
    if w2n & PTE_HUGE != 0 {
        // the walk meets an existing 2 MiB page: excluded by `map_collides`
        assert(false);
        return ;
    }
    proof {
        lemma_table_of(w2n);
        lemma_aligned_bound(pt);
        assert(pmm.free_list(0) =~= l0.skip(n3));
        if !present(m2.word(pde)) {
            let t3 = old(pmm).frame_addr(l0[n2] as int) as u64;
            lemma_not_in_page(pml4, i4 as int, t3);
            lemma_not_in_page(pdpt, i3 as int, t3);
        }
        assert(m3.word(pml4e) == m1.word(pml4e));
        assert(m3.word(pdpte) == m2.word(pdpte));
        assert forall|a: u64| m3.word(a) != m0.word(a) implies a == pml4e || a == pdpte
            || a == pde || in_fresh(old(pmm), l0, n3, a) by {
            if m2.word(a) != m0.word(a) {
                if a != pml4e && a != pdpte {
                    let j = choose|j: int|
                        0 <= j < n2 && #[trigger] in_page(
                            a,
                            old(pmm).frame_addr(l0[j] as int) as u64,
                        );
                    assert(in_page(a, old(pmm).frame_addr(l0[j] as int) as u64));
                }
            } else {
                if a != pde {
                    assert(in_page(a, old(pmm).frame_addr(l0[n2] as int) as u64));
                }
            }
        }
    }
    // Leaf entry.
    let i1 = pt_index(virt);
    let pte = pt + 8 * (i1 as u64);
    let leaf = (phys & ADDR_MASK) | flags_to_bits(flags);
    proof {
        assert(pt != pd && pt != pdpt && pt != pml4);
        if pte == pde {
            lemma_entry_distinct(pt, i1 as int, pd, i2 as int);
        }
        if pte == pdpte {
            lemma_entry_distinct(pt, i1 as int, pdpt, i3 as int);
        }
        if pte == pml4e {
            lemma_entry_distinct(pt, i1 as int, pml4, i4 as int);
        }
        assert forall|q: u64, j: int|
            mem.tables().contains_key(q) && mem.tables()[q] >= 2 && 0 <= j < 512 && entry_at(q, j)
                == pte && points(mem.tables()[q], leaf) implies mem.tables().contains_key(
            table_of(leaf),
        ) && mem.tables()[table_of(leaf)] == mem.tables()[q] - 1 by {
            lemma_entry_distinct(q, j, pt, i1 as int);
        }
        lemma_write_preserves(mem.mem(), mem.tables(), pte, leaf);
        if old(mem).is_unaliased() {
            assert forall|q: u64, j: int|
                mem.tables().contains_key(q) && mem.tables()[q] >= 2 && 0 <= j < 512 && entry_at(q, j)
                    != pte && points(mem.tables()[q], #[trigger] word_of(mem.mem(), entry_at(q, j)))
                    && (exists|p2: u64, i2: int|
                    mem.tables().contains_key(p2) && mem.tables()[p2] >= 2 && 0 <= i2 < 512
                        && entry_at(p2, i2) == pte && points(mem.tables()[p2], leaf)) implies table_of(
                word_of(mem.mem(), entry_at(q, j)),
            ) != table_of(leaf) by {
                let (p2, i2) = choose|p2: u64, i2: int|
                    mem.tables().contains_key(p2) && mem.tables()[p2] >= 2 && 0 <= i2 < 512
                        && entry_at(p2, i2) == pte && points(mem.tables()[p2], leaf);
                lemma_entry_distinct(p2, i2, pt, i1 as int);
            }
            lemma_unaliased_write(mem.mem(), mem.tables(), pte, leaf);
        }
    }
    mem.write_word(pte, leaf);
    proof {
        let m4 = *mem;
        assert(m4.word(pml4e) == m1.word(pml4e));
        assert(m4.word(pdpte) == m2.word(pdpte));
        assert(m4.word(pde) == m3.word(pde));
        assert(mem.e4(pml4, virt) == pml4e);
        assert(mem.e3(pml4, virt) == pdpte);
        assert(mem.e2(pml4, virt) == pde);
        assert(mem.e1(pml4, virt) == pte);
        assert(pmm.free_list(0) =~= l0.skip(k));
        assert(pmm.free_lists_view() =~= old(pmm).free_lists_view().update(0, l0.skip(k)));
        assert(dir_entry_set(present(w4), w4, m1.word(pml4e), flags.user));
        assert(dir_entry_set(present(w4) && present(w3), w3, m2.word(pdpte), flags.user));
        assert(dir_entry_set(present(w4) && present(w3) && present(w2), w2, m3.word(pde), flags.user));
        assert forall|t: u64, kk: int|
            #[trigger] mem.tables().contains_key(t) && !m0.tables().contains_key(t) && 0 <= kk < 512
                && entry_at(t, kk) != pdpte && entry_at(t, kk) != pde && entry_at(t, kk) != pte
            implies mem.word(#[trigger] entry_at(t, kk)) == 0 by {
            let a = entry_at(t, kk);
            if t == pdpt && !present(w4) {
                assert(m1.word(a) == 0);
                if !present(m1.word(pdpte)) {
                    lemma_not_in_page(pdpt, kk, pd);
                }
                assert(m2.word(a) == 0);
                if !present(m2.word(pde)) {
                    lemma_not_in_page(pdpt, kk, pt);
                }
                assert(m3.word(a) == 0);
            } else if t == pd && !present(m1.word(pdpte)) {
                assert(m2.word(a) == 0);
                if !present(m2.word(pde)) {
                    lemma_not_in_page(pd, kk, pt);
                }
                assert(m3.word(a) == 0);
            } else {
                assert(t == pt && !present(m2.word(pde)));
                assert(m3.word(a) == 0);
            }
        }
        assert(new_tables_zero(m0, *mem, pdpte, pde, pte));
    }
}

/// Map the virtual page of `virt` to the frame of `phys` with `flags`,
/// allocating missing page-table levels from `pmm`.  Intermediate entries
/// are present and writable, and user-accessible when `flags.user`.  New
/// tables start zeroed, so in a tree without shared tables no other page
/// gains or loses a mapping.
///
/// The TLB entry for `virt` must be flushed afterwards.
pub fn map_page(
    mem: &mut PageTableMemory,
    pmm: &mut BuddyAllocator,
    pml4: u64,
    virt: u64,
    phys: u64,
    flags: PageFlags,
)
    requires
        old(mem).wf(),
        old(pmm).wf(),
        frames_fresh(old(pmm), old(mem)),
        old(mem).is_table(pml4, 4),
        old(pmm).free_list(0).len() >= old(mem).map_needs(pml4, virt),
        !old(mem).map_collides(pml4, virt),
    ensures
        final(mem).wf(),
        final(pmm).wf(),
        frames_fresh(final(pmm), final(mem)),
        final(pmm).base() == old(pmm).base(),
        final(pmm).total() == old(pmm).total(),
        forall|q: u64|
            old(mem).tables().contains_key(q) ==> final(mem).tables().contains_key(q) && final(mem).tables()[q] == old(mem).tables()[q],
        final(pmm).free_lists_view() == old(pmm).free_lists_view().update(
            0,
            old(pmm).free_list(0).skip(old(mem).map_needs(pml4, virt) as int),
        ),
        old(mem).is_unaliased() ==> final(mem).is_unaliased(),
        final(mem).is_table(table_of(final(mem).word(final(mem).e4(pml4, virt))), 3),
        final(mem).is_table(table_of(final(mem).word(final(mem).e3(pml4, virt))), 2),
        final(mem).is_table(table_of(final(mem).word(final(mem).e2(pml4, virt))), 1),
        !present(old(mem).word(old(mem).e4(pml4, virt))) ==> !old(mem).tables().contains_key(
            table_of(final(mem).word(final(mem).e4(pml4, virt))),
        ),
        !(present(old(mem).word(old(mem).e4(pml4, virt))) && present(
            old(mem).word(old(mem).e3(pml4, virt)),
        )) ==> !old(mem).tables().contains_key(table_of(final(mem).word(final(mem).e3(pml4, virt)))),
        !(present(old(mem).word(old(mem).e4(pml4, virt))) && present(
            old(mem).word(old(mem).e3(pml4, virt)),
        ) && present(old(mem).word(old(mem).e2(pml4, virt)))) ==> !old(mem).tables().contains_key(
            table_of(final(mem).word(final(mem).e2(pml4, virt))),
        ),
        old(mem).is_unaliased() ==> forall|v: u64|
            #[trigger] old(mem).maps_4k(pml4, v) && !same_page(v, virt) ==> final(mem).maps_4k(pml4, v)
                && final(mem).e1(pml4, v) == old(mem).e1(pml4, v) && final(mem).word(old(mem).e1(pml4, v))
                == old(mem).word(old(mem).e1(pml4, v)),
        dir_entry_set(
            present(old(mem).word(old(mem).e4(pml4, virt))),
            old(mem).word(old(mem).e4(pml4, virt)),
            final(mem).word(final(mem).e4(pml4, virt)),
            flags.user,
        ),
        dir_entry_set(
            present(old(mem).word(old(mem).e4(pml4, virt))) && present(old(mem).word(old(mem).e3(pml4, virt))),
            old(mem).word(old(mem).e3(pml4, virt)),
            final(mem).word(final(mem).e3(pml4, virt)),
            flags.user,
        ),
        dir_entry_set(
            present(old(mem).word(old(mem).e4(pml4, virt))) && present(old(mem).word(old(mem).e3(pml4, virt)))
                && present(old(mem).word(old(mem).e2(pml4, virt))),
            old(mem).word(old(mem).e2(pml4, virt)),
            final(mem).word(final(mem).e2(pml4, virt)),
            flags.user,
        ),
        new_tables_zero(
            *old(mem),
            *final(mem),
            final(mem).e3(pml4, virt),
            final(mem).e2(pml4, virt),
            final(mem).e1(pml4, virt),
        ),
        old(mem).is_unaliased() ==> forall|v: u64|
            !same_page(v, virt) ==> #[trigger] final(mem).leaf_word(pml4, v) == old(mem).leaf_word(pml4, v),
        final(mem).maps_4k(pml4, virt),
        final(mem).walk_spec(pml4, virt) == Some(final(mem).e1(pml4, virt)),
        final(mem).word(final(mem).e1(pml4, virt)) == (phys & ADDR_MASK) | (pte_bits(
            flags,
        ) as u64),
        flags.user ==> user(final(mem).word(final(mem).e4(pml4, virt))) && user(
            final(mem).word(final(mem).e3(pml4, virt)),
        ) && user(final(mem).word(final(mem).e2(pml4, virt))),
        present(old(mem).word(old(mem).e4(pml4, virt))) ==> table_of(
            final(mem).word(final(mem).e4(pml4, virt)),
        ) == table_of(old(mem).word(old(mem).e4(pml4, virt))),
        present(old(mem).word(old(mem).e4(pml4, virt))) && present(
            old(mem).word(old(mem).e3(pml4, virt)),
        ) ==> table_of(final(mem).word(final(mem).e3(pml4, virt))) == table_of(
            old(mem).word(old(mem).e3(pml4, virt)),
        ),
        present(old(mem).word(old(mem).e4(pml4, virt))) && present(
            old(mem).word(old(mem).e3(pml4, virt)),
        ) && present(old(mem).word(old(mem).e2(pml4, virt))) ==> table_of(
            final(mem).word(final(mem).e2(pml4, virt)),
        ) == table_of(old(mem).word(old(mem).e2(pml4, virt))),
        forall|a: u64|
            final(mem).word(a) != old(mem).word(a) ==> a == final(mem).e4(pml4, virt) || a
                == final(mem).e3(pml4, virt) || a == final(mem).e2(pml4, virt) || a == final(mem).e1(pml4, virt) || in_fresh(
                old(pmm),
                old(pmm).free_list(0),
                old(mem).map_needs(pml4, virt) as int,
                a,
            ),
{
    let ghost m0 = *old(mem);
    let ghost p0 = *old(pmm);
    let ghost k = old(mem).map_needs(pml4, virt) as int;
    map_page_levels(mem, pmm, pml4, virt, phys, flags);
    proof {
        if m0.is_unaliased() {
            assert forall|v: u64|
                #[trigger] m0.maps_4k(pml4, v) && !same_page(v, virt) implies mem.maps_4k(pml4, v)
                    && mem.e1(pml4, v) == m0.e1(pml4, v) && mem.word(m0.e1(pml4, v)) == m0.word(
                    m0.e1(pml4, v),
                ) by {
                lemma_map_keeps_page(m0, *mem, p0, pml4, virt, k, v);
            }
            assert forall|v: u64|
                !same_page(v, virt) implies #[trigger] mem.leaf_word(pml4, v) == m0.leaf_word(pml4, v) by {
                lemma_map_keeps_leaf(m0, *mem, p0, pml4, virt, k, v);
            }
        }
    }
}


/// What mapping `virt` under `pml4` takes: the number of page-table pages
/// to allocate, and whether the walk meets an existing huge page.
pub fn map_plan(mem: &PageTableMemory, pml4: u64, virt: u64) -> (r: (usize, bool))
    requires
        page_aligned(pml4),
    ensures
        r.0 == mem.map_needs(pml4, virt),
        r.1 == mem.map_collides(pml4, virt),
{
    proof {
        lemma_aligned_bound(pml4);
    }
    let w4 = mem.read_word(pml4 + 8 * (pml4_index(virt) as u64));
    if w4 & PTE_PRESENT == 0 {
        return (3, false);
    }
    let pdpt = w4 & ADDR_MASK;
    proof {
        lemma_table_of(w4);
    }
    let w3 = mem.read_word(pdpt + 8 * (pdpt_index(virt) as u64));
    if w3 & PTE_PRESENT == 0 {
        return (2, false);
    }
    if w3 & PTE_HUGE != 0 {
        return (0, true);
    }
    let pd = w3 & ADDR_MASK;
    proof {
        lemma_table_of(w3);
    }
    let w2 = mem.read_word(pd + 8 * (pd_index(virt) as u64));
    if w2 & PTE_PRESENT == 0 {
        return (1, false);
    }
    (0, w2 & PTE_HUGE != 0)
}

/// Physical range `[start, end)` mapped by `map_kernel_higher_half`: the
/// given range widened to whole pages.
pub open spec fn kernel_map_range(phys_start: u64, phys_end: u64) -> (int, int) {
    ((phys_start & ADDR_MASK) as int, ((phys_end + 0xFFF) as u64 & ADDR_MASK) as int)
}

/// `map_page` cannot map `virt`: its walk meets a huge page, or `pmm` holds
/// fewer free frames than the missing table levels need.
pub open spec fn map_blocked(mem: &PageTableMemory, pmm: &BuddyAllocator, pml4: u64, virt: u64) -> bool {
    mem.map_collides(pml4, virt) || pmm.free_list(0).len() < mem.map_needs(pml4, virt)
}

/// `v` lies in none of the pages `KERNEL_BASE + a` for page-aligned `a` in
/// `[start, end)`.
pub open spec fn outside_kernel_pages(v: u64, start: int, end: int) -> bool {
    forall|a: u64|
        start <= a < end && page_aligned(a) ==> !#[trigger] same_page(v, (KERNEL_BASE + a) as u64)
}

/// Map the physical range `[phys_start, phys_end)`, widened to whole pages,
/// at `KERNEL_BASE + phys` as present, writable kernel pages, page by page
/// in increasing order.
///
/// Stops and returns false at the first page whose walk meets an existing
/// huge page, or whose missing table levels cannot be allocated from `pmm`;
/// the pages before it are mapped.  Pages outside the range keep their
/// mappings.
pub fn map_kernel_higher_half(
    mem: &mut PageTableMemory,
    pmm: &mut BuddyAllocator,
    pml4: u64,
    phys_start: u64,
    phys_end: u64,
) -> (r: bool)
    requires
        old(mem).wf(),
        old(pmm).wf(),
        frames_fresh(old(pmm), old(mem)),
        old(mem).is_table(pml4, 4),
        phys_end <= u64::MAX - 0xFFF,
        kernel_map_range(phys_start, phys_end).0 < kernel_map_range(phys_start, phys_end).1
            ==> kernel_map_range(phys_start, phys_end).1 <= 0x8000_0000_0000,
    ensures
        final(mem).wf(),
        final(pmm).wf(),
        frames_fresh(final(pmm), final(mem)),
        final(pmm).base() == old(pmm).base(),
        final(pmm).total() == old(pmm).total(),
        final(mem).is_table(pml4, 4),
        forall|q: u64|
            #[trigger] old(mem).tables().contains_key(q) ==> final(mem).tables().contains_key(q)
                && final(mem).tables()[q] == old(mem).tables()[q],
        final(pmm).free_list(0).len() <= old(pmm).free_list(0).len(),
        kernel_map_range(phys_start, phys_end).0 >= kernel_map_range(phys_start, phys_end).1
            ==> r && *final(mem) == *old(mem) && *final(pmm) == *old(pmm),
        old(mem).is_unaliased() ==> final(mem).is_unaliased(),
        old(mem).is_unaliased() && r ==> forall|a: u64|
            kernel_map_range(phys_start, phys_end).0 <= a < kernel_map_range(phys_start, phys_end).1
                && page_aligned(a) ==> #[trigger] final(mem).maps_4k(pml4, (KERNEL_BASE + a) as u64)
                && final(mem).word(final(mem).e1(pml4, (KERNEL_BASE + a) as u64)) == a | 3,
        !r ==> exists|a: u64|
            kernel_map_range(phys_start, phys_end).0 <= a < kernel_map_range(phys_start, phys_end).1
                && page_aligned(a) && #[trigger] map_blocked(
                final(mem),
                final(pmm),
                pml4,
                (KERNEL_BASE + a) as u64,
            ) && (old(mem).is_unaliased() ==> forall|b: u64|
                kernel_map_range(phys_start, phys_end).0 <= b < a && page_aligned(b)
                    ==> #[trigger] final(mem).maps_4k(pml4, (KERNEL_BASE + b) as u64)
                    && final(mem).word(final(mem).e1(pml4, (KERNEL_BASE + b) as u64)) == b | 3),
        old(mem).is_unaliased() ==> forall|v: u64|
            #[trigger] old(mem).maps_4k(pml4, v) && outside_kernel_pages(
                v,
                kernel_map_range(phys_start, phys_end).0,
                kernel_map_range(phys_start, phys_end).1,
            ) ==> final(mem).maps_4k(pml4, v) && final(mem).e1(pml4, v) == old(mem).e1(pml4, v)
                && final(mem).word(old(mem).e1(pml4, v)) == old(mem).word(old(mem).e1(pml4, v)),
        old(mem).is_unaliased() ==> forall|v: u64|
            outside_kernel_pages(
                v,
                kernel_map_range(phys_start, phys_end).0,
                kernel_map_range(phys_start, phys_end).1,
            ) ==> #[trigger] final(mem).leaf_word(pml4, v) == old(mem).leaf_word(pml4, v),
{
    let start = phys_start & ADDR_MASK;
    let mut addr = start;
    proof {
        lemma_table_of(phys_start);
        lemma_table_of((phys_end + 0xFFFu64) as u64);
    }
    let end = (phys_end + 0xFFF) & ADDR_MASK;
    let flags = PageFlags {
        present: true,
        writable: true,
        user: false,
        write_through: false,
        cache_disable: false,
        accessed: false,
        dirty: false,
        huge: false,
        no_execute: false,
    };
    assert(pte_bits(flags) == 3);
    while addr < end
        invariant
            mem.wf(),
            pmm.wf(),
            frames_fresh(pmm, mem),
            pmm.base() == old(pmm).base(),
            pmm.total() == old(pmm).total(),
            mem.is_table(pml4, 4),
            forall|q: u64|
                #[trigger] old(mem).tables().contains_key(q) ==> mem.tables().contains_key(q)
                    && mem.tables()[q] == old(mem).tables()[q],
            start == (phys_start & ADDR_MASK),
            end == ((phys_end + 0xFFFu64) as u64 & ADDR_MASK),
            start <= addr,
            page_aligned(addr),
            page_aligned(end),
            start >= end ==> *mem == *old(mem) && *pmm == *old(pmm),
            pmm.free_list(0).len() <= old(pmm).free_list(0).len(),
            start < end ==> end <= 0x8000_0000_0000u64,
            start < end ==> addr <= end,
            pte_bits(flags) == 3,
            old(mem).is_unaliased() ==> mem.is_unaliased(),
            old(mem).is_unaliased() ==> forall|a: u64|
                start <= a < addr && page_aligned(a) ==> #[trigger] mem.maps_4k(pml4, (KERNEL_BASE + a) as u64)
                    && mem.word(mem.e1(pml4, (KERNEL_BASE + a) as u64)) == a | 3,
            old(mem).is_unaliased() ==> forall|v: u64|
                #[trigger] old(mem).maps_4k(pml4, v) && outside_kernel_pages(v, start as int, addr as int)
                    ==> mem.maps_4k(pml4, v) && mem.e1(pml4, v) == old(mem).e1(pml4, v)
                    && mem.word(old(mem).e1(pml4, v)) == old(mem).word(old(mem).e1(pml4, v)),
            old(mem).is_unaliased() ==> forall|v: u64|
                outside_kernel_pages(v, start as int, addr as int) ==> #[trigger] mem.leaf_word(pml4, v)
                    == old(mem).leaf_word(pml4, v),
        decreases end - addr,
    {
        proof {
            assert(page_aligned(pml4));
            lemma_aligned_bound(addr);
        }
        let virt = KERNEL_BASE + addr;
        let (needs, collides) = map_plan(mem, pml4, virt);
        if collides || !pmm.has_free_frames(needs) {
            assert(map_blocked(mem, pmm, pml4, (KERNEL_BASE + addr) as u64));
            return false;
        }
        proof {
            pmm.lemma_wf_facts();
        }
        let ghost l0 = pmm.free_list(0);
        let ghost k = mem.map_needs(pml4, virt) as int;
        let ghost m_before = *mem;
        map_page(mem, pmm, pml4, virt, addr, flags);
        assert(pmm.free_list(0) == l0.skip(k));
        proof {
            lemma_aligned_bound(end);
            lemma_mod_aligned((addr + 4096) as u64);
            assert((addr & ADDR_MASK) | 3u64 == addr | 3u64) by (bit_vector)
                requires
                    addr & 0xFFFu64 == 0,
            ;
            if old(mem).is_unaliased() {
                assert forall|a: u64|
                    start <= a < addr + 4096 && page_aligned(a) implies #[trigger] mem.maps_4k(
                    pml4,
                    (KERNEL_BASE + a) as u64,
                ) && mem.word(mem.e1(pml4, (KERNEL_BASE + a) as u64)) == a | 3 by {
                    if a != addr {
                        assert(a < addr) by {
                            lemma_aligned_bound(a);
                            if a > addr {
                                assert(a >= addr + 4096) by (nonlinear_arith)
                                    requires
                                        a % 4096 == 0,
                                        addr % 4096 == 0,
                                        a > addr,
                                ;
                            }
                        }
                        lemma_kernel_pages_distinct(a, addr);
                        assert(m_before.maps_4k(pml4, (KERNEL_BASE + a) as u64));
                    }
                }
                assert forall|v: u64|
                    #[trigger] old(mem).maps_4k(pml4, v) && outside_kernel_pages(
                        v,
                        start as int,
                        (addr + 4096) as int,
                    ) implies mem.maps_4k(pml4, v) && mem.e1(pml4, v) == old(mem).e1(pml4, v)
                    && mem.word(old(mem).e1(pml4, v)) == old(mem).word(old(mem).e1(pml4, v)) by {
                    assert(!same_page(v, (KERNEL_BASE + addr) as u64));
                    assert forall|a: u64| start <= a < addr && page_aligned(a) implies !#[trigger] same_page(
                        v,
                        (KERNEL_BASE + a) as u64,
                    ) by {
                        assert(!same_page(v, (KERNEL_BASE + a) as u64));
                    }
                    assert(outside_kernel_pages(v, start as int, addr as int));
                    assert(m_before.maps_4k(pml4, v));
                }
                assert forall|v: u64|
                    outside_kernel_pages(v, start as int, (addr + 4096) as int) implies #[trigger] mem.leaf_word(
                    pml4,
                    v,
                ) == old(mem).leaf_word(pml4, v) by {
                    assert(!same_page(v, (KERNEL_BASE + addr) as u64));
                    assert forall|a: u64| start <= a < addr && page_aligned(a) implies !#[trigger] same_page(
                        v,
                        (KERNEL_BASE + a) as u64,
                    ) by {
                        assert(!same_page(v, (KERNEL_BASE + a) as u64));
                    }
                    assert(outside_kernel_pages(v, start as int, addr as int));
                    assert(m_before.leaf_word(pml4, v) == old(mem).leaf_word(pml4, v));
                }
            }
        }
        addr = addr + PAGE_SIZE_U64;
    }
    true
}

/// `v` and `w` lie in the same 4 KiB page of the 48-bit address space:
/// their four table indices agree.
pub open spec fn same_page(v: u64, w: u64) -> bool {
    &&& table_index(v, 39) == table_index(w, 39)
    &&& table_index(v, 30) == table_index(w, 30)
    &&& table_index(v, 21) == table_index(w, 21)
    &&& table_index(v, 12) == table_index(w, 12)
}

/// Distinct pages below 128 TiB are distinct pages of the kernel half.
proof fn lemma_kernel_pages_distinct(a: u64, b: u64)
    requires
        a <= 0x7FFF_FFFF_F000u64,
        b <= 0x7FFF_FFFF_F000u64,
        page_aligned(a),
        page_aligned(b),
        a != b,
    ensures
        !same_page((KERNEL_BASE + a) as u64, (KERNEL_BASE + b) as u64),
{
    let x = (0xFFFF_8000_0000_0000u64 + a) as u64;
    let y = (0xFFFF_8000_0000_0000u64 + b) as u64;
    assert(((x >> 39u64) & 0x1FFu64) != ((y >> 39u64) & 0x1FFu64) || ((x >> 30u64) & 0x1FFu64) != ((
    y >> 30u64) & 0x1FFu64) || ((x >> 21u64) & 0x1FFu64) != ((y >> 21u64) & 0x1FFu64) || ((x
        >> 12u64) & 0x1FFu64) != ((y >> 12u64) & 0x1FFu64)) by (bit_vector)
        requires
            a <= 0x7FFF_FFFF_F000u64,
            b <= 0x7FFF_FFFF_F000u64,
            a & 0xFFFu64 == 0,
            b & 0xFFFu64 == 0,
            a != b,
            x == (0xFFFF_8000_0000_0000u64 + a) as u64,
            y == (0xFFFF_8000_0000_0000u64 + b) as u64,
    ;
}

/// Entries of tables of different levels lie at different addresses.
proof fn lemma_levels_distinct(m: Map<u64, u64>, t: Map<u64, nat>, p: u64, i: int, q: u64, j: int)
    requires
        tables_wf(m, t),
        t.contains_key(p),
        t.contains_key(q),
        t[p] != t[q],
        0 <= i < 512,
        0 <= j < 512,
    ensures
        entry_at(p, i) != entry_at(q, j),
{
    if entry_at(p, i) == entry_at(q, j) {
        lemma_entry_distinct(p, i, q, j);
    }
}

/// Entries of page tables lie outside the pages of free frames.
proof fn lemma_table_entry_not_fresh(pmm: &BuddyAllocator, m: &PageTableMemory, k: int, p: u64, i: int)
    requires
        pmm.wf(),
        frames_fresh(pmm, m),
        m.wf(),
        0 <= k <= pmm.free_list(0).len(),
        m.tables().contains_key(p),
        0 <= i < 512,
    ensures
        !in_fresh(pmm, pmm.free_list(0), k, entry_at(p, i)),
{
    pmm.lemma_wf_facts();
    if in_fresh(pmm, pmm.free_list(0), k, entry_at(p, i)) {
        let j = choose|j: int|
            0 <= j < k && #[trigger] in_page(
                entry_at(p, i),
                pmm.frame_addr(pmm.free_list(0)[j] as int) as u64,
            );
        let f = pmm.frame_addr(pmm.free_list(0)[j] as int) as u64;
        lemma_frame_aligned(pmm, pmm.free_list(0)[j] as int);
        assert(!m.tables().contains_key(f));
        lemma_not_in_page(p, i, f);
    }
}

/// In a tree where no table is shared, mapping the page of `vn` (turning
/// `m0` into `m1`, with the facts `map_page` guarantees) leaves every other
/// page mapped in `m0` mapped through the same entry to the same frame.
proof fn lemma_map_keeps_page(
    m0: PageTableMemory,
    m1: PageTableMemory,
    pmm0: BuddyAllocator,
    pml4: u64,
    vn: u64,
    k: int,
    v: u64,
)
    requires
        m0.wf(),
        m0.is_unaliased(),
        m0.is_table(pml4, 4),
        pmm0.wf(),
        frames_fresh(&pmm0, &m0),
        0 <= k <= pmm0.free_list(0).len(),
        !m0.map_collides(pml4, vn),
        m1.wf(),
        forall|q: u64|
            #[trigger] m0.tables().contains_key(q) ==> m1.tables().contains_key(q)
                && m1.tables()[q] == m0.tables()[q],
        m1.maps_4k(pml4, vn),
        m1.is_table(table_of(m1.word(m1.e4(pml4, vn))), 3),
        m1.is_table(table_of(m1.word(m1.e3(pml4, vn))), 2),
        m1.is_table(table_of(m1.word(m1.e2(pml4, vn))), 1),
        !present(m0.word(m0.e4(pml4, vn))) ==> !m0.tables().contains_key(
            table_of(m1.word(m1.e4(pml4, vn))),
        ),
        !(present(m0.word(m0.e4(pml4, vn))) && present(m0.word(m0.e3(pml4, vn))))
            ==> !m0.tables().contains_key(table_of(m1.word(m1.e3(pml4, vn)))),
        !(present(m0.word(m0.e4(pml4, vn))) && present(m0.word(m0.e3(pml4, vn))) && present(
            m0.word(m0.e2(pml4, vn)),
        )) ==> !m0.tables().contains_key(table_of(m1.word(m1.e2(pml4, vn)))),
        present(m0.word(m0.e4(pml4, vn))) ==> table_of(m1.word(m1.e4(pml4, vn))) == table_of(
            m0.word(m0.e4(pml4, vn)),
        ),
        present(m0.word(m0.e4(pml4, vn))) && present(m0.word(m0.e3(pml4, vn))) ==> table_of(
            m1.word(m1.e3(pml4, vn)),
        ) == table_of(m0.word(m0.e3(pml4, vn))),
        present(m0.word(m0.e4(pml4, vn))) && present(m0.word(m0.e3(pml4, vn))) && present(
            m0.word(m0.e2(pml4, vn)),
        ) ==> table_of(m1.word(m1.e2(pml4, vn))) == table_of(m0.word(m0.e2(pml4, vn))),
        forall|a: u64|
            m1.word(a) != m0.word(a) ==> a == m1.e4(pml4, vn) || a == m1.e3(pml4, vn) || a
                == m1.e2(pml4, vn) || a == m1.e1(pml4, vn) || in_fresh(
                &pmm0,
                pmm0.free_list(0),
                k,
                a,
            ),
        m0.maps_4k(pml4, v),
        !same_page(v, vn),
    ensures
        m1.maps_4k(pml4, v),
        m1.e1(pml4, v) == m0.e1(pml4, v),
        m1.word(m0.e1(pml4, v)) == m0.word(m0.e1(pml4, v)),
{
    let mm0 = m0.mem();
    let t0 = m0.tables();
    let mm1 = m1.mem();
    let t1 = m1.tables();
    let i4 = table_index(v, 39);
    let i3 = table_index(v, 30);
    let i2 = table_index(v, 21);
    let i1 = table_index(v, 12);
    let n4 = table_index(vn, 39);
    let n3 = table_index(vn, 30);
    let n2 = table_index(vn, 21);
    let n1 = table_index(vn, 12);
    lemma_index_bound(v, 39);
    lemma_index_bound(v, 30);
    lemma_index_bound(v, 21);
    lemma_index_bound(v, 12);
    lemma_index_bound(vn, 39);
    lemma_index_bound(vn, 30);
    lemma_index_bound(vn, 21);
    lemma_index_bound(vn, 12);
    // The walk of `v` in `m0`.
    let e4 = entry_at(pml4, i4);
    let w4 = word_of(mm0, e4);
    let t3 = table_of(w4);
    assert(points(4, w4));
    assert(t0.contains_key(t3) && t0[t3] == 3);
    let e3 = entry_at(t3, i3);
    let w3 = word_of(mm0, e3);
    let t2 = table_of(w3);
    assert(points(3, w3));
    assert(t0.contains_key(t2) && t0[t2] == 2);
    let e2 = entry_at(t2, i2);
    let w2 = word_of(mm0, e2);
    let t1t = table_of(w2);
    assert(points(2, w2));
    assert(t0.contains_key(t1t) && t0[t1t] == 1);
    let e1 = entry_at(t1t, i1);
    // The walk of `vn` in `m1`.
    let f4 = entry_at(pml4, n4);
    let x4 = word_of(mm1, f4);
    let s3 = table_of(x4);
    let f3 = entry_at(s3, n3);
    let x3 = word_of(mm1, f3);
    let s2 = table_of(x3);
    let f2 = entry_at(s2, n2);
    let x2 = word_of(mm1, f2);
    let s1 = table_of(x2);
    let f1 = entry_at(s1, n1);
    assert(t1.contains_key(pml4) && t1[pml4] == 4);
    assert(t1.contains_key(t3) && t1[t3] == 3);
    assert(t1.contains_key(t2) && t1[t2] == 2);
    assert(t1.contains_key(t1t) && t1[t1t] == 1);
    // The walk of `vn` in `m0`, where present.
    let y4 = word_of(mm0, f4);
    let r3 = table_of(y4);
    let g3 = entry_at(r3, n3);
    let y3 = word_of(mm0, g3);
    let r2 = table_of(y3);
    let g2 = entry_at(r2, n2);
    let y2 = word_of(mm0, g2);
    // Level 4.
    if e4 != f4 {
        lemma_levels_distinct(mm1, t1, pml4, i4, s3, n3);
        lemma_levels_distinct(mm1, t1, pml4, i4, s2, n2);
        lemma_levels_distinct(mm1, t1, pml4, i4, s1, n1);
        lemma_table_entry_not_fresh(&pmm0, &m0, k, pml4, i4);
    }
    assert(present(word_of(mm1, e4)) && table_of(word_of(mm1, e4)) == t3);
    // Level 3.
    if e3 == f3 {
        lemma_entry_distinct(t3, i3, s3, n3);
        if i4 != n4 {
            if present(y4) {
                assert(points(4, y4));
                assert(word_of(mm0, entry_at(pml4, i4)) == w4);
                assert(false);
            } else {
                assert(false);
            }
        }
    } else {
        lemma_levels_distinct(mm1, t1, t3, i3, pml4, n4);
        lemma_levels_distinct(mm1, t1, t3, i3, s2, n2);
        lemma_levels_distinct(mm1, t1, t3, i3, s1, n1);
        lemma_table_entry_not_fresh(&pmm0, &m0, k, t3, i3);
    }
    assert(present(word_of(mm1, e3)) && !huge(word_of(mm1, e3)) && table_of(word_of(mm1, e3))
        == t2);
    // Level 2.
    if e2 == f2 {
        lemma_entry_distinct(t2, i2, s2, n2);
        if present(y4) && present(y3) {
            assert(t0.contains_key(r3) && t0[r3] == 3);
            assert(!huge(y3));
            assert(points(3, y3));
            assert(points(3, w3));
            assert(word_of(mm0, entry_at(r3, n3)) == y3);
            assert(word_of(mm0, entry_at(t3, i3)) == w3);
            assert(r3 == t3 && n3 == i3);
            assert(points(4, y4));
            assert(word_of(mm0, entry_at(pml4, n4)) == y4);
            assert(word_of(mm0, entry_at(pml4, i4)) == w4);
            assert(n4 == i4);
        } else {
            assert(false);
        }
    } else {
        lemma_levels_distinct(mm1, t1, t2, i2, pml4, n4);
        lemma_levels_distinct(mm1, t1, t2, i2, s3, n3);
        lemma_levels_distinct(mm1, t1, t2, i2, s1, n1);
        lemma_table_entry_not_fresh(&pmm0, &m0, k, t2, i2);
    }
    assert(present(word_of(mm1, e2)) && !huge(word_of(mm1, e2)) && table_of(word_of(mm1, e2))
        == t1t);
    // Level 1.
    if e1 == f1 {
        lemma_entry_distinct(t1t, i1, s1, n1);
        if present(y4) && present(y3) && present(y2) {
            assert(t0.contains_key(r3) && t0[r3] == 3);
            assert(points(3, y3));
            assert(t0.contains_key(r2) && t0[r2] == 2);
            assert(points(2, y2));
            assert(points(2, w2));
            assert(word_of(mm0, entry_at(r2, n2)) == y2);
            assert(word_of(mm0, entry_at(t2, i2)) == w2);
            assert(r2 == t2 && n2 == i2);
            assert(word_of(mm0, entry_at(r3, n3)) == y3);
            assert(word_of(mm0, entry_at(t3, i3)) == w3);
            assert(r3 == t3 && n3 == i3);
            assert(points(4, y4));
            assert(word_of(mm0, entry_at(pml4, n4)) == y4);
            assert(word_of(mm0, entry_at(pml4, i4)) == w4);
            assert(n4 == i4);
            assert(false);
        } else {
            assert(false);
        }
    }
    lemma_levels_distinct(mm1, t1, t1t, i1, pml4, n4);
    lemma_levels_distinct(mm1, t1, t1t, i1, s3, n3);
    lemma_levels_distinct(mm1, t1, t1t, i1, s2, n2);
    lemma_table_entry_not_fresh(&pmm0, &m0, k, t1t, i1);
    assert(m1.e4(pml4, vn) == f4);
    assert(m1.e3(pml4, vn) == f3);
    assert(m1.e2(pml4, vn) == f2);
    assert(m1.e1(pml4, vn) == f1);
    if m1.word(e1) != m0.word(e1) {
        assert(e1 != f1);
        assert(false);
    }
}

/// In a tree where no table is shared, mapping the page of `vn` (turning
/// `m0` into `m1`, with the facts `map_page` guarantees) leaves what the
/// walk of every other page reads unchanged: a page that was not mapped
/// still reads no mapping, a huge mapping stays, a 4 KiB mapping stays.
proof fn lemma_map_keeps_leaf(
    m0: PageTableMemory,
    m1: PageTableMemory,
    pmm0: BuddyAllocator,
    pml4: u64,
    vn: u64,
    k: int,
    v: u64,
)
    requires
        m0.wf(),
        m0.is_unaliased(),
        m0.is_table(pml4, 4),
        pmm0.wf(),
        frames_fresh(&pmm0, &m0),
        0 <= k <= pmm0.free_list(0).len(),
        !m0.map_collides(pml4, vn),
        m1.wf(),
        forall|q: u64|
            #[trigger] m0.tables().contains_key(q) ==> m1.tables().contains_key(q)
                && m1.tables()[q] == m0.tables()[q],
        m1.maps_4k(pml4, vn),
        m1.is_table(table_of(m1.word(m1.e4(pml4, vn))), 3),
        m1.is_table(table_of(m1.word(m1.e3(pml4, vn))), 2),
        m1.is_table(table_of(m1.word(m1.e2(pml4, vn))), 1),
        !present(m0.word(m0.e4(pml4, vn))) ==> !m0.tables().contains_key(
            table_of(m1.word(m1.e4(pml4, vn))),
        ),
        !(present(m0.word(m0.e4(pml4, vn))) && present(m0.word(m0.e3(pml4, vn))))
            ==> !m0.tables().contains_key(table_of(m1.word(m1.e3(pml4, vn)))),
        !(present(m0.word(m0.e4(pml4, vn))) && present(m0.word(m0.e3(pml4, vn))) && present(
            m0.word(m0.e2(pml4, vn)),
        )) ==> !m0.tables().contains_key(table_of(m1.word(m1.e2(pml4, vn)))),
        present(m0.word(m0.e4(pml4, vn))) ==> table_of(m1.word(m1.e4(pml4, vn))) == table_of(
            m0.word(m0.e4(pml4, vn)),
        ),
        present(m0.word(m0.e4(pml4, vn))) && present(m0.word(m0.e3(pml4, vn))) ==> table_of(
            m1.word(m1.e3(pml4, vn)),
        ) == table_of(m0.word(m0.e3(pml4, vn))),
        present(m0.word(m0.e4(pml4, vn))) && present(m0.word(m0.e3(pml4, vn))) && present(
            m0.word(m0.e2(pml4, vn)),
        ) ==> table_of(m1.word(m1.e2(pml4, vn))) == table_of(m0.word(m0.e2(pml4, vn))),
        forall|a: u64|
            m1.word(a) != m0.word(a) ==> a == m1.e4(pml4, vn) || a == m1.e3(pml4, vn) || a
                == m1.e2(pml4, vn) || a == m1.e1(pml4, vn) || in_fresh(
                &pmm0,
                pmm0.free_list(0),
                k,
                a,
            ),
        new_tables_zero(m0, m1, m1.e3(pml4, vn), m1.e2(pml4, vn), m1.e1(pml4, vn)),
        !same_page(v, vn),
    ensures
        m1.leaf_word(pml4, v) == m0.leaf_word(pml4, v),
{
    if m0.maps_4k(pml4, v) {
        lemma_map_keeps_page(m0, m1, pmm0, pml4, vn, k, v);
        return;
    }
    let mm0 = m0.mem();
    let t0 = m0.tables();
    let mm1 = m1.mem();
    let t1 = m1.tables();
    let i4 = table_index(v, 39);
    let i3 = table_index(v, 30);
    let i2 = table_index(v, 21);
    let i1 = table_index(v, 12);
    let n4 = table_index(vn, 39);
    let n3 = table_index(vn, 30);
    let n2 = table_index(vn, 21);
    let n1 = table_index(vn, 12);
    lemma_index_bound(v, 39);
    lemma_index_bound(v, 30);
    lemma_index_bound(v, 21);
    lemma_index_bound(v, 12);
    lemma_index_bound(vn, 39);
    lemma_index_bound(vn, 30);
    lemma_index_bound(vn, 21);
    lemma_index_bound(vn, 12);
    lemma_zero_not_present();
    // The walk of `vn` in `m1`.
    let f4 = entry_at(pml4, n4);
    let x4 = word_of(mm1, f4);
    let s3 = table_of(x4);
    let f3 = entry_at(s3, n3);
    let x3 = word_of(mm1, f3);
    let s2 = table_of(x3);
    let f2 = entry_at(s2, n2);
    let x2 = word_of(mm1, f2);
    let s1 = table_of(x2);
    let f1 = entry_at(s1, n1);
    assert(m1.e4(pml4, vn) == f4 && m1.e3(pml4, vn) == f3 && m1.e2(pml4, vn) == f2 && m1.e1(pml4, vn) == f1);
    assert(t1.contains_key(pml4) && t1[pml4] == 4);
    assert(t1.contains_key(s3) && t1[s3] == 3);
    assert(t1.contains_key(s2) && t1[s2] == 2);
    assert(t1.contains_key(s1) && t1[s1] == 1);
    // The walk of `vn` in `m0`, where present.
    let y4 = word_of(mm0, f4);
    let r3 = table_of(y4);
    let g3 = entry_at(r3, n3);
    let y3 = word_of(mm0, g3);
    let r2 = table_of(y3);
    let g2 = entry_at(r2, n2);
    let y2 = word_of(mm0, g2);
    assert(m0.e4(pml4, vn) == f4 && m0.e3(pml4, vn) == g3 && m0.e2(pml4, vn) == g2);
    // The walk of `v` in `m0`.
    let e4 = entry_at(pml4, i4);
    let w4 = word_of(mm0, e4);
    let t3 = table_of(w4);
    // Level 4: the entry keeps its word unless it is the one of `vn`.
    if e4 != f4 {
        lemma_levels_distinct(mm1, t1, pml4, i4, s3, n3);
        lemma_levels_distinct(mm1, t1, pml4, i4, s2, n2);
        lemma_levels_distinct(mm1, t1, pml4, i4, s1, n1);
        lemma_table_entry_not_fresh(&pmm0, &m0, k, pml4, i4);
        assert(word_of(mm1, e4) == w4);
        if !present(w4) {
            return;
        }
    } else {
        lemma_entry_distinct(pml4, i4, pml4, n4);
        if !present(w4) {
            // A fresh chain of tables below `vn`'s PML4 entry: `v` leaves it
            // at the first index where it differs from `vn`, and reads zero.
            assert(!t0.contains_key(s3));
            let e3n = entry_at(s3, i3);
            if i3 != n3 {
                if e3n == f3 {
                    lemma_entry_distinct(s3, i3, s3, n3);
                }
                if e3n == f2 {
                    lemma_levels_distinct(mm1, t1, s3, i3, s2, n2);
                }
                if e3n == f1 {
                    lemma_levels_distinct(mm1, t1, s3, i3, s1, n1);
                }
                assert(m1.word(e3n) == 0);
                assert(m1.walk_spec(pml4, v) is None);
                return;
            }
            assert(!t0.contains_key(s2));
            let e2n = entry_at(s2, i2);
            if i2 != n2 {
                if e2n == f3 {
                    lemma_levels_distinct(mm1, t1, s2, i2, s3, n3);
                }
                if e2n == f2 {
                    lemma_entry_distinct(s2, i2, s2, n2);
                }
                if e2n == f1 {
                    lemma_levels_distinct(mm1, t1, s2, i2, s1, n1);
                }
                assert(m1.word(e2n) == 0);
                assert(m1.walk_spec(pml4, v) is None);
                return;
            }
            assert(!t0.contains_key(s1));
            let e1n = entry_at(s1, i1);
            assert(i1 != n1);
            if e1n == f3 {
                lemma_levels_distinct(mm1, t1, s1, i1, s3, n3);
            }
            if e1n == f2 {
                lemma_levels_distinct(mm1, t1, s1, i1, s2, n2);
            }
            if e1n == f1 {
                lemma_entry_distinct(s1, i1, s1, n1);
            }
            assert(m1.word(e1n) == 0);
            assert(m1.walk_spec(pml4, v) == Some(e1n));
            return;
        }
    }
    // `v`'s PML4 entry is present and keeps its table.
    assert(points(4, w4));
    assert(t0.contains_key(t3) && t0[t3] == 3);
    assert(present(word_of(mm1, e4)) && table_of(word_of(mm1, e4)) == t3);
    let e3 = entry_at(t3, i3);
    let w3 = word_of(mm0, e3);
    assert(t1.contains_key(t3) && t1[t3] == 3);
    if e3 == f3 {
        lemma_entry_distinct(t3, i3, s3, n3);
        if i4 != n4 {
            if present(y4) {
                assert(points(4, y4));
                assert(word_of(mm0, entry_at(pml4, i4)) == w4);
                assert(false);
            } else {
                assert(false);
            }
        }
        assert(e4 == f4 && i3 == n3 && w3 == y3);
        if !present(w3) {
            assert(!t0.contains_key(s2));
            let e2n = entry_at(s2, i2);
            if i2 != n2 {
                if e2n == f3 {
                    lemma_levels_distinct(mm1, t1, s2, i2, s3, n3);
                }
                if e2n == f2 {
                    lemma_entry_distinct(s2, i2, s2, n2);
                }
                if e2n == f1 {
                    lemma_levels_distinct(mm1, t1, s2, i2, s1, n1);
                }
                assert(m1.word(e2n) == 0);
                assert(m1.walk_spec(pml4, v) is None);
                return;
            }
            assert(!t0.contains_key(s1));
            let e1n = entry_at(s1, i1);
            assert(i1 != n1);
            if e1n == f3 {
                lemma_levels_distinct(mm1, t1, s1, i1, s3, n3);
            }
            if e1n == f2 {
                lemma_levels_distinct(mm1, t1, s1, i1, s2, n2);
            }
            if e1n == f1 {
                lemma_entry_distinct(s1, i1, s1, n1);
            }
            assert(m1.word(e1n) == 0);
            assert(m1.walk_spec(pml4, v) == Some(e1n));
            return;
        }
        // A present entry shared with `vn` neither is huge (no collision)
        // nor changes its table.
        assert(!huge(w3));
    } else {
        lemma_levels_distinct(mm1, t1, t3, i3, pml4, n4);
        lemma_levels_distinct(mm1, t1, t3, i3, s2, n2);
        lemma_levels_distinct(mm1, t1, t3, i3, s1, n1);
        lemma_table_entry_not_fresh(&pmm0, &m0, k, t3, i3);
        assert(word_of(mm1, e3) == w3);
        if !present(w3) || huge(w3) {
            assert(m1.walk_spec(pml4, v) == m0.walk_spec(pml4, v));
            return;
        }
    }
    assert(present(w3) && !huge(w3));
    let t2 = table_of(w3);
    assert(points(3, w3));
    assert(t0.contains_key(t2) && t0[t2] == 2);
    assert(t1.contains_key(t2) && t1[t2] == 2);
    assert(present(word_of(mm1, e3)) && !huge(word_of(mm1, e3)) && table_of(word_of(mm1, e3)) == t2);
    let e2 = entry_at(t2, i2);
    let w2 = word_of(mm0, e2);
    if e2 == f2 {
        lemma_entry_distinct(t2, i2, s2, n2);
        if present(y4) && present(y3) {
            assert(t0.contains_key(r3) && t0[r3] == 3);
            assert(points(3, y3));
            assert(word_of(mm0, entry_at(r3, n3)) == y3);
            assert(word_of(mm0, entry_at(t3, i3)) == w3);
            assert(r3 == t3 && n3 == i3);
            assert(points(4, y4));
            assert(word_of(mm0, entry_at(pml4, n4)) == y4);
            assert(word_of(mm0, entry_at(pml4, i4)) == w4);
            assert(n4 == i4);
        } else {
            assert(false);
        }
        assert(w2 == y2);
        if !present(w2) {
            assert(!t0.contains_key(s1));
            let e1n = entry_at(s1, i1);
            assert(i1 != n1);
            if e1n == f3 {
                lemma_levels_distinct(mm1, t1, s1, i1, s3, n3);
            }
            if e1n == f2 {
                lemma_levels_distinct(mm1, t1, s1, i1, s2, n2);
            }
            if e1n == f1 {
                lemma_entry_distinct(s1, i1, s1, n1);
            }
            assert(m1.word(e1n) == 0);
            assert(m1.walk_spec(pml4, v) == Some(e1n));
            return;
        }
        assert(!huge(w2));
        assert(false);
    } else {
        lemma_levels_distinct(mm1, t1, t2, i2, pml4, n4);
        lemma_levels_distinct(mm1, t1, t2, i2, s3, n3);
        lemma_levels_distinct(mm1, t1, t2, i2, s1, n1);
        lemma_table_entry_not_fresh(&pmm0, &m0, k, t2, i2);
        assert(word_of(mm1, e2) == w2);
        assert(!present(w2) || huge(w2));
        assert(m1.walk_spec(pml4, v) == m0.walk_spec(pml4, v));
    }
}

/// In a tree where no table is shared, distinct pages mapped by 4 KiB
/// pages are mapped through distinct leaf entries.
pub proof fn law_distinct_pages_distinct_leaves(m: PageTableMemory, pml4: u64, v: u64, w: u64)
    requires
        m.wf(),
        m.is_unaliased(),
        m.is_table(pml4, 4),
        m.maps_4k(pml4, v),
        m.maps_4k(pml4, w),
        !same_page(v, w),
    ensures
        m.e1(pml4, v) != m.e1(pml4, w),
{
    let mm = m.mem();
    let t = m.tables();
    lemma_index_bound(v, 39);
    lemma_index_bound(v, 30);
    lemma_index_bound(v, 21);
    lemma_index_bound(v, 12);
    lemma_index_bound(w, 39);
    lemma_index_bound(w, 30);
    lemma_index_bound(w, 21);
    lemma_index_bound(w, 12);
    let a4 = entry_at(pml4, table_index(v, 39));
    let b4 = entry_at(pml4, table_index(w, 39));
    let a3t = table_of(word_of(mm, a4));
    let b3t = table_of(word_of(mm, b4));
    assert(points(4, word_of(mm, a4)) && points(4, word_of(mm, b4)));
    assert(t[a3t] == 3 && t[b3t] == 3);
    let a3 = entry_at(a3t, table_index(v, 30));
    let b3 = entry_at(b3t, table_index(w, 30));
    let a2t = table_of(word_of(mm, a3));
    let b2t = table_of(word_of(mm, b3));
    assert(points(3, word_of(mm, a3)) && points(3, word_of(mm, b3)));
    assert(t[a2t] == 2 && t[b2t] == 2);
    let a2 = entry_at(a2t, table_index(v, 21));
    let b2 = entry_at(b2t, table_index(w, 21));
    let a1t = table_of(word_of(mm, a2));
    let b1t = table_of(word_of(mm, b2));
    assert(points(2, word_of(mm, a2)) && points(2, word_of(mm, b2)));
    assert(t[a1t] == 1 && t[b1t] == 1);
    if m.e1(pml4, v) == m.e1(pml4, w) {
        lemma_entry_distinct(a1t, table_index(v, 12), b1t, table_index(w, 12));
        assert(a2t == b2t && table_index(v, 21) == table_index(w, 21));
        assert(a3t == b3t && table_index(v, 30) == table_index(w, 30));
        assert(table_index(v, 39) == table_index(w, 39));
    }
}

/// The leaf entry of a 4 KiB-mapped page is none of the entries on the
/// walk of another such page.
proof fn lemma_leaf_off_other_walk(m: PageTableMemory, pml4: u64, virt: u64, v: u64)
    requires
        m.wf(),
        m.is_unaliased(),
        m.is_table(pml4, 4),
        m.maps_4k(pml4, virt),
        m.maps_4k(pml4, v),
        !same_page(v, virt),
    ensures
        m.e4(pml4, v) != m.e1(pml4, virt),
        m.e3(pml4, v) != m.e1(pml4, virt),
        m.e2(pml4, v) != m.e1(pml4, virt),
        m.e1(pml4, v) != m.e1(pml4, virt),
{
    let mm = m.mem();
    let t = m.tables();
    lemma_index_bound(v, 39);
    lemma_index_bound(v, 30);
    lemma_index_bound(v, 21);
    lemma_index_bound(virt, 39);
    lemma_index_bound(virt, 30);
    lemma_index_bound(virt, 21);
    lemma_index_bound(virt, 12);
    let a4 = entry_at(pml4, table_index(v, 39));
    let a3t = table_of(word_of(mm, a4));
    assert(points(4, word_of(mm, a4)));
    let a3 = entry_at(a3t, table_index(v, 30));
    let a2t = table_of(word_of(mm, a3));
    assert(points(3, word_of(mm, a3)));
    let b4 = entry_at(pml4, table_index(virt, 39));
    let b3t = table_of(word_of(mm, b4));
    assert(points(4, word_of(mm, b4)));
    let b3 = entry_at(b3t, table_index(virt, 30));
    let b2t = table_of(word_of(mm, b3));
    assert(points(3, word_of(mm, b3)));
    let b2 = entry_at(b2t, table_index(virt, 21));
    let b1t = table_of(word_of(mm, b2));
    assert(points(2, word_of(mm, b2)));
    assert(t[b1t] == 1);
    lemma_levels_distinct(mm, t, pml4, table_index(v, 39), b1t, table_index(virt, 12));
    lemma_levels_distinct(mm, t, a3t, table_index(v, 30), b1t, table_index(virt, 12));
    lemma_levels_distinct(mm, t, a2t, table_index(v, 21), b1t, table_index(virt, 12));
    law_distinct_pages_distinct_leaves(m, pml4, v, virt);
}

/// Unmap the 4 KiB page of `virt`: clear the entry the walk reaches.  A huge
/// (1 GiB or 2 MiB) entry is left alone, since clearing it would unmap far
/// more than one page.  Returns whether an entry was cleared, in which case
/// the TLB entry for `virt` must be flushed.
pub fn unmap_page(mem: &mut PageTableMemory, pml4: u64, virt: u64) -> (r: bool)
    requires
        old(mem).wf(),
        page_aligned(pml4),
    ensures
        final(mem).wf(),
        final(mem).tables() == old(mem).tables(),
        old(mem).is_unaliased() ==> final(mem).is_unaliased(),
        r == (old(mem).walk_spec(pml4, virt) is Some && !huge(
            old(mem).word(old(mem).walk_spec(pml4, virt)->0),
        )),
        r ==> final(mem).mem() == old(mem).mem().insert(old(mem).walk_spec(pml4, virt)->0, 0),
        !r ==> final(mem).mem() == old(mem).mem(),
        r ==> old(mem).maps_4k(pml4, virt) && old(mem).walk_spec(pml4, virt) == Some(
            old(mem).e1(pml4, virt),
        ),
        old(mem).is_unaliased() && old(mem).is_table(pml4, 4) ==> forall|v: u64|
            #[trigger] old(mem).maps_4k(pml4, v) && !same_page(v, virt) ==> final(mem).maps_4k(pml4, v)
                && final(mem).e1(pml4, v) == old(mem).e1(pml4, v) && final(mem).word(old(mem).e1(pml4, v))
                == old(mem).word(old(mem).e1(pml4, v)),
{
    match walk(mem, pml4, virt) {
        None => false,
        Some(pte) => {
            let w = mem.read_word(pte);
            if w & PTE_HUGE != 0 {
                return false;
            }
            proof {
                lemma_zero_not_present();
                lemma_write_preserves(mem.mem(), mem.tables(), pte, 0);
                if old(mem).is_unaliased() {
                    lemma_unaliased_write(mem.mem(), mem.tables(), pte, 0);
                }
            }
            mem.write_word(pte, 0);
            proof {
                assert(old(mem).maps_4k(pml4, virt));
                if old(mem).is_unaliased() && old(mem).is_table(pml4, 4) {
                    assert forall|v: u64|
                        #[trigger] old(mem).maps_4k(pml4, v) && !same_page(v, virt) implies mem.maps_4k(
                        pml4,
                        v,
                    ) && mem.e1(pml4, v) == old(mem).e1(pml4, v) && mem.word(old(mem).e1(pml4, v))
                        == old(mem).word(old(mem).e1(pml4, v)) by {
                        lemma_leaf_off_other_walk(*old(mem), pml4, virt, v);
                    }
                }
            }
            true
        },
    }
}

/// Tear down the boot identity map: clear the first four PDPT entries (the
/// 0–4 GiB huge pages) under PML4 entry 0, when that entry is present.
///
/// The whole TLB must be flushed afterwards.
pub fn teardown_identity(mem: &mut PageTableMemory, pml4: u64)
    requires
        old(mem).wf(),
        page_aligned(pml4),
    ensures
        final(mem).wf(),
        final(mem).tables() == old(mem).tables(),
        old(mem).is_unaliased() ==> final(mem).is_unaliased(),
        !present(old(mem).word(pml4)) ==> final(mem).mem() == old(mem).mem(),
        present(old(mem).word(pml4)) ==> {
            let pdpt = table_of(old(mem).word(pml4));
            &&& forall|k: int| 0 <= k < 4 ==> final(mem).word(#[trigger] entry_at(pdpt, k)) == 0
            &&& forall|a: u64|
                (forall|k: int| 0 <= k < 4 ==> a != #[trigger] entry_at(pdpt, k)) ==> final(mem).word(a) == old(mem).word(a)
        },
{
    let pml4e = mem.read_word(pml4);
    if pml4e & PTE_PRESENT != 0 {
        let pdpt = pml4e & ADDR_MASK;
        proof {
            lemma_table_of(pml4e);
            lemma_aligned_bound(pdpt);
            lemma_zero_not_present();
        }
        let mut k: u64 = 0;
        while k < 4
            invariant
                k <= 4,
                pdpt == table_of(old(mem).word(pml4)),
                pdpt <= 0xFFFF_FFFF_FFFF_F000u64,
                !present(0),
                mem.wf(),
                mem.tables() == old(mem).tables(),
                old(mem).is_unaliased() ==> mem.is_unaliased(),
                forall|j: int| 0 <= j < k ==> mem.word(#[trigger] entry_at(pdpt, j)) == 0,
                forall|a: u64|
                    (forall|j: int| 0 <= j < k ==> a != #[trigger] entry_at(pdpt, j)) ==> mem.word(a)
                        == old(mem).word(a),
            decreases 4 - k,
        {
            let a = pdpt + 8 * k;
            proof {
                lemma_write_preserves(mem.mem(), mem.tables(), a, 0);
                if old(mem).is_unaliased() {
                    lemma_unaliased_write(mem.mem(), mem.tables(), a, 0);
                }
            }
            mem.write_word(a, 0);
            k = k + 1;
            proof {
                assert forall|b: u64|
                    (forall|j: int| 0 <= j < k ==> b != #[trigger] entry_at(pdpt, j)) implies mem.word(
                    b,
                ) == old(mem).word(b) by {
                    assert(b != entry_at(pdpt, (k - 1) as int));
                }
            }
        }
    }
}

/// Allocate an empty PML4 from `pmm`: a zeroed page that becomes a level-4
/// table, the root of a new address space.
pub fn alloc_root_table(mem: &mut PageTableMemory, pmm: &mut BuddyAllocator) -> (r: Option<u64>)
    requires
        old(mem).wf(),
        old(pmm).wf(),
        frames_fresh(old(pmm), old(mem)),
    ensures
        final(mem).wf(),
        final(pmm).wf(),
        frames_fresh(final(pmm), final(mem)),
        final(pmm).base() == old(pmm).base(),
        final(pmm).total() == old(pmm).total(),
        old(mem).is_unaliased() ==> final(mem).is_unaliased(),
        old(pmm).free_list(0).len() == 0 ==> r.is_none() && final(mem).mem() == old(mem).mem() && final(mem).tables() == old(mem).tables() && final(pmm).free_lists_view() == old(pmm).free_lists_view(),
        old(pmm).free_list(0).len() > 0 ==> {
            let t = old(pmm).frame_addr(old(pmm).free_list(0)[0] as int) as u64;
            &&& r == Some(t)
            &&& page_aligned(t)
            &&& final(mem).tables() == old(mem).tables().insert(t, 4)
            &&& final(pmm).free_lists_view() == old(pmm).free_lists_view().update(
                0,
                old(pmm).free_list(0).drop_first(),
            )
            &&& forall|k: int| 0 <= k < 512 ==> final(mem).word(#[trigger] entry_at(t, k)) == 0
            &&& forall|a: u64| !in_page(a, t) ==> final(mem).word(a) == old(mem).word(a)
        },
{
    proof {
        pmm.lemma_wf_facts();
    }
    let ghost l0 = old(pmm).free_list(0);
    proof {
        if l0.len() > 0 {
            lemma_frame_aligned(old(pmm), l0[0] as int);
        }
    }
    let t = match alloc_table(mem, pmm) {
        Some(t) => t,
        None => {
            return None;
        },
    };
    proof {
        assert(!old(mem).tables().contains_key(t)) by {
            assert(old(pmm).frame_addr(l0[0] as int) as u64 == t);
        }
        lemma_add_table(mem.mem(), mem.tables(), t, 4);
        if old(mem).is_unaliased() {
            lemma_unaliased_add_table(mem.mem(), mem.tables(), t, 4);
        }
    }
    mem.tables = Ghost(mem.tables@.insert(t, 4));
    proof {
        assert forall|j: int|
            0 <= j < pmm.free_list(0).len() implies !mem.tables().contains_key(
            #[trigger] pmm.frame_addr(pmm.free_list(0)[j] as int) as u64,
        ) by {
            assert(pmm.free_list(0)[j] == l0[j + 1]);
            assert(l0[j + 1] != l0[0]);
            assert(!old(mem).tables().contains_key(
                old(pmm).frame_addr(l0[j + 1] as int) as u64,
            ));
            lemma_frame_aligned(old(pmm), l0[j + 1] as int);
        }
    }
    Some(t)
}

// ─── Laws ───────────────────────────────────────────────────────────────────

/// Bits 0, 2 and 7 of a leaf entry `(phys & ADDR_MASK) | bits`, where the
/// flag bits below bit 7 sum to `lo`, bit 7 is `h` and bit 63 is `nx`.
proof fn lemma_leaf_bits(phys: u64, lo: u64, h: u64, nx: u64, p: u64, u: u64)
    by (bit_vector)
    requires
        lo < 128,
        h == 0 || h == 128,
        nx == 0 || nx == 0x8000_0000_0000_0000u64,
        p == 0 || p == 1,
        u == 0 || u == 4,
        lo & 1u64 == p,
        lo & 4u64 == u,
    ensures
        (((phys & 0xFFFF_FFFF_FFFF_F000u64) | (lo + h + nx) as u64) & 128u64 != 0) == (h == 128),
        (((phys & 0xFFFF_FFFF_FFFF_F000u64) | (lo + h + nx) as u64) & 1u64 != 0) == (p == 1),
        (((phys & 0xFFFF_FFFF_FFFF_F000u64) | (lo + h + nx) as u64) & 4u64 != 0) == (u == 4),
{
}

/// A leaf entry built from `flags` is huge, present and user-accessible
/// exactly as `flags` say.
pub proof fn lemma_leaf_flags(phys: u64, flags: PageFlags)
    ensures
        huge((phys & ADDR_MASK) | (pte_bits(flags) as u64)) == flags.huge,
        present((phys & ADDR_MASK) | (pte_bits(flags) as u64)) == flags.present,
        user((phys & ADDR_MASK) | (pte_bits(flags) as u64)) == flags.user,
{
    let w = flag(flags.writable, PTE_WRITABLE) + flag(flags.write_through, PTE_WRITETHROUGH) + flag(
        flags.cache_disable,
        PTE_CACHEDISABLE,
    ) + flag(flags.accessed, PTE_ACCESSED) + flag(flags.dirty, PTE_DIRTY);
    let p = flag(flags.present, PTE_PRESENT);
    let u = flag(flags.user, PTE_USER);
    let lo = (p + u + w) as u64;
    let h = flag(flags.huge, PTE_HUGE) as u64;
    let nx = flag(flags.no_execute, PTE_NOEXECUTE) as u64;
    let wb = w as u64;
    let pb = p as u64;
    let ub = u as u64;
    assert(lo & 1u64 == pb && lo & 4u64 == ub) by (bit_vector)
        requires
            lo == pb + ub + wb,
            pb == 0 || pb == 1,
            ub == 0 || ub == 4,
            wb == 0 || wb == 2 || wb == 8 || wb == 10 || wb == 16 || wb == 18 || wb == 24 || wb
                == 26 || wb == 32 || wb == 34 || wb == 40 || wb == 42 || wb == 48 || wb == 50 || wb
                == 56 || wb == 58 || wb == 64 || wb == 66 || wb == 72 || wb == 74 || wb == 80 || wb
                == 82 || wb == 88 || wb == 90 || wb == 96 || wb == 98 || wb == 104 || wb == 106
                || wb == 112 || wb == 114 || wb == 120 || wb == 122,
    ;
    assert(pte_bits(flags) == lo + h + nx);
    lemma_leaf_bits(phys, lo, h, nx, pb, ub);
}

/// Unmapping a page right after mapping it clears the entry that mapping
/// wrote, unless that entry was written as a huge page, which unmapping
/// leaves alone.  `m1` is the memory after `map_page(pml4, virt, phys,
/// flags)`; `m2` and `r` are the memory and the result after
/// `unmap_page(pml4, virt)` on `m1`.
pub proof fn law_unmap_after_map(
    m1: PageTableMemory,
    m2: PageTableMemory,
    pml4: u64,
    virt: u64,
    phys: u64,
    flags: PageFlags,
    r: bool,
)
    requires
        m1.walk_spec(pml4, virt) == Some(m1.e1(pml4, virt)),
        m1.word(m1.e1(pml4, virt)) == (phys & ADDR_MASK) | (pte_bits(flags) as u64),
        r == (m1.walk_spec(pml4, virt) is Some && !huge(m1.word(m1.walk_spec(pml4, virt)->0))),
        r ==> m2.mem() == m1.mem().insert(m1.walk_spec(pml4, virt)->0, 0),
        !r ==> m2.mem() == m1.mem(),
    ensures
        r == !flags.huge,
        !flags.huge ==> m2.word(m1.e1(pml4, virt)) == 0 && forall|a: u64|
            a != m1.e1(pml4, virt) ==> m2.word(a) == m1.word(a),
        flags.huge ==> m2.mem() == m1.mem(),
{
    lemma_leaf_flags(phys, flags);
}

} // verus!
