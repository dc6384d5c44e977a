//! Global Descriptor Table: kernel and user code/data segments and the TSS.
//!
//! Selectors: 0x00 null, 0x08 kernel code, 0x10 kernel data, 0x18 user
//! code, 0x20 user data, 0x28 TSS (two entries).
use vstd::prelude::*;

verus! {

/// GDT entry fields.
pub struct GdtEntry {
    pub limit_low: u16,
    pub base_low: u16,
    pub base_middle: u8,
    pub access: u8,
    pub granularity: u8,
    pub base_high: u8,
}

/// Size in bytes of the 64-bit Task State Segment.
pub const TSS_SIZE: u16 = 104;

/// Task State Segment.
pub struct Tss {
    pub reserved_1: u32,
    pub rsp0: u64,
    pub rsp1: u64,
    pub rsp2: u64,
    pub reserved_2: u64,
    pub ist1: u64,
    pub ist2: u64,
    pub ist3: u64,
    pub ist4: u64,
    pub ist5: u64,
    pub ist6: u64,
    pub ist7: u64,
    pub reserved_3: u64,
    pub reserved_4: u16,
    pub iomap_base: u16,
}

impl Tss {
    /// A zeroed TSS whose I/O map base points past its end (no I/O bitmap).
    pub fn new() -> (r: Self)
        ensures
            r.rsp0 == 0 && r.rsp1 == 0 && r.rsp2 == 0,
            r.ist1 == 0 && r.ist2 == 0 && r.ist3 == 0 && r.ist4 == 0,
            r.ist5 == 0 && r.ist6 == 0 && r.ist7 == 0,
            r.reserved_1 == 0 && r.reserved_2 == 0 && r.reserved_3 == 0 && r.reserved_4 == 0,
            r.iomap_base == TSS_SIZE - 1,
    {
        Tss {
            reserved_1: 0,
            rsp0: 0,
            rsp1: 0,
            rsp2: 0,
            reserved_2: 0,
            ist1: 0,
            ist2: 0,
            ist3: 0,
            ist4: 0,
            ist5: 0,
            ist6: 0,
            ist7: 0,
            reserved_3: 0,
            reserved_4: 0,
            iomap_base: TSS_SIZE - 1,
        }
    }

    /// Set the ring-0 stack pointer used on interrupts and syscalls.
    pub fn set_rsp0(&mut self, rsp0: u64)
        ensures
            *final(self) == (Tss { rsp0, ..*old(self) }),
    {
        self.rsp0 = rsp0;
    }
}

/// GDT descriptor for `lgdt`.
pub struct GdtDescriptor {
    pub limit: u16,
    pub base: u64,
}

/// Number of GDT entries: null, four segments, two for the TSS.
pub const GDT_ENTRIES: usize = 7;

/// Code/data segment descriptor: limit bits 0..16, base bits 0..24, access
/// byte, then the granularity byte whose low nibble carries limit bits
/// 16..20, and base bits 24..32.
pub open spec fn segment_spec(base: u32, limit: u32, access: u8, granularity: u8) -> u64 {
    ((limit & 0xFFFF) as u64) | (((base & 0xFF_FFFF) as u64) << 16u64) | ((access as u64) << 40u64)
        | (((granularity as u64) | (((limit >> 16u32) & 0xF) as u64)) << 48u64) | (((base
        >> 24u32) as u64) << 56u64)
}

/// Low half of a 64-bit TSS descriptor.
pub open spec fn tss_low_spec(base: u64, limit: u16, access: u8) -> u64 {
    (limit + (base % 0x100_0000) * 0x1_0000 + access * 0x100_0000_0000 + ((base / 0x100_0000)
        % 0x100) * 0x100_0000_0000_0000) as u64
}

/// High half of a 64-bit TSS descriptor: base bits 32..64.
pub open spec fn tss_high_spec(base: u64) -> u64 {
    base / 0x1_0000_0000
}

/// The table `Gdt::init` builds for a TSS at `tss_base`.
pub open spec fn gdt_layout(tss_base: u64) -> Seq<u64> {
    seq![
        0u64,
        segment_spec(0, 0xFFFFF, 0x9A, 0xA0),
        segment_spec(0, 0xFFFFF, 0x92, 0xC0),
        segment_spec(0, 0xFFFFF, 0xFA, 0xA0),
        segment_spec(0, 0xFFFFF, 0xF2, 0xC0),
        tss_low_spec(tss_base, (TSS_SIZE - 1) as u16, 0x89),
        tss_high_spec(tss_base),
    ]
}

/// Global Descriptor Table.
pub struct Gdt {
    entries: [u64; 7],
}

impl Gdt {
    /// Entries of the table.
    pub closed spec fn spec_entries(&self) -> Seq<u64> {
        self.entries@
    }

    /// An all-null table.
    pub fn new() -> (r: Self)
        ensures
            r.spec_entries() == seq![0u64, 0, 0, 0, 0, 0, 0],
    {
        let r = Gdt { entries: [0, 0, 0, 0, 0, 0, 0] };
        assert(r.entries@ =~= seq![0u64, 0, 0, 0, 0, 0, 0]);
        r
    }

    /// Entry `i`.
    pub fn entry(&self, i: usize) -> (r: u64)
        requires
            i < GDT_ENTRIES,
        ensures
            r == self.spec_entries()[i as int],
    {
        self.entries[i]
    }

    /// Create a code/data segment descriptor.
    pub fn create_segment(base: u32, limit: u32, access: u8, granularity: u8) -> (r: u64)
        ensures
            r == segment_spec(base, limit, access, granularity),
    {
        let mut descriptor: u64 = 0;
        descriptor |= (limit & 0xFFFF) as u64;
        descriptor |= ((base & 0xFFFFFF) as u64) << 16u64;
        descriptor |= (access as u64) << 40u64;
        descriptor |= ((granularity as u64) | (((limit >> 16u32) & 0xF) as u64)) << 48u64;
        descriptor |= ((base >> 24u32) as u64) << 56u64;
        assert(descriptor == segment_spec(base, limit, access, granularity)) by (bit_vector)
            requires
                descriptor == (0u64 | ((limit & 0xFFFF) as u64) | (((base & 0xFFFFFF) as u64)
                    << 16u64) | ((access as u64) << 40u64) | (((granularity as u64) | (((limit
                    >> 16u32) & 0xF) as u64)) << 48u64) | (((base >> 24u32) as u64) << 56u64)),
        ;
        descriptor
    }

    /// Create a 64-bit TSS descriptor (two GDT entries: low, high).
    pub fn create_tss_descriptor(base: u64, limit: u16, access: u8) -> (r: (u64, u64))
        ensures
            r.0 == tss_low_spec(base, limit, access),
            r.1 == tss_high_spec(base),
    {
        let limit = limit as u64;
        let low = limit & 0xFFFF | ((base & 0xFFFFFF) << 16u64) | ((access as u64) << 40u64) | (
        0x00u64 << 48u64) | (((base >> 24u64) & 0xFF) << 56u64);
        let high = base >> 32u64;
        assert(low == tss_low_spec(base, limit as u16, access) && high == tss_high_spec(base))
            by (bit_vector)
            requires
                limit < 0x1_0000,
                low == limit & 0xFFFF | ((base & 0xFFFFFF) << 16u64) | ((access as u64)
                    << 40u64) | (0x00u64 << 48u64) | (((base >> 24u64) & 0xFF) << 56u64),
                high == base >> 32u64,
        ;
        (low, high)
    }

    /// Fill the table: null entry, kernel code (0x9A), kernel data (0x92),
    /// user code (0xFA), user data (0xF2), and the TSS at `tss_base` as an
    /// available 64-bit TSS (0x89).
    pub fn init(&mut self, tss_base: u64)
        ensures
            final(self).spec_entries() == gdt_layout(tss_base),
    {
        self.entries[0] = 0;
        self.entries[1] = Self::create_segment(0, 0xFFFFF, 0x9A, 0xA0);
        self.entries[2] = Self::create_segment(0, 0xFFFFF, 0x92, 0xC0);
        self.entries[3] = Self::create_segment(0, 0xFFFFF, 0xFA, 0xA0);
        self.entries[4] = Self::create_segment(0, 0xFFFFF, 0xF2, 0xC0);
        let (tss_low, tss_high) = Self::create_tss_descriptor(tss_base, TSS_SIZE - 1, 0x89);
        self.entries[5] = tss_low;
        self.entries[6] = tss_high;
        assert(self.entries@ =~= gdt_layout(tss_base));
    }
}

/// A segment descriptor gives back what it was built from: the 32-bit
/// base, the access byte, the flags nibble of the granularity byte, and,
/// when the granularity byte leaves its low nibble clear, the 20-bit limit.
pub proof fn law_segment_fields(base: u32, limit: u32, access: u8, granularity: u8)
    ensures
        ({
            let d = segment_spec(base, limit, access, granularity);
            &&& ((d >> 16u64) & 0xFF_FFFF) | (((d >> 56u64) & 0xFF) << 24u64) == base as u64
            &&& (d >> 40u64) & 0xFF == access as u64
            &&& (d >> 52u64) & 0xF == (granularity >> 4u8) as u64
            &&& granularity & 0xF == 0 ==> (d & 0xFFFF) | (((d >> 48u64) & 0xF) << 16u64) == (limit
                & 0xF_FFFF) as u64
        }),
{
    let d = segment_spec(base, limit, access, granularity);
    assert({
        &&& ((d >> 16u64) & 0xFF_FFFF) | (((d >> 56u64) & 0xFF) << 24u64) == base as u64
        &&& (d >> 40u64) & 0xFF == access as u64
        &&& (d >> 52u64) & 0xF == (granularity >> 4u8) as u64
        &&& granularity & 0xF == 0 ==> (d & 0xFFFF) | (((d >> 48u64) & 0xF) << 16u64) == (limit
            & 0xF_FFFF) as u64
    }) by (bit_vector)
        requires
            d == ((limit & 0xFFFF) as u64) | (((base & 0xFF_FFFF) as u64) << 16u64) | ((access as u64)
                << 40u64) | (((granularity as u64) | (((limit >> 16u32) & 0xF) as u64)) << 48u64) | (((
            base >> 24u32) as u64) << 56u64),
    ;
}

/// A TSS descriptor gives back its 64-bit base, its limit and its access
/// byte.
pub proof fn law_tss_descriptor_fields(base: u64, limit: u16, access: u8)
    ensures
        ({
            let lo = tss_low_spec(base, limit, access);
            let hi = tss_high_spec(base);
            &&& lo & 0xFFFF == limit as u64
            &&& ((lo >> 16u64) & 0xFF_FFFF) | (((lo >> 56u64) & 0xFF) << 24u64) | (hi << 32u64) == base
            &&& (lo >> 40u64) & 0xFF == access as u64
        }),
{
    let lo = tss_low_spec(base, limit, access);
    let hi = tss_high_spec(base);
    assert(lo == (limit as u64) | ((base & 0xFFFFFF) << 16u64) | ((access as u64) << 40u64) | (((
    base >> 24u64) & 0xFF) << 56u64) && hi == base >> 32u64) by (bit_vector)
        requires
            lo == (limit + (base % 0x100_0000) * 0x1_0000 + access * 0x100_0000_0000 + ((base
                / 0x100_0000) % 0x100) * 0x100_0000_0000_0000) as u64,
            hi == base / 0x1_0000_0000,
    ;
    assert({
        &&& lo & 0xFFFF == limit as u64
        &&& ((lo >> 16u64) & 0xFF_FFFF) | (((lo >> 56u64) & 0xFF) << 24u64) | (hi << 32u64) == base
        &&& (lo >> 40u64) & 0xFF == access as u64
    }) by (bit_vector)
        requires
            lo == (limit as u64) | ((base & 0xFFFFFF) << 16u64) | ((access as u64) << 40u64) | (((base
                >> 24u64) & 0xFF) << 56u64),
            hi == base >> 32u64,
    ;
}

} // verus!
