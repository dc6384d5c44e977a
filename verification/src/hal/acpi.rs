//! ACPI table parsing: RSDP validation (ACPI 1.0 and 2.0+), RSDT/XSDT
//! search, and MADT parsing for local APIC and I/O APIC counts.
//!
//! Tables are read from a [`MemoryImage`] of physical memory.
use vstd::prelude::*;
use crate::hal::memory::MemoryImage;

verus! {

/// Size of the ACPI 1.0 RSDP.
pub const RSDP_V1_SIZE: u64 = 20;

/// Size of the ACPI 2.0+ RSDP.
pub const RSDP_V2_SIZE: u64 = 36;

/// Size of a system description table header.
pub const SDT_HEADER_SIZE: u64 = 36;

/// Size of the MADT header (SDT header, local APIC address, flags).
pub const MADT_HEADER_SIZE: u64 = 44;

/// RSDP (Root System Description Pointer), ACPI 1.0 layout.
#[derive(Clone, Copy)]
pub struct RsdpV1 {
    pub signature: [u8; 8],
    pub checksum: u8,
    pub oem_id: [u8; 6],
    pub revision: u8,
    pub rsdt_address: u32,
}

/// RSDP, ACPI 2.0+ layout.
#[derive(Clone, Copy)]
pub struct RsdpV2 {
    pub v1: RsdpV1,
    pub length: u32,
    pub xsdt_address: u64,
    pub extended_checksum: u8,
    pub reserved: [u8; 3],
}

/// Header common to all system description tables.
#[derive(Clone, Copy)]
pub struct SdtHeader {
    pub signature: [u8; 4],
    pub length: u32,
    pub revision: u8,
    pub checksum: u8,
    pub oem_id: [u8; 6],
    pub oem_table_id: [u8; 8],
    pub oem_revision: u32,
    pub creator_id: u32,
    pub creator_revision: u32,
}

/// MADT header.
#[derive(Clone, Copy)]
pub struct MadtHeader {
    pub header: SdtHeader,
    pub local_apic_addr: u32,
    pub flags: u32,
}

/// MADT entry types.
#[derive(Clone, Copy, PartialEq, Eq, Structural)]
pub enum MadtEntryType {
    LocalApic,
    IoApic,
    InterruptSourceOverride,
    NmiSource,
    LocalApicNmi,
    LocalApicAddressOverride,
    IoSapic,
    LocalSapic,
    PlatformInterruptSources,
    LocalX2Apic,
    LocalX2ApicNmi,
}

/// Header common to all MADT entries.
#[derive(Clone, Copy)]
pub struct MadtEntryHeader {
    pub entry_type: u8,
    pub length: u8,
}

/// MADT local APIC entry.
#[derive(Clone, Copy)]
pub struct MadtLocalApic {
    pub header: MadtEntryHeader,
    pub acpi_processor_id: u8,
    pub apic_id: u8,
    pub flags: u32,
}

/// MADT I/O APIC entry.
#[derive(Clone, Copy)]
pub struct MadtIoApic {
    pub header: MadtEntryHeader,
    pub io_apic_id: u8,
    pub reserved: u8,
    pub io_apic_address: u32,
    pub global_irq_base: u32,
}

/// APIC information gathered from the MADT.
#[derive(Clone, Copy)]
pub struct ApicInfo {
    pub local_apic_addr: u32,
    pub flags: u32,
    pub processor_count: usize,
    pub io_apic_count: usize,
}

impl Default for ApicInfo {
    /// The default local APIC at 0xFEE00000, one processor, no I/O APIC.
    fn default() -> (r: Self)
        ensures
            r.local_apic_addr == 0xFEE00000,
            r.flags == 0,
            r.processor_count == 1,
            r.io_apic_count == 0,
    {
        ApicInfo { local_apic_addr: 0xFEE00000, flags: 0, processor_count: 1, io_apic_count: 0 }
    }
}

/// Sum of the bytes of `s`.
pub open spec fn byte_sum(s: Seq<u8>) -> int
    decreases s.len(),
{
    if s.len() == 0 {
        0
    } else {
        byte_sum(s.drop_last()) + s.last()
    }
}

/// "RSD PTR ".
pub open spec fn rsdp_signature() -> Seq<u8> {
    seq![0x52u8, 0x53, 0x44, 0x20, 0x50, 0x54, 0x52, 0x20]
}

/// "APIC".
pub open spec fn apic_signature() -> Seq<u8> {
    seq![0x41u8, 0x50, 0x49, 0x43]
}

/// Checksum of `data`: the sum of its bytes modulo 256.
pub fn calculate_checksum(data: &[u8]) -> (r: u8)
    ensures
        r == byte_sum(data@) % 256,
{
    let mut acc: u8 = 0;
    let mut i: usize = 0;
    while i < data.len()
        invariant
            i <= data@.len(),
            acc == byte_sum(data@.take(i as int)) % 256,
        decreases data@.len() - i,
    {
        let b = data[i];
        proof {
            assert(data@.take(i + 1).drop_last() =~= data@.take(i as int));
            let s = byte_sum(data@.take(i as int));
            assert(s >= 0) by {
                lemma_byte_sum_nonneg(data@.take(i as int));
            }
            assert((s % 256 + b) % 256 == (s + b) % 256) by (nonlinear_arith)
                requires
                    s >= 0,
            ;
        }
        acc = acc.wrapping_add(b);
        i = i + 1;
    }
    assert(data@.take(data@.len() as int) =~= data@);
    acc
}

proof fn lemma_byte_sum_nonneg(s: Seq<u8>)
    ensures
        byte_sum(s) >= 0,
    decreases s.len(),
{
    if s.len() > 0 {
        lemma_byte_sum_nonneg(s.drop_last());
    }
}

/// An ACPI checksum holds: the bytes sum to 0 modulo 256.
pub fn verify_checksum(data: &[u8]) -> (r: bool)
    ensures
        r == (byte_sum(data@) % 256 == 0),
{
    calculate_checksum(data) == 0
}

/// Whether the RSDP carries the "RSD PTR " signature.
pub fn validate_rsdp_signature(rsdp: &RsdpV1) -> (r: bool)
    ensures
        r == (rsdp.signature@ == rsdp_signature()),
{
    let expected: [u8; 8] = [0x52, 0x53, 0x44, 0x20, 0x50, 0x54, 0x52, 0x20];
    let mut i: usize = 0;
    while i < 8
        invariant
            i <= 8,
            expected@ == rsdp_signature(),
            forall|j: int| 0 <= j < i ==> rsdp.signature@[j] == expected@[j],
        decreases 8 - i,
    {
        if rsdp.signature[i] != expected[i] {
            return false;
        }
        i = i + 1;
    }
    assert(rsdp.signature@ =~= rsdp_signature());
    true
}

/// `r` holds the ACPI 1.0 RSDP fields stored at `a`.
pub open spec fn rsdp_v1_at(mem: &MemoryImage, a: int, r: RsdpV1) -> bool {
    &&& r.signature@ == mem.bytes_at(a, 8)
    &&& r.checksum == mem.byte(a + 8)
    &&& r.oem_id@ == mem.bytes_at(a + 9, 6)
    &&& r.revision == mem.byte(a + 15)
    &&& r.rsdt_address == mem.le_u32(a + 16)
}

/// `r` holds the ACPI 2.0+ RSDP fields stored at `a`.
pub open spec fn rsdp_v2_at(mem: &MemoryImage, a: int, r: RsdpV2) -> bool {
    &&& rsdp_v1_at(mem, a, r.v1)
    &&& r.length == mem.le_u32(a + 20)
    &&& r.xsdt_address == mem.le_u64(a + 24)
    &&& r.extended_checksum == mem.byte(a + 32)
    &&& r.reserved@ == mem.bytes_at(a + 33, 3)
}

/// The RSDP at `a` is valid: signature and 20-byte checksum.
pub open spec fn rsdp_valid(mem: &MemoryImage, a: int) -> bool {
    mem.bytes_at(a, 8) == rsdp_signature() && byte_sum(mem.bytes_at(a, 20)) % 256 == 0
}

/// The RSDP at `a` has a valid ACPI 2.0+ extension: revision at least 2 and
/// a good 36-byte checksum.
pub open spec fn rsdp_v2_valid(mem: &MemoryImage, a: int) -> bool {
    mem.byte(a + 15) >= 2 && byte_sum(mem.bytes_at(a, 36)) % 256 == 0
}

fn read_array8(mem: &MemoryImage, a: u64, k: u64) -> (r: [u8; 8])
    requires
        k <= 65536,
    ensures
        r@ == mem.bytes_at(a + k, 8),
{
    let r = [
        mem.read_u8(a, k),
        mem.read_u8(a, k + 1),
        mem.read_u8(a, k + 2),
        mem.read_u8(a, k + 3),
        mem.read_u8(a, k + 4),
        mem.read_u8(a, k + 5),
        mem.read_u8(a, k + 6),
        mem.read_u8(a, k + 7),
    ];
    assert(r@ =~= mem.bytes_at(a + k, 8));
    r
}

fn read_array6(mem: &MemoryImage, a: u64, k: u64) -> (r: [u8; 6])
    requires
        k <= 65536,
    ensures
        r@ == mem.bytes_at(a + k, 6),
{
    let r = [
        mem.read_u8(a, k),
        mem.read_u8(a, k + 1),
        mem.read_u8(a, k + 2),
        mem.read_u8(a, k + 3),
        mem.read_u8(a, k + 4),
        mem.read_u8(a, k + 5),
    ];
    assert(r@ =~= mem.bytes_at(a + k, 6));
    r
}

fn read_array4(mem: &MemoryImage, a: u64, k: u64) -> (r: [u8; 4])
    requires
        k <= 65536,
    ensures
        r@ == mem.bytes_at(a + k, 4),
{
    let r = [mem.read_u8(a, k), mem.read_u8(a, k + 1), mem.read_u8(a, k + 2), mem.read_u8(a, k + 3)];
    assert(r@ =~= mem.bytes_at(a + k, 4));
    r
}

fn read_array3(mem: &MemoryImage, a: u64, k: u64) -> (r: [u8; 3])
    requires
        k <= 65536,
    ensures
        r@ == mem.bytes_at(a + k, 3),
{
    let r = [mem.read_u8(a, k), mem.read_u8(a, k + 1), mem.read_u8(a, k + 2)];
    assert(r@ =~= mem.bytes_at(a + k, 3));
    r
}

/// Parse and validate the RSDP at `rsdp_addr`.  `None` when the signature
/// or the ACPI 1.0 checksum is wrong; the 2.0+ part is present when the
/// revision is at least 2 and its extended checksum holds.
pub fn parse_rsdp(mem: &MemoryImage, rsdp_addr: u64) -> (r: Option<(RsdpV1, Option<RsdpV2>)>)
    ensures
        r is Some <==> rsdp_valid(mem, rsdp_addr as int),
        r matches Some((v1, v2)) ==> {
            &&& rsdp_v1_at(mem, rsdp_addr as int, v1)
            &&& v2 is Some <==> rsdp_v2_valid(mem, rsdp_addr as int)
            &&& v2 matches Some(x) ==> rsdp_v2_at(mem, rsdp_addr as int, x)
        },
{
    let v1 = RsdpV1 {
        signature: read_array8(mem, rsdp_addr, 0),
        checksum: mem.read_u8(rsdp_addr, 8),
        oem_id: read_array6(mem, rsdp_addr, 9),
        revision: mem.read_u8(rsdp_addr, 15),
        rsdt_address: mem.read_u32(rsdp_addr, 16),
    };
    if !validate_rsdp_signature(&v1) {
        return None;
    }
    let v1_bytes = mem.read_bytes(rsdp_addr, RSDP_V1_SIZE);
    if !verify_checksum(v1_bytes.as_slice()) {
        return None;
    }
    let v2 = if v1.revision >= 2 {
        let v2_bytes = mem.read_bytes(rsdp_addr, RSDP_V2_SIZE);
        if verify_checksum(v2_bytes.as_slice()) {
            Some(
                RsdpV2 {
                    v1,
                    length: mem.read_u32(rsdp_addr, 20),
                    xsdt_address: mem.read_u64(rsdp_addr, 24),
                    extended_checksum: mem.read_u8(rsdp_addr, 32),
                    reserved: read_array3(mem, rsdp_addr, 33),
                },
            )
        } else {
            None
        }
    } else {
        None
    };
    Some((v1, v2))
}

/// `h` holds the SDT header stored at `a`.
pub open spec fn sdt_header_at(mem: &MemoryImage, a: int, h: SdtHeader) -> bool {
    &&& h.signature@ == mem.bytes_at(a, 4)
    &&& h.length == mem.le_u32(a + 4)
    &&& h.revision == mem.byte(a + 8)
    &&& h.checksum == mem.byte(a + 9)
    &&& h.oem_id@ == mem.bytes_at(a + 10, 6)
    &&& h.oem_table_id@ == mem.bytes_at(a + 16, 8)
    &&& h.oem_revision == mem.le_u32(a + 24)
    &&& h.creator_id == mem.le_u32(a + 28)
    &&& h.creator_revision == mem.le_u32(a + 32)
}

/// Read the SDT header at `addr`.
pub fn get_sdt_header(mem: &MemoryImage, addr: u64) -> (h: SdtHeader)
    ensures
        sdt_header_at(mem, addr as int, h),
{
    SdtHeader {
        signature: read_array4(mem, addr, 0),
        length: mem.read_u32(addr, 4),
        revision: mem.read_u8(addr, 8),
        checksum: mem.read_u8(addr, 9),
        oem_id: read_array6(mem, addr, 10),
        oem_table_id: read_array8(mem, addr, 16),
        oem_revision: mem.read_u32(addr, 24),
        creator_id: mem.read_u32(addr, 28),
        creator_revision: mem.read_u32(addr, 32),
    }
}

/// Number of entries of the root table at `t` whose entries are `width`
/// bytes wide (8 for the XSDT, 4 for the RSDT).
pub open spec fn sdt_entry_count(mem: &MemoryImage, t: int, width: int) -> int {
    let len = mem.le_u32(t + 4) as int;
    if len < SDT_HEADER_SIZE {
        0
    } else {
        (len - SDT_HEADER_SIZE) / width
    }
}

/// Entry `i` of the root table at `t` (a physical table address).
pub open spec fn sdt_entry(mem: &MemoryImage, t: int, width: int, i: int) -> u64 {
    if width == 8 {
        mem.le_u64(t + SDT_HEADER_SIZE + 8 * i)
    } else {
        mem.le_u32(t + SDT_HEADER_SIZE + 4 * i) as u64
    }
}

/// The first table, among entries `i..` of the root table at `t`, whose
/// address is non-zero and whose signature is `sig`.
pub open spec fn find_from(mem: &MemoryImage, t: int, width: int, sig: Seq<u8>, i: int) -> Option<
    u64,
>
    decreases sdt_entry_count(mem, t, width) - i,
{
    if i < 0 || i >= sdt_entry_count(mem, t, width) {
        None
    } else {
        let e = sdt_entry(mem, t, width, i);
        if e != 0 && mem.bytes_at(e as int, 4) == sig {
            Some(e)
        } else {
            find_from(mem, t, width, sig, i + 1)
        }
    }
}

/// The XSDT is used: the RSDP has a valid 2.0+ part with a non-zero XSDT
/// address.
pub open spec fn uses_xsdt(mem: &MemoryImage, a: int) -> bool {
    rsdp_v2_valid(mem, a) && mem.le_u64(a + 24) != 0
}

/// Physical address of the table `find_table` looks for, by signature `sig`.
pub open spec fn find_table_spec(mem: &MemoryImage, a: int, sig: Seq<u8>) -> Option<u64> {
    if !rsdp_valid(mem, a) {
        None
    } else if uses_xsdt(mem, a) {
        find_from(mem, mem.le_u64(a + 24) as int, 8, sig, 0)
    } else if mem.le_u32(a + 16) == 0 {
        None
    } else {
        find_from(mem, mem.le_u32(a + 16) as int, 4, sig, 0)
    }
}

/// The root table used from the RSDP at `a` ends below the top of the
/// address space, so entry addresses can be computed.
pub open spec fn root_table_fits(mem: &MemoryImage, a: int) -> bool {
    &&& uses_xsdt(mem, a) ==> mem.le_u64(a + 24) + mem.le_u32(mem.le_u64(a + 24) + 4)
        <= u64::MAX
    &&& !uses_xsdt(mem, a) ==> mem.le_u32(a + 16) + mem.le_u32(mem.le_u32(a + 16) + 4)
        <= u64::MAX
}

/// Search the root table at `t` (entries `width` bytes wide) for a table
/// with signature `sig`.
fn search_root_table(mem: &MemoryImage, t: u64, width: u64, sig: &[u8; 4]) -> (r: Option<u64>)
    requires
        width == 8 || width == 4,
        t + mem.le_u32(t + 4) <= u64::MAX,
    ensures
        r == find_from(mem, t as int, width as int, sig@, 0),
{
    let header = get_sdt_header(mem, t);
    let len = header.length as u64;
    if len < SDT_HEADER_SIZE {
        return None;
    }
    let entry_count = (len - SDT_HEADER_SIZE) / width;
    let mut i: u64 = 0;
    while i < entry_count
        invariant
            width == 8 || width == 4,
            t + len <= u64::MAX,
            len == mem.le_u32(t + 4),
            len >= SDT_HEADER_SIZE,
            entry_count == sdt_entry_count(mem, t as int, width as int),
            i <= entry_count,
            find_from(mem, t as int, width as int, sig@, 0) == find_from(
                mem,
                t as int,
                width as int,
                sig@,
                i as int,
            ),
        decreases entry_count - i,
    {
        proof {
            assert(SDT_HEADER_SIZE + i * width + width <= len) by (nonlinear_arith)
                requires
                    i < entry_count,
                    entry_count == (len - SDT_HEADER_SIZE) / (width as int),
                    width > 0,
                    len >= SDT_HEADER_SIZE,
            ;
        }
        let table_addr = if width == 8 {
            let entry_addr = t + SDT_HEADER_SIZE + i * 8;
            mem.read_u64(entry_addr, 0)
        } else {
            let entry_addr = t + SDT_HEADER_SIZE + i * 4;
            mem.read_u32(entry_addr, 0) as u64
        };
        assert(table_addr == sdt_entry(mem, t as int, width as int, i as int));
        if table_addr != 0 {
            let h = get_sdt_header(mem, table_addr);
            if h.signature[0] == sig[0] && h.signature[1] == sig[1] && h.signature[2] == sig[2]
                && h.signature[3] == sig[3] {
                assert(h.signature@ =~= sig@);
                return Some(table_addr);
            }
            proof {
                if mem.bytes_at(table_addr as int, 4) == sig@ {
                    assert(h.signature@[0] == sig@[0]);
                    assert(h.signature@[1] == sig@[1]);
                    assert(h.signature@[2] == sig@[2]);
                    assert(h.signature@[3] == sig@[3]);
                }
            }
        }
        i = i + 1;
    }
    None
}

/// Find an ACPI table by its 4-byte signature, through the XSDT when the
/// RSDP provides a non-zero one, else through the RSDT.  Returns the
/// table's physical address, or `None` if it is not found.
pub fn find_table(mem: &MemoryImage, rsdp_addr: u64, signature: &[u8; 4]) -> (r: Option<u64>)
    requires
        root_table_fits(mem, rsdp_addr as int),
    ensures
        r == find_table_spec(mem, rsdp_addr as int, signature@),
{
    let (rsdp_v1, rsdp_v2) = match parse_rsdp(mem, rsdp_addr) {
        Some(p) => p,
        None => {
            return None;
        },
    };
    let use_xsdt = match rsdp_v2 {
        Some(v2) => v2.xsdt_address != 0,
        None => false,
    };
    if use_xsdt {
        let xsdt_addr = match rsdp_v2 {
            Some(v2) => v2.xsdt_address,
            None => 0,
        };
        search_root_table(mem, xsdt_addr, 8, signature)
    } else {
        let rsdt_addr = rsdp_v1.rsdt_address as u64;
        if rsdt_addr == 0 {
            return None;
        }
        search_root_table(mem, rsdt_addr, 4, signature)
    }
}

/// Processor and I/O APIC counts after scanning the MADT entries from
/// `cur` to `end`, starting from `counts`: an enabled local APIC entry
/// (type 0, flags bit 0) adds a processor, an I/O APIC entry (type 1) adds
/// an I/O APIC; the scan stops at an entry shorter than its header or
/// running past `end`.
pub open spec fn madt_scan(mem: &MemoryImage, cur: int, end: int, counts: (int, int)) -> (
    int,
    int,
)
    decreases end - cur,
{
    if cur + 2 > end {
        counts
    } else {
        let t = mem.byte(cur);
        let l = mem.byte(cur + 1) as int;
        if l < 2 || cur + l > end {
            counts
        } else {
            let next = if t == 0 {
                if mem.le_u32(cur + 4) & 1 != 0 {
                    (counts.0 + 1, counts.1)
                } else {
                    counts
                }
            } else if t == 1 {
                (counts.0, counts.1 + 1)
            } else {
                counts
            };
            madt_scan(mem, cur + l, end, next)
        }
    }
}

/// The MADT at `m` is valid: signature "APIC" and a good checksum over its
/// length.
pub open spec fn madt_valid(mem: &MemoryImage, m: int) -> bool {
    mem.bytes_at(m, 4) == apic_signature() && byte_sum(mem.bytes_at(m, mem.le_u32(m + 4) as int))
        % 256 == 0
}

/// Addresses of the MADT entries from `cur` to `end`, walked by their
/// length bytes: the walk stops at an entry shorter than its two-byte
/// header or running past `end`.
pub open spec fn madt_entry_offsets(mem: &MemoryImage, cur: int, end: int) -> Seq<int>
    decreases end - cur,
{
    if cur + 2 > end {
        Seq::empty()
    } else {
        let l = mem.byte(cur + 1) as int;
        if l < 2 || cur + l > end {
            Seq::empty()
        } else {
            seq![cur] + madt_entry_offsets(mem, cur + l, end)
        }
    }
}

/// How many of the entries at `offs` have type byte `t`.
pub open spec fn entries_of_type(mem: &MemoryImage, offs: Seq<int>, t: u8) -> int
    decreases offs.len(),
{
    if offs.len() == 0 {
        0
    } else {
        (if mem.byte(offs[0]) == t {
            1int
        } else {
            0int
        }) + entries_of_type(mem, offs.drop_first(), t)
    }
}

/// How many of the entries at `offs` are local APICs (type 0) whose flags
/// word has its enabled bit set.
pub open spec fn enabled_local_apics(mem: &MemoryImage, offs: Seq<int>) -> int
    decreases offs.len(),
{
    if offs.len() == 0 {
        0
    } else {
        (if mem.byte(offs[0]) == 0 && mem.le_u32(offs[0] + 4) & 1 != 0 {
            1int
        } else {
            0int
        }) + enabled_local_apics(mem, offs.drop_first())
    }
}

/// What the MADT scan counts: starting from `counts`, it adds the number
/// of enabled local APIC entries to the processors and the number of
/// type-1 (I/O APIC) entries to the I/O APICs, over the entries walked by
/// length; entries of any other type count for nothing.
pub proof fn law_madt_counts_by_type(mem: &MemoryImage, cur: int, end: int, counts: (int, int))
    ensures
        madt_scan(mem, cur, end, counts) == (
            counts.0 + enabled_local_apics(mem, madt_entry_offsets(mem, cur, end)),
            counts.1 + entries_of_type(mem, madt_entry_offsets(mem, cur, end), 1),
        ),
    decreases end - cur,
{
    if cur + 2 > end {
    } else {
        let t = mem.byte(cur);
        let l = mem.byte(cur + 1) as int;
        if l < 2 || cur + l > end {
        } else {
            let next = if t == 0 {
                if mem.le_u32(cur + 4) & 1 != 0 {
                    (counts.0 + 1, counts.1)
                } else {
                    counts
                }
            } else if t == 1 {
                (counts.0, counts.1 + 1)
            } else {
                counts
            };
            law_madt_counts_by_type(mem, cur + l, end, next);
            let offs = madt_entry_offsets(mem, cur, end);
            assert(offs[0] == cur);
            assert(offs.drop_first() =~= madt_entry_offsets(mem, cur + l, end));
        }
    }
}

/// An entry of a type other than local APIC (0) or I/O APIC (1), such as an
/// interrupt source override, is skipped: the scan from it gives what the
/// scan from the entry after it gives.
pub proof fn law_madt_other_entries_skipped(mem: &MemoryImage, cur: int, end: int, counts: (int, int))
    requires
        mem.byte(cur) != 0,
        mem.byte(cur) != 1,
        mem.byte(cur + 1) >= 2,
        cur + mem.byte(cur + 1) <= end,
    ensures
        madt_scan(mem, cur, end, counts) == madt_scan(mem, cur + mem.byte(cur + 1), end, counts),
        madt_entry_offsets(mem, cur, end) == seq![cur] + madt_entry_offsets(
            mem,
            cur + mem.byte(cur + 1),
            end,
        ),
{
}

proof fn lemma_madt_scan_bound(mem: &MemoryImage, cur: int, end: int, counts: (int, int))
    requires
        counts.0 >= 0,
        counts.1 >= 0,
    ensures
        madt_scan(mem, cur, end, counts).0 >= counts.0,
        madt_scan(mem, cur, end, counts).1 >= counts.1,
        madt_scan(mem, cur, end, counts).0 + madt_scan(mem, cur, end, counts).1 <= counts.0
            + counts.1 + (if end > cur {
            end - cur
        } else {
            0
        }),
    decreases end - cur,
{
    if cur + 2 > end {
    } else {
        let t = mem.byte(cur);
        let l = mem.byte(cur + 1) as int;
        if l < 2 || cur + l > end {
        } else {
            let next = if t == 0 {
                if mem.le_u32(cur + 4) & 1 != 0 {
                    (counts.0 + 1, counts.1)
                } else {
                    counts
                }
            } else if t == 1 {
                (counts.0, counts.1 + 1)
            } else {
                counts
            };
            lemma_madt_scan_bound(mem, cur + l, end, next);
        }
    }
}

/// The MADT at `m` and its fixed header end below the top of the address
/// space.
pub open spec fn madt_fits(mem: &MemoryImage, m: u64) -> bool {
    m + mem.le_u32(m + 4) <= u64::MAX && m + MADT_HEADER_SIZE <= u64::MAX
}

/// Parse the MADT at `madt_addr`: `None` unless the signature is "APIC" and
/// the checksum holds; otherwise the local APIC address, flags, and the
/// counts of enabled processors and I/O APICs.
pub fn parse_madt(mem: &MemoryImage, madt_addr: u64) -> (r: Option<ApicInfo>)
    requires
        madt_fits(mem, madt_addr),
    ensures
        r is Some <==> madt_valid(mem, madt_addr as int),
        r matches Some(info) ==> {
            let counts = madt_scan(
                mem,
                madt_addr + MADT_HEADER_SIZE,
                madt_addr + mem.le_u32(madt_addr + 4),
                (0, 0),
            );
            &&& info.local_apic_addr == mem.le_u32(madt_addr + 36)
            &&& info.flags == mem.le_u32(madt_addr + 40)
            &&& info.processor_count == counts.0
            &&& info.io_apic_count == counts.1
        },
{
    let header = get_sdt_header(mem, madt_addr);
    let local_apic_addr = mem.read_u32(madt_addr, 36);
    let flags = mem.read_u32(madt_addr, 40);
    let sig = header.signature;
    if !(sig[0] == 0x41 && sig[1] == 0x50 && sig[2] == 0x49 && sig[3] == 0x43) {
        proof {
            if mem.bytes_at(madt_addr as int, 4) == apic_signature() {
                assert(sig@[0] == 0x41 && sig@[1] == 0x50 && sig@[2] == 0x49 && sig@[3] == 0x43);
            }
        }
        return None;
    }
    assert(sig@ =~= apic_signature());
    let length = header.length as u64;
    let madt_bytes = mem.read_bytes(madt_addr, length);
    if !verify_checksum(madt_bytes.as_slice()) {
        return None;
    }
    let mut info = ApicInfo { local_apic_addr, flags, processor_count: 0, io_apic_count: 0 };
    let entries_start = madt_addr + MADT_HEADER_SIZE;
    let entries_end = madt_addr + length;
    let mut current = entries_start;
    proof {
        lemma_madt_scan_bound(mem, entries_start as int, entries_end as int, (0, 0));
    }
    while current <= entries_end && entries_end - current >= 2
        invariant
            entries_end == madt_addr + mem.le_u32(madt_addr + 4),
            entries_end - madt_addr <= u32::MAX,
            entries_start == madt_addr + MADT_HEADER_SIZE,
            current >= entries_start,
            current == entries_start || current <= entries_end,
            info.local_apic_addr == mem.le_u32(madt_addr + 36),
            info.flags == mem.le_u32(madt_addr + 40),
            info.processor_count + info.io_apic_count <= current - entries_start,
            madt_scan(mem, entries_start as int, entries_end as int, (0, 0)) == madt_scan(
                mem,
                current as int,
                entries_end as int,
                (info.processor_count as int, info.io_apic_count as int),
            ),
        ensures
            madt_scan(mem, entries_start as int, entries_end as int, (0, 0)) == (
                info.processor_count as int,
                info.io_apic_count as int,
            ),
            info.local_apic_addr == mem.le_u32(madt_addr + 36),
            info.flags == mem.le_u32(madt_addr + 40),
        decreases entries_end - current,
    {
        let entry_type = mem.read_u8(current, 0);
        let entry_len = mem.read_u8(current, 1) as u64;
        if entry_len < 2 || entry_len > entries_end - current {
            break;
        }
        if entry_type == 0 {
            let entry_flags = mem.read_u32(current, 4);
            if entry_flags & 1 != 0 {
                assert(usize::MAX >= u32::MAX);
                info.processor_count = info.processor_count + 1;
            }
        } else if entry_type == 1 {
            info.io_apic_count = info.io_apic_count + 1;
        }
        current = current + entry_len;
    }
    Some(info)
}

/// What `init` reports for the RSDP at `a`: nothing when the root table
/// does not fit or has no MADT, or when the MADT is invalid or does not
/// fit; otherwise its local APIC address, flags and the counts of enabled
/// processors and of I/O APICs.
pub open spec fn acpi_info_spec(mem: &MemoryImage, a: u64) -> Option<ApicInfo> {
    if !root_table_fits(mem, a as int) {
        None
    } else {
        match find_table_spec(mem, a as int, apic_signature()) {
            None => None,
            Some(m) => if madt_valid(mem, m as int) && madt_fits(mem, m) {
                let c = madt_scan(mem, m + MADT_HEADER_SIZE, m + mem.le_u32(m + 4), (0, 0));
                Some(
                    ApicInfo {
                        local_apic_addr: mem.le_u32(m + 36),
                        flags: mem.le_u32(m + 40),
                        processor_count: c.0 as usize,
                        io_apic_count: c.1 as usize,
                    },
                )
            } else {
                None
            },
        }
    }
}

/// Whether the root table named by the RSDP at `rsdp` ends below the top
/// of the address space.
pub fn root_table_fits_check(mem: &MemoryImage, rsdp: u64) -> (r: bool)
    ensures
        r == root_table_fits(mem, rsdp as int),
{
    let revision = mem.read_u8(rsdp, 15);
    let v2_bytes = mem.read_bytes(rsdp, RSDP_V2_SIZE);
    let xsdt = mem.read_u64(rsdp, 24);
    let use_xsdt = revision >= 2 && verify_checksum(v2_bytes.as_slice()) && xsdt != 0;
    let table = if use_xsdt {
        xsdt
    } else {
        mem.read_u32(rsdp, 16) as u64
    };
    let len = mem.read_u32(table, 4) as u64;
    table <= u64::MAX - len
}

/// Parse the ACPI tables reachable from the RSDP at `rsdp`: validate the
/// RSDP, find the MADT ("APIC") and parse it.  Tables that would run past
/// the top of the address space are treated as absent.
pub fn init(mem: &MemoryImage, rsdp: u64) -> (r: Option<ApicInfo>)
    ensures
        r == acpi_info_spec(mem, rsdp),
        !root_table_fits(mem, rsdp as int) ==> r is None,
        find_table_spec(mem, rsdp as int, apic_signature()) is None ==> r is None,
        root_table_fits(mem, rsdp as int) ==> (find_table_spec(mem, rsdp as int, apic_signature()) matches Some(m) ==> {
            &&& r is Some <==> madt_valid(mem, m as int) && madt_fits(mem, m)
            &&& r matches Some(info) ==> {
                let counts = madt_scan(mem, m + MADT_HEADER_SIZE, m + mem.le_u32(m + 4), (0, 0));
                &&& info.local_apic_addr == mem.le_u32(m + 36)
                &&& info.flags == mem.le_u32(m + 40)
                &&& info.processor_count == counts.0
                &&& info.io_apic_count == counts.1
            }
        }),
{
    if !root_table_fits_check(mem, rsdp) {
        return None;
    }
    let _ = match parse_rsdp(mem, rsdp) {
        Some(p) => p,
        None => {
            return None;
        },
    };
    let apic: [u8; 4] = [0x41, 0x50, 0x49, 0x43];
    assert(apic@ =~= apic_signature());
    let madt_addr = match find_table(mem, rsdp, &apic) {
        Some(a) => a,
        None => {
            return None;
        },
    };
    let len = mem.read_u32(madt_addr, 4) as u64;
    if madt_addr > u64::MAX - MADT_HEADER_SIZE || madt_addr > u64::MAX - len {
        return None;
    }
    parse_madt(mem, madt_addr)
}

/// Appending the byte that complements a table's sum to a multiple of 256
/// makes the table's checksum hold: the value an ACPI producer stores in
/// the checksum field.
pub proof fn law_checksum_complement(data: Seq<u8>)
    ensures
        byte_sum(data.push(((256 - byte_sum(data) % 256) % 256) as u8)) % 256 == 0,
{
    lemma_byte_sum_nonneg(data);
    let t = data.push(((256 - byte_sum(data) % 256) % 256) as u8);
    assert(t.drop_last() =~= data);
    let b = byte_sum(data);
    assert((b + (256 - b % 256) % 256) % 256 == 0) by (nonlinear_arith)
        requires
            b >= 0,
    ;
}

} // verus!
