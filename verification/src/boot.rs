//! Boot information handed over by the PVH loader: the start-info
//! structure and the e820 memory map it points to, decoded from physical
//! memory.
use vstd::prelude::*;
use crate::hal::memory::MemoryImage;
use crate::hal::acpi::{acpi_info_spec, init as acpi_init, ApicInfo};
use crate::mm::pmm::BuddyAllocator;
use crate::mm::{e820_check, e820_ok, init_from_e820, pmm_after_e820, usable_pages, E820Entry};

verus! {

/// PVH start info (the Xen `hvm_start_info` layout, 56 bytes).
#[derive(Clone, Copy, Debug)]
pub struct HvmStartInfo {
    /// Signature ("xen", 0x656e78) or 0.
    pub magic: u32,
    /// Version of the structure; 0 is invalid.
    pub version: u32,
    /// Flags (bit 0: 64-bit).
    pub flags: u32,
    /// Number of loaded modules.
    pub nr_modules: u32,
    /// Physical address of the module list.
    pub modlist_paddr: u64,
    /// Physical address of the command line.
    pub cmdline_paddr: u64,
    /// Physical address of the ACPI RSDP, or 0.
    pub rsdp_paddr: u64,
    /// Physical address of the e820 memory map.
    pub memmap_paddr: u64,
    /// Number of e820 entries.
    pub memmap_entries: u32,
    /// Reserved.
    pub reserved: u32,
}

/// Size of the start-info structure in bytes.
pub const START_INFO_SIZE: u64 = 56;

/// Size of one e820 entry in memory (address, size, type, padding).
pub const E820_ENTRY_SIZE: u64 = 24;

/// The start-info structure stored at `a`, little endian.
pub open spec fn start_info_at(mem: &MemoryImage, a: int) -> HvmStartInfo {
    HvmStartInfo {
        magic: mem.le_u32(a),
        version: mem.le_u32(a + 4),
        flags: mem.le_u32(a + 8),
        nr_modules: mem.le_u32(a + 12),
        modlist_paddr: mem.le_u64(a + 16),
        cmdline_paddr: mem.le_u64(a + 24),
        rsdp_paddr: mem.le_u64(a + 32),
        memmap_paddr: mem.le_u64(a + 40),
        memmap_entries: mem.le_u32(a + 48),
        reserved: mem.le_u32(a + 52),
    }
}

/// The e820 entry stored at `a`.
pub open spec fn e820_at(mem: &MemoryImage, a: int) -> E820Entry {
    E820Entry { addr: mem.le_u64(a), size: mem.le_u64(a + 8), typ: mem.le_u32(a + 16) }
}

/// What the start-info pointer handed over at boot leads to.
pub enum StartInfo {
    /// No start info was provided (null pointer).
    Missing,
    /// The structure has version 0 or magic 0.
    Invalid,
    /// A usable structure.
    Valid(HvmStartInfo),
}

/// Decode the start-info structure at `addr`.
pub fn read_start_info(mem: &MemoryImage, addr: u64) -> (r: HvmStartInfo)
    ensures
        r == start_info_at(mem, addr as int),
{
    HvmStartInfo {
        magic: mem.read_u32(addr, 0),
        version: mem.read_u32(addr, 4),
        flags: mem.read_u32(addr, 8),
        nr_modules: mem.read_u32(addr, 12),
        modlist_paddr: mem.read_u64(addr, 16),
        cmdline_paddr: mem.read_u64(addr, 24),
        rsdp_paddr: mem.read_u64(addr, 32),
        memmap_paddr: mem.read_u64(addr, 40),
        memmap_entries: mem.read_u32(addr, 48),
        reserved: mem.read_u32(addr, 52),
    }
}

/// A start info passes the sanity check: non-zero version and magic.
pub open spec fn start_info_sane(info: HvmStartInfo) -> bool {
    info.version != 0 && info.magic != 0
}

/// Check the start-info pointer `boot_info` and decode what it points to:
/// a null pointer means no start info, and version 0 or magic 0 marks it
/// invalid.
pub fn parse_start_info(mem: &MemoryImage, boot_info: u64) -> (r: StartInfo)
    ensures
        boot_info == 0 ==> r is Missing,
        boot_info != 0 && !start_info_sane(start_info_at(mem, boot_info as int)) ==> r is Invalid,
        boot_info != 0 && start_info_sane(start_info_at(mem, boot_info as int)) ==> r == StartInfo::Valid(
            start_info_at(mem, boot_info as int),
        ),
{
    if boot_info == 0 {
        return StartInfo::Missing;
    }
    let info = read_start_info(mem, boot_info);
    if info.version == 0 || info.magic == 0 {
        return StartInfo::Invalid;
    }
    StartInfo::Valid(info)
}

/// Decode the `entries` e820 entries stored from `paddr` on.  A null
/// address or an empty count gives no entries.
pub fn read_e820(mem: &MemoryImage, paddr: u64, entries: u32) -> (r: Vec<E820Entry>)
    requires
        paddr + E820_ENTRY_SIZE * entries <= u64::MAX,
    ensures
        paddr == 0 || entries == 0 ==> r@.len() == 0,
        paddr != 0 && entries != 0 ==> r@.len() == entries,
        paddr != 0 ==> forall|i: int|
            0 <= i < r@.len() ==> #[trigger] r@[i] == e820_at(mem, paddr + E820_ENTRY_SIZE * i),
{
    let mut v: Vec<E820Entry> = Vec::new();
    if paddr == 0 || entries == 0 {
        return v;
    }
    let mut i: u32 = 0;
    while i < entries
        invariant
            paddr != 0,
            i <= entries,
            paddr + E820_ENTRY_SIZE * entries <= u64::MAX,
            v@.len() == i,
            forall|j: int| 0 <= j < i ==> #[trigger] v@[j] == e820_at(mem, paddr + E820_ENTRY_SIZE * j),
        decreases entries - i,
    {
        assert(paddr + E820_ENTRY_SIZE * i + E820_ENTRY_SIZE <= u64::MAX) by (nonlinear_arith)
            requires
                i < entries,
                paddr + E820_ENTRY_SIZE * entries <= u64::MAX,
        ;
        let a = paddr + E820_ENTRY_SIZE * (i as u64);
        v.push(E820Entry { addr: mem.read_u64(a, 0), size: mem.read_u64(a, 8), typ: mem.read_u32(a, 16) });
        i = i + 1;
    }
    v
}

/// The e820 map of `n` entries stored from `paddr` on.
pub open spec fn e820_map_at(mem: &MemoryImage, paddr: u64, n: u32) -> Seq<E820Entry> {
    Seq::new(n as nat, |i: int| e820_at(mem, paddr + E820_ENTRY_SIZE * i))
}

/// Outcome of the ACPI bring-up during boot.
pub enum AcpiStatus {
    /// The start info names no RSDP.
    NoRsdp,
    /// The tables could not be used.
    Failed,
    /// The MADT was found and parsed.
    Found(ApicInfo),
}

/// Outcome of handing the e820 map to the frame allocator.
pub enum MemoryMapStatus {
    /// No map (null address or no entries).
    Missing,
    /// The map runs past the top of the address space, a usable entry
    /// does, or its page count overflows.
    Invalid,
    /// The allocator was set up; the map holds this many usable pages.
    Loaded(usize),
}

/// What boot-information parsing found.
pub enum BootReport {
    /// No start info was handed over.
    NoStartInfo,
    /// The start info has version 0 or magic 0.
    InvalidStartInfo,
    /// The start info, and what came of its ACPI and memory-map pointers.
    Parsed { info: HvmStartInfo, acpi: AcpiStatus, memory: MemoryMapStatus },
}

/// ACPI outcome for a start info whose RSDP pointer is `rsdp`.
pub open spec fn acpi_status_spec(mem: &MemoryImage, rsdp: u64) -> AcpiStatus {
    if rsdp == 0 {
        AcpiStatus::NoRsdp
    } else {
        match acpi_info_spec(mem, rsdp) {
            Some(i) => AcpiStatus::Found(i),
            None => AcpiStatus::Failed,
        }
    }
}

/// Memory-map outcome for a map of `n` entries at `paddr`.
pub open spec fn memory_status_spec(mem: &MemoryImage, paddr: u64, n: u32) -> MemoryMapStatus {
    if paddr == 0 || n == 0 {
        MemoryMapStatus::Missing
    } else if paddr + E820_ENTRY_SIZE * n > u64::MAX || !e820_ok(e820_map_at(mem, paddr, n)) {
        MemoryMapStatus::Invalid
    } else {
        MemoryMapStatus::Loaded(usable_pages(e820_map_at(mem, paddr, n)) as usize)
    }
}

/// Parse the boot information at `boot_info` in physical memory `mem`:
/// check the start info, bring up ACPI when it names an RSDP, and hand
/// the e820 memory map to the frame allocator `pmm`.
pub fn parse_boot_info(mem: &MemoryImage, boot_info: u64, pmm: &mut BuddyAllocator) -> (r: BootReport)
    ensures
        boot_info == 0 ==> r is NoStartInfo && *final(pmm) == *old(pmm),
        boot_info != 0 && !start_info_sane(start_info_at(mem, boot_info as int)) ==> r is InvalidStartInfo
            && *final(pmm) == *old(pmm),
        boot_info != 0 && start_info_sane(start_info_at(mem, boot_info as int)) ==> {
            let info = start_info_at(mem, boot_info as int);
            let status = memory_status_spec(mem, info.memmap_paddr, info.memmap_entries);
            &&& r == (BootReport::Parsed {
                info,
                acpi: acpi_status_spec(mem, info.rsdp_paddr),
                memory: status,
            })
            &&& status is Loaded ==> pmm_after_e820(
                *old(pmm),
                *final(pmm),
                e820_map_at(mem, info.memmap_paddr, info.memmap_entries),
            )
            &&& !(status is Loaded) ==> *final(pmm) == *old(pmm)
        },
{
    let info = match parse_start_info(mem, boot_info) {
        StartInfo::Missing => {
            return BootReport::NoStartInfo;
        },
        StartInfo::Invalid => {
            return BootReport::InvalidStartInfo;
        },
        StartInfo::Valid(info) => info,
    };
    let acpi = if info.rsdp_paddr != 0 {
        match acpi_init(mem, info.rsdp_paddr) {
            Some(i) => AcpiStatus::Found(i),
            None => AcpiStatus::Failed,
        }
    } else {
        AcpiStatus::NoRsdp
    };
    let paddr = info.memmap_paddr;
    let n = info.memmap_entries;
    let memory = if paddr == 0 || n == 0 {
        MemoryMapStatus::Missing
    } else if paddr > u64::MAX - E820_ENTRY_SIZE * (n as u64) {
        MemoryMapStatus::Invalid
    } else {
        let entries = read_e820(mem, paddr, n);
        assert(entries@ =~= e820_map_at(mem, paddr, n));
        if !e820_check(entries.as_slice()) {
            MemoryMapStatus::Invalid
        } else {
            MemoryMapStatus::Loaded(init_from_e820(entries.as_slice(), pmm))
        }
    };
    BootReport::Parsed { info, acpi, memory }
}

} // verus!
