use elminux::boot::{
    parse_boot_info, parse_start_info, read_e820, read_start_info, AcpiStatus, BootReport,
    MemoryMapStatus, StartInfo,
};
use elminux::mm::pmm::BuddyAllocator;
use elminux::mm::{e820_check, E820Entry};
use elminux::hal::memory::MemoryImage;
use elminux::image::{parse_image_args, ImageCommand, ImageKind};
use elminux::mm::e820;

fn start_info_bytes(version: u32) -> Vec<u8> {
    start_info_with_magic(0x656e78, version)
}

fn start_info_with_magic(magic: u32, version: u32) -> Vec<u8> {
    let mut b = Vec::new();
    b.extend_from_slice(&magic.to_le_bytes());
    b.extend_from_slice(&version.to_le_bytes());
    b.extend_from_slice(&1u32.to_le_bytes());
    b.extend_from_slice(&0u32.to_le_bytes());
    b.extend_from_slice(&0x1111u64.to_le_bytes());
    b.extend_from_slice(&0x2222u64.to_le_bytes());
    b.extend_from_slice(&0xE0000u64.to_le_bytes());
    b.extend_from_slice(&0x9000u64.to_le_bytes());
    b.extend_from_slice(&2u32.to_le_bytes());
    b.extend_from_slice(&0u32.to_le_bytes());
    b
}

#[test]
fn start_info_decodes_fields() {
    let m = MemoryImage::new(0x8000, start_info_bytes(1));
    let i = read_start_info(&m, 0x8000);
    assert_eq!(i.magic, 0x656e78);
    assert_eq!(i.version, 1);
    assert_eq!(i.flags, 1);
    assert_eq!(i.modlist_paddr, 0x1111);
    assert_eq!(i.cmdline_paddr, 0x2222);
    assert_eq!(i.rsdp_paddr, 0xE0000);
    assert_eq!(i.memmap_paddr, 0x9000);
    assert_eq!(i.memmap_entries, 2);
}

#[test]
fn start_info_checks() {
    let m = MemoryImage::new(0x8000, start_info_bytes(1));
    assert!(matches!(parse_start_info(&m, 0), StartInfo::Missing));
    assert!(matches!(parse_start_info(&m, 0x8000), StartInfo::Valid(i) if i.version == 1));
    let bad = MemoryImage::new(0x8000, start_info_bytes(0));
    assert!(matches!(parse_start_info(&bad, 0x8000), StartInfo::Invalid));
    let no_magic = MemoryImage::new(0x8000, start_info_with_magic(0, 1));
    assert!(matches!(parse_start_info(&no_magic, 0x8000), StartInfo::Invalid));
}

#[test]
fn e820_map_decodes_entries() {
    let mut b = Vec::new();
    for (addr, size, typ) in [(0u64, 0x9F000u64, e820::USABLE), (0x10_0000, 0x7F0_0000, e820::USABLE)] {
        b.extend_from_slice(&addr.to_le_bytes());
        b.extend_from_slice(&size.to_le_bytes());
        b.extend_from_slice(&typ.to_le_bytes());
        b.extend_from_slice(&[0; 4]);
    }
    let m = MemoryImage::new(0x9000, b);
    let v = read_e820(&m, 0x9000, 2);
    assert_eq!(v.len(), 2);
    assert_eq!(v[1].addr, 0x10_0000);
    assert_eq!(v[1].size, 0x7F0_0000);
    assert_eq!(v[1].typ, e820::USABLE);
    assert!(read_e820(&m, 0, 2).is_empty());
    assert!(read_e820(&m, 0x9000, 0).is_empty());
}

fn args(a: &[&str]) -> Vec<String> {
    a.iter().map(|s| s.to_string()).collect()
}

#[test]
fn image_builder_command_line() {
    assert!(matches!(parse_image_args(&args(&["image-builder"])), ImageCommand::Usage));
    assert!(matches!(parse_image_args(&args(&["b", "tar"])), ImageCommand::Unknown(c) if c == "tar"));
    assert!(matches!(
        parse_image_args(&args(&["b", "iso", "k"])),
        ImageCommand::KindUsage(ImageKind::Iso)
    ));
    match parse_image_args(&args(&["b", "disk", "kernel.elf", "initrd", "out.img"])) {
        ImageCommand::Build { kind, kernel, initrd, output } => {
            assert!(kind == ImageKind::Disk);
            assert_eq!(kernel, "kernel.elf");
            assert_eq!(initrd, "initrd");
            assert_eq!(output, "out.img");
        }
        _ => panic!("expected a build"),
    }
}

/// Low memory with a start info at 0x8000 (RSDP pointer `rsdp`, e820 map
/// at 0x9000 with `n` entries) and a two-entry map.
fn low_memory(version: u32, rsdp: u64, n: u32) -> MemoryImage {
    low_memory_with_magic(0x656e78, version, rsdp, n)
}

fn low_memory_with_magic(magic: u32, version: u32, rsdp: u64, n: u32) -> MemoryImage {
    let mut b = vec![0u8; 0xA000];
    let mut si = start_info_with_magic(magic, version);
    si[32..40].copy_from_slice(&rsdp.to_le_bytes());
    si[48..52].copy_from_slice(&n.to_le_bytes());
    b[0x8000..0x8000 + 56].copy_from_slice(&si);
    let mut at = 0x9000;
    for (addr, size, typ) in [(0u64, 0x9F000u64, e820::USABLE), (0x10_0000, 0x7F0_0000, e820::USABLE)] {
        b[at..at + 8].copy_from_slice(&addr.to_le_bytes());
        b[at + 8..at + 16].copy_from_slice(&size.to_le_bytes());
        b[at + 16..at + 20].copy_from_slice(&typ.to_le_bytes());
        at += 24;
    }
    MemoryImage::new(0, b)
}

#[test]
fn boot_info_sets_up_frame_allocator() {
    let m = low_memory(1, 0, 2);
    let mut pmm = BuddyAllocator::new();
    match parse_boot_info(&m, 0x8000, &mut pmm) {
        BootReport::Parsed { info, acpi, memory } => {
            assert_eq!(info.version, 1);
            assert!(matches!(acpi, AcpiStatus::NoRsdp));
            assert!(matches!(memory, MemoryMapStatus::Loaded(p) if p == 0x9F + 0x7F00));
        }
        _ => panic!("expected parsed boot info"),
    }
    assert_eq!(pmm.alloc_frame(), Some(0x100_1000));
}

#[test]
fn boot_info_reports_failures() {
    let mut pmm = BuddyAllocator::new();
    assert!(matches!(parse_boot_info(&low_memory(1, 0, 2), 0, &mut pmm), BootReport::NoStartInfo));
    assert!(matches!(
        parse_boot_info(&low_memory(0, 0, 2), 0x8000, &mut pmm),
        BootReport::InvalidStartInfo
    ));
    assert!(matches!(
        parse_boot_info(&low_memory_with_magic(0, 1, 0, 2), 0x8000, &mut pmm),
        BootReport::InvalidStartInfo
    ));
    match parse_boot_info(&low_memory(1, 0x100, 0), 0x8000, &mut pmm) {
        BootReport::Parsed { acpi, memory, .. } => {
            assert!(matches!(acpi, AcpiStatus::Failed));
            assert!(matches!(memory, MemoryMapStatus::Missing));
        }
        _ => panic!("expected parsed boot info"),
    }
    assert_eq!(pmm.alloc_frame(), None);
}

#[test]
fn e820_map_checks() {
    let ok = [E820Entry { addr: 0x1000, size: 0x2000, typ: e820::USABLE }];
    assert!(e820_check(&ok));
    let wraps = [E820Entry { addr: u64::MAX - 0xFFF, size: 0x2000, typ: e820::USABLE }];
    assert!(!e820_check(&wraps));
    let reserved_wraps = [E820Entry { addr: u64::MAX - 0xFFF, size: 0x2000, typ: e820::RESERVED }];
    assert!(e820_check(&reserved_wraps));
    assert!(e820_check(&[]));
}
