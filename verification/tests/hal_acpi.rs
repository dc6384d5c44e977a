use elminux::hal::acpi::{
    calculate_checksum, find_table, get_sdt_header, init, parse_madt, parse_rsdp,
    validate_rsdp_signature, verify_checksum, ApicInfo, RsdpV1,
};
use elminux::hal::memory::MemoryImage;

const BASE: u64 = 0xE_0000;
const RSDP: u64 = BASE;
const RSDT: u64 = BASE + 0x100;
const XSDT: u64 = BASE + 0x180;
const MADT: u64 = BASE + 0x200;
const FACP: u64 = BASE + 0x300;

fn put(buf: &mut [u8], at: u64, bytes: &[u8]) {
    let o = (at - BASE) as usize;
    buf[o..o + bytes.len()].copy_from_slice(bytes);
}

fn fix_checksum(buf: &mut [u8], start: u64, len: usize, slot: u64) {
    let s = (start - BASE) as usize;
    buf[(slot - BASE) as usize] = 0;
    let sum: u32 = buf[s..s + len].iter().map(|&b| b as u32).sum();
    buf[(slot - BASE) as usize] = ((256 - (sum % 256)) % 256) as u8;
}

fn sdt(buf: &mut [u8], at: u64, sig: &[u8; 4], len: u32) {
    put(buf, at, sig);
    put(buf, at + 4, &len.to_le_bytes());
    put(buf, at + 8, &[1]);
    put(buf, at + 10, b"ELMNUX");
}

/// An RSDP (revision `rev`) pointing at an RSDT (and an XSDT when `rev` is
/// 2) that lists a FACP and a MADT with two local APICs (one enabled) and
/// one I/O APIC.
fn firmware(rev: u8) -> Vec<u8> {
    let mut b = vec![0u8; 0x1000];
    put(&mut b, RSDP, b"RSD PTR ");
    put(&mut b, RSDP + 9, b"ELMNUX");
    put(&mut b, RSDP + 15, &[rev]);
    put(&mut b, RSDP + 16, &(RSDT as u32).to_le_bytes());
    fix_checksum(&mut b, RSDP, 20, RSDP + 8);
    if rev >= 2 {
        put(&mut b, RSDP + 20, &36u32.to_le_bytes());
        put(&mut b, RSDP + 24, &XSDT.to_le_bytes());
        fix_checksum(&mut b, RSDP, 36, RSDP + 32);
        sdt(&mut b, XSDT, b"XSDT", 36 + 16);
        put(&mut b, XSDT + 36, &FACP.to_le_bytes());
        put(&mut b, XSDT + 44, &MADT.to_le_bytes());
        fix_checksum(&mut b, XSDT, 52, XSDT + 9);
    }
    sdt(&mut b, RSDT, b"RSDT", 36 + 8);
    put(&mut b, RSDT + 36, &(FACP as u32).to_le_bytes());
    put(&mut b, RSDT + 40, &(MADT as u32).to_le_bytes());
    fix_checksum(&mut b, RSDT, 44, RSDT + 9);
    sdt(&mut b, FACP, b"FACP", 36);
    fix_checksum(&mut b, FACP, 36, FACP + 9);
    let madt_len: u32 = 44 + 8 + 8 + 12;
    sdt(&mut b, MADT, b"APIC", madt_len);
    put(&mut b, MADT + 36, &0xFEE0_0000u32.to_le_bytes());
    put(&mut b, MADT + 40, &1u32.to_le_bytes());
    put(&mut b, MADT + 44, &[0, 8, 0, 0, 1, 0, 0, 0]);
    put(&mut b, MADT + 52, &[0, 8, 1, 1, 0, 0, 0, 0]);
    put(&mut b, MADT + 60, &[1, 12, 2, 0, 0x00, 0x00, 0xC0, 0xFE, 0, 0, 0, 0]);
    fix_checksum(&mut b, MADT, madt_len as usize, MADT + 9);
    b
}

fn image(rev: u8) -> MemoryImage {
    MemoryImage::new(BASE, firmware(rev))
}

#[test]
fn checksum_of_bytes() {
    assert_eq!(calculate_checksum(&[]), 0);
    assert_eq!(calculate_checksum(&[1, 2, 3]), 6);
    assert_eq!(calculate_checksum(&[200, 100]), 44);
    assert!(verify_checksum(&[0x10, 0xF0]));
    assert!(!verify_checksum(&[0x10, 0xEF]));
    assert!(verify_checksum(&[]));
}

#[test]
fn rsdp_signature() {
    let good = RsdpV1 { signature: *b"RSD PTR ", checksum: 0, oem_id: [0; 6], revision: 0, rsdt_address: 0 };
    assert!(validate_rsdp_signature(&good));
    let bad = RsdpV1 { signature: *b"RSD PTR!", ..good };
    assert!(!validate_rsdp_signature(&bad));
}

#[test]
fn parse_rsdp_v1_and_v2() {
    let m1 = image(0);
    let (v1, v2) = parse_rsdp(&m1, RSDP).unwrap();
    assert_eq!(v1.rsdt_address, RSDT as u32);
    assert_eq!(&v1.oem_id, b"ELMNUX");
    assert!(v2.is_none());
    let m2 = image(2);
    let (_, v2) = parse_rsdp(&m2, RSDP).unwrap();
    let v2 = v2.unwrap();
    assert_eq!(v2.xsdt_address, XSDT);
    assert_eq!(v2.length, 36);
}

#[test]
fn parse_rsdp_rejects_bad_signature_or_checksum() {
    let mut b = firmware(0);
    b[0] = b'X';
    assert!(parse_rsdp(&MemoryImage::new(BASE, b), RSDP).is_none());
    let mut b = firmware(0);
    b[10] ^= 1;
    assert!(parse_rsdp(&MemoryImage::new(BASE, b), RSDP).is_none());
    assert!(parse_rsdp(&image(0), RSDP + 0x40).is_none());
}

#[test]
fn sdt_header_fields() {
    let m = image(0);
    let h = get_sdt_header(&m, MADT);
    assert_eq!(&h.signature, b"APIC");
    assert_eq!(h.length, 72);
    assert_eq!(h.revision, 1);
    assert_eq!(&h.oem_id, b"ELMNUX");
}

#[test]
fn find_table_through_rsdt_and_xsdt() {
    for rev in [0u8, 2] {
        let m = image(rev);
        assert_eq!(find_table(&m, RSDP, b"APIC"), Some(MADT));
        assert_eq!(find_table(&m, RSDP, b"FACP"), Some(FACP));
        assert_eq!(find_table(&m, RSDP, b"HPET"), None);
    }
}

#[test]
fn madt_counts_enabled_processors_and_io_apics() {
    let m = image(0);
    let info = parse_madt(&m, MADT).unwrap();
    assert_eq!(info.local_apic_addr, 0xFEE0_0000);
    assert_eq!(info.flags, 1);
    assert_eq!(info.processor_count, 1);
    assert_eq!(info.io_apic_count, 1);
}

#[test]
fn madt_with_bad_checksum_is_rejected() {
    let mut b = firmware(0);
    b[(MADT - BASE) as usize + 45] ^= 0x40;
    assert!(parse_madt(&MemoryImage::new(BASE, b), MADT).is_none());
    assert!(parse_madt(&image(0), FACP).is_none());
}

#[test]
fn acpi_init_reports_apics() {
    let info = init(&image(2), RSDP).unwrap();
    assert_eq!(info.processor_count, 1);
    assert_eq!(info.io_apic_count, 1);
    assert!(init(&image(0), RSDP + 0x10).is_none());
}

#[test]
fn apic_info_default_is_one_bsp() {
    let d = ApicInfo::default();
    assert_eq!(d.local_apic_addr, 0xFEE0_0000);
    assert_eq!(d.flags, 0);
    assert_eq!(d.processor_count, 1);
    assert_eq!(d.io_apic_count, 0);
}

#[test]
fn memory_image_reads_little_endian() {
    let m = MemoryImage::new(0x1000, vec![0x78, 0x56, 0x34, 0x12, 0xEF, 0xCD, 0xAB, 0x89]);
    assert_eq!(m.read_u8(0x1000, 0), 0x78);
    assert_eq!(m.read_u16(0x1000, 0), 0x5678);
    assert_eq!(m.read_u32(0x1000, 0), 0x1234_5678);
    assert_eq!(m.read_u64(0x1000, 0), 0x89AB_CDEF_1234_5678);
    assert_eq!(m.read_u8(0x1000, 8), 0);
    assert_eq!(m.read_u8(0x0FFF, 0), 0);
    assert_eq!(m.read_bytes(0x1002, 3), vec![0x34, 0x12, 0xEF]);
}

#[test]
fn checksum_complement_makes_table_valid() {
    let mut data = vec![0x41u8, 0x50, 0x49, 0x43, 200, 17];
    let c = calculate_checksum(&data);
    data.push(((256 - c as u32) % 256) as u8);
    assert!(verify_checksum(&data));
    let mut zero = vec![0u8; 4];
    zero.push(((256 - calculate_checksum(&zero) as u32) % 256) as u8);
    assert!(verify_checksum(&zero));
}

#[test]
fn madt_at_top_of_address_space_parses() {
    let base = u64::MAX - 0x4F;
    let mut b = vec![0u8; 0x4F];
    let len: u32 = 44 + 8;
    b[0..4].copy_from_slice(b"APIC");
    b[4..8].copy_from_slice(&len.to_le_bytes());
    b[36..40].copy_from_slice(&0xFEE0_0000u32.to_le_bytes());
    b[44..52].copy_from_slice(&[0, 8, 0, 0, 1, 0, 0, 0]);
    let sum: u32 = b[..len as usize].iter().map(|&x| x as u32).sum();
    b[9] = ((256 - (sum % 256)) % 256) as u8;
    let info = parse_madt(&MemoryImage::new(base, b), base).unwrap();
    assert_eq!(info.processor_count, 1);
    assert_eq!(info.local_apic_addr, 0xFEE0_0000);
}
