use elminux::hal::gdt::{Gdt, Tss, GDT_ENTRIES, TSS_SIZE};
use elminux::hal::idt::{page_fault_in_identity_range, Idt, IdtEntry, IDT_ENTRIES, PAGE_FAULT_VECTOR};

#[test]
fn gdt_segments_have_known_encodings() {
    assert_eq!(Gdt::create_segment(0, 0xFFFFF, 0x9A, 0xA0), 0x00AF_9A00_0000_FFFF);
    assert_eq!(Gdt::create_segment(0, 0xFFFFF, 0x92, 0xC0), 0x00CF_9200_0000_FFFF);
    assert_eq!(Gdt::create_segment(0x1234_5678, 0xABCD, 0xFA, 0xA0), 0x12A0_FA34_5678_ABCD);
}

#[test]
fn tss_descriptor_splits_base() {
    let (low, high) = Gdt::create_tss_descriptor(0x1234_5678_9ABC_DEF0, 103, 0x89);
    assert_eq!(low, 0x9A00_89BC_DEF0_0067);
    assert_eq!(high, 0x1234_5678);
}

#[test]
fn gdt_init_layout() {
    let mut g = Gdt::new();
    for i in 0..GDT_ENTRIES {
        assert_eq!(g.entry(i), 0);
    }
    g.init(0xFFFF_8000_0010_0000);
    assert_eq!(g.entry(0), 0);
    assert_eq!(g.entry(1), 0x00AF_9A00_0000_FFFF);
    assert_eq!(g.entry(2), 0x00CF_9200_0000_FFFF);
    assert_eq!(g.entry(3), 0x00AF_FA00_0000_FFFF);
    assert_eq!(g.entry(4), 0x00CF_F200_0000_FFFF);
    assert_eq!(g.entry(5), 0x0000_8910_0000_0067);
    assert_eq!(g.entry(6), 0xFFFF_8000);
}

#[test]
fn tss_defaults_and_rsp0() {
    let mut t = Tss::new();
    assert_eq!(t.rsp0, 0);
    assert_eq!(t.iomap_base, TSS_SIZE - 1);
    t.set_rsp0(0xFFFF_8000_0020_0000);
    assert_eq!(t.rsp0, 0xFFFF_8000_0020_0000);
    assert_eq!(t.rsp1, 0);
}

#[test]
fn idt_entry_encodes_handler() {
    let mut e = IdtEntry::new();
    assert_eq!(e.type_attr, 0);
    e.set_handler(0xFFFF_8000_1234_5678);
    assert_eq!(e.offset_low, 0x5678);
    assert_eq!(e.offset_mid, 0x1234);
    assert_eq!(e.offset_high, 0xFFFF_8000);
    assert_eq!(e.selector, 0x08);
    assert_eq!(e.type_attr, 0x8E);
    assert_eq!(e.ist, 0);
}

#[test]
fn idt_set_handler_round_trip() {
    let mut idt = Idt::new();
    idt.set_handler(33, 0x1000);
    let e = idt.entry(33);
    assert_eq!(e.offset_low, 0x1000);
    assert_eq!(e.type_attr, 0x8E);
    assert_eq!(idt.entry(34).type_attr, 0);
}

#[test]
fn idt_default_handlers() {
    let mut idt = Idt::new();
    idt.install_handlers(0xAAAA, 0xBBBB, 0xCCCC);
    for i in 0..IDT_ENTRIES {
        let e = idt.entry(i);
        let expected = if i == PAGE_FAULT_VECTOR {
            0xBBBB
        } else if i < 32 {
            0xAAAA
        } else {
            0xCCCC
        };
        assert_eq!(e.offset_low, expected, "vector {}", i);
        assert_eq!(e.type_attr, 0x8E);
    }
}

#[test]
fn page_fault_identity_range() {
    assert!(page_fault_in_identity_range(0));
    assert!(page_fault_in_identity_range(0xFFFF_FFFF));
    assert!(!page_fault_in_identity_range(0x1_0000_0000));
}

#[test]
fn segment_descriptor_fields_round_trip() {
    let d = Gdt::create_segment(0xDEAD_BEEF, 0x1_2345, 0x9A, 0xC0);
    assert_eq!(d & 0xFFFF, 0x2345);
    assert_eq!(((d >> 16) & 0xFF_FFFF) | (((d >> 56) & 0xFF) << 24), 0xDEAD_BEEF);
    assert_eq!((d >> 40) & 0xFF, 0x9A);
    assert_eq!((d >> 48) & 0xFF, 0xC1);
    assert_eq!((d & 0xFFFF) | (((d >> 48) & 0xF) << 16), 0x1_2345);
    let k = Gdt::create_segment(0, 0xFFFFF, 0x9A, 0xA0);
    assert_eq!((k & 0xFFFF) | (((k >> 48) & 0xF) << 16), 0xF_FFFF);
    assert_ne!(k & (1 << 55), 0);
    assert_ne!(k & (1 << 53), 0);
    let (lo, hi) = Gdt::create_tss_descriptor(0xFFFF_8000_0012_3456, 103, 0x89);
    assert_eq!(((lo >> 16) & 0xFF_FFFF) | (((lo >> 56) & 0xFF) << 24) | (hi << 32), 0xFFFF_8000_0012_3456);
    assert_eq!(lo & 0xFFFF, 103);
}

#[test]
fn tss_reserved_fields_stay_zero() {
    let mut t = Tss::new();
    assert_eq!((t.reserved_1, t.reserved_2, t.reserved_3, t.reserved_4), (0, 0, 0, 0));
    t.ist3 = 0x1234;
    t.reserved_2 = 5;
    t.set_rsp0(0x8000);
    assert_eq!(t.rsp0, 0x8000);
    assert_eq!(t.ist3, 0x1234);
    assert_eq!(t.reserved_2, 5);
    assert_eq!(t.iomap_base, TSS_SIZE - 1);
}

#[test]
fn idt_set_handler_keeps_ist_and_reserved() {
    let mut idt = Idt::new();
    let mut e = IdtEntry::new();
    e.ist = 2;
    e.reserved = 9;
    e.set_handler(0x1234_5678_9ABC);
    assert_eq!((e.ist, e.reserved), (2, 9));
    assert_eq!((e.offset_low, e.offset_mid, e.offset_high), (0x9ABC, 0x5678, 0x1234));
    idt.set_handler(7, 0x4000);
    let g = idt.entry(7);
    assert_eq!((g.ist, g.reserved, g.offset_low), (0, 0, 0x4000));
}
