use elminux::hal::apic::{
    calibrate_timer, configure_timer, id_from_reg, mask_all_lvts, max_lvt_from_reg,
    remap_and_disable_pic, spurious_enable_value, stop_timer, timer_initial_count, timer_lvt,
    version_from_reg, PortWrite, RegWrite, LVT_MASKED, REG_LVT_ERROR, REG_LVT_TIMER,
    REG_TIMER_DIV, REG_TIMER_INIT, PIC1_COMMAND, PIC1_DATA, PIC2_COMMAND, PIC2_DATA,
};
use elminux::hal::uart::write_str;

#[test]
fn apic_register_decoding() {
    assert_eq!(spurious_enable_value(0), 0x1FF);
    assert_eq!(spurious_enable_value(0x1000_0000), 0x1000_01FF);
    assert_eq!(id_from_reg(0x0300_0000), 3);
    assert_eq!(version_from_reg(0x0005_0014), 0x14);
    assert_eq!(max_lvt_from_reg(0x0005_0014), 5);
}

#[test]
fn timer_values() {
    assert_eq!(timer_lvt(0x20, true), 0x2_0020);
    assert_eq!(timer_lvt(0x20, false), 0x20);
    assert_eq!(calibrate_timer(), 6_250_000);
    assert_eq!(timer_initial_count(100), 62_500);
    assert_eq!(timer_initial_count(1), 6_250_000);
}

#[test]
fn timer_configuration_sequence() {
    let w = configure_timer(0x20, 62_500, true);
    assert_eq!(
        w,
        vec![
            RegWrite { reg: REG_LVT_TIMER, value: LVT_MASKED },
            RegWrite { reg: REG_TIMER_DIV, value: 3 },
            RegWrite { reg: REG_TIMER_INIT, value: 62_500 },
            RegWrite { reg: REG_LVT_TIMER, value: 0x2_0020 },
        ]
    );
    let s = stop_timer();
    assert_eq!(s[1], RegWrite { reg: REG_TIMER_INIT, value: 0 });
}

#[test]
fn lvt_masking_sequence() {
    let w = mask_all_lvts();
    assert_eq!(w.len(), 6);
    assert!(w.iter().all(|x| x.value == LVT_MASKED));
    assert_eq!(w[0].reg, REG_LVT_TIMER);
    assert_eq!(w[5].reg, REG_LVT_ERROR);
}

#[test]
fn pic_remap_sequence() {
    let w = remap_and_disable_pic();
    assert_eq!(w.len(), 10);
    assert_eq!(w[0], PortWrite { port: PIC1_COMMAND, value: 0x11 });
    assert_eq!(w[1], PortWrite { port: PIC2_COMMAND, value: 0x11 });
    assert_eq!(w[2], PortWrite { port: PIC1_DATA, value: 0x20 });
    assert_eq!(w[3], PortWrite { port: PIC2_DATA, value: 0x28 });
    assert_eq!(w[8], PortWrite { port: PIC1_DATA, value: 0xFF });
    assert_eq!(w[9], PortWrite { port: PIC2_DATA, value: 0xFF });
}

#[test]
fn serial_line_endings() {
    assert_eq!(write_str("ok\n"), b"ok\r\n".to_vec());
    assert_eq!(write_str(""), Vec::<u8>::new());
    assert_eq!(write_str("a\nb\n\n"), b"a\r\nb\r\n\r\n".to_vec());
    assert_eq!(write_str("é"), vec![0xC3, 0xA9]);
}

#[test]
fn uart_setup_sequence() {
    let w = elminux::hal::uart::init();
    assert_eq!(w.len(), 7);
    assert_eq!(w[0], PortWrite { port: 0x3F9, value: 0 });
    assert_eq!(w[1], PortWrite { port: 0x3FB, value: 0x80 });
    assert_eq!(w[2], PortWrite { port: 0x3F8, value: 1 });
    assert_eq!(w[5], PortWrite { port: 0x3FA, value: 0xC7 });
    assert_eq!(w[6], PortWrite { port: 0x3FC, value: 0x0B });
}

#[test]
fn serial_adds_one_byte_per_newline() {
    let text = "one\ntwo\n\nthree";
    let out = write_str(text);
    assert_eq!(out.len(), text.len() + 3);
    for (i, b) in out.iter().enumerate() {
        if *b == b'\n' {
            assert!(i > 0 && out[i - 1] == b'\r');
        }
    }
}
