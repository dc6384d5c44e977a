//! Local APIC register values: enabling, identification and the timer.
//!
//! The register reads and writes themselves are memory-mapped I/O done by
//! the caller; these functions compute what is written and decode what is
//! read.
use vstd::prelude::*;

verus! {

/// Local APIC base address.
pub const LOCAL_APIC_BASE: u64 = 0xFEE00000;

/// Spurious vector register: APIC software enable (bit 8).
pub const SPURIOUS_ENABLE: u32 = 0x100;

/// Spurious interrupt vector (255).
pub const SPURIOUS_VECTOR: u32 = 0xFF;

/// LVT entry masked (bit 16).
pub const LVT_MASKED: u32 = 0x10000;

/// LVT timer periodic mode (bit 17).
pub const LVT_PERIODIC: u32 = 0x20000;

/// Timer divide configuration: divide by 16.
pub const TIMER_DIV_16: u32 = 0b0011;

/// Assumed bus frequency used until the timer is calibrated (100 MHz).
pub const BUS_FREQUENCY: u64 = 100_000_000;

/// Timer divider in use.
pub const TIMER_DIVIDER: u64 = 16;

/// Spurious vector register value that enables the APIC with vector 255,
/// keeping the other bits of `spurious`.
pub fn spurious_enable_value(spurious: u32) -> (r: u32)
    ensures
        r == spurious | SPURIOUS_ENABLE | SPURIOUS_VECTOR,
        r & 0x1FF == 0x1FF,
{
    let r = spurious | SPURIOUS_ENABLE | SPURIOUS_VECTOR;
    assert(r & 0x1FF == 0x1FF) by (bit_vector)
        requires
            r == spurious | 0x100u32 | 0xFFu32,
    ;
    r
}

/// Local APIC ID from the ID register (bits 24..32).
pub fn id_from_reg(reg: u32) -> (r: u32)
    ensures
        r == reg / 0x100_0000,
{
    let r = reg >> 24u32;
    assert(r == reg / 0x100_0000) by (bit_vector)
        requires
            r == reg >> 24u32,
    ;
    r
}

/// Local APIC version from the version register (bits 0..8).
pub fn version_from_reg(reg: u32) -> (r: u32)
    ensures
        r == reg % 0x100,
{
    let r = reg & 0xFF;
    assert(r == reg % 0x100) by (bit_vector)
        requires
            r == reg & 0xFF,
    ;
    r
}

/// Maximum LVT entry index from the version register (bits 16..24).
pub fn max_lvt_from_reg(reg: u32) -> (r: u32)
    ensures
        r == (reg / 0x1_0000) % 0x100,
{
    let r = (reg >> 16u32) & 0xFF;
    assert(r == (reg / 0x1_0000) % 0x100) by (bit_vector)
        requires
            r == (reg >> 16u32) & 0xFF,
    ;
    r
}

/// LVT timer entry for `vector`, periodic or one-shot, unmasked.
pub fn timer_lvt(vector: u8, periodic: bool) -> (r: u32)
    ensures
        r == vector + (if periodic {
            LVT_PERIODIC
        } else {
            0
        }),
{
    let mut lvt = vector as u32;
    if periodic {
        assert(lvt | 0x20000u32 == lvt + 0x20000u32) by (bit_vector)
            requires
                lvt < 256,
        ;
        lvt |= LVT_PERIODIC;
    }
    lvt
}

/// Estimated timer frequency in Hz: the assumed bus frequency over the
/// divider (no real calibration yet).
pub fn calibrate_timer() -> (r: u64)
    ensures
        r == BUS_FREQUENCY / TIMER_DIVIDER,
        r == 6_250_000,
{
    BUS_FREQUENCY / TIMER_DIVIDER
}

/// Initial timer count for `hz` interrupts per second.
pub fn timer_initial_count(hz: u64) -> (r: u32)
    requires
        hz > 0,
    ensures
        r == 6_250_000u64 / hz,
{
    let timer_freq = calibrate_timer();
    (timer_freq / hz) as u32
}

// ─── Register write sequences ───────────────────────────────────────────────

/// Local APIC ID register.
pub const REG_ID: u64 = 0x20;
/// Local APIC version register.
pub const REG_VERSION: u64 = 0x30;
/// Task priority register.
pub const REG_TPR: u64 = 0x80;
/// End-of-interrupt register.
pub const REG_EOI: u64 = 0xB0;
/// Spurious interrupt vector register.
pub const REG_SPURIOUS: u64 = 0xF0;
/// LVT timer register.
pub const REG_LVT_TIMER: u64 = 0x320;
/// LVT thermal sensor register.
pub const REG_LVT_THERMAL: u64 = 0x330;
/// LVT performance counter register.
pub const REG_LVT_PERF: u64 = 0x340;
/// LVT LINT0 register.
pub const REG_LVT_LINT0: u64 = 0x350;
/// LVT LINT1 register.
pub const REG_LVT_LINT1: u64 = 0x360;
/// LVT error register.
pub const REG_LVT_ERROR: u64 = 0x370;
/// Timer initial count register.
pub const REG_TIMER_INIT: u64 = 0x380;
/// Timer current count register.
pub const REG_TIMER_CURR: u64 = 0x390;
/// Timer divide configuration register.
pub const REG_TIMER_DIV: u64 = 0x3E0;

/// Master PIC command port.
pub const PIC1_COMMAND: u16 = 0x20;
/// Master PIC data port.
pub const PIC1_DATA: u16 = 0x21;
/// Slave PIC command port.
pub const PIC2_COMMAND: u16 = 0xA0;
/// Slave PIC data port.
pub const PIC2_DATA: u16 = 0xA1;
/// ICW1: start initialisation.
pub const ICW1_INIT: u8 = 0x10;
/// ICW1: ICW4 follows.
pub const ICW1_ICW4: u8 = 0x01;
/// ICW4: 8086 mode.
pub const ICW4_8086: u8 = 0x01;

/// A write of `value` to the local APIC register at offset `reg`.
#[derive(Clone, Copy, PartialEq, Eq, Structural, Debug)]
pub struct RegWrite {
    pub reg: u64,
    pub value: u32,
}

/// A write of `value` to I/O port `port`.
#[derive(Clone, Copy, PartialEq, Eq, Structural, Debug)]
pub struct PortWrite {
    pub port: u16,
    pub value: u8,
}

/// The write of `value` to register `reg`.
pub open spec fn reg_write(reg: u64, value: u32) -> RegWrite {
    RegWrite { reg, value }
}

/// The write of `value` to port `port`.
pub open spec fn port_write(port: u16, value: u8) -> PortWrite {
    PortWrite { port, value }
}

/// The register writes that configure the timer: mask it, set the divider
/// to 16, load `initial_count`, then unmask it on `vector`, periodic or
/// one-shot.
pub fn configure_timer(vector: u8, initial_count: u32, periodic: bool) -> (r: Vec<RegWrite>)
    ensures
        r@ == seq![
            reg_write(REG_LVT_TIMER, LVT_MASKED),
            reg_write(REG_TIMER_DIV, TIMER_DIV_16),
            reg_write(REG_TIMER_INIT, initial_count),
            reg_write(REG_LVT_TIMER, (vector + (if periodic { LVT_PERIODIC } else { 0 })) as u32),
        ],
{
    let mut w: Vec<RegWrite> = Vec::new();
    w.push(RegWrite { reg: REG_LVT_TIMER, value: LVT_MASKED });
    w.push(RegWrite { reg: REG_TIMER_DIV, value: TIMER_DIV_16 });
    w.push(RegWrite { reg: REG_TIMER_INIT, value: initial_count });
    w.push(RegWrite { reg: REG_LVT_TIMER, value: timer_lvt(vector, periodic) });
    assert(w@ =~= seq![
        reg_write(REG_LVT_TIMER, LVT_MASKED),
        reg_write(REG_TIMER_DIV, TIMER_DIV_16),
        reg_write(REG_TIMER_INIT, initial_count),
        reg_write(REG_LVT_TIMER, (vector + (if periodic { LVT_PERIODIC } else { 0 })) as u32),
    ]);
    w
}

/// The register writes that stop the timer: mask it and clear its count.
pub fn stop_timer() -> (r: Vec<RegWrite>)
    ensures
        r@ == seq![
            reg_write(REG_LVT_TIMER, LVT_MASKED),
            reg_write(REG_TIMER_INIT, 0),
        ],
{
    let mut w: Vec<RegWrite> = Vec::new();
    w.push(RegWrite { reg: REG_LVT_TIMER, value: LVT_MASKED });
    w.push(RegWrite { reg: REG_TIMER_INIT, value: 0 });
    assert(w@ =~= seq![
        reg_write(REG_LVT_TIMER, LVT_MASKED),
        reg_write(REG_TIMER_INIT, 0),
    ]);
    w
}

/// LVT registers masked during initialisation, in order.
pub open spec fn lvt_registers() -> Seq<u64> {
    seq![REG_LVT_TIMER, REG_LVT_THERMAL, REG_LVT_PERF, REG_LVT_LINT0, REG_LVT_LINT1, REG_LVT_ERROR]
}

/// The register writes that mask every LVT entry: timer, thermal,
/// performance counter, LINT0, LINT1 and error.
pub fn mask_all_lvts() -> (r: Vec<RegWrite>)
    ensures
        r@.len() == 6,
        forall|i: int| 0 <= i < 6 ==> #[trigger] r@[i] == reg_write(lvt_registers()[i], LVT_MASKED),
{
    let regs: [u64; 6] = [REG_LVT_TIMER, REG_LVT_THERMAL, REG_LVT_PERF, REG_LVT_LINT0, REG_LVT_LINT1, REG_LVT_ERROR];
    assert(regs@ =~= lvt_registers());
    let mut w: Vec<RegWrite> = Vec::new();
    let mut i: usize = 0;
    while i < 6
        invariant
            i <= 6,
            regs@ == lvt_registers(),
            w@.len() == i,
            forall|j: int| 0 <= j < i ==> #[trigger] w@[j] == reg_write(lvt_registers()[j], LVT_MASKED),
        decreases 6 - i,
    {
        w.push(RegWrite { reg: regs[i], value: LVT_MASKED });
        i = i + 1;
    }
    w
}

/// The port writes that remap the legacy PICs to vectors 32-47 and then
/// mask every line: ICW1 to both, ICW2 (vector offsets 0x20 and 0x28),
/// ICW3 (slave on line 2), ICW4 (8086 mode), and full masks.
pub fn remap_and_disable_pic() -> (r: Vec<PortWrite>)
    ensures
        r@ == seq![
            port_write(PIC1_COMMAND, 0x11),
            port_write(PIC2_COMMAND, 0x11),
            port_write(PIC1_DATA, 0x20),
            port_write(PIC2_DATA, 0x28),
            port_write(PIC1_DATA, 0x04),
            port_write(PIC2_DATA, 0x02),
            port_write(PIC1_DATA, ICW4_8086),
            port_write(PIC2_DATA, ICW4_8086),
            port_write(PIC1_DATA, 0xFF),
            port_write(PIC2_DATA, 0xFF),
        ],
{
    let init = ICW1_INIT | ICW1_ICW4;
    assert(init == 0x11) by (bit_vector)
        requires
            init == 0x10u8 | 0x01u8,
    ;
    let mut w: Vec<PortWrite> = Vec::new();
    w.push(PortWrite { port: PIC1_COMMAND, value: init });
    w.push(PortWrite { port: PIC2_COMMAND, value: init });
    w.push(PortWrite { port: PIC1_DATA, value: 0x20 });
    w.push(PortWrite { port: PIC2_DATA, value: 0x28 });
    w.push(PortWrite { port: PIC1_DATA, value: 0x04 });
    w.push(PortWrite { port: PIC2_DATA, value: 0x02 });
    w.push(PortWrite { port: PIC1_DATA, value: ICW4_8086 });
    w.push(PortWrite { port: PIC2_DATA, value: ICW4_8086 });
    w.push(PortWrite { port: PIC1_DATA, value: 0xFF });
    w.push(PortWrite { port: PIC2_DATA, value: 0xFF });
    assert(w@ =~= seq![
        port_write(PIC1_COMMAND, 0x11),
        port_write(PIC2_COMMAND, 0x11),
        port_write(PIC1_DATA, 0x20),
        port_write(PIC2_DATA, 0x28),
        port_write(PIC1_DATA, 0x04),
        port_write(PIC2_DATA, 0x02),
        port_write(PIC1_DATA, ICW4_8086),
        port_write(PIC2_DATA, ICW4_8086),
        port_write(PIC1_DATA, 0xFF),
        port_write(PIC2_DATA, 0xFF),
    ]);
    w
}

} // verus!
