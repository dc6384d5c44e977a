//! 16550 UART line encoding for COM1.
use vstd::prelude::*;
use vstd::string::StringSliceAdditionalSpecFns;
use crate::hal::apic::{port_write, PortWrite};

verus! {

/// COM1 base port.
pub const COM1: u16 = 0x3F8;

/// Bytes put on the line for `s`: each `\n` is preceded by `\r`.
pub open spec fn serial_encoding(s: Seq<u8>) -> Seq<u8>
    decreases s.len(),
{
    if s.len() == 0 {
        Seq::empty()
    } else {
        serial_encoding(s.drop_last()) + if s.last() == 10 {
            seq![13u8, 10u8]
        } else {
            seq![s.last()]
        }
    }
}

/// The bytes writing `s` to the serial port transmits, in order: the
/// UTF-8 bytes of `s` with `\n` turned into `\r\n`.
pub fn write_str(s: &str) -> (r: Vec<u8>)
    ensures
        r@ == serial_encoding(s.spec_bytes()),
{
    let bytes = s.as_bytes();
    let mut out: Vec<u8> = Vec::new();
    let mut i: usize = 0;
    while i < bytes.len()
        invariant
            i <= bytes@.len(),
            bytes@ == s.spec_bytes(),
            out@ == serial_encoding(bytes@.take(i as int)),
        decreases bytes@.len() - i,
    {
        let byte = bytes[i];
        proof {
            assert(bytes@.take(i + 1).drop_last() =~= bytes@.take(i as int));
        }
        if byte == 10 {
            out.push(13);
        }
        out.push(byte);
        i = i + 1;
        assert(out@ =~= serial_encoding(bytes@.take(i as int)));
    }
    assert(bytes@.take(bytes@.len() as int) =~= bytes@);
    out
}

/// The port writes that set COM1 up for 115200 baud, 8N1, FIFOs on:
/// interrupts off, divisor latch on, divisor 1, 8N1 with the latch off,
/// FIFOs enabled and cleared (14-byte threshold), RTS/DSR set.
pub fn init() -> (r: Vec<PortWrite>)
    ensures
        r@ == seq![
            port_write(0x3F9, 0x00),
            port_write(0x3FB, 0x80),
            port_write(0x3F8, 0x01),
            port_write(0x3F9, 0x00),
            port_write(0x3FB, 0x03),
            port_write(0x3FA, 0xC7),
            port_write(0x3FC, 0x0B),
        ],
{
    let mut w: Vec<PortWrite> = Vec::new();
    w.push(PortWrite { port: COM1 + 1, value: 0x00 });
    w.push(PortWrite { port: COM1 + 3, value: 0x80 });
    w.push(PortWrite { port: COM1, value: 0x01 });
    w.push(PortWrite { port: COM1 + 1, value: 0x00 });
    w.push(PortWrite { port: COM1 + 3, value: 0x03 });
    w.push(PortWrite { port: COM1 + 2, value: 0xC7 });
    w.push(PortWrite { port: COM1 + 4, value: 0x0B });
    assert(w@ =~= seq![
        port_write(0x3F9, 0x00),
        port_write(0x3FB, 0x80),
        port_write(0x3F8, 0x01),
        port_write(0x3F9, 0x00),
        port_write(0x3FB, 0x03),
        port_write(0x3FA, 0xC7),
        port_write(0x3FC, 0x0B),
    ]);
    w
}

/// On the line every `\n` comes right after a `\r`, and the line carries
/// one byte more than the text for each `\n` in it.
pub proof fn law_serial_line_endings(s: Seq<u8>)
    ensures
        forall|i: int|
            0 <= i < serial_encoding(s).len() && #[trigger] serial_encoding(s)[i] == 10 ==> i > 0
                && serial_encoding(s)[i - 1] == 13,
        serial_encoding(s).len() == s.len() + s.filter(|b: u8| b == 10).len(),
    decreases s.len(),
{
    reveal(Seq::filter);
    if s.len() > 0 {
        law_serial_line_endings(s.drop_last());
        let prev = serial_encoding(s.drop_last());
        assert forall|i: int|
            0 <= i < serial_encoding(s).len() && #[trigger] serial_encoding(s)[i] == 10 implies i > 0
                && serial_encoding(s)[i - 1] == 13 by {
            if i < prev.len() {
                assert(serial_encoding(s)[i] == prev[i]);
                assert(prev[i] == 10);
                assert(serial_encoding(s)[i - 1] == prev[i - 1]);
            }
        }
    }
}

} // verus!
