//! Hardware abstraction: descriptor tables, ACPI and APIC register logic,
//! serial line encoding, and the physical-memory image firmware tables are
//! read from.
pub mod acpi;
pub mod apic;
pub mod gdt;
pub mod idt;
pub mod memory;
pub mod uart;
