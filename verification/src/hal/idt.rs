//! Interrupt Descriptor Table: exception (0-31) and IRQ (32-255) gates.
use vstd::prelude::*;

verus! {

/// One IDT gate descriptor.
#[derive(Clone, Copy)]
pub struct IdtEntry {
    pub offset_low: u16,
    pub selector: u16,
    pub ist: u8,
    pub type_attr: u8,
    pub offset_mid: u16,
    pub offset_high: u32,
    pub reserved: u32,
}

/// IDT descriptor for `lidt`.
pub struct IdtDescriptor {
    pub limit: u16,
    pub base: u64,
}

/// Number of IDT entries.
pub const IDT_ENTRIES: usize = 256;

/// Kernel code segment selector used by every gate.
pub const KERNEL_CODE_SELECTOR: u16 = 0x08;

/// Present, ring 0, 64-bit interrupt gate.
pub const INTERRUPT_GATE: u8 = 0x8E;

/// Page-fault vector.
pub const PAGE_FAULT_VECTOR: usize = 14;

impl IdtEntry {
    /// Handler address encoded in the entry.
    pub open spec fn handler(&self) -> int {
        self.offset_low + self.offset_mid * 0x1_0000 + self.offset_high * 0x1_0000_0000
    }

    /// The entry installs `handler` as a kernel interrupt gate.
    pub open spec fn is_gate_for(&self, handler: u64) -> bool {
        &&& self.handler() == handler
        &&& self.selector == KERNEL_CODE_SELECTOR
        &&& self.type_attr == INTERRUPT_GATE
    }

    /// This entry turned into a kernel interrupt gate for `handler`: the
    /// offsets, selector and type change; `ist` and `reserved` are kept.
    pub open spec fn with_handler(self, handler: u64) -> IdtEntry {
        IdtEntry {
            offset_low: (handler % 0x1_0000) as u16,
            offset_mid: ((handler / 0x1_0000) % 0x1_0000) as u16,
            offset_high: (handler / 0x1_0000_0000) as u32,
            selector: KERNEL_CODE_SELECTOR,
            type_attr: INTERRUPT_GATE,
            ..self
        }
    }

    /// All fields are zero: a gate that is not present.
    pub open spec fn is_empty(&self) -> bool {
        &&& self.offset_low == 0 && self.selector == 0 && self.ist == 0 && self.type_attr == 0
        &&& self.offset_mid == 0 && self.offset_high == 0 && self.reserved == 0
    }

    /// An empty (not present) gate.
    pub fn new() -> (r: Self)
        ensures
            r.is_empty(),
    {
        IdtEntry {
            offset_low: 0,
            selector: 0,
            ist: 0,
            type_attr: 0,
            offset_mid: 0,
            offset_high: 0,
            reserved: 0,
        }
    }

    /// Make this a present ring-0 interrupt gate that enters `handler` in
    /// the kernel code segment.
    pub fn set_handler(&mut self, handler: u64)
        ensures
            final(self).is_gate_for(handler),
            final(self).offset_low == handler % 0x1_0000,
            final(self).offset_mid == (handler / 0x1_0000) % 0x1_0000,
            final(self).offset_high == handler / 0x1_0000_0000,
            final(self).ist == old(self).ist,
            final(self).reserved == old(self).reserved,
            *final(self) == old(self).with_handler(handler),
    {
        let lo = (handler & 0xFFFF) as u16;
        let mid = ((handler >> 16u64) & 0xFFFF) as u16;
        let hi = ((handler >> 32u64) & 0xFFFFFFFF) as u32;
        assert(lo == handler % 0x1_0000 && mid == (handler / 0x1_0000) % 0x1_0000 && hi == handler
            / 0x1_0000_0000) by (bit_vector)
            requires
                lo == (handler & 0xFFFF) as u16,
                mid == ((handler >> 16u64) & 0xFFFF) as u16,
                hi == ((handler >> 32u64) & 0xFFFFFFFF) as u32,
        ;
        self.offset_low = lo;
        self.offset_mid = mid;
        self.offset_high = hi;
        self.selector = KERNEL_CODE_SELECTOR;
        self.type_attr = INTERRUPT_GATE;
    }
}

/// Interrupt Descriptor Table.
pub struct Idt {
    entries: Vec<IdtEntry>,
}

impl Idt {
    /// The gates, by vector.
    pub closed spec fn spec_entries(&self) -> Seq<IdtEntry> {
        self.entries@
    }

    /// A table of 256 empty gates.
    pub fn new() -> (r: Self)
        ensures
            r.spec_entries().len() == IDT_ENTRIES,
            forall|i: int|
                0 <= i < IDT_ENTRIES ==> (#[trigger] r.spec_entries()[i]).is_empty(),
    {
        let mut entries: Vec<IdtEntry> = Vec::new();
        let mut i: usize = 0;
        while i < IDT_ENTRIES
            invariant
                i <= IDT_ENTRIES,
                entries@.len() == i,
                forall|j: int|
                    0 <= j < i ==> (#[trigger] entries@[j]).is_empty(),
            decreases IDT_ENTRIES - i,
        {
            entries.push(IdtEntry::new());
            i = i + 1;
        }
        Idt { entries }
    }

    /// Gate for vector `index`.
    pub fn entry(&self, index: usize) -> (r: IdtEntry)
        requires
            index < IDT_ENTRIES,
            self.spec_entries().len() == IDT_ENTRIES,
        ensures
            r == self.spec_entries()[index as int],
    {
        self.entries[index]
    }

    /// Install `handler` for vector `index`.
    pub fn set_handler(&mut self, index: usize, handler: u64)
        requires
            index < IDT_ENTRIES,
            old(self).spec_entries().len() == IDT_ENTRIES,
        ensures
            final(self).spec_entries().len() == IDT_ENTRIES,
            final(self).spec_entries()[index as int].is_gate_for(handler),
            final(self).spec_entries()[index as int] == old(self).spec_entries()[index as int].with_handler(handler),
            forall|j: int|
                0 <= j < IDT_ENTRIES && j != index ==> #[trigger] final(self).spec_entries()[j] == old(self).spec_entries()[j],
    {
        let mut e = self.entries[index];
        e.set_handler(handler);
        self.entries.set(index, e);
    }

    /// Install the default handlers: `exception` for vectors 0-31 except the
    /// page fault (14), which gets `page_fault`, and `irq` for 32-255.
    pub fn install_handlers(&mut self, exception: u64, page_fault: u64, irq: u64)
        requires
            old(self).spec_entries().len() == IDT_ENTRIES,
        ensures
            final(self).spec_entries().len() == IDT_ENTRIES,
            forall|i: int|
                0 <= i < 32 && i != PAGE_FAULT_VECTOR ==> (#[trigger] final(self).spec_entries()[i]).is_gate_for(exception),
            final(self).spec_entries()[PAGE_FAULT_VECTOR as int].is_gate_for(page_fault),
            forall|i: int|
                32 <= i < IDT_ENTRIES ==> (#[trigger] final(self).spec_entries()[i]).is_gate_for(irq),
    {
        let mut i: usize = 0;
        while i < 32
            invariant
                i <= 32,
                self.spec_entries().len() == IDT_ENTRIES,
                forall|j: int| 0 <= j < i ==> (#[trigger] self.spec_entries()[j]).is_gate_for(exception),
            decreases 32 - i,
        {
            self.set_handler(i, exception);
            i = i + 1;
        }
        self.set_handler(PAGE_FAULT_VECTOR, page_fault);
        let mut i: usize = 32;
        while i < IDT_ENTRIES
            invariant
                32 <= i <= IDT_ENTRIES,
                self.spec_entries().len() == IDT_ENTRIES,
                forall|j: int|
                    0 <= j < 32 && j != PAGE_FAULT_VECTOR ==> (#[trigger] self.spec_entries()[j]).is_gate_for(
                        exception,
                    ),
                self.spec_entries()[PAGE_FAULT_VECTOR as int].is_gate_for(page_fault),
                forall|j: int| 32 <= j < i ==> (#[trigger] self.spec_entries()[j]).is_gate_for(irq),
            decreases IDT_ENTRIES - i,
        {
            self.set_handler(i, irq);
            i = i + 1;
        }
    }
}

/// A page fault at `addr` lies in the boot identity range (below 4 GiB),
/// where faults are expected once the identity map is torn down.
pub fn page_fault_in_identity_range(addr: u64) -> (r: bool)
    ensures
        r == (addr < 0x1_0000_0000),
{
    addr < 0x1_0000_0000
}

} // verus!
