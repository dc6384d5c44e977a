# elminux

Verified logic of the Elminux hybrid kernel and its user space, written in
Verus.

- `src/` — the library, every function verified:
  - `mm` — e820 map handling, the frame allocator (`pmm`), the slab heap
    (`heap`) and 4-level page tables over a model of physical memory (`vmm`);
  - `hal` — ACPI table parsing over a memory image, GDT/TSS and IDT encoding,
    local APIC and PIC register sequences, serial line encoding;
  - `boot` — the PVH start info and e820 map handed over at boot;
  - `ipc`, `sched`, `sync`, `syscall`, `drivers` — capabilities and
    messages, the run queue, the spinlock, syscall numbering and dispatch,
    the driver registry;
  - `elstd`, `modsh`, `elinit`, `epkg`, `image` — the user-space library
    (UTF-8 strings, IPC bindings), the shell's built-ins, line editor and
    pipelines, the init order, the package manager commands, and the image
    builder's command line.
- `tests/` — tests on concrete values.
- `app/` — the code that touches hardware or the host: port and MMIO
  access, descriptor-table loading, interrupt stubs, the kernel boot flow
  and heap self test, global allocators, program entry points.
