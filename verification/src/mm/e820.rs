//! e820 memory region types.
use vstd::prelude::*;

verus! {

/// Usable RAM (conventional memory).
pub const USABLE: u32 = 1;

/// Reserved (unusable).
pub const RESERVED: u32 = 2;

/// ACPI reclaimable (usable after ACPI tables are parsed).
pub const ACPI_RECLAIMABLE: u32 = 3;

/// ACPI NVS (must be preserved across sleep).
pub const ACPI_NVS: u32 = 4;

/// Bad memory (unusable).
pub const BAD: u32 = 5;

} // verus!
