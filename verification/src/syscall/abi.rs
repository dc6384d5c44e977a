//! ABI version and compatibility.
use vstd::prelude::*;

verus! {

/// ABI version.
pub const ABI_VERSION: u32 = 1;

/// Oldest compatible ABI version.
pub const ABI_VERSION_MIN: u32 = 1;

/// Whether a program built for ABI `version` can run.
pub fn is_compatible(version: u32) -> (r: bool)
    ensures
        r == (ABI_VERSION_MIN <= version <= ABI_VERSION),
{
    version >= ABI_VERSION_MIN && version <= ABI_VERSION
}

/// ABI information for user space.
pub struct AbiInfo {
    pub version: u32,
    pub version_min: u32,
    pub target: [u8; 16],
}

/// "x86_64-unknown" padded with two NUL bytes.
pub open spec fn target_name() -> Seq<u8> {
    seq![
        0x78u8, 0x38, 0x36, 0x5f, 0x36, 0x34, 0x2d, 0x75, 0x6e, 0x6b, 0x6e, 0x6f, 0x77, 0x6e, 0,
        0,
    ]
}

impl AbiInfo {
    /// Information about this ABI.
    pub fn current() -> (r: Self)
        ensures
            r.version == ABI_VERSION,
            r.version_min == ABI_VERSION_MIN,
            r.target@ == target_name(),
    {
        let r = AbiInfo {
            version: ABI_VERSION,
            version_min: ABI_VERSION_MIN,
            target: [
                0x78, 0x38, 0x36, 0x5f, 0x36, 0x34, 0x2d, 0x75, 0x6e, 0x6b, 0x6e, 0x6f, 0x77, 0x6e,
                0, 0,
            ],
        };
        assert(r.target@ =~= target_name());
        r
    }
}

} // verus!
