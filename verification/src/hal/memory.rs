//! A byte-addressed image of physical memory, as firmware tables are read.
//!
//! The image holds the bytes of one contiguous physical range; every other
//! address reads as zero.  Multi-byte values are little-endian.
use vstd::prelude::*;

verus! {

/// Physical memory image: `bytes` starting at physical address `base`.
pub struct MemoryImage {
    base: u64,
    bytes: Vec<u8>,
}

impl MemoryImage {
    /// The image lies below the top of the address space.
    #[verifier::type_invariant]
    spec fn inv(&self) -> bool {
        self.base + self.bytes@.len() <= u64::MAX
    }

    pub closed spec fn base(&self) -> int {
        self.base as int
    }

    pub closed spec fn contents(&self) -> Seq<u8> {
        self.bytes@
    }

    /// Byte at physical address `a` (zero outside the image).
    pub open spec fn byte(&self, a: int) -> u8 {
        if self.base() <= a < self.base() + self.contents().len() {
            self.contents()[a - self.base()]
        } else {
            0
        }
    }

    /// The `n` bytes starting at `a`.
    pub open spec fn bytes_at(&self, a: int, n: int) -> Seq<u8> {
        Seq::new(n as nat, |k: int| self.byte(a + k))
    }

    /// Little-endian 16-bit value at `a`.
    pub open spec fn le_u16(&self, a: int) -> u16 {
        (self.byte(a) + 256 * self.byte(a + 1)) as u16
    }

    /// Little-endian 32-bit value at `a`.
    pub open spec fn le_u32(&self, a: int) -> u32 {
        (self.byte(a) + 256 * self.byte(a + 1) + 65536 * self.byte(a + 2) + 16777216 * self.byte(
            a + 3,
        )) as u32
    }

    /// Little-endian 64-bit value at `a`.
    pub open spec fn le_u64(&self, a: int) -> u64 {
        (self.le_u32(a) + 4294967296 * self.le_u32(a + 4)) as u64
    }

    /// An image of `bytes` placed at physical address `base`.
    pub fn new(base: u64, bytes: Vec<u8>) -> (r: Self)
        requires
            base + bytes@.len() <= u64::MAX,
        ensures
            r.base() == base,
            r.contents() == bytes@,
    {
        MemoryImage { base, bytes }
    }

    /// Byte at `a + k`, zero when that address is outside the image or
    /// beyond the top of the address space.
    pub fn read_u8(&self, a: u64, k: u64) -> (r: u8)
        ensures
            r == self.byte(a + k),
    {
        proof {
            use_type_invariant(self);
        }
        if a > u64::MAX - k {
            return 0;
        }
        let addr = a + k;
        if addr < self.base {
            return 0;
        }
        let off = addr - self.base;
        if off >= self.bytes.len() as u64 {
            return 0;
        }
        self.bytes[off as usize]
    }

    /// Little-endian 16-bit value at `a + k`.
    pub fn read_u16(&self, a: u64, k: u64) -> (r: u16)
        requires
            k <= 65536,
        ensures
            r == self.le_u16(a + k),
    {
        let b0 = self.read_u8(a, k) as u16;
        let b1 = self.read_u8(a, k + 1) as u16;
        b0 + 256 * b1
    }

    /// Little-endian 32-bit value at `a + k`.
    pub fn read_u32(&self, a: u64, k: u64) -> (r: u32)
        requires
            k <= 65536,
        ensures
            r == self.le_u32(a + k),
    {
        let b0 = self.read_u8(a, k) as u32;
        let b1 = self.read_u8(a, k + 1) as u32;
        let b2 = self.read_u8(a, k + 2) as u32;
        let b3 = self.read_u8(a, k + 3) as u32;
        b0 + 256 * b1 + 65536 * b2 + 16777216 * b3
    }

    /// Little-endian 64-bit value at `a + k`.
    pub fn read_u64(&self, a: u64, k: u64) -> (r: u64)
        requires
            k <= 65532,
        ensures
            r == self.le_u64(a + k),
    {
        let lo = self.read_u32(a, k) as u64;
        let hi = self.read_u32(a, k + 4) as u64;
        lo + 4294967296 * hi
    }

    /// Copy of the `n` bytes starting at `a`.
    pub fn read_bytes(&self, a: u64, n: u64) -> (r: Vec<u8>)
        requires
            n <= usize::MAX,
        ensures
            r@ == self.bytes_at(a as int, n as int),
    {
        let mut v: Vec<u8> = Vec::new();
        let mut k: u64 = 0;
        while k < n
            invariant
                k <= n,
                n <= usize::MAX,
                v@ == self.bytes_at(a as int, k as int),
            decreases n - k,
        {
            let b = self.read_u8(a, k);
            v.push(b);
            k = k + 1;
            assert(v@ =~= self.bytes_at(a as int, k as int));
        }
        v
    }
}

} // verus!
