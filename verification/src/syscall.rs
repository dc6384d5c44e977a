//! Syscall ABI: numbers, version, handlers and dispatch.
pub mod abi;
pub mod dispatcher;
pub mod handler;

use vstd::prelude::*;

verus! {

/// Current ABI version.
pub const ABI_VERSION: u32 = 1;

/// Syscall numbers (stable).
#[derive(Clone, Copy, PartialEq, Eq, Structural)]
pub enum Syscall {
    /// Yield the current task (0).
    Yield,
    /// Exit the task with a code (1).
    Exit,
    /// Send a message on a capability (2).
    Send,
    /// Receive a message on a capability (3).
    Recv,
    /// Allocate pages (4).
    AllocPages,
    /// Free pages (5).
    FreePages,
    /// Spawn a process (6).
    Spawn,
    /// Drop a capability (7).
    CapDrop,
}

/// Syscall with number `n`, if any.
pub open spec fn syscall_of(n: u64) -> Option<Syscall> {
    if n == 0 {
        Some(Syscall::Yield)
    } else if n == 1 {
        Some(Syscall::Exit)
    } else if n == 2 {
        Some(Syscall::Send)
    } else if n == 3 {
        Some(Syscall::Recv)
    } else if n == 4 {
        Some(Syscall::AllocPages)
    } else if n == 5 {
        Some(Syscall::FreePages)
    } else if n == 6 {
        Some(Syscall::Spawn)
    } else if n == 7 {
        Some(Syscall::CapDrop)
    } else {
        None
    }
}

/// Number of a syscall.
pub open spec fn number_of(s: Syscall) -> u64 {
    match s {
        Syscall::Yield => 0,
        Syscall::Exit => 1,
        Syscall::Send => 2,
        Syscall::Recv => 3,
        Syscall::AllocPages => 4,
        Syscall::FreePages => 5,
        Syscall::Spawn => 6,
        Syscall::CapDrop => 7,
    }
}

impl Syscall {
    /// Convert a syscall number into a syscall; `None` for unknown numbers.
    pub fn from_number(n: u64) -> (r: Option<Self>)
        ensures
            r == syscall_of(n),
    {
        match n {
            0 => Some(Self::Yield),
            1 => Some(Self::Exit),
            2 => Some(Self::Send),
            3 => Some(Self::Recv),
            4 => Some(Self::AllocPages),
            5 => Some(Self::FreePages),
            6 => Some(Self::Spawn),
            7 => Some(Self::CapDrop),
            _ => None,
        }
    }

    /// The syscall's stable number.
    pub fn number(&self) -> (r: u64)
        ensures
            r == number_of(*self),
    {
        match self {
            Syscall::Yield => 0,
            Syscall::Exit => 1,
            Syscall::Send => 2,
            Syscall::Recv => 3,
            Syscall::AllocPages => 4,
            Syscall::FreePages => 5,
            Syscall::Spawn => 6,
            Syscall::CapDrop => 7,
        }
    }
}


/// Syscall numbers identify syscalls: every syscall's number maps back to
/// it, and every known number is the number of the syscall it maps to.
pub proof fn law_syscall_numbers_round_trip(s: Syscall, n: u64)
    ensures
        syscall_of(number_of(s)) == Some(s),
        syscall_of(n) matches Some(t) ==> number_of(t) == n,
        syscall_of(n) is Some <==> n < 8,
{
}

/// The syscalls in the order of their documented stable numbers.
pub open spec fn documented_syscalls() -> Seq<Syscall> {
    seq![
        Syscall::Yield,
        Syscall::Exit,
        Syscall::Send,
        Syscall::Recv,
        Syscall::AllocPages,
        Syscall::FreePages,
        Syscall::Spawn,
        Syscall::CapDrop,
    ]
}

/// Every syscall has its documented stable number: the `n`th syscall of
/// the documented list (Yield 0, Exit 1, Send 2, Recv 3, AllocPages 4,
/// FreePages 5, Spawn 6, CapDrop 7) has number `n`, and decoding `n` gives
/// it; numbers past the list decode to nothing.
pub proof fn law_syscall_documented_numbers(n: u64)
    ensures
        n < documented_syscalls().len() ==> number_of(documented_syscalls()[n as int]) == n
            && syscall_of(n) == Some(documented_syscalls()[n as int]),
        n >= documented_syscalls().len() ==> syscall_of(n) is None,
{
}

} // verus!
