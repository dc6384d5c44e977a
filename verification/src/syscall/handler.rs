//! Syscall handlers.  Each takes the six raw argument registers; a message
//! argument is the user message the pointer register designates.
use vstd::prelude::*;
use crate::ipc::capability::Cap;
use crate::ipc::message::Msg;

verus! {

/// sys_yield: voluntarily yield the CPU.  Returns 0.
pub fn sys_yield(_a1: u64, _a2: u64, _a3: u64, _a4: u64, _a5: u64, _a6: u64) -> (r: u64)
    ensures
        r == 0,
{
    0
}

/// sys_exit: exit the current task.  Returns the exit code.
pub fn sys_exit(code: u64, _a2: u64, _a3: u64, _a4: u64, _a5: u64, _a6: u64) -> (r: u64)
    ensures
        r == code,
{
    code
}

/// sys_send: send the user message `msg` on capability `cap`.  Returns 0.
pub fn sys_send(cap: u64, msg: &Msg, _a3: u64, _a4: u64, _a5: u64, _a6: u64) -> (r: u64)
    ensures
        r == 0,
{
    let _cap = Cap::from_raw(cap);
    let _msg = *msg;
    0
}

/// sys_recv: receive on capability `cap` into the user message `msg`.
/// Nothing is delivered yet: `msg` becomes an empty message with code 0.
/// Returns 0.
pub fn sys_recv(cap: u64, msg: &mut Msg, _a3: u64, _a4: u64, _a5: u64, _a6: u64) -> (r: u64)
    ensures
        r == 0,
        final(msg).code == 0,
        final(msg).sender == 0,
        forall|i: int| 0 <= i < 14 ==> #[trigger] final(msg).payload@[i] == 0,
{
    let _cap = Cap::from_raw(cap);
    let received = Msg::new(0);
    *msg = received;
    0
}

/// sys_alloc_pages: allocate `n` pages.  Returns the byte size `n * 4096`.
pub fn sys_alloc_pages(n: u64, _a2: u64, _a3: u64, _a4: u64, _a5: u64, _a6: u64) -> (r: u64)
    requires
        n * 4096 <= u64::MAX,
    ensures
        r == n * 4096,
{
    n * 4096
}

/// sys_free_pages: free `n` pages at `addr`.  Returns 0.
pub fn sys_free_pages(addr: u64, n: u64, _a3: u64, _a4: u64, _a5: u64, _a6: u64) -> (r: u64)
    ensures
        r == 0,
{
    let _ = (addr, n);
    0
}

/// sys_spawn: spawn a process from a manifest.  Returns 0.
pub fn sys_spawn(_manifest_ptr: u64, _a2: u64, _a3: u64, _a4: u64, _a5: u64, _a6: u64) -> (r: u64)
    ensures
        r == 0,
{
    0
}

/// sys_cap_drop: drop a capability.  Returns 0.
pub fn sys_cap_drop(cap: u64, _a2: u64, _a3: u64, _a4: u64, _a5: u64, _a6: u64) -> (r: u64)
    ensures
        r == 0,
{
    let _cap = Cap::from_raw(cap);
    0
}

} // verus!
