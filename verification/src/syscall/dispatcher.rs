//! Syscall dispatch.
use vstd::prelude::*;
use crate::ipc::message::Msg;
use crate::syscall::handler::{
    sys_alloc_pages,
    sys_cap_drop,
    sys_exit,
    sys_free_pages,
    sys_recv,
    sys_send,
    sys_spawn,
    sys_yield,
};
use crate::syscall::{syscall_of, Syscall};

verus! {

/// Result register value for an unknown syscall (-1).
pub const INVALID_SYSCALL: u64 = 0xFFFF_FFFF_FFFF_FFFF;

/// Value a syscall returns for number `num` and first argument `arg1`.
pub open spec fn syscall_result(num: u64, arg1: u64) -> u64 {
    match syscall_of(num) {
        None => INVALID_SYSCALL,
        Some(Syscall::Exit) => arg1,
        Some(Syscall::AllocPages) => (arg1 * 4096) as u64,
        Some(_) => 0,
    }
}

/// Dispatch syscall `num` with arguments `arg1`..`arg5` (the sixth is 0).
/// `user_msg` is the user message the second argument designates, read by
/// Send and written by Recv.  Unknown numbers return -1.
pub fn syscall_entry(
    num: u64,
    arg1: u64,
    arg2: u64,
    arg3: u64,
    arg4: u64,
    arg5: u64,
    user_msg: &mut Msg,
) -> (r: u64)
    requires
        num == 4 ==> arg1 * 4096 <= u64::MAX,
    ensures
        r == syscall_result(num, arg1),
        num == 3 ==> final(user_msg).code == 0 && final(user_msg).sender == 0 && forall|i: int|
            0 <= i < 14 ==> #[trigger] final(user_msg).payload@[i] == 0,
        num != 3 ==> *final(user_msg) == *old(user_msg),
{
    let syscall = match Syscall::from_number(num) {
        Some(s) => s,
        None => {
            return INVALID_SYSCALL;
        },
    };
    match syscall {
        Syscall::Yield => sys_yield(arg1, arg2, arg3, arg4, arg5, 0),
        Syscall::Exit => sys_exit(arg1, arg2, arg3, arg4, arg5, 0),
        Syscall::Send => sys_send(arg1, user_msg, arg3, arg4, arg5, 0),
        Syscall::Recv => sys_recv(arg1, user_msg, arg3, arg4, arg5, 0),
        Syscall::AllocPages => sys_alloc_pages(arg1, arg2, arg3, arg4, arg5, 0),
        Syscall::FreePages => sys_free_pages(arg1, arg2, arg3, arg4, arg5, 0),
        Syscall::Spawn => sys_spawn(arg1, arg2, arg3, arg4, arg5, 0),
        Syscall::CapDrop => sys_cap_drop(arg1, arg2, arg3, arg4, arg5, 0),
    }
}

/// Initialise the syscall subsystem.  The MSRs are set up by the boot
/// code; nothing to do here.
pub fn init() {
}

} // verus!
