use elminux::drivers::driver::DriverError;
use elminux::drivers::registry::{Registry, MAX_DRIVERS};
use elminux::ipc::capability::{Cap, CapEntry, CapIdCounter, CapTarget};
use elminux::ipc::channel::{self, Channel, ChannelState, IpcSpace, RecvError, SendAction, SendError};
use elminux::ipc::rights::{READ, WRITE};
use elminux::ipc::message::{Msg, MSG_PAYLOAD_SIZE, MSG_PAYLOAD_WORDS};
use elminux::sched::queue::RunQueue;
use elminux::sched::task::{Task, TaskIdCounter, TaskState};
use elminux::sync::Spinlock;
use elminux::syscall::abi::{is_compatible, AbiInfo, ABI_VERSION};
use elminux::syscall::dispatcher::{syscall_entry, INVALID_SYSCALL};
use elminux::syscall::handler::{sys_alloc_pages, sys_exit, sys_recv};
use elminux::syscall::Syscall;

#[test]
fn syscall_numbers_round_trip() {
    for n in 0..8u64 {
        let s = Syscall::from_number(n).unwrap();
        assert_eq!(s.number(), n);
    }
    assert!(Syscall::from_number(8).is_none());
    assert!(Syscall::from_number(u64::MAX).is_none());
    assert!(Syscall::from_number(2) == Some(Syscall::Send));
}

#[test]
fn dispatch_results() {
    let mut m = Msg::new(7);
    assert_eq!(syscall_entry(0, 0, 0, 0, 0, 0, &mut m), 0);
    assert_eq!(syscall_entry(1, 42, 0, 0, 0, 0, &mut m), 42);
    assert_eq!(syscall_entry(4, 3, 0, 0, 0, 0, &mut m), 3 * 4096);
    assert_eq!(syscall_entry(99, 1, 2, 3, 4, 5, &mut m), INVALID_SYSCALL);
    assert_eq!(m.code, 7);
    m.payload[3] = 9;
    assert_eq!(syscall_entry(3, 5, 0, 0, 0, 0, &mut m), 0);
    assert_eq!(m.code, 0);
    assert_eq!(m.payload, [0u64; 14]);
}

#[test]
fn syscall_handlers() {
    assert_eq!(sys_exit(3, 0, 0, 0, 0, 0), 3);
    assert_eq!(sys_alloc_pages(2, 0, 0, 0, 0, 0), 8192);
    let mut m = Msg::with_payload(5, [1; 14]);
    assert_eq!(m.payload[13], 1);
    assert_eq!(sys_recv(1, &mut m, 0, 0, 0, 0), 0);
    assert_eq!(m.payload[13], 0);
}

#[test]
fn abi_version() {
    assert!(is_compatible(ABI_VERSION));
    assert!(!is_compatible(0));
    assert!(!is_compatible(2));
    let a = AbiInfo::current();
    assert_eq!(a.version, 1);
    assert_eq!(&a.target[..14], b"x86_64-unknown");
    assert_eq!(a.target[14..], [0, 0]);
}

#[test]
fn capabilities_are_minted_in_order() {
    let mut ids = CapIdCounter::new();
    let a = Cap::new(&mut ids);
    let b = Cap::new(&mut ids);
    assert_eq!(a.as_u64(), 1);
    assert_eq!(b.as_u64(), 2);
    assert!(a != b);
    assert!(Cap::from_raw(a.as_u64()) == a);
}

#[test]
fn messages_and_channels() {
    let m = Msg::new(9);
    assert_eq!(m.code, 9);
    assert_eq!(m.sender, 0);
    assert_eq!(MSG_PAYLOAD_WORDS * 8, MSG_PAYLOAD_SIZE);
    let mut space = ipc_space(READ | WRITE);
    assert!(matches!(channel::send(&mut space, Cap::from_raw(5), m), Ok(SendAction::Wait)));
    let got = channel::recv(&mut space, Cap::from_raw(5)).ok().unwrap();
    assert_eq!(got.code, 9);
    assert!(matches!(channel::recv(&mut space, Cap::from_raw(5)), Err(RecvError::WouldBlock)));
}

/// One channel, named by capability 5 with `rights`, and a memory
/// capability 6.
fn ipc_space(rights: u32) -> IpcSpace {
    IpcSpace {
        caps: vec![
            CapEntry { id: Cap::from_raw(5), target: CapTarget::Channel(0), rights },
            CapEntry { id: Cap::from_raw(6), target: CapTarget::Memory(0x1000), rights: READ | WRITE },
        ],
        channels: vec![Channel { id: 1, peer: None, state: ChannelState::Empty }],
    }
}

#[test]
fn receiver_first_gets_the_message_handed_over() {
    let mut space = ipc_space(READ | WRITE);
    assert!(matches!(channel::recv(&mut space, Cap::from_raw(5)), Err(RecvError::WouldBlock)));
    assert!(matches!(space.channels[0].state, ChannelState::WaitingRecv));
    match channel::send(&mut space, Cap::from_raw(5), Msg::new(3)) {
        Ok(SendAction::Delivered(d)) => assert_eq!(d.code, 3),
        _ => panic!("expected delivery"),
    }
    assert!(matches!(space.channels[0].state, ChannelState::Empty));
}

#[test]
fn second_sender_finds_channel_busy() {
    let mut space = ipc_space(READ | WRITE);
    assert!(matches!(channel::send(&mut space, Cap::from_raw(5), Msg::new(1)), Ok(SendAction::Wait)));
    assert!(matches!(channel::send(&mut space, Cap::from_raw(5), Msg::new(2)), Ok(SendAction::ChannelBusy)));
    assert_eq!(channel::recv(&mut space, Cap::from_raw(5)).ok().unwrap().code, 1);
}

#[test]
fn channel_capabilities_are_checked() {
    let mut space = ipc_space(READ);
    assert!(matches!(channel::send(&mut space, Cap::from_raw(7), Msg::new(1)), Err(SendError::InvalidCap)));
    assert!(matches!(channel::send(&mut space, Cap::from_raw(6), Msg::new(1)), Err(SendError::InvalidCap)));
    assert!(matches!(channel::send(&mut space, Cap::from_raw(5), Msg::new(1)), Err(SendError::NoRights)));
    assert!(matches!(space.channels[0].state, ChannelState::Empty));
    let mut space = ipc_space(WRITE);
    assert!(matches!(channel::recv(&mut space, Cap::from_raw(5)), Err(RecvError::NoRights)));
    assert!(matches!(channel::recv(&mut space, Cap::from_raw(9)), Err(RecvError::InvalidCap)));
}

#[test]
fn run_queue_is_fifo() {
    let mut ids = TaskIdCounter::new();
    let mut q = RunQueue::new();
    assert!(q.is_empty());
    q.push_back(Task::new(&mut ids));
    q.push_back(Task::new(&mut ids));
    assert!(!q.is_empty());
    let a = q.pop_front().unwrap();
    assert_eq!(a.id, 1);
    assert!(a.state == TaskState::Ready);
    assert_eq!(q.pop_front().unwrap().id, 2);
    assert!(q.pop_front().is_none());
}

#[test]
fn spinlock_states() {
    let mut l = Spinlock::new(5u32);
    assert!(l.try_lock());
    assert!(!l.try_lock());
    l.unlock();
    l.lock();
    *l.get_mut() += 1;
    l.unlock();
    assert!(l.try_lock());
    assert_eq!(l.into_inner(), 6);
}

#[test]
fn registry_register_and_find() {
    let mut r: Registry<u32> = Registry::new();
    assert!(r.find("serial").is_none());
    assert!(r.register("serial", 1).is_ok());
    assert!(r.register("keyboard", 2).is_ok());
    assert!(r.register("serial", 3).is_ok());
    assert_eq!(r.find("serial").unwrap().driver, 1);
    assert_eq!(r.find("keyboard").unwrap().name, "keyboard");
    assert!(r.find("fs").is_none());
}

#[test]
fn registry_is_full_at_capacity() {
    let mut r: Registry<usize> = Registry::default();
    for i in 0..MAX_DRIVERS {
        assert!(r.register("d", i).is_ok());
    }
    assert!(r.register("late", 99).is_err());
    assert!(r.find("late").is_none());
}

#[test]
fn driver_errors_compare() {
    assert!(DriverError::InitFailed != DriverError::NoResources);
    assert!(DriverError::InvalidRequest == DriverError::InvalidRequest);
}

#[test]
fn minted_ids_are_consecutive() {
    let mut ids = CapIdCounter::new();
    for k in 1..=5u64 {
        assert_eq!(Cap::new(&mut ids).as_u64(), k);
    }
    let mut tids = TaskIdCounter::new();
    let a = Task::new(&mut tids);
    let b = Task::new(&mut tids);
    assert_eq!((a.id, b.id), (1, 2));
}

#[test]
fn registry_refuses_every_call_after_sixteen() {
    let mut r: Registry<u32> = Registry::new();
    let mut oks = 0;
    for i in 0..20u32 {
        if r.register("d", i).is_ok() {
            oks += 1;
            assert!(i < MAX_DRIVERS as u32);
        }
    }
    assert_eq!(oks, MAX_DRIVERS);
}

#[test]
fn spinlock_holder_sees_last_write() {
    let mut l = Spinlock::new(1u32);
    l.lock();
    assert_eq!(*l.read(), 1);
    l.write(7);
    l.unlock();
    assert!(l.try_lock());
    assert_eq!(*l.read(), 7);
    assert!(!l.try_lock());
    l.write(9);
    l.unlock();
    assert_eq!(l.into_inner(), 9);
}
