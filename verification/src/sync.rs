//! Synchronization primitives: a test-and-set spinlock.
//!
//! The lock is modelled on one CPU: its state is a flag and the protected
//! value.  Holding the lock lasts from a successful `lock` or `try_lock`
//! until `unlock`.
use vstd::prelude::*;

verus! {

/// A test-and-set spinlock protecting a `T`.
pub struct Spinlock<T> {
    locked: bool,
    data: T,
}

impl<T> Spinlock<T> {
    /// The lock is held.
    pub closed spec fn is_locked(&self) -> bool {
        self.locked
    }

    /// The protected value.
    pub closed spec fn value(&self) -> T {
        self.data
    }

    /// A free lock holding `value`.
    pub fn new(value: T) -> (r: Self)
        ensures
            !r.is_locked(),
            r.value() == value,
    {
        Spinlock { locked: false, data: value }
    }

    /// Acquire the lock.  On one CPU a held lock is never released while
    /// spinning, so the lock must be free.
    pub fn lock(&mut self)
        requires
            !old(self).is_locked(),
        ensures
            final(self).is_locked(),
            final(self).value() == old(self).value(),
    {
        self.locked = true;
    }

    /// Try to acquire the lock without spinning: succeeds exactly when it
    /// is free.
    pub fn try_lock(&mut self) -> (r: bool)
        ensures
            r == !old(self).is_locked(),
            final(self).is_locked(),
            final(self).value() == old(self).value(),
    {
        if self.locked {
            false
        } else {
            self.locked = true;
            true
        }
    }

    /// Release the lock.
    pub fn unlock(&mut self)
        ensures
            !final(self).is_locked(),
            final(self).value() == old(self).value(),
    {
        self.locked = false;
    }

    /// The protected value, read by the holder of the lock.
    pub fn read(&self) -> (r: &T)
        requires
            self.is_locked(),
        ensures
            *r == self.value(),
    {
        &self.data
    }

    /// Replace the protected value; only the holder of the lock may.  The
    /// next holder reads what was written last.
    pub fn write(&mut self, value: T)
        requires
            old(self).is_locked(),
        ensures
            final(self).is_locked(),
            final(self).value() == value,
    {
        self.data = value;
    }

    /// Consume the lock and return its value.
    pub fn into_inner(self) -> (r: T)
        ensures
            r == self.value(),
    {
        self.data
    }

    /// Mutable access to the value; exclusive access needs no locking.
    pub fn get_mut(&mut self) -> (r: &mut T)
        ensures
            *r == old(self).value(),
            final(self).value() == *final(r),
            final(self).is_locked() == old(self).is_locked(),
    {
        &mut self.data
    }
}

/// A step that changes a spinlock: taking it (`lock`, or a `try_lock`
/// that succeeds), releasing it (`unlock`), or a `write` by the holder.  A
/// `try_lock` that fails changes nothing.
pub enum LockOp<T> {
    Acquire,
    Release,
    Write(T),
}

/// `after` is `before` after `op`, as the methods' contracts say.
pub open spec fn lock_op_step<T>(before: Spinlock<T>, after: Spinlock<T>, op: LockOp<T>) -> bool {
    match op {
        LockOp::Acquire => !before.is_locked() && after.is_locked() && after.value() == before.value(),
        LockOp::Release => !after.is_locked() && after.value() == before.value(),
        LockOp::Write(v) => before.is_locked() && after.is_locked() && after.value() == v,
    }
}

/// The value last written by `ops`, or `init` when none writes.
pub open spec fn last_written<T>(init: T, ops: Seq<LockOp<T>>) -> T
    decreases ops.len(),
{
    if ops.len() == 0 {
        init
    } else {
        match ops.last() {
            LockOp::Write(v) => v,
            _ => last_written(init, ops.drop_last()),
        }
    }
}

/// Whether the lock is held after `ops`, starting from `init`: the last
/// acquire or release decides.
pub open spec fn held_after<T>(init: bool, ops: Seq<LockOp<T>>) -> bool
    decreases ops.len(),
{
    if ops.len() == 0 {
        init
    } else {
        match ops.last() {
            LockOp::Acquire => true,
            LockOp::Release => false,
            LockOp::Write(_) => held_after(init, ops.drop_last()),
        }
    }
}

/// Over any run of operations on a spinlock that starts with `init`: every
/// holder reads what was written last (or `init`), so `into_inner` at the
/// end returns the last write; the lock is held exactly from an acquire to
/// the next release; and no acquire happens while it is held.  `states[i]`
/// is the lock before `ops[i]`.
pub proof fn law_spinlock_history<T>(states: Seq<Spinlock<T>>, ops: Seq<LockOp<T>>, init: T)
    requires
        states.len() == ops.len() + 1,
        states[0].value() == init,
        forall|i: int| 0 <= i < ops.len() ==> #[trigger] lock_op_step(states[i], states[i + 1], ops[i]),
    ensures
        forall|i: int| 0 <= i <= ops.len() ==> #[trigger] states[i].value() == last_written(init, ops.take(i)),
        forall|i: int|
            0 <= i <= ops.len() ==> #[trigger] states[i].is_locked() == held_after(
                states[0].is_locked(),
                ops.take(i),
            ),
        forall|i: int| 0 <= i < ops.len() && #[trigger] ops[i] is Acquire ==> !states[i].is_locked(),
{
    lemma_spinlock_prefix(states, ops, init, ops.len() as int);
    assert forall|i: int| 0 <= i < ops.len() && #[trigger] ops[i] is Acquire implies !states[i].is_locked() by {
        assert(lock_op_step(states[i], states[i + 1], ops[i]));
    }
}

proof fn lemma_spinlock_prefix<T>(states: Seq<Spinlock<T>>, ops: Seq<LockOp<T>>, init: T, n: int)
    requires
        states.len() == ops.len() + 1,
        0 <= n <= ops.len(),
        states[0].value() == init,
        forall|i: int| 0 <= i < ops.len() ==> #[trigger] lock_op_step(states[i], states[i + 1], ops[i]),
    ensures
        forall|i: int| 0 <= i <= n ==> #[trigger] states[i].value() == last_written(init, ops.take(i)),
        forall|i: int|
            0 <= i <= n ==> #[trigger] states[i].is_locked() == held_after(
                states[0].is_locked(),
                ops.take(i),
            ),
    decreases n,
{
    if n == 0 {
        assert(ops.take(0) =~= Seq::<LockOp<T>>::empty());
    } else {
        let m = n - 1;
        lemma_spinlock_prefix(states, ops, init, m);
        assert(lock_op_step(states[m], states[m + 1], ops[m]));
        assert(ops.take(n).drop_last() =~= ops.take(m));
        assert(ops.take(n).last() == ops[m]);
        assert(states[m].value() == last_written(init, ops.take(m)));
        assert(states[m].is_locked() == held_after(states[0].is_locked(), ops.take(m)));
    }
}

} // verus!
