//! Tasks.
use vstd::prelude::*;

verus! {

/// Source of task identifiers; the first one is 1 and each new task takes
/// the next (wrapping, as an atomic counter does).  Identifiers are unique
/// among the tasks created from one counter, so the kernel creates every
/// task from a single counter.
pub struct TaskIdCounter {
    next: u64,
}

impl TaskIdCounter {
    /// Identifier the next task receives.
    pub closed spec fn next_id(&self) -> u64 {
        self.next
    }

    /// A counter whose first identifier is 1.
    pub fn new() -> (r: Self)
        ensures
            r.next_id() == 1,
    {
        TaskIdCounter { next: 1 }
    }
}

/// Task states.
#[derive(Clone, Copy, PartialEq, Eq, Structural)]
pub enum TaskState {
    Running,
    Ready,
    Blocked,
    Dead,
}

/// A task.
pub struct Task {
    pub id: u64,
    pub state: TaskState,
    pub stack: u64,
    pub priority: u8,
}

impl Task {
    /// A ready task with the next identifier, no stack and priority 0.
    pub fn new(ids: &mut TaskIdCounter) -> (r: Self)
        ensures
            r.id == old(ids).next_id(),
            final(ids).next_id() == vstd::wrapping::u64_specs::wrapping_add(old(ids).next_id(), 1),
            r.state == TaskState::Ready,
            r.stack == 0,
            r.priority == 0,
    {
        let id = ids.next;
        ids.next = ids.next.wrapping_add(1);
        Task { id, state: TaskState::Ready, stack: 0, priority: 0 }
    }
}

/// Tasks created one after another from one counter get consecutive
/// identifiers: as long as they do not run past `u64::MAX` they strictly
/// increase, so no two tasks share an identifier.  `ks[i]` is the counter
/// `ts[i]` is created from and `ks[i + 1]` the counter after that.
pub proof fn law_task_ids_unique(ks: Seq<TaskIdCounter>, ts: Seq<Task>)
    requires
        ks.len() == ts.len() + 1,
        ks[0].next_id() + ts.len() <= u64::MAX + 1,
        forall|i: int| 0 <= i < ts.len() ==> (#[trigger] ts[i]).id == ks[i].next_id(),
        forall|i: int|
            0 <= i < ts.len() ==> #[trigger] ks[i + 1].next_id()
                == vstd::wrapping::u64_specs::wrapping_add(ks[i].next_id(), 1),
    ensures
        forall|i: int| 0 <= i < ts.len() ==> (#[trigger] ts[i]).id == ks[0].next_id() + i,
        forall|i: int, j: int| 0 <= i < j < ts.len() ==> (#[trigger] ts[i]).id < (#[trigger] ts[j]).id,
{
    if ts.len() > 0 {
        lemma_task_counter_steps(ks, ts.len() - 1);
    }
}

proof fn lemma_task_counter_steps(ks: Seq<TaskIdCounter>, n: int)
    requires
        0 <= n < ks.len(),
        ks[0].next_id() + n <= u64::MAX,
        forall|i: int|
            0 <= i < n ==> #[trigger] ks[i + 1].next_id() == vstd::wrapping::u64_specs::wrapping_add(
                ks[i].next_id(),
                1,
            ),
    ensures
        forall|i: int| 0 <= i <= n ==> #[trigger] ks[i].next_id() == ks[0].next_id() + i,
    decreases n,
{
    if n > 0 {
        let m = n - 1;
        lemma_task_counter_steps(ks, m);
        assert(ks[m + 1].next_id() == vstd::wrapping::u64_specs::wrapping_add(ks[m].next_id(), 1));
        assert(ks[m].next_id() == ks[0].next_id() + m);
    }
}

} // verus!
