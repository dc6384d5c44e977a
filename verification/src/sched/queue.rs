//! Round-robin run queue.
use vstd::prelude::*;
use std::collections::VecDeque;
use crate::sched::task::Task;

verus! {

/// What `pop_front` does to the queue `before`: it gives `after` and the
/// result `r`, the front task, or nothing when the queue is empty.
pub open spec fn pop_step(before: Seq<Task>, after: Seq<Task>, r: Option<Task>) -> bool {
    if before.len() == 0 {
        r is None && after == before
    } else {
        r == Some(before[0]) && after == before.drop_first()
    }
}

/// Task run queue: first in, first out.
pub struct RunQueue {
    queue: VecDeque<Task>,
}

impl RunQueue {
    /// Queued tasks, front first.
    pub closed spec fn tasks(&self) -> Seq<Task> {
        self.queue@
    }

    /// An empty queue.
    pub fn new() -> (r: Self)
        ensures
            r.tasks() == Seq::<Task>::empty(),
    {
        RunQueue { queue: VecDeque::new() }
    }

    /// Queue `task` at the back.
    pub fn push_back(&mut self, task: Task)
        ensures
            final(self).tasks() == old(self).tasks().push(task),
    {
        self.queue.push_back(task);
    }

    /// Take the task at the front, if any.
    pub fn pop_front(&mut self) -> (r: Option<Task>)
        ensures
            old(self).tasks().len() == 0 ==> r is None && final(self).tasks() == old(self).tasks(),
            old(self).tasks().len() > 0 ==> r == Some(old(self).tasks()[0]) && final(self).tasks()
                == old(self).tasks().drop_first(),
            pop_step(old(self).tasks(), final(self).tasks(), r),
    {
        self.queue.pop_front()
    }

    /// Whether no task is queued.
    pub fn is_empty(&self) -> (r: bool)
        ensures
            r == (self.tasks().len() == 0),
    {
        self.queue.len() == 0
    }
}

/// First in, first out: after `task` is queued behind `q`, the next
/// `q.len() + 1` pops return the tasks of `q` in order and then `task`,
/// and the pop after them finds the queue empty.  `qs[i]` is the queue
/// before pop `i` and `rs[i]` its result; `qs[0]` is `q` with `task`
/// pushed.
pub proof fn law_run_queue_fifo(q: Seq<Task>, task: Task, qs: Seq<Seq<Task>>, rs: Seq<Option<Task>>)
    requires
        rs.len() == q.len() + 2,
        qs.len() == rs.len() + 1,
        qs[0] == q.push(task),
        forall|i: int| 0 <= i < rs.len() ==> #[trigger] pop_step(qs[i], qs[i + 1], rs[i]),
    ensures
        forall|i: int| 0 <= i < q.len() ==> #[trigger] rs[i] == Some(q[i]),
        rs[q.len() as int] == Some(task),
        rs[q.len() as int + 1] is None,
{
    let full = q.push(task);
    lemma_pops_skip(full, qs, rs, full.len() as int);
    assert forall|i: int| 0 <= i < q.len() implies #[trigger] rs[i] == Some(q[i]) by {
        assert(pop_step(qs[i], qs[i + 1], rs[i]));
        assert(qs[i] == full.skip(i));
    }
    let n = q.len() as int;
    assert(pop_step(qs[n], qs[n + 1], rs[n]));
    assert(qs[n] == full.skip(n));
    let j = n + 1;
    assert(pop_step(qs[j], qs[j + 1], rs[j]));
    assert(qs[j] == full.skip(j));
}

proof fn lemma_pops_skip(full: Seq<Task>, qs: Seq<Seq<Task>>, rs: Seq<Option<Task>>, k: int)
    requires
        0 <= k <= full.len(),
        k < rs.len(),
        qs.len() == rs.len() + 1,
        qs[0] == full,
        forall|i: int| 0 <= i < rs.len() ==> #[trigger] pop_step(qs[i], qs[i + 1], rs[i]),
    ensures
        forall|i: int| 0 <= i <= k ==> #[trigger] qs[i] == full.skip(i),
    decreases k,
{
    if k == 0 {
        assert(full.skip(0) =~= full);
    } else {
        let m = k - 1;
        lemma_pops_skip(full, qs, rs, m);
        assert(pop_step(qs[m], qs[m + 1], rs[m]));
        assert(qs[m] == full.skip(m));
        assert(full.skip(m).drop_first() =~= full.skip(k));
    }
}

} // verus!
