use vstd::prelude::*;

verus! {

/// Identifies one task of a scheduler; a waker stores only this.
#[derive(Clone, Copy, Debug, PartialEq, Eq, Structural)]
pub struct TaskId {
    pub id: u64,
}

impl TaskId {
    /// Takes the next identifier from `next`.
    pub fn new(next: &mut u64) -> (r: TaskId)
        requires
            *old(next) < u64::MAX,
        ensures
            r.id == *old(next),
            *final(next) == *old(next) + 1,
    {
        let r = TaskId { id: *next };
        *next = *next + 1;
        r
    }
}

/// The run queue after `t` is woken: `t` is appended unless it is already
/// waiting, so a task never stands twice in the queue.
pub open spec fn woken(q: Seq<TaskId>, t: TaskId) -> Seq<TaskId> {
    if q.contains(t) {
        q
    } else {
        q.push(t)
    }
}

/// The run queue after each task of `ts` is woken, in order.
pub open spec fn woken_all(q: Seq<TaskId>, ts: Seq<TaskId>) -> Seq<TaskId>
    decreases ts.len(),
{
    if ts.len() == 0 {
        q
    } else {
        woken(woken_all(q, ts.drop_last()), ts.last())
    }
}

/// A handle that asks for one task to be advanced again.
#[derive(Clone, Copy, Debug, PartialEq, Eq, Structural)]
pub struct Waker {
    pub task: TaskId,
}

impl Waker {
    /// Puts the task back on the run queue, unless it already waits there.
    pub fn wake(&self, sched: &mut Scheduler)
        requires
            old(sched).wf(),
            self.task.id < old(sched).next_id(),
        ensures
            final(sched).wf(),
            final(sched)@ == woken(old(sched)@, self.task),
            final(sched).next_id() == old(sched).next_id(),
    {
        sched.enqueue(self.task);
    }
}

/// What the drive loop does next.
pub enum RunStep {
    /// Advance these tasks, in this order.
    Advance(Vec<TaskId>),
    /// Nothing is runnable: block until the reactor reports readiness.
    Wait,
}

/// The run queue of a single-threaded cooperative runtime.
pub struct Scheduler {
    runnable: Vec<TaskId>,
    next_id: u64,
}

impl View for Scheduler {
    type V = Seq<TaskId>;

    closed spec fn view(&self) -> Seq<TaskId> {
        self.runnable@
    }
}

impl Scheduler {
    /// The identifier that the next spawned task receives.
    pub closed spec fn next_id(&self) -> u64 {
        self.next_id
    }

    /// No task waits twice, and every queued task has been spawned.
    pub open spec fn wf(&self) -> bool {
        &&& self@.no_duplicates()
        &&& forall|i: int| 0 <= i < self@.len() ==> (#[trigger] self@[i]).id < self.next_id()
    }

    pub fn new() -> (r: Scheduler)
        ensures
            r.wf(),
            r@ == Seq::<TaskId>::empty(),
            r.next_id() == 0,
    {
        Scheduler { runnable: Vec::new(), next_id: 0 }
    }

    fn enqueue(&mut self, t: TaskId)
        requires
            old(self).wf(),
            t.id < old(self).next_id(),
        ensures
            final(self).wf(),
            final(self)@ == woken(old(self)@, t),
            final(self).next_id() == old(self).next_id(),
    {
        let mut i: usize = 0;
        while i < self.runnable.len()
            invariant
                0 <= i <= self.runnable@.len(),
                old(self).wf(),
                self.runnable@ == old(self).runnable@,
                self.next_id == old(self).next_id,
                forall|j: int| 0 <= j < i ==> self.runnable@[j] != t,
            decreases self.runnable@.len() - i,
        {
            if self.runnable[i] == t {
                assert(self@.contains(t)) by {
                    assert(self@[i as int] == t);
                }
                return;
            }
            i = i + 1;
        }
        assert(!self@.contains(t));
        self.runnable.push(t);
        assert forall|a: int, b: int| 0 <= a < b < self@.len() implies self@[a] != self@[b] by {
            if b == self@.len() - 1 {
                assert(self@[a] == old(self)@[a]);
            } else {
                assert(old(self)@[a] != old(self)@[b]);
            }
        }
        assert forall|j: int| 0 <= j < self@.len() implies (#[trigger] self@[j]).id < self.next_id() by {
            if j < old(self)@.len() {
                assert(self@[j] == old(self)@[j]);
            }
        }
    }

    /// Appends a new task to the back of the run queue and returns its
    /// identifier; `None` once every identifier has been handed out.
    pub fn spawn(&mut self) -> (r: Option<TaskId>)
        requires
            old(self).wf(),
        ensures
            final(self).wf(),
            match r {
                Some(t) => {
                    &&& old(self).next_id() < u64::MAX
                    &&& t.id == old(self).next_id()
                    &&& final(self).next_id() == old(self).next_id() + 1
                    &&& final(self)@ == old(self)@.push(t)
                },
                None => {
                    &&& old(self).next_id() == u64::MAX
                    &&& *final(self) == *old(self)
                },
            },
    {
        if self.next_id == u64::MAX {
            return None;
        }
        let t = TaskId::new(&mut self.next_id);
        self.runnable.push(t);
        assert forall|a: int, b: int| 0 <= a < b < self@.len() implies self@[a] != self@[b] by {
            if b == self@.len() - 1 {
                assert(old(self)@[a].id < old(self).next_id);
            } else {
                assert(old(self)@[a] != old(self)@[b]);
            }
        }
        assert forall|j: int| 0 <= j < self@.len() implies (#[trigger] self@[j]).id < self.next_id() by {
            if j < old(self)@.len() {
                assert(self@[j] == old(self)@[j]);
            }
        }
        Some(t)
    }

    /// One pass of the drive loop. The tasks queued now are handed out, in
    /// order, and the queue starts empty; what wakers queue during the pass
    /// runs in the next one. With nothing queued the loop is told to wait.
    pub fn run(&mut self) -> (r: RunStep)
        requires
            old(self).wf(),
        ensures
            final(self).wf(),
            final(self)@ == Seq::<TaskId>::empty(),
            final(self).next_id() == old(self).next_id(),
            match r {
                RunStep::Advance(batch) => old(self)@.len() > 0 && batch@ == old(self)@,
                RunStep::Wait => old(self)@.len() == 0,
            },
    {
        if self.runnable.len() == 0 {
            return RunStep::Wait;
        }
        let mut batch: Vec<TaskId> = Vec::new();
        std::mem::swap(&mut batch, &mut self.runnable);
        RunStep::Advance(batch)
    }
}


/// Waking a task twice before it runs queues it once: duplicate wakes
/// coalesce, so a task is never advanced twice for one pending period.
pub proof fn lemma_wake_coalesces(q: Seq<TaskId>, t: TaskId)
    ensures
        woken(woken(q, t), t) == woken(q, t),
        woken(q, t).contains(t),
{
    if !q.contains(t) {
        assert(q.push(t)[q.len() as int] == t);
    }
}

/// No wakeup is lost: a task that waited, or that one of a batch of wakers
/// woke, stands in the queue afterwards, whatever else was woken with it.
pub proof fn lemma_wake_not_lost(q: Seq<TaskId>, ts: Seq<TaskId>, t: TaskId)
    requires
        q.contains(t) || ts.contains(t),
    ensures
        woken_all(q, ts).contains(t),
    decreases ts.len(),
{
    if ts.len() > 0 {
        let rest = ts.drop_last();
        let before = woken_all(q, rest);
        if q.contains(t) || rest.contains(t) {
            lemma_wake_not_lost(q, rest, t);
            if !before.contains(ts.last()) {
                let j = choose|j: int| 0 <= j < before.len() && before[j] == t;
                assert(before.push(ts.last())[j] == t);
            }
        } else {
            let j = choose|j: int| 0 <= j < ts.len() && ts[j] == t;
            if j < ts.len() - 1 {
                assert(rest[j] == t);
            }
            lemma_wake_coalesces(before, t);
        }
    }
}

} // verus!
