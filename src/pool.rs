//! The shared state of the worker pool: a FIFO of submitted tasks, the
//! tickets of the tasks that workers are running, and the stop flag.
//!
//! Threads, locks and waiting live outside; each worker holds the lock,
//! asks [`TaskQueue::take`] what to do, runs the task without the lock, and
//! reports back with [`TaskQueue::finish`].
use std::collections::VecDeque;
use vstd::prelude::*;

verus! {

/// Where a submitted task stands.
#[derive(Debug, Clone, Copy, PartialEq, Eq, Structural)]
pub enum TaskState {
    /// Waiting in the queue.
    Queued,
    /// Handed to a worker, not yet reported back.
    Running,
    /// Reported back by its worker.
    Finished,
    /// Taken out of the queue unstarted because the pool stopped.
    Dropped,
}

/// What a worker does next.
pub enum WorkerStep<T> {
    /// Execute the task; afterwards pass the ticket to `finish`.
    Run(u64, T),
    /// Nothing is queued: sleep until woken.
    Wait,
    /// The pool is stopping: leave the loop.
    Exit,
}

/// Tasks submitted to the pool, identified by tickets handed out in order.
pub struct TaskQueue<T> {
    queue: VecDeque<(u64, T)>,
    running: Vec<u64>,
    next_ticket: u64,
    stopped: bool,
    states: Ghost<Map<u64, TaskState>>,
    dispatched: Ghost<Seq<u64>>,
}

impl<T> TaskQueue<T> {
    /// Tickets and tasks waiting in the queue, oldest first.
    pub closed spec fn queued(&self) -> Seq<(u64, T)> {
        self.queue@
    }

    /// Tickets of the tasks that workers are running.
    pub closed spec fn running(&self) -> Seq<u64> {
        self.running@
    }

    /// Number of tasks submitted so far; also the next ticket.
    pub closed spec fn submitted(&self) -> nat {
        self.next_ticket as nat
    }

    pub closed spec fn is_stopped(&self) -> bool {
        self.stopped
    }

    /// State of every ticket handed out so far.
    pub closed spec fn states(&self) -> Map<u64, TaskState> {
        self.states@
    }

    /// Tickets in the order in which workers took them.
    pub closed spec fn dispatched(&self) -> Seq<u64> {
        self.dispatched@
    }

    /// Tasks submitted and not yet finished or dropped.
    pub open spec fn outstanding(&self) -> nat {
        self.queued().len() + self.running().len()
    }

    pub closed spec fn wf(&self) -> bool {
        let next = self.next_ticket;
        let q = self.queue@;
        let first = next - q.len();
        &&& forall|t: u64| #[trigger] self.states@.contains_key(t) <==> t < next
        &&& q.len() <= next
        &&& forall|i: int| 0 <= i < q.len() ==> #[trigger] q[i].0 == first + i
        &&& forall|t: u64|
            t < next ==> (#[trigger] self.states@[t] == TaskState::Queued <==> first <= t)
        &&& self.running@.no_duplicates()
        &&& forall|i: int|
            0 <= i < self.running@.len() ==> #[trigger] self.running@[i] < next
                && self.states@[self.running@[i]] == TaskState::Running
        &&& forall|t: u64|
            t < next && #[trigger] self.states@[t] == TaskState::Running
                ==> self.running@.contains(t)
        &&& self.dispatched@.no_duplicates()
        &&& forall|i: int|
            0 <= i < self.dispatched@.len() ==> #[trigger] self.dispatched@[i] < next && (
            self.states@[self.dispatched@[i]] == TaskState::Running
                || self.states@[self.dispatched@[i]] == TaskState::Finished)
        &&& forall|t: u64|
            t < next && (#[trigger] self.states@[t] == TaskState::Running || self.states@[t]
                == TaskState::Finished) ==> self.dispatched@.contains(t)
        &&& !self.stopped ==> forall|t: u64|
            t < next ==> #[trigger] self.states@[t] != TaskState::Dropped
        &&& self.stopped ==> q.len() == 0
    }

    /// An empty queue that accepts tasks.
    pub fn new() -> (r: TaskQueue<T>)
        ensures
            r.wf(),
            r.queued().len() == 0,
            r.running().len() == 0,
            r.submitted() == 0,
            !r.is_stopped(),
            r.dispatched().len() == 0,
    {
        TaskQueue {
            queue: VecDeque::new(),
            running: Vec::new(),
            next_ticket: 0,
            stopped: false,
            states: Ghost(Map::empty()),
            dispatched: Ghost(Seq::empty()),
        }
    }

    /// Submits a task; it gets the next ticket. A stopped pool, or one that
    /// has used up every ticket, hands the task back.
    pub fn push(&mut self, task: T) -> (r: Result<u64, T>)
        requires
            old(self).wf(),
        ensures
            final(self).wf(),
            r is Ok <==> !old(self).is_stopped() && old(self).submitted() < u64::MAX,
            r matches Ok(t) ==> {
                &&& t == old(self).submitted()
                &&& final(self).queued() == old(self).queued().push((t, task))
                &&& final(self).submitted() == old(self).submitted() + 1
                &&& final(self).states() == old(self).states().insert(t, TaskState::Queued)
            },
            r matches Err(back) ==> back == task && final(self).queued() == old(self).queued()
                && final(self).submitted() == old(self).submitted() && final(self).states()
                == old(self).states(),
            final(self).running() == old(self).running(),
            final(self).dispatched() == old(self).dispatched(),
            final(self).is_stopped() == old(self).is_stopped(),
    {
        if self.stopped || self.next_ticket == u64::MAX {
            return Err(task);
        }
        let t = self.next_ticket;
        self.queue.push_back((t, task));
        self.states = Ghost(self.states@.insert(t, TaskState::Queued));
        self.next_ticket = t + 1;
        proof {
            assert forall|i: int| 0 <= i < self.running@.len() implies #[trigger] self.running@[i]
                < self.next_ticket && self.states@[self.running@[i]] == TaskState::Running by {
                assert(old(self).states@[old(self).running@[i]] == TaskState::Running);
            }
            assert forall|t2: u64|
                t2 < self.next_ticket && #[trigger] self.states@[t2] == TaskState::Running
                    implies self.running@.contains(t2) by {
                assert(t2 != t);
            }
            assert forall|i: int| 0 <= i < self.dispatched@.len() implies #[trigger] self.dispatched@[i]
                < self.next_ticket && (self.states@[self.dispatched@[i]] == TaskState::Running
                || self.states@[self.dispatched@[i]] == TaskState::Finished) by {
                assert(old(self).dispatched@[i] < t);
            }
            assert forall|t2: u64|
                t2 < self.next_ticket && (#[trigger] self.states@[t2] == TaskState::Running
                    || self.states@[t2] == TaskState::Finished) implies self.dispatched@.contains(t2) by {
                assert(t2 != t);
            }
        }
        Ok(t)
    }

    /// The next step of a worker that holds the lock: a stopped pool sends it
    /// away, an empty queue makes it wait, otherwise it gets the oldest task.
    pub fn take(&mut self) -> (r: WorkerStep<T>)
        requires
            old(self).wf(),
        ensures
            final(self).wf(),
            final(self).submitted() == old(self).submitted(),
            final(self).is_stopped() == old(self).is_stopped(),
            old(self).is_stopped() ==> r is Exit && *final(self) == *old(self),
            !old(self).is_stopped() && old(self).queued().len() == 0 ==> r is Wait && *final(self)
                == *old(self),
            !old(self).is_stopped() && old(self).queued().len() > 0 ==> {
                let t = old(self).queued()[0].0;
                &&& r == WorkerStep::Run(t, old(self).queued()[0].1)
                &&& final(self).queued() == old(self).queued().drop_first()
                &&& final(self).running() == old(self).running().push(t)
                &&& final(self).states() == old(self).states().insert(t, TaskState::Running)
                &&& final(self).dispatched() == old(self).dispatched().push(t)
            },
    {
        if self.stopped {
            return WorkerStep::Exit;
        }
        if self.queue.len() == 0 {
            return WorkerStep::Wait;
        }
        match self.queue.pop_front() {
            None => WorkerStep::Wait,
            Some(item) => {
                let (t, task) = item;
                let ghost old_running = self.running@;
                let ghost old_dispatched = self.dispatched@;
                let ghost old_states = self.states@;
                proof {
                    assert(old(self).queue@[0].0 == t);
                    assert(old_states[t] == TaskState::Queued);
                    assert(!old_running.contains(t));
                    assert(!old_dispatched.contains(t));
                }
                self.running.push(t);
                self.states = Ghost(self.states@.insert(t, TaskState::Running));
                self.dispatched = Ghost(self.dispatched@.push(t));
                proof {
                    let next = self.next_ticket;
                    assert forall|i: int| 0 <= i < self.queue@.len() implies #[trigger] self.queue@[i].0
                        == next - self.queue@.len() + i by {
                        assert(self.queue@[i] == old(self).queue@[i + 1]);
                    }
                    assert forall|t2: u64| t2 < next implies (#[trigger] self.states@[t2]
                        == TaskState::Queued <==> next - self.queue@.len() <= t2) by {
                    }
                    assert forall|i: int| 0 <= i < self.running@.len() implies #[trigger] self.running@[i]
                        < next && self.states@[self.running@[i]] == TaskState::Running by {
                        if i < old_running.len() {
                            assert(self.running@[i] == old_running[i]);
                            assert(old_states[old_running[i]] == TaskState::Running);
                        }
                    }
                    assert forall|t2: u64|
                        t2 < next && #[trigger] self.states@[t2] == TaskState::Running implies self.running@.contains(t2) by {
                        if t2 == t {
                            assert(self.running@[old_running.len() as int] == t);
                        } else {
                            let k = choose|k: int| 0 <= k < old_running.len() && old_running[k] == t2;
                            assert(self.running@[k] == t2);
                        }
                    }
                    assert forall|i: int| 0 <= i < self.dispatched@.len() implies #[trigger] self.dispatched@[i]
                        < next && (self.states@[self.dispatched@[i]] == TaskState::Running
                        || self.states@[self.dispatched@[i]] == TaskState::Finished) by {
                        if i < old_dispatched.len() {
                            assert(self.dispatched@[i] == old_dispatched[i]);
                        }
                    }
                    assert forall|t2: u64|
                        t2 < next && (#[trigger] self.states@[t2] == TaskState::Running
                            || self.states@[t2] == TaskState::Finished) implies self.dispatched@.contains(t2) by {
                        if t2 == t {
                            assert(self.dispatched@[old_dispatched.len() as int] == t);
                        } else {
                            let k = choose|k: int| 0 <= k < old_dispatched.len() && old_dispatched[k] == t2;
                            assert(self.dispatched@[k] == t2);
                        }
                    }
                }
                WorkerStep::Run(t, task)
            },
        }
    }

    /// A worker reports that the task with this ticket has run. Returns
    /// `false`, and changes nothing, for a ticket that is not running.
    pub fn finish(&mut self, ticket: u64) -> (r: bool)
        requires
            old(self).wf(),
        ensures
            final(self).wf(),
            r == old(self).running().contains(ticket),
            r ==> {
                &&& final(self).running().len() + 1 == old(self).running().len()
                &&& forall|t: u64|
                    #[trigger] final(self).running().contains(t) <==> (old(self).running().contains(
                        t,
                    ) && t != ticket)
                &&& final(self).states() == old(self).states().insert(ticket, TaskState::Finished)
            },
            !r ==> *final(self) == *old(self),
            final(self).queued() == old(self).queued(),
            final(self).submitted() == old(self).submitted(),
            final(self).dispatched() == old(self).dispatched(),
            final(self).is_stopped() == old(self).is_stopped(),
    {
        let mut k: usize = 0;
        while k < self.running.len()
            invariant
                *self == *old(self),
                self.wf(),
                k <= self.running@.len(),
                forall|j: int| 0 <= j < k ==> self.running@[j] != ticket,
            decreases self.running@.len() - k,
        {
            if self.running[k] == ticket {
                let ghost old_running = self.running@;
                let ghost old_states = self.states@;
                self.running.remove(k);
                self.states = Ghost(self.states@.insert(ticket, TaskState::Finished));
                proof {
                    let next = self.next_ticket;
                    let rn = self.running@;
                    assert(rn =~= old_running.remove(k as int));
                    assert forall|i: int, j: int|
                        0 <= i < rn.len() && 0 <= j < rn.len() && i != j implies rn[i] != rn[j] by {
                        let oi = if i < k { i } else { i + 1 };
                        let oj = if j < k { j } else { j + 1 };
                        assert(rn[i] == old_running[oi]);
                        assert(rn[j] == old_running[oj]);
                    }
                    assert(rn.no_duplicates());
                    assert forall|i: int| 0 <= i < rn.len() implies #[trigger] rn[i] < next
                        && self.states@[rn[i]] == TaskState::Running by {
                        let oi = if i < k { i } else { i + 1 };
                        assert(rn[i] == old_running[oi]);
                        assert(oi != k);
                        assert(old_states[old_running[oi]] == TaskState::Running);
                    }
                    assert forall|t: u64| #[trigger] rn.contains(t) <==> (old_running.contains(t)
                        && t != ticket) by {
                        if rn.contains(t) {
                            let i = choose|i: int| 0 <= i < rn.len() && rn[i] == t;
                            let oi = if i < k { i } else { i + 1 };
                            assert(rn[i] == old_running[oi]);
                            assert(oi != k);
                        }
                        if old_running.contains(t) && t != ticket {
                            let oi = choose|i: int| 0 <= i < old_running.len() && old_running[i] == t;
                            assert(oi != k);
                            let i = if oi < k { oi } else { oi - 1 };
                            assert(rn[i] == t);
                        }
                    }
                    assert forall|t: u64|
                        t < next && #[trigger] self.states@[t] == TaskState::Running implies rn.contains(t) by {
                        assert(t != ticket);
                        assert(old_running.contains(t));
                    }
                    assert(old_running.contains(ticket)) by {
                        assert(old_running[k as int] == ticket);
                    }
                    assert forall|i: int| 0 <= i < self.dispatched@.len() implies #[trigger] self.dispatched@[i]
                        < next && (self.states@[self.dispatched@[i]] == TaskState::Running
                        || self.states@[self.dispatched@[i]] == TaskState::Finished) by {
                    }
                    assert forall|t: u64|
                        t < next && (#[trigger] self.states@[t] == TaskState::Running
                            || self.states@[t] == TaskState::Finished) implies self.dispatched@.contains(t) by {
                        if t == ticket {
                            assert(old_states[t] == TaskState::Running);
                        }
                    }
                }
                return true;
            }
            k = k + 1;
        }
        proof {
            assert(!self.running@.contains(ticket));
        }
        false
    }

    /// No task is queued or running: what waiting for the pool waits for.
    pub fn is_idle(&self) -> (r: bool)
        ensures
            r == (self.outstanding() == 0),
    {
        self.queue.len() == 0 && self.running.len() == 0
    }

    /// Stops the pool: later calls of `take` send workers away, and the
    /// tasks still queued are dropped unstarted and handed back, oldest
    /// first. Running tasks are left to finish.
    pub fn request_stop(&mut self) -> (r: Vec<T>)
        requires
            old(self).wf(),
        ensures
            final(self).wf(),
            final(self).is_stopped(),
            r@ == old(self).queued().map_values(|p: (u64, T)| p.1),
            final(self).queued().len() == 0,
            final(self).running() == old(self).running(),
            final(self).submitted() == old(self).submitted(),
            final(self).dispatched() == old(self).dispatched(),
            forall|t: u64|
                #[trigger] old(self).states().contains_key(t) ==> final(self).states().contains_key(
                    t,
                ) && final(self).states()[t] == if old(self).states()[t] == TaskState::Queued {
                    TaskState::Dropped
                } else {
                    old(self).states()[t]
                },
    {
        let ghost old_states = self.states@;
        let ghost old_queue = self.queue@;
        let ghost next = self.next_ticket;
        let ghost first = next - old_queue.len();
        self.states = Ghost(
            Map::new(
                |t: u64| t < next,
                |t: u64|
                    if old_states[t] == TaskState::Queued {
                        TaskState::Dropped
                    } else {
                        old_states[t]
                    },
            ),
        );
        self.stopped = true;
        let mut dropped: Vec<T> = Vec::new();
        while self.queue.len() > 0
            invariant
                dropped@ + self.queue@.map_values(|p: (u64, T)| p.1) == old_queue.map_values(
                    |p: (u64, T)| p.1,
                ),
                self.stopped,
                self.next_ticket == next,
                self.running@ == old(self).running@,
                self.dispatched@ == old(self).dispatched@,
                self.states@ == Map::new(
                    |t: u64| t < next,
                    |t: u64|
                        if old_states[t] == TaskState::Queued {
                            TaskState::Dropped
                        } else {
                            old_states[t]
                        },
                ),
            decreases self.queue@.len(),
        {
            let ghost before = self.queue@;
            let item = self.queue.pop_front();
            match item {
                Some(p) => {
                    let (_, task) = p;
                    let ghost old_dropped = dropped@;
                    dropped.push(task);
                    assert(before.map_values(|p: (u64, T)| p.1) =~= seq![before[0].1]
                        + self.queue@.map_values(|p: (u64, T)| p.1));
                    assert(old_dropped + before.map_values(|p: (u64, T)| p.1) =~= dropped@
                        + self.queue@.map_values(|p: (u64, T)| p.1));
                },
                None => {},
            }
        }
        assert(self.queue@.map_values(|p: (u64, T)| p.1) =~= Seq::<T>::empty());
        assert(dropped@ + Seq::<T>::empty() =~= dropped@);
        proof {
            assert forall|i: int| 0 <= i < self.running@.len() implies #[trigger] self.running@[i]
                < next && self.states@[self.running@[i]] == TaskState::Running by {
                assert(old_states[self.running@[i]] == TaskState::Running);
            }
            assert forall|i: int| 0 <= i < self.dispatched@.len() implies #[trigger] self.dispatched@[i]
                < next && (self.states@[self.dispatched@[i]] == TaskState::Running
                || self.states@[self.dispatched@[i]] == TaskState::Finished) by {
                let d = self.dispatched@[i];
                assert(old_states[d] == TaskState::Running || old_states[d] == TaskState::Finished);
            }
            assert forall|t: u64| t < next implies (#[trigger] self.states@[t] == TaskState::Queued
                <==> next - self.queue@.len() <= t) by {
                assert(old_states[t] == TaskState::Queued ==> self.states@[t] == TaskState::Dropped);
            }
        }
        dropped
    }
}

/// Waiting for the pool is complete once nothing is queued or running; at that
/// point, in a pool that was never stopped, each task submitted so far was
/// handed to a worker exactly once and has finished.
pub proof fn lemma_idle_pool_ran_each_task_once<T>(q: &TaskQueue<T>)
    requires
        q.wf(),
        !q.is_stopped(),
        q.outstanding() == 0,
    ensures
        q.dispatched().no_duplicates(),
        forall|t: u64| #[trigger] q.dispatched().contains(t) <==> t < q.submitted(),
        forall|t: u64| t < q.submitted() ==> #[trigger] q.states()[t] == TaskState::Finished,
{
    assert forall|t: u64| t < q.submitted() implies #[trigger] q.states()[t]
        == TaskState::Finished by {
        assert(q.states()[t] != TaskState::Dropped);
        assert(q.states()[t] != TaskState::Running);
        assert(q.states()[t] != TaskState::Queued);
    }
    assert forall|t: u64| #[trigger] q.dispatched().contains(t) <==> t < q.submitted() by {
        if q.dispatched().contains(t) {
            let i = choose|i: int| 0 <= i < q.dispatched().len() && q.dispatched()[i] == t;
            assert(q.dispatched()[i] < q.submitted());
        }
        if t < q.submitted() {
            assert(q.states()[t] == TaskState::Finished);
        }
    }
}

} // verus!
