//! The decisions of a worker's loop. The loop itself, with its queue and
//! response channels, runs outside; it reports what happened and is told
//! what to do next. Invocations get tickets in the order they arrive, and a
//! worker holds one invocation at a time.
use vstd::prelude::*;

verus! {

/// What the loop reports.
#[derive(Clone, Copy, Debug, PartialEq, Eq, Structural)]
pub enum WorkerEvent {
    /// The queue gave an invocation.
    Dequeued,
    /// The queue is closed and empty.
    QueueClosed,
    /// The result of the invocation in hand was sent; `delivered` is false
    /// where the caller had stopped waiting.
    Answered { delivered: bool },
}

/// What the loop does next.
#[derive(Clone, Copy, Debug, PartialEq, Eq, Structural)]
pub enum WorkerAction {
    /// Run the invocation just dequeued, which has this ticket.
    Run { ticket: u64 },
    /// Take the next invocation off the queue.
    Dequeue,
    /// Leave the loop.
    Exit,
    /// The event does not fit the worker's state and is ignored.
    Ignore,
}

/// A worker's counters.
#[derive(Clone, Copy, Debug, PartialEq, Eq, Structural)]
pub struct Worker {
    /// Invocations taken off the queue.
    pub received: u64,
    /// Invocations whose result was sent.
    pub answered: u64,
    /// Results that found no caller waiting.
    pub abandoned: u64,
    /// The queue was found closed.
    pub stopped: bool,
}

pub open spec fn busy(w: Worker) -> bool {
    w.received == w.answered + 1
}

/// The worker's counters are consistent: at most one invocation in hand.
pub open spec fn worker_wf(w: Worker) -> bool {
    &&& w.answered <= w.received <= w.answered + 1
    &&& w.abandoned <= w.answered
    &&& w.stopped ==> !busy(w)
}

/// One step of the loop: the next counters and the action.
pub open spec fn worker_step(w: Worker, e: WorkerEvent) -> (Worker, WorkerAction) {
    if w.stopped {
        (w, WorkerAction::Exit)
    } else {
        match e {
            WorkerEvent::Dequeued => if busy(w) || w.received == u64::MAX {
                (w, WorkerAction::Ignore)
            } else {
                (Worker { received: (w.received + 1) as u64, ..w }, WorkerAction::Run { ticket: w.received })
            },
            WorkerEvent::QueueClosed => if busy(w) {
                (w, WorkerAction::Ignore)
            } else {
                (Worker { stopped: true, ..w }, WorkerAction::Exit)
            },
            WorkerEvent::Answered { delivered } => if busy(w) {
                (
                    Worker {
                        answered: (w.answered + 1) as u64,
                        abandoned: if delivered {
                            w.abandoned
                        } else {
                            (w.abandoned + 1) as u64
                        },
                        ..w
                    },
                    WorkerAction::Dequeue,
                )
            } else {
                (w, WorkerAction::Ignore)
            },
        }
    }
}

impl Worker {
    pub open spec fn new_spec() -> Worker {
        Worker { received: 0, answered: 0, abandoned: 0, stopped: false }
    }

    /// A worker that has taken nothing yet.
    pub fn new() -> (r: Worker)
        ensures
            worker_wf(r),
            r == Worker::new_spec(),
    {
        Worker { received: 0, answered: 0, abandoned: 0, stopped: false }
    }

    /// Takes in one event of the loop and says what to do next.
    pub fn step(&mut self, e: WorkerEvent) -> (a: WorkerAction)
        requires
            worker_wf(*old(self)),
        ensures
            worker_wf(*final(self)),
            (*final(self), a) == worker_step(*old(self), e),
    {
        if self.stopped {
            return WorkerAction::Exit;
        }
        let is_busy = self.received > self.answered;
        match e {
            WorkerEvent::Dequeued => {
                if is_busy || self.received == u64::MAX {
                    WorkerAction::Ignore
                } else {
                    let ticket = self.received;
                    self.received = self.received + 1;
                    WorkerAction::Run { ticket }
                }
            },
            WorkerEvent::QueueClosed => {
                if is_busy {
                    WorkerAction::Ignore
                } else {
                    self.stopped = true;
                    WorkerAction::Exit
                }
            },
            WorkerEvent::Answered { delivered } => {
                if is_busy {
                    self.answered = self.answered + 1;
                    if !delivered {
                        self.abandoned = self.abandoned + 1;
                    }
                    WorkerAction::Dequeue
                } else {
                    WorkerAction::Ignore
                }
            },
        }
    }
}

/// The counters after a sequence of events, and the tickets run, in order.
pub open spec fn worker_run(w: Worker, events: Seq<WorkerEvent>) -> (Worker, Seq<u64>)
    decreases events.len(),
{
    if events.len() == 0 {
        (w, seq![])
    } else {
        let before = worker_run(w, events.drop_last());
        let after = worker_step(before.0, events.last());
        match after.1 {
            WorkerAction::Run { ticket } => (after.0, before.1.push(ticket)),
            _ => (after.0, before.1),
        }
    }
}

proof fn lemma_worker_run(events: Seq<WorkerEvent>)
    ensures
        ({
            let r = worker_run(Worker::new_spec(), events);
            &&& worker_wf(r.0)
            &&& r.1.len() == r.0.received
            &&& forall|i: int| 0 <= i < r.1.len() ==> r.1[i] == i
        }),
    decreases events.len(),
{
    if events.len() > 0 {
        lemma_worker_run(events.drop_last());
    }
}

/// First in, first out: from a new worker, whatever the loop reports, the
/// invocations are run in the order they were taken off the queue, each
/// before the next is taken, so the k-th result sent answers the k-th
/// invocation received.
pub proof fn law_fifo(events: Seq<WorkerEvent>)
    ensures
        ({
            let r = worker_run(Worker::new_spec(), events);
            &&& forall|i: int| 0 <= i < r.1.len() ==> r.1[i] == i
            &&& r.0.answered <= r.1.len() <= r.0.answered + 1
        }),
{
    lemma_worker_run(events);
}

} // verus!
