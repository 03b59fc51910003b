//! The run queue: a bounded FIFO of ready task cells, filled by spawners and
//! readiness continuations, drained one cell at a time by the executor.

use std::collections::VecDeque;
use vstd::prelude::*;

verus! {

/// What resuming a task cell once reported.
#[derive(PartialEq, Eq, Structural, Clone, Copy, Debug)]
pub enum TaskPoll {
    /// The computation reached a suspend point; a readiness continuation
    /// elsewhere is responsible for the next re-enqueue.
    Pending,
    /// The computation finished; the cell must not be resumed again.
    Ready,
}

/// Bounded multi-producer single-consumer queue of ready task cells.  `T` is
/// the task-cell handle: the running system uses a shared pointer to the task,
/// a simulation can use a plain identifier.
pub struct RunQueue<T> {
    items: VecDeque<T>,
    bound: usize,
}

impl<T> View for RunQueue<T> {
    type V = Seq<T>;

    closed spec fn view(&self) -> Seq<T> {
        self.items@
    }
}

impl<T> RunQueue<T> {
    /// The fixed capacity the queue was created with.
    pub closed spec fn capacity(&self) -> int {
        self.bound as int
    }

    /// Fresh, empty queue with the given capacity.
    pub fn new(bound: usize) -> (r: RunQueue<T>)
        ensures
            r@ == Seq::<T>::empty(),
            r.capacity() == bound,
    {
        RunQueue { items: VecDeque::new(), bound }
    }

    /// Enqueues one ready task cell at the back.  A producer that finds the
    /// queue full blocks until space opens, so this models the step taken
    /// once space is available.
    pub fn send(&mut self, t: T)
        requires
            old(self)@.len() < old(self).capacity(),
        ensures
            final(self)@ == old(self)@.push(t),
            final(self).capacity() == old(self).capacity(),
    {
        self.items.push_back(t);
    }

    /// Dequeues the oldest ready task cell, if any: strict FIFO order.  An
    /// empty result models the consumer finding nothing ready (it blocks, or
    /// the channel is closed and the executor loop ends).
    pub fn recv(&mut self) -> (r: Option<T>)
        ensures
            final(self).capacity() == old(self).capacity(),
            match r {
                Some(t) => old(self)@.len() > 0 && t == old(self)@[0] && final(self)@ == old(
                    self,
                )@.drop_first(),
                None => old(self)@.len() == 0 && final(self)@ == old(self)@,
            },
    {
        let r = self.items.pop_front();
        proof {
            if old(self)@.len() > 0 {
                assert(self.items@ =~= old(self)@.drop_first());
            }
        }
        r
    }

    /// How many cells are ready.
    pub fn len(&self) -> (r: usize)
        ensures
            r == self@.len(),
    {
        self.items.len()
    }
}

/// What the executor does with a task cell after resuming it once.  Neither
/// variant stops the drive loop: it ends only when the run queue is
/// permanently closed (all producers dropped), which in the running server
/// happens only at process shutdown.
#[derive(PartialEq, Eq, Structural, Clone, Copy, Debug)]
pub enum ResumeAction {
    /// The computation reached a suspend point: put the cell aside; the
    /// readiness continuation it registered performs the next re-enqueue.
    AwaitReadiness,
    /// The computation finished: drop the cell, never to be resumed again.
    Discard,
}

/// The executor's decision after resuming one task cell.  A pending cell
/// waits for its readiness callback; a finished cell is dropped and the
/// executor simply takes the next ready cell.  No resumption outcome
/// terminates the drive loop.
pub fn after_resume(p: TaskPoll) -> (r: ResumeAction)
    ensures
        r == (match p {
            TaskPoll::Pending => ResumeAction::AwaitReadiness,
            TaskPoll::Ready => ResumeAction::Discard,
        }),
{
    match p {
        TaskPoll::Pending => ResumeAction::AwaitReadiness,
        TaskPoll::Ready => ResumeAction::Discard,
    }
}

} // verus!
