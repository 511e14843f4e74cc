//! Task handles, and the wakers that put a task back on the executor's
//! queue of woken tasks.

use crate::simple_channel::Receiver;
use crate::simple_channel::Sender;
use vstd::prelude::*;

verus! {

/// The handle of a task: its place in the table of the executor that
/// owns it. Two handles are equal when they name the same task.
#[derive(Debug, Clone, Copy, PartialEq, Eq, Structural)]
pub struct TaskId {
    pub index: usize,
}

/// A waker bound to one task. Waking appends the task's handle to the
/// queue of woken tasks.
#[derive(Debug)]
pub struct SimpleWaker {
    task: TaskId,
    woken_tx: Sender<TaskId>,
}

impl View for SimpleWaker {
    type V = TaskId;

    /// The task this waker wakes. Two wakers are equivalent when they
    /// wake the same task.
    closed spec fn view(&self) -> TaskId {
        self.task
    }
}

impl Clone for SimpleWaker {
    /// A second waker for the same task.
    fn clone(&self) -> (other: Self)
        ensures
            other@ == self@,
    {
        SimpleWaker { task: self.task, woken_tx: self.woken_tx.clone() }
    }
}

/// The tasks that a sequence of wakers wakes, in the same order.
pub open spec fn tasks_of(wakers: Seq<SimpleWaker>) -> Seq<TaskId> {
    wakers.map_values(|w: SimpleWaker| w@)
}

/// Adding a waker at the end adds its task at the end.
pub proof fn lemma_tasks_of_push(wakers: Seq<SimpleWaker>, waker: SimpleWaker)
    ensures
        tasks_of(wakers.push(waker)) == tasks_of(wakers).push(waker@),
{
    assert(tasks_of(wakers.push(waker)) =~= tasks_of(wakers).push(waker@));
}

/// The woken queue once `waker` was invoked on it: the waker's task is
/// queued behind what was queued, once.
pub open spec fn woken_by(queue: Seq<TaskId>, waker: SimpleWaker) -> Seq<TaskId> {
    queue.push(waker@)
}

impl SimpleWaker {
    /// A waker for `task` that sends on `woken_tx`.
    pub fn new(task: TaskId, woken_tx: Sender<TaskId>) -> (waker: Self)
        ensures
            waker@ == task,
    {
        SimpleWaker { task, woken_tx }
    }

    /// Same as [`new`](SimpleWaker::new).
    pub fn waker(task: TaskId, woken_tx: Sender<TaskId>) -> (waker: Self)
        ensures
            waker@ == task,
    {
        Self::new(task, woken_tx)
    }

    /// The task this waker wakes.
    pub fn task(&self) -> (task: TaskId)
        ensures
            task == self@,
    {
        self.task
    }

    /// Whether waking `other` wakes the same task as waking this waker.
    pub fn will_wake(&self, other: &SimpleWaker) -> (same: bool)
        ensures
            same == (self@ == other@),
    {
        self.task.index == other.task.index
    }

    /// Wakes the task and gives the waker up: the task's handle is
    /// appended to the woken queue, once.
    pub fn wake(self, woken_rx: &mut Receiver<TaskId>)
        ensures
            final(woken_rx)@ == woken_by(old(woken_rx)@, self),
    {
        let _ = self.woken_tx.send(woken_rx, self.task);
    }

    /// Wakes the task and keeps the waker: the task's handle is appended
    /// to the woken queue, once.
    pub fn wake_by_ref(&self, woken_rx: &mut Receiver<TaskId>)
        ensures
            final(woken_rx)@ == woken_by(old(woken_rx)@, *self),
    {
        let _ = self.woken_tx.send(woken_rx, self.task);
    }
}

/// The handle of the task at `index`, with a waker for it.
pub fn get_task_with_waker(index: usize, woken_tx: Sender<TaskId>) -> (made: (TaskId, SimpleWaker))
    ensures
        made.0.index == index,
        made.1@ == made.0,
{
    let task = TaskId { index };
    let waker = SimpleWaker::waker(task, woken_tx);
    (task, waker)
}

/// Wakes `waker`, then `other`, takes two handles off the front of the
/// woken queue and says whether they are the same.
///
/// On an empty queue this tells whether the two wakers wake the same
/// task, and leaves the queue empty again.
pub fn wakes_same(woken_rx: &mut Receiver<TaskId>, waker: &SimpleWaker, other: &SimpleWaker) -> (same:
    bool)
    ensures
        ({
            let queued = old(woken_rx)@.push(waker@).push(other@);
            &&& same == (queued[0] == queued[1])
            &&& final(woken_rx)@ == queued.skip(2)
        }),
        old(woken_rx)@.len() == 0 ==> same == (waker@ == other@) && final(woken_rx)@.len() == 0,
{
    waker.wake_by_ref(woken_rx);
    let first = woken_rx.recv();
    other.wake_by_ref(woken_rx);
    let second = woken_rx.recv();
    proof {
        let queued = old(woken_rx)@.push(waker@).push(other@);
        assert(final(woken_rx)@ =~= queued.skip(2));
    }
    match (first, second) {
        (Ok(a), Ok(b)) => a.index == b.index,
        _ => false,
    }
}

/// A waker and its task belong together for good: invoking a waker, and
/// then it or any waker for the same task again, queues that one task
/// twice behind what was queued, and nothing else.
pub proof fn lemma_waker_is_stable(queue: Seq<TaskId>, waker: SimpleWaker, again: SimpleWaker)
    requires
        again@ == waker@,
    ensures
        woken_by(woken_by(queue, waker), again) == queue + seq![waker@, waker@],
{
    assert(woken_by(woken_by(queue, waker), again) =~= queue + seq![waker@, waker@]);
}

} // verus!
