//! The result of one poll and the waker binding.

use vstd::prelude::*;

verus! {

/// The result of a single attempt to advance a computation.
#[derive(Debug, PartialEq, Eq)]
pub enum Poll<T> {
    /// The computation has finished with this value.
    Ready(T),
    /// The computation is not finished yet.
    Pending,
}

impl<T> Poll<T> {
    /// Whether this is `Ready`.
    pub fn is_ready(&self) -> (b: bool)
        ensures
            b == (*self is Ready),
    {
        match self {
            Poll::Ready(_) => true,
            Poll::Pending => false,
        }
    }

    /// Whether this is `Pending`.
    pub fn is_pending(&self) -> (b: bool)
        ensures
            b == (*self is Pending),
    {
        match self {
            Poll::Ready(_) => false,
            Poll::Pending => true,
        }
    }
}

/// A way to re-schedule one task: the handle of that task. It can be copied
/// freely and carried anywhere; invoking it is the executor's `wake`.
#[derive(Debug, Clone, Copy, PartialEq, Eq, Structural)]
pub struct Waker {
    /// The handle of the task that this waker re-schedules.
    pub task: usize,
}

impl Waker {
    /// The waker bound to the task `task`.
    pub fn new(task: usize) -> (w: Waker)
        ensures
            w.task == task,
    {
        Waker { task }
    }

    /// The handle of the task that this waker re-schedules.
    pub fn task(&self) -> (t: usize)
        ensures
            t == self.task,
    {
        self.task
    }
}

} // verus!
