//! What a poll is given: the waker of the task being polled and the timers.

use crate::task::Waker;
use crate::timers::{TimerState, Timers};
use vstd::prelude::*;

verus! {

/// The context of one poll.
///
/// It is bound to the waker of the task being polled. A computation that
/// wants to be polled again at once calls `wake_by_ref`; one that waits for a
/// timer leaves its waker with that timer. The context records both, and
/// whoever made it reads them off afterwards.
pub struct Context {
    waker: Waker,
    woken: bool,
    timers: Timers,
}

/// A context as a plain value.
pub struct ContextView {
    /// The handle of the task being polled.
    pub task: usize,
    /// Whether the task has been woken during the poll.
    pub woken: bool,
    /// The reading of the clock.
    pub clock: u64,
    /// The timers.
    pub timers: Seq<TimerState>,
}

impl ContextView {
    /// The waker of the task being polled.
    pub open spec fn waker(self) -> Waker {
        Waker { task: self.task }
    }

    /// The context of a fresh poll of `task`.
    pub open spec fn fresh(task: usize, clock: u64, timers: Seq<TimerState>) -> ContextView {
        ContextView { task, woken: false, clock, timers }
    }

    /// The context with the task woken.
    pub open spec fn wake(self) -> ContextView {
        ContextView { woken: true, ..self }
    }

    /// The context with a new timer armed for the task, waiting `wait`
    /// nanoseconds.
    pub open spec fn start_timer(self, wait: u128) -> ContextView {
        ContextView {
            timers: self.timers.push(TimerState::armed(self.clock, wait, self.waker())),
            ..self
        }
    }

    /// The context with the task's waker stored in the timer `id`.
    pub open spec fn refresh_timer(self, id: usize) -> ContextView {
        if id < self.timers.len() {
            ContextView {
                timers: self.timers.update(id as int, self.timers[id as int].with_waker(self.waker())),
                ..self
            }
        } else {
            self
        }
    }

    /// Whether the timer `id` has fired.
    pub open spec fn timer_fired(self, id: usize) -> bool {
        id < self.timers.len() && self.timers[id as int].fired
    }

    /// Whether this context can be what polls have made of `pre`. A poll keeps
    /// the task and the clock, never takes a wake back, fires no timer, and
    /// touches a timer only to arm a new one for the task or to store the
    /// task's waker in one that has not fired.
    pub open spec fn follows(self, pre: ContextView) -> bool {
        &&& self.task == pre.task
        &&& self.clock == pre.clock
        &&& pre.woken ==> self.woken
        &&& pre.timers.len() <= self.timers.len()
        &&& forall|i: int|
            0 <= i < pre.timers.len() ==> {
                ||| #[trigger] self.timers[i] == pre.timers[i]
                ||| self.timers[i] == pre.timers[i].with_waker(pre.waker())
            }
        &&& forall|i: int|
            pre.timers.len() <= i < self.timers.len() ==> #[trigger] self.timers[i]
                == TimerState::armed(pre.clock, self.timers[i].wait, pre.waker())
    }
}

/// `follows` is transitive.
pub proof fn lemma_follows_trans(a: ContextView, b: ContextView, c: ContextView)
    requires
        b.follows(a),
        c.follows(b),
    ensures
        c.follows(a),
{
    assert forall|i: int| 0 <= i < a.timers.len() implies {
        ||| #[trigger] c.timers[i] == a.timers[i]
        ||| c.timers[i] == a.timers[i].with_waker(a.waker())
    } by {
        assert(b.timers[i] == a.timers[i] || b.timers[i] == a.timers[i].with_waker(a.waker()));
        assert(c.timers[i] == b.timers[i] || c.timers[i] == b.timers[i].with_waker(b.waker()));
    }
    assert forall|i: int| a.timers.len() <= i < c.timers.len() implies #[trigger] c.timers[i]
        == TimerState::armed(a.clock, c.timers[i].wait, a.waker()) by {
        if i < b.timers.len() {
            assert(b.timers[i] == TimerState::armed(a.clock, b.timers[i].wait, a.waker()));
            assert(c.timers[i] == b.timers[i] || c.timers[i] == b.timers[i].with_waker(b.waker()));
        }
    }
}

impl View for Context {
    type V = ContextView;

    closed spec fn view(&self) -> ContextView {
        ContextView {
            task: self.waker.task,
            woken: self.woken,
            clock: self.timers.clock(),
            timers: self.timers@,
        }
    }
}

impl Context {
    /// The timers of the context are well formed.
    pub closed spec fn wf(&self) -> bool {
        self.timers.wf()
    }

    /// In a well-formed context every timer is consistent with the clock: one
    /// that has fired was due.
    pub proof fn lemma_timers_consistent(self, id: int)
        requires
            self.wf(),
            0 <= id < self@.timers.len(),
        ensures
            self@.timers[id].consistent(self@.clock),
    {
        self.timers.lemma_fired_is_due(id);
    }

    /// The indices of the timers of a context fit in `usize`.
    pub proof fn lemma_timers_fit(self)
        ensures
            self@.timers.len() <= usize::MAX,
    {
        self.timers.lemma_len_fits();
    }

    /// The context of a fresh poll of the task that `waker` re-schedules,
    /// with the timers `timers`.
    pub fn new(waker: Waker, timers: Timers) -> (cx: Context)
        requires
            timers.wf(),
        ensures
            cx.wf(),
            cx@ == ContextView::fresh(waker.task, timers.clock(), timers@),
    {
        Context { waker, woken: false, timers }
    }

    /// The waker of the task being polled.
    pub fn waker(&self) -> (w: Waker)
        ensures
            w == self@.waker(),
    {
        self.waker
    }

    /// The reading of the clock.
    pub fn now(&self) -> (now: u64)
        ensures
            now == self@.clock,
    {
        self.timers.now()
    }

    /// Wakes the task being polled: it will be polled again.
    pub fn wake_by_ref(&mut self)
        ensures
            final(self).wf() == old(self).wf(),
            final(self)@ == old(self)@.wake(),
    {
        self.woken = true;
    }

    /// Whether the task has been woken during the poll.
    pub fn is_woken(&self) -> (b: bool)
        ensures
            b == self@.woken,
    {
        self.woken
    }

    /// Arms a new timer that waits `wait` nanoseconds from now and will wake
    /// the task being polled. Returns its index.
    pub fn start_timer(&mut self, wait: u128) -> (id: usize)
        requires
            old(self).wf(),
        ensures
            final(self).wf(),
            id == old(self)@.timers.len(),
            final(self)@ == old(self)@.start_timer(wait),
    {
        self.timers.start(wait, self.waker)
    }

    /// Whether the timer `id` has fired.
    pub fn timer_fired(&self, id: usize) -> (b: bool)
        ensures
            b == self@.timer_fired(id),
    {
        self.timers.is_fired(id)
    }

    /// Stores the waker of the task being polled in the timer `id`, in place
    /// of the one stored before.
    pub fn refresh_timer(&mut self, id: usize)
        requires
            old(self).wf(),
        ensures
            final(self).wf(),
            final(self)@ == old(self)@.refresh_timer(id),
    {
        self.timers.set_waker(id, self.waker);
    }

    /// Ends the poll: gives the timers back, and says whether the task was
    /// woken.
    pub fn finish(self) -> (r: (bool, Timers))
        ensures
            r.0 == self@.woken,
            r.1@ == self@.timers,
            r.1.clock() == self@.clock,
            r.1.wf() == self.wf(),
    {
        (self.woken, self.timers)
    }
}

} // verus!
