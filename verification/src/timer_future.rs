//! A future that gets ready once a fixed time has passed.

use crate::computation::Computation;
use crate::context::{Context, ContextView};
use crate::clock::duration_nanos;
use crate::task::Poll;
use crate::timers::{timers_at, timers_extend, TimerState};
use std::time::Duration;
use vstd::prelude::*;

verus! {

/// A future that gets ready once its wait has passed.
///
/// It arms a timer on its first poll and leaves the waker of its task with
/// that timer on every poll that ends pending, so that the timer wakes the
/// task that polled last. It is ready as soon as the timer has fired.
#[derive(Debug, Clone, Copy, PartialEq, Eq)]
pub struct TimerFuture {
    /// The nanoseconds to wait, counted from the first poll.
    pub wait: u128,
    /// The index of its timer, once it has been polled.
    pub timer: Option<usize>,
}

impl TimerFuture {
    /// A timer future that waits for `duration` from its first poll.
    pub fn new(duration: Duration) -> (t: TimerFuture)
        ensures
            t == (TimerFuture { wait: duration_nanos(duration), timer: None }),
    {
        TimerFuture::after_nanos(duration.as_nanos())
    }

    /// A timer future that waits for `wait` nanoseconds from its first poll.
    pub fn after_nanos(wait: u128) -> (t: TimerFuture)
        ensures
            t == (TimerFuture { wait, timer: None }),
    {
        TimerFuture { wait, timer: None }
    }

    /// The result of a poll in the context `cx`: ready exactly if the timer
    /// has been armed and has fired.
    pub open spec fn poll_result(self, cx: ContextView) -> Poll<()> {
        match self.timer {
            Some(id) if cx.timer_fired(id) => Poll::Ready(()),
            _ => Poll::Pending,
        }
    }

    /// The timer future after a poll in the context `cx`: it remembers the
    /// timer that it armed on its first poll.
    pub open spec fn poll_next(self, cx: ContextView) -> TimerFuture {
        match self.timer {
            Some(_) => self,
            None => TimerFuture { wait: self.wait, timer: Some(cx.timers.len() as usize) },
        }
    }

    /// The context after a poll of the timer future in the context `cx`: the
    /// first poll arms the timer, a later one that ends pending stores the
    /// waker anew, and one that ends ready changes nothing.
    pub open spec fn poll_context(self, cx: ContextView) -> ContextView {
        match self.timer {
            None => cx.start_timer(self.wait),
            Some(id) => if cx.timer_fired(id) {
                cx
            } else {
                cx.refresh_timer(id)
            },
        }
    }
}

impl TimerFuture {
    /// Whether the timer that the future remembers, if it remembers one, is
    /// a timer of `timers` that waits as long as the future does. This holds
    /// of a future that has not been polled, and polls and the passing of
    /// time keep it.
    pub open spec fn owns_timer(self, timers: Seq<TimerState>) -> bool {
        match self.timer {
            Some(id) => id < timers.len() && timers[id as int].wait == self.wait,
            None => true,
        }
    }

    /// A poll keeps the timer future with a timer of its own: the first poll
    /// arms one that waits as long as the future does.
    pub proof fn lemma_poll_keeps_timer(self, cx: ContextView)
        requires
            self.owns_timer(cx.timers),
            cx.timers.len() < usize::MAX,
        ensures
            self.poll_next(cx).owns_timer(self.poll_context(cx).timers),
            self.timer is None ==> self.poll_context(cx).timers[self.poll_next(cx).timer->0 as int]
                == TimerState::armed(cx.clock, self.wait, cx.waker()),
    {
    }

    /// The polls of other futures and the passing of time keep the timer
    /// future with a timer of its own.
    pub proof fn lemma_others_keep_timer(self, timers: Seq<TimerState>, polled: Seq<TimerState>, now: u64)
        requires
            self.owns_timer(timers),
            timers_extend(timers, polled),
        ensures
            self.owns_timer(polled),
            self.owns_timer(timers_at(polled, now)),
    {
    }

    /// A timer future is ready only if its whole wait has passed since the
    /// poll that armed its timer: it is never seen ready early.
    pub proof fn lemma_ready_only_when_due(self, cx: Context)
        requires
            cx.wf(),
            self.owns_timer(cx@.timers),
            self.poll_result(cx@) is Ready,
        ensures
            self.timer is Some,
            cx@.timers[self.timer->0 as int].armed_at + self.wait <= cx@.clock,
    {
        cx.lemma_timers_consistent(self.timer->0 as int);
    }

    /// A timer future that has been polled is ready at every poll that is
    /// made once the clock has come to read no less than its timer's
    /// deadline.
    pub proof fn lemma_ready_when_due(self, cx: ContextView, now: u64)
        requires
            self.timer is Some,
            self.owns_timer(cx.timers),
            cx.timers[self.timer->0 as int].armed_at + self.wait <= now,
        ensures
            self.poll_result(ContextView { clock: now, timers: timers_at(cx.timers, now), ..cx })
                is Ready,
    {
    }

    /// Once a timer future is ready it is ready at every later poll, whatever
    /// polls and the passing of time have done to the timers in between.
    pub proof fn lemma_ready_stays_ready(self, cx: ContextView, polled: ContextView, now: u64)
        requires
            self.poll_result(cx) is Ready,
            timers_extend(cx.timers, polled.timers),
        ensures
            self.poll_next(cx) == self,
            self.poll_result(polled) is Ready,
            self.poll_result(ContextView { clock: now, timers: timers_at(polled.timers, now), ..polled })
                is Ready,
    {
    }
}

impl Computation for TimerFuture {
    type Output = ();

    open spec fn polls_to(
        self,
        cx: ContextView,
        next: TimerFuture,
        next_cx: ContextView,
        out: Poll<()>,
    ) -> bool {
        &&& next == self.poll_next(cx)
        &&& next_cx == self.poll_context(cx)
        &&& out == self.poll_result(cx)
    }

    open spec fn budget(self) -> nat {
        0
    }

    open spec fn self_driven(self) -> bool {
        false
    }

    fn poll(&mut self, cx: &mut Context) -> (out: Poll<()>) {
        match self.timer {
            None => {
                let id = cx.start_timer(self.wait);
                self.timer = Some(id);
                Poll::Pending
            },
            Some(id) => {
                if cx.timer_fired(id) {
                    Poll::Ready(())
                } else {
                    cx.refresh_timer(id);
                    Poll::Pending
                }
            },
        }
    }
}

} // verus!
