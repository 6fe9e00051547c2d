//! A future that gets ready once a fixed time has passed on the machine's
//! clock, and that asks to be polled again for as long as it has not.

use crate::clock::duration_nanos;
use crate::context::{Context, ContextView};
use crate::task::Poll;
use std::time::{Duration, Instant};
use vstd::prelude::*;

verus! {

/// A future that is ready once its wait has passed since it was made.
///
/// It reads the clock itself on every poll. While it is not ready it wakes
/// its own task at once, so that whoever polls it does so in a busy loop.
/// Nothing bounds the number of those polls, so a delay is not a
/// `Computation`: the run loop takes only computations that wake their own
/// task a bounded number of times.
#[derive(Debug)]
pub struct Delay {
    origin: Instant,
    wait: u128,
}

impl Delay {
    /// The nanoseconds that must pass, counted from when the delay was made.
    pub closed spec fn wait(self) -> u128 {
        self.wait
    }

    /// Whether the delay is ready when `elapsed` nanoseconds have passed
    /// since it was made.
    pub open spec fn ready_after(self, elapsed: u128) -> bool {
        elapsed >= self.wait()
    }

    /// Whether a poll made `elapsed` nanoseconds after the delay was made
    /// can take the context `cx` to `next_cx` with the result `out`. Once the
    /// wait has passed the poll is ready with `"done"` and leaves the context
    /// alone; before that it is pending and has woken its task.
    pub open spec fn polls_after(
        self,
        elapsed: u128,
        cx: ContextView,
        next_cx: ContextView,
        out: Poll<&'static str>,
    ) -> bool {
        if self.ready_after(elapsed) {
            &&& out matches Poll::Ready(s)
            &&& s@ == "done"@
            &&& next_cx == cx
        } else {
            &&& out is Pending
            &&& next_cx == cx.wake()
        }
    }

    /// A delay that is ready once `duration` has passed from now.
    pub fn new(duration: Duration) -> (d: Delay)
        ensures
            d.wait() == duration_nanos(duration),
    {
        Delay { origin: Instant::now(), wait: duration.as_nanos() }
    }

    /// The nanoseconds that must pass, counted from when the delay was made.
    pub fn wait_nanos(&self) -> (n: u128)
        ensures
            n == self.wait(),
    {
        self.wait
    }

    /// Polls the delay. It reads the clock and does what `poll_after` does
    /// with the time that has passed since the delay was made.
    pub fn poll(&mut self, cx: &mut Context) -> (out: Poll<&'static str>)
        ensures
            *final(self) == *old(self),
            final(cx).wf() == old(cx).wf(),
            exists|elapsed: u128| #[trigger] old(self).polls_after(elapsed, old(cx)@, final(cx)@, out),
    {
        let elapsed = Instant::now().saturating_duration_since(self.origin).as_nanos();
        self.poll_after(elapsed, cx)
    }

    /// Polls the delay as if `elapsed` nanoseconds had passed since it was
    /// made. It is ready with `"done"` exactly if `elapsed` is no less than
    /// its wait; otherwise it wakes its task and is pending.
    pub fn poll_after(&self, elapsed: u128, cx: &mut Context) -> (out: Poll<&'static str>)
        ensures
            final(cx).wf() == old(cx).wf(),
            self.polls_after(elapsed, old(cx)@, final(cx)@, out),
    {
        if elapsed >= self.wait {
            Poll::Ready("done")
        } else {
            cx.wake_by_ref();
            Poll::Pending
        }
    }

    /// A delay is never ready before its wait has passed and always ready
    /// from then on: once ready, it is ready at every later time.
    pub proof fn lemma_ready_once_and_for_all(self, earlier: u128, later: u128)
        requires
            earlier <= later,
        ensures
            earlier < self.wait() ==> !self.ready_after(earlier),
            later >= self.wait() ==> self.ready_after(later),
            self.ready_after(earlier) ==> self.ready_after(later),
    {
    }
}

} // verus!
