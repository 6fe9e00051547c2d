//! A computation that gets ready by itself after a number of polls.

use crate::computation::Computation;
use crate::context::{Context, ContextView};
use crate::task::Poll;
use vstd::prelude::*;

verus! {

/// A computation that gives way to the other tasks a number of times: each
/// of its first `left` polls wakes its own task and ends pending, the next
/// one is ready.
#[derive(Debug, Clone, Copy, PartialEq, Eq)]
pub struct Yields {
    /// The number of polls that will still end pending.
    pub left: u64,
}

impl Yields {
    /// A computation that is ready at its poll number `times + 1`.
    pub fn new(times: u64) -> (y: Yields)
        ensures
            y.left == times,
    {
        Yields { left: times }
    }
}

impl Computation for Yields {
    type Output = ();

    open spec fn polls_to(self, cx: ContextView, next: Yields, next_cx: ContextView, out: Poll<()>) -> bool {
        if self.left == 0 {
            out == Poll::Ready(()) && next == self && next_cx == cx
        } else {
            out == Poll::<()>::Pending && next.left == self.left - 1 && next_cx == cx.wake()
        }
    }

    open spec fn budget(self) -> nat {
        self.left as nat
    }

    open spec fn self_driven(self) -> bool {
        true
    }

    fn poll(&mut self, cx: &mut Context) -> (out: Poll<()>) {
        if self.left == 0 {
            Poll::Ready(())
        } else {
            self.left = self.left - 1;
            cx.wake_by_ref();
            Poll::Pending
        }
    }
}

} // verus!
