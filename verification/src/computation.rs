//! The interface through which the executor polls a computation.

use crate::context::{Context, ContextView};
use crate::task::Poll;
use vstd::prelude::*;

verus! {

/// An asynchronous computation: something that is polled until it is ready.
///
/// The executor knows a computation only through this trait. What a poll does
/// is stated by `polls_to`, which each computation defines for itself.
pub trait Computation: Sized {
    /// The value that the computation ends with.
    type Output;

    /// Whether one poll in the context `cx` can leave the computation as
    /// `next` and the context as `next_cx`, with the result `out`. Unless a
    /// computation says more, nothing is known of its polls.
    open spec fn polls_to(
        self,
        cx: ContextView,
        next: Self,
        next_cx: ContextView,
        out: Poll<Self::Output>,
    ) -> bool {
        true
    }

    /// A bound on the number of polls of this computation that can still wake
    /// their own task and end pending. Unless a computation says more, none
    /// of its polls does.
    open spec fn budget(self) -> nat {
        0
    }

    /// Whether the computation gets ready without outside help: each of its
    /// polls that ends pending wakes its own task. Unless a computation says
    /// so, it does not.
    open spec fn self_driven(self) -> bool {
        false
    }

    /// Polls the computation once, in the context `cx`.
    fn poll(&mut self, cx: &mut Context) -> (out: Poll<Self::Output>)
        requires
            old(cx).wf(),
        ensures
            final(cx).wf(),
            final(cx)@.follows(old(cx)@),
            old(self).polls_to(old(cx)@, *final(self), final(cx)@, out),
            out is Pending ==> final(self).budget() <= old(self).budget(),
            out is Pending && final(cx)@.woken && !old(cx)@.woken
                ==> final(self).budget() < old(self).budget(),
            out is Pending && old(self).self_driven()
                ==> final(self).self_driven() && final(cx)@.woken,
    ;
}

} // verus!
