//! Combinators that poll several computations and are ready with the first
//! of them that is.

use crate::computation::Computation;
use crate::context::{lemma_follows_trans, Context, ContextView};
use crate::task::Poll;
use vstd::prelude::*;

verus! {

/// One of two: the value of the one of two computations that was ready, or
/// a computation that is of one of two kinds.
#[derive(Debug, PartialEq, Eq)]
pub enum Either<A, B> {
    /// The value of the first computation.
    First(A),
    /// The value of the second computation.
    Second(B),
}

/// The result of a computation that is one of two, whose poll gave `first`.
pub open spec fn first_result<A, B>(first: Poll<A>) -> Poll<Either<A, B>> {
    match first {
        Poll::Ready(v) => Poll::Ready(Either::First(v)),
        Poll::Pending => Poll::Pending,
    }
}

/// One of two kinds of computation is a computation: a poll polls whichever
/// it is. An executor whose tasks are of this type takes tasks of both
/// kinds.
impl<A: Computation, B: Computation> Computation for Either<A, B> {
    type Output = Either<A::Output, B::Output>;

    open spec fn polls_to(
        self,
        cx: ContextView,
        next: Either<A, B>,
        next_cx: ContextView,
        out: Poll<Either<A::Output, B::Output>>,
    ) -> bool {
        match self {
            Either::First(a) => exists|inner: Poll<A::Output>|
                {
                    &&& next is First
                    &&& #[trigger] a.polls_to(cx, next->First_0, next_cx, inner)
                    &&& out == first_result::<A::Output, B::Output>(inner)
                },
            Either::Second(b) => exists|inner: Poll<B::Output>|
                {
                    &&& next is Second
                    &&& #[trigger] b.polls_to(cx, next->Second_0, next_cx, inner)
                    &&& out == second_wins::<A::Output, B::Output>(inner)
                },
        }
    }

    open spec fn budget(self) -> nat {
        match self {
            Either::First(a) => a.budget(),
            Either::Second(b) => b.budget(),
        }
    }

    open spec fn self_driven(self) -> bool {
        match self {
            Either::First(a) => a.self_driven(),
            Either::Second(b) => b.self_driven(),
        }
    }

    fn poll(&mut self, cx: &mut Context) -> (out: Poll<Either<A::Output, B::Output>>) {
        match self {
            Either::First(a) => {
                let inner = a.poll(cx);
                assert(*self is First);
                assert((*old(self))->First_0.polls_to(old(cx)@, (*self)->First_0, cx@, inner));
                match inner {
                    Poll::Ready(v) => Poll::Ready(Either::First(v)),
                    Poll::Pending => Poll::Pending,
                }
            },
            Either::Second(b) => {
                let inner = b.poll(cx);
                assert(*self is Second);
                assert((*old(self))->Second_0.polls_to(old(cx)@, (*self)->Second_0, cx@, inner));
                match inner {
                    Poll::Ready(v) => Poll::Ready(Either::Second(v)),
                    Poll::Pending => Poll::Pending,
                }
            },
        }
    }
}

/// Two computations that race: the race is ready as soon as one of them is.
///
/// Each poll of the race polls the first computation, and the second one
/// only if the first is pending; so the first wins when both are ready. The
/// one that lost is left as it is, pending: whatever it started goes on, and
/// a waker that it left behind wakes a task that is ready, which is harmless.
#[derive(Debug)]
pub struct Race<A, B> {
    /// The computation that is polled first.
    pub first: A,
    /// The computation that is polled if the first is pending.
    pub second: B,
}

/// The result of polling the second of two computations, where the first is
/// pending or is not there: what its poll gave, as the second's.
pub open spec fn second_wins<A, B>(second: Poll<B>) -> Poll<Either<A, B>> {
    match second {
        Poll::Ready(v) => Poll::Ready(Either::Second(v)),
        Poll::Pending => Poll::Pending,
    }
}

impl<A: Computation, B: Computation> Race<A, B> {
    /// The race of `first` and `second`.
    pub fn new(first: A, second: B) -> (r: Race<A, B>)
        ensures
            r.first == first,
            r.second == second,
    {
        Race { first, second }
    }
}

impl<A: Computation, B: Computation> Computation for Race<A, B> {
    type Output = Either<A::Output, B::Output>;

    open spec fn polls_to(
        self,
        cx: ContextView,
        next: Race<A, B>,
        next_cx: ContextView,
        out: Poll<Either<A::Output, B::Output>>,
    ) -> bool {
        ||| exists|v: A::Output|
            {
                &&& #[trigger] self.first.polls_to(cx, next.first, next_cx, Poll::Ready(v))
                &&& next.second == self.second
                &&& out == Poll::<Either<A::Output, B::Output>>::Ready(Either::First(v))
            }
        ||| exists|mid: ContextView, second: Poll<B::Output>|
            {
                &&& self.first.polls_to(cx, next.first, mid, Poll::Pending)
                &&& #[trigger] self.second.polls_to(mid, next.second, next_cx, second)
                &&& out == second_wins::<A::Output, B::Output>(second)
            }
    }

    open spec fn budget(self) -> nat {
        self.first.budget() + self.second.budget()
    }

    open spec fn self_driven(self) -> bool {
        self.first.self_driven() || self.second.self_driven()
    }

    fn poll(&mut self, cx: &mut Context) -> (out: Poll<Either<A::Output, B::Output>>) {
        let ghost cx0 = cx@;
        match self.first.poll(cx) {
            Poll::Ready(v) => {
                assert(old(self).first.polls_to(cx0, self.first, cx@, Poll::Ready(v)));
                Poll::Ready(Either::First(v))
            },
            Poll::Pending => {
                let ghost mid = cx@;
                let second = self.second.poll(cx);
                proof {
                    lemma_follows_trans(cx0, mid, cx@);
                    assert(old(self).second.polls_to(mid, self.second, cx@, second));
                }
                match second {
                    Poll::Ready(v) => Poll::Ready(Either::Second(v)),
                    Poll::Pending => Poll::Pending,
                }
            },
        }
    }
}

/// Any number of computations of one kind that race: the whole is ready as
/// soon as one of them is.
///
/// Each poll polls the computations in their order and stops at the first
/// that is ready. It is then ready with the value of that computation, its
/// index, and the other computations in their order, each as its last poll
/// left it: those before the ready one have been polled once more, those after
/// it have not. With no computation it is pending for ever.
#[derive(Debug)]
pub struct SelectAll<C> {
    /// The computations that have not been handed out yet.
    pub items: Vec<C>,
}

/// The sum of the budgets of `items`.
pub open spec fn sum_budget<C: Computation>(items: Seq<C>) -> nat
    decreases items.len(),
{
    if items.len() == 0 {
        0
    } else {
        sum_budget(items.drop_last()) + items.last().budget()
    }
}

/// Whether polls of the first `k` computations of `items`, in their order and
/// each ending pending, can take `items` to `after` and the context `cx` to
/// `next_cx`.
pub open spec fn polled_pending<C: Computation>(
    items: Seq<C>,
    cx: ContextView,
    after: Seq<C>,
    next_cx: ContextView,
    k: nat,
) -> bool
    decreases k,
{
    if k == 0 {
        after == items && next_cx == cx
    } else {
        &&& k <= items.len()
        &&& after.len() == items.len()
        &&& exists|mid: ContextView|
            {
                &&& polled_pending(items, cx, after.update(k - 1, items[k - 1]), mid, (k - 1) as nat)
                &&& #[trigger] items[k - 1].polls_to(mid, after[k - 1], next_cx, Poll::Pending)
            }
    }
}

/// Putting another computation in the place `i` changes the sum of the
/// budgets by the difference of the two budgets.
pub proof fn lemma_sum_budget_update<C: Computation>(items: Seq<C>, i: int, item: C)
    requires
        0 <= i < items.len(),
    ensures
        sum_budget(items.update(i, item)) + items[i].budget() == sum_budget(items) + item.budget(),
    decreases items.len(),
{
    let updated = items.update(i, item);
    if i == items.len() - 1 {
        assert(updated.drop_last() =~= items.drop_last());
    } else {
        assert(updated.drop_last() =~= items.drop_last().update(i, item));
        lemma_sum_budget_update(items.drop_last(), i, item);
    }
}

impl<C: Computation> SelectAll<C> {
    /// The race of the computations `items`.
    pub fn new(items: Vec<C>) -> (s: SelectAll<C>)
        ensures
            s.items == items,
    {
        SelectAll { items }
    }
}

impl<C: Computation> Computation for SelectAll<C> {
    type Output = (C::Output, usize, Vec<C>);

    open spec fn polls_to(
        self,
        cx: ContextView,
        next: SelectAll<C>,
        next_cx: ContextView,
        out: Poll<(C::Output, usize, Vec<C>)>,
    ) -> bool {
        ||| {
            &&& out is Pending
            &&& polled_pending(self.items@, cx, next.items@, next_cx, self.items@.len())
        }
        ||| exists|i: int, before: Seq<C>, mid: ContextView, done: C, v: C::Output|
            {
                &&& 0 <= i < self.items@.len()
                &&& polled_pending(self.items@, cx, before, mid, i as nat)
                &&& #[trigger] before[i].polls_to(mid, done, next_cx, Poll::Ready(v))
                &&& next.items@.len() == 0
                &&& out matches Poll::Ready(r)
                &&& r.0 == v
                &&& r.1 == i
                &&& r.2@ == before.remove(i)
            }
    }

    open spec fn budget(self) -> nat {
        sum_budget(self.items@)
    }

    open spec fn self_driven(self) -> bool {
        exists|i: int| 0 <= i < self.items@.len() && #[trigger] self.items@[i].self_driven()
    }

    fn poll(&mut self, cx: &mut Context) -> (out: Poll<(C::Output, usize, Vec<C>)>) {
        let ghost cx0 = cx@;
        let ghost items0 = self.items@;
        let n = self.items.len();
        let mut i: usize = 0;
        while i < n
            invariant
                i <= n,
                n == items0.len(),
                self.items@.len() == n,
                items0 == old(self).items@,
                cx0 == old(cx)@,
                cx.wf(),
                cx@.follows(cx0),
                polled_pending(items0, cx0, self.items@, cx@, i as nat),
                forall|j: int| i <= j < n ==> self.items@[j] == items0[j],
                forall|j: int|
                    0 <= j < i && (#[trigger] items0[j]).self_driven() ==> self.items@[j].self_driven()
                        && cx@.woken,
                sum_budget(self.items@) <= sum_budget(items0),
                cx@.woken && !cx0.woken ==> sum_budget(self.items@) < sum_budget(items0),
            decreases n - i,
        {
            let ghost before = self.items@;
            let ghost mid = cx@;
            let polled = self.items[i].poll(cx);
            proof {
                lemma_follows_trans(cx0, mid, cx@);
                assert(before[i as int].polls_to(mid, self.items@[i as int], cx@, polled));
                assert(self.items@ =~= before.update(i as int, self.items@[i as int]));
            }
            match polled {
                Poll::Ready(v) => {
                    let ghost done = self.items@[i as int];
                    let mut rest: Vec<C> = Vec::new();
                    core::mem::swap(&mut self.items, &mut rest);
                    let _ = rest.remove(i);
                    proof {
                        assert(rest@ =~= before.remove(i as int));
                        assert(before[i as int].polls_to(mid, done, cx@, Poll::Ready(v)));
                    }
                    return Poll::Ready((v, i, rest));
                },
                Poll::Pending => {
                    proof {
                        let after = self.items@;
                        let k = (i + 1) as nat;
                        assert(after.update(k - 1, items0[k - 1]) =~= before);
                        assert(polled_pending(items0, cx0, after.update(k - 1, items0[k - 1]), mid, (k - 1) as nat));
                        assert(items0[k - 1].polls_to(mid, after[k - 1], cx@, Poll::Pending));
                        assert(polled_pending(items0, cx0, after, cx@, k));
                        lemma_sum_budget_update(before, i as int, after[i as int]);
                    }
                },
            }
            i += 1;
        }
        Poll::Pending
    }
}

} // verus!
