//! Races of timer futures, played through on a table of timers of their own.

use crate::computation::Computation;
use crate::context::{Context, ContextView};
use crate::select::{polled_pending, Either, Race, SelectAll};
use crate::task::{Poll, Waker};
use crate::timer_future::TimerFuture;
use crate::timers::{timers_at, TimerState, Timers};
use std::time::Duration;
use vstd::prelude::*;

verus! {

/// The nanoseconds in a second.
pub const NANOS_PER_SECOND: u128 = 1_000_000_000;

/// Which of two timers wins when both are started at the same time: the one
/// with the shorter wait, and the first if the waits are equal. There is no
/// winner if no clock that counts in `u64` reaches either deadline.
pub open spec fn winner_of(first_wait: u128, second_wait: u128) -> Option<Either<(), ()>> {
    if first_wait <= second_wait {
        if first_wait <= u64::MAX {
            Some(Either::First(()))
        } else {
            None
        }
    } else {
        if second_wait <= u64::MAX {
            Some(Either::Second(()))
        } else {
            None
        }
    }
}

/// The reading of the clock at which a race of two timers that are armed at
/// time 0 is decided: the shorter of the two waits.
pub open spec fn decided_at(first_wait: u128, second_wait: u128) -> u128 {
    if first_wait <= second_wait {
        first_wait
    } else {
        second_wait
    }
}

/// The race of two timer futures that have not been polled.
pub open spec fn fresh_race(first_wait: u128, second_wait: u128) -> Race<TimerFuture, TimerFuture> {
    Race {
        first: TimerFuture { wait: first_wait, timer: None },
        second: TimerFuture { wait: second_wait, timer: None },
    }
}

/// The race of two timer futures once both have been polled on a table that
/// held no timer: the first has armed the timer 0, the second the timer 1.
pub open spec fn armed_race(first_wait: u128, second_wait: u128) -> Race<TimerFuture, TimerFuture> {
    Race {
        first: TimerFuture { wait: first_wait, timer: Some(0usize) },
        second: TimerFuture { wait: second_wait, timer: Some(1usize) },
    }
}

/// The two timers that the race arms when the task 0 polls it at time 0.
pub open spec fn armed_pair(first_wait: u128, second_wait: u128) -> Seq<TimerState> {
    Seq::empty().push(TimerState::armed(0, first_wait, Waker { task: 0 })).push(
        TimerState::armed(0, second_wait, Waker { task: 0 }),
    )
}

/// The context in which the task 0 polls the race when the clock reads
/// `now`, after the race has armed its timers at time 0.
pub open spec fn race_context(first_wait: u128, second_wait: u128, now: u64) -> ContextView {
    ContextView::fresh(0, now, timers_at(armed_pair(first_wait, second_wait), now))
}

/// The result of a poll of the race when the clock reads `now`, after the
/// race has armed its timers at time 0: pending until the shorter wait has
/// passed, ready with the first once its wait has passed, and with the
/// second otherwise.
pub open spec fn race_result_at(first_wait: u128, second_wait: u128, now: u64) -> Poll<Either<(), ()>> {
    if first_wait <= now {
        Poll::Ready(Either::First(()))
    } else if second_wait <= now {
        Poll::Ready(Either::Second(()))
    } else {
        Poll::Pending
    }
}

/// The first poll of a race of two timer futures, on a table that holds no
/// timer, polls both: each arms its timer, and the poll ends pending.
pub proof fn lemma_first_poll_arms_both(
    first_wait: u128,
    second_wait: u128,
    next: Race<TimerFuture, TimerFuture>,
    next_cx: ContextView,
    out: Poll<Either<(), ()>>,
)
    requires
        fresh_race(first_wait, second_wait).polls_to(
            ContextView::fresh(0, 0, Seq::empty()),
            next,
            next_cx,
            out,
        ),
    ensures
        out is Pending,
        next == armed_race(first_wait, second_wait),
        next_cx == ContextView::fresh(0, 0, armed_pair(first_wait, second_wait)),
{
    let race = fresh_race(first_wait, second_wait);
    let cx = ContextView::fresh(0, 0, Seq::<TimerState>::empty());
    assert(race.first.poll_result(cx) is Pending);
    let mid = race.first.poll_context(cx);
    assert(race.second.poll_result(mid) is Pending);
    assert(next_cx.timers =~= armed_pair(first_wait, second_wait));
}

/// What a poll of the race does once both timers are armed, when the clock
/// reads `now`: its result is `race_result_at`, so it is pending before the
/// shorter wait has passed and ready from then on; and it changes neither
/// the two futures nor the timers. If the first is ready the second is not
/// polled, and a future that was ready is not polled again by that poll.
pub proof fn lemma_race_poll_at(
    first_wait: u128,
    second_wait: u128,
    now: u64,
    next: Race<TimerFuture, TimerFuture>,
    next_cx: ContextView,
    out: Poll<Either<(), ()>>,
)
    requires
        armed_race(first_wait, second_wait).polls_to(
            race_context(first_wait, second_wait, now),
            next,
            next_cx,
            out,
        ),
    ensures
        out == race_result_at(first_wait, second_wait, now),
        next == armed_race(first_wait, second_wait),
        next_cx == race_context(first_wait, second_wait, now),
{
    let race = armed_race(first_wait, second_wait);
    let cx = race_context(first_wait, second_wait, now);
    assert(cx.timers.len() == 2);
    assert(cx.timer_fired(0) <==> first_wait <= now);
    assert(cx.timer_fired(1) <==> second_wait <= now);
    let mid = race.first.poll_context(cx);
    assert(mid.timers =~= cx.timers);
    assert(mid == cx);
    let last = race.second.poll_context(mid);
    assert(last.timers =~= cx.timers);
    assert(last == cx);
}

/// How a race of two timer futures ended.
pub struct RaceOutcome {
    /// The one that was ready first.
    pub winner: Either<(), ()>,
    /// The reading of the clock at which the race was ready.
    pub decided_at: u64,
    /// The race as its last poll left it, with the two futures in it.
    pub race: Race<TimerFuture, TimerFuture>,
    /// The timers as the race left them.
    pub timers: Timers,
}

impl RaceOutcome {
    /// The context of the poll that decided the race.
    pub open spec fn context(self) -> ContextView {
        ContextView::fresh(0, self.decided_at, self.timers@)
    }

    /// Whether this is how the race of a timer future of `first_wait`
    /// nanoseconds against one of `second_wait` nanoseconds ends, when the
    /// task 0 polls it at time 0 and again as soon as a timer is due.
    pub open spec fn is_outcome_of(self, first_wait: u128, second_wait: u128) -> bool {
        let fresh = fresh_race(first_wait, second_wait);
        let armed = armed_race(first_wait, second_wait);
        let decided = race_context(first_wait, second_wait, self.decided_at);
        // The winner has the shorter wait, and the race is decided as soon
        // as that wait has passed: it does not wait for the other.
        &&& Some(self.winner) == winner_of(first_wait, second_wait)
        &&& self.decided_at == decided_at(first_wait, second_wait)
        &&& forall|
            now: u64,
            next: Race<TimerFuture, TimerFuture>,
            next_cx: ContextView,
            out: Poll<Either<(), ()>>,
        |
            now < self.decided_at && #[trigger] armed.polls_to(
                race_context(first_wait, second_wait, now),
                next,
                next_cx,
                out,
            ) ==> out is Pending
        // The first poll, at time 0, polled both futures and was pending.
        &&& fresh.polls_to(
            ContextView::fresh(0, 0, Seq::empty()),
            armed,
            ContextView::fresh(0, 0, armed_pair(first_wait, second_wait)),
            Poll::Pending,
        )
        // The poll that decided it found the winner ready.
        &&& armed.polls_to(decided, self.race, self.context(), Poll::Ready(self.winner))
        &&& match self.winner {
            Either::First(_) => self.race.first.poll_result(decided) is Ready,
            Either::Second(_) => self.race.second.poll_result(decided) is Ready,
        }
        // Both futures are handed back as they were polled last, with the
        // timers that they armed.
        &&& self.race == armed
        &&& self.timers.wf()
        &&& self.timers.clock() == self.decided_at
        &&& self.timers@ == timers_at(armed_pair(first_wait, second_wait), self.decided_at)
        // The one that lost is still pending: its timer is armed, holds the
        // waker and has not fired.
        &&& self.winner is Second ==> self.first_is_pending()
        &&& self.winner is First && first_wait < second_wait ==> self.second_is_pending()
    }

    /// Whether the first future is pending, with its timer armed and not
    /// fired.
    pub open spec fn first_is_pending(self) -> bool {
        &&& self.race.first.poll_result(self.context()) is Pending
        &&& self.timers@[0] == TimerState::armed(0, self.race.first.wait, Waker { task: 0 })
    }

    /// Whether the second future is pending, with its timer armed and not
    /// fired.
    pub open spec fn second_is_pending(self) -> bool {
        &&& self.race.second.poll_result(self.context()) is Pending
        &&& self.timers@[1] == TimerState::armed(0, self.race.second.wait, Waker { task: 0 })
    }
}

/// Races a timer future of `first_wait` nanoseconds against one of
/// `second_wait` nanoseconds. Both are polled at time 0, which arms their
/// timers; then the clock is advanced to the earliest deadline and the race
/// is polled again. That poll decides the race, and nothing is polled after
/// it. Returns how the race ended, or `None` if no clock that counts in `u64`
/// reaches either deadline.
pub fn race_timers(first_wait: u128, second_wait: u128) -> (outcome: Option<RaceOutcome>)
    ensures
        match outcome {
            Some(o) => o.is_outcome_of(first_wait, second_wait),
            None => winner_of(first_wait, second_wait) is None,
        },
{
    let mut race = Race::new(TimerFuture::after_nanos(first_wait), TimerFuture::after_nanos(second_wait));
    let ghost fresh = race;
    let mut cx = Context::new(Waker::new(0), Timers::new());
    let ghost cx0 = cx@;
    let started = race.poll(&mut cx);
    proof {
        assert(fresh == fresh_race(first_wait, second_wait));
        assert(cx0 == ContextView::fresh(0, 0, Seq::empty()));
        assert(fresh.polls_to(cx0, race, cx@, started));
        lemma_first_poll_arms_both(first_wait, second_wait, race, cx@, started);
    }
    let (_, mut timers) = cx.finish();
    let ghost armed = timers@;
    match timers.next_deadline() {
        None => {
            proof {
                // Neither deadline can be reached.
                assert(armed[0].armed_at + armed[0].wait > u64::MAX);
                assert(armed[1].armed_at + armed[1].wait > u64::MAX);
            }
            None
        },
        Some(deadline) => {
            proof {
                // The deadline is the shorter of the two waits.
                let i = choose|i: int|
                    0 <= i < armed.len() && !armed[i].fired && #[trigger] armed[i].armed_at + armed[i].wait
                        == deadline;
                assert(deadline <= armed[0].armed_at + armed[0].wait);
                assert(deadline <= armed[1].armed_at + armed[1].wait);
                assert(i == 0 || i == 1);
                assert(deadline == decided_at(first_wait, second_wait));
            }
            let _ = timers.advance_to(deadline);
            let ghost before = race;
            let mut cx = Context::new(Waker::new(0), timers);
            let ghost decided = cx@;
            let finished = race.poll(&mut cx);
            proof {
                assert(decided.timers =~= timers_at(armed_pair(first_wait, second_wait), deadline));
                assert(decided == race_context(first_wait, second_wait, deadline));
                assert(before.polls_to(decided, race, cx@, finished));
                lemma_race_poll_at(first_wait, second_wait, deadline, race, cx@, finished);
            }
            match finished {
                Poll::Ready(winner) => {
                    let (_, timers) = cx.finish();
                    let outcome = RaceOutcome { winner, decided_at: deadline, race, timers };
                    proof {
                        assert forall|
                            now: u64,
                            next: Race<TimerFuture, TimerFuture>,
                            next_cx: ContextView,
                            out: Poll<Either<(), ()>>,
                        |
                            now < deadline && #[trigger] armed_race(first_wait, second_wait).polls_to(
                                race_context(first_wait, second_wait, now),
                                next,
                                next_cx,
                                out,
                            ) implies out is Pending by {
                            lemma_race_poll_at(first_wait, second_wait, now, next, next_cx, out);
                        }
                        assert(outcome.context() == decided);
                    }
                    Some(outcome)
                },
                Poll::Pending => None,
            }
        },
    }
}

/// A computation that is ready with its name when the computation inside it
/// is ready.
#[derive(Debug)]
pub struct Named<C> {
    /// The name that it is ready with.
    pub name: &'static str,
    /// The computation that it polls.
    pub inner: C,
}

/// The result of a named computation whose inner poll gave `inner`.
pub open spec fn named_result<T>(name: &'static str, inner: Poll<T>) -> Poll<&'static str> {
    match inner {
        Poll::Ready(_) => Poll::Ready(name),
        Poll::Pending => Poll::Pending,
    }
}

impl<C: Computation> Computation for Named<C> {
    type Output = &'static str;

    open spec fn polls_to(
        self,
        cx: ContextView,
        next: Named<C>,
        next_cx: ContextView,
        out: Poll<&'static str>,
    ) -> bool {
        &&& next.name == self.name
        &&& exists|inner: Poll<C::Output>|
            {
                &&& #[trigger] self.inner.polls_to(cx, next.inner, next_cx, inner)
                &&& out == named_result(self.name, inner)
            }
    }

    open spec fn budget(self) -> nat {
        self.inner.budget()
    }

    open spec fn self_driven(self) -> bool {
        self.inner.self_driven()
    }

    fn poll(&mut self, cx: &mut Context) -> (out: Poll<&'static str>) {
        let inner = self.inner.poll(cx);
        assert(old(self).inner.polls_to(old(cx)@, self.inner, cx@, inner));
        match inner {
            Poll::Ready(_) => Poll::Ready(self.name),
            Poll::Pending => Poll::Pending,
        }
    }
}

/// The task named `task_id` that is done `seconds` seconds after its first
/// poll, and is then ready with its name.
pub fn get_async_task(task_id: &'static str, seconds: u64) -> (task: Named<TimerFuture>)
    ensures
        task.name == task_id,
        task.inner.wait == seconds * NANOS_PER_SECOND,
        task.inner.timer is None,
{
    let duration = Duration::new(seconds, 0);
    Named { name: task_id, inner: TimerFuture::new(duration) }
}

/// Races a task that waits five seconds, the first, against a task that
/// waits one second, the second. Returns the name of the one that is done
/// first, and how the race ended: it is decided when one second has passed,
/// by the second task, after both tasks have been polled; the first task is
/// handed back pending, with its timer armed and not fired.
pub fn race_tasks() -> (race: (&'static str, RaceOutcome))
    ensures
        race.0@ == "task2"@,
        race.1.is_outcome_of(5_000_000_000, 1_000_000_000),
        race.1.winner == Either::<(), ()>::Second(()),
        race.1.decided_at == 1_000_000_000,
        race.1.race.first == (TimerFuture { wait: 5_000_000_000, timer: Some(0usize) }),
        race.1.race.second == (TimerFuture { wait: 1_000_000_000, timer: Some(1usize) }),
        race.1.race.second.poll_result(race.1.context()) is Ready,
        race.1.first_is_pending(),
        race.1.timers@.len() == 2,
        !race.1.timers@[0].fired,
        race.1.timers@[1].fired,
{
    let task_1 = Duration::new(5, 0);
    let task_2 = Duration::new(1, 0);
    match race_timers(task_1.as_nanos(), task_2.as_nanos()) {
        Some(outcome) => {
            let winner = match outcome.winner {
                Either::First(_) => "task1",
                Either::Second(_) => "task2",
            };
            (winner, outcome)
        },
        None => vstd::pervasive::unreached(),
    }
}

/// Whether `i` is the index of the least of `waits`, and the first such
/// index.
pub open spec fn is_first_least(waits: Seq<u128>, i: int) -> bool {
    &&& 0 <= i < waits.len()
    &&& forall|j: int| 0 <= j < waits.len() ==> waits[i] <= #[trigger] waits[j]
    &&& forall|j: int| 0 <= j < i ==> waits[i] < #[trigger] waits[j]
}

/// Timer futures that wait `waits`, the first `k` of which have been polled
/// once, on a table that held no timer before.
pub open spec fn timer_futures(waits: Seq<u128>, k: int) -> Seq<TimerFuture> {
    Seq::new(
        waits.len(),
        |j: int|
            TimerFuture {
                wait: waits[j],
                timer: if j < k {
                    Some(j as usize)
                } else {
                    None
                },
            },
    )
}

/// The timers that the first `k` of the timer futures that wait `waits` arm
/// when the task 0 polls them at time 0.
pub open spec fn timers_armed(waits: Seq<u128>, k: int) -> Seq<TimerState> {
    Seq::new(k as nat, |j: int| TimerState::armed(0, waits[j], Waker { task: 0 }))
}

/// Polling fresh timer futures in their order, on a table that holds no
/// timer, arms one timer for each: the first `k` polls end pending and leave
/// `k` timers.
proof fn lemma_first_polls_arm(waits: Seq<u128>, after: Seq<TimerFuture>, next_cx: ContextView, k: nat)
    requires
        waits.len() <= usize::MAX,
        k <= waits.len(),
        polled_pending(
            timer_futures(waits, 0),
            ContextView::fresh(0, 0, Seq::empty()),
            after,
            next_cx,
            k,
        ),
    ensures
        after == timer_futures(waits, k as int),
        next_cx == ContextView::fresh(0, 0, timers_armed(waits, k as int)),
    decreases k,
{
    let items = timer_futures(waits, 0);
    let cx = ContextView::fresh(0, 0, Seq::<TimerState>::empty());
    if k == 0 {
        assert(timers_armed(waits, 0) =~= Seq::<TimerState>::empty());
    } else {
        let mid = choose|mid: ContextView|
            {
                &&& polled_pending(items, cx, after.update(k - 1, items[k - 1]), mid, (k - 1) as nat)
                &&& #[trigger] items[k - 1].polls_to(mid, after[k - 1], next_cx, Poll::Pending)
            };
        lemma_first_polls_arm(waits, after.update(k - 1, items[k - 1]), mid, (k - 1) as nat);
        assert(after =~= timer_futures(waits, k as int)) by {
            assert forall|j: int| 0 <= j < waits.len() implies after[j] == timer_futures(waits, k as int)[j] by {
                if j != k - 1 {
                    assert(after[j] == after.update(k - 1, items[k - 1])[j]);
                }
            }
        }
        assert(next_cx.timers =~= timers_armed(waits, k as int));
    }
}

/// The context in which the task 0 polls the timer futures that wait
/// `waits` when the clock reads `now`, after they have armed their timers at
/// time 0.
pub open spec fn all_context(waits: Seq<u128>, now: u64) -> ContextView {
    ContextView::fresh(0, now, timers_at(timers_armed(waits, waits.len() as int), now))
}

/// Polling timer futures that have all been armed, in their order, ends
/// pending for those whose wait has not passed, and changes neither the
/// futures nor the timers.
proof fn lemma_later_polls_wait(
    waits: Seq<u128>,
    now: u64,
    after: Seq<TimerFuture>,
    next_cx: ContextView,
    k: nat,
)
    requires
        waits.len() <= usize::MAX,
        k <= waits.len(),
        polled_pending(timer_futures(waits, waits.len() as int), all_context(waits, now), after, next_cx, k),
    ensures
        after == timer_futures(waits, waits.len() as int),
        next_cx == all_context(waits, now),
        forall|j: int| 0 <= j < k ==> now < #[trigger] waits[j],
    decreases k,
{
    let items = timer_futures(waits, waits.len() as int);
    let cx = all_context(waits, now);
    if k > 0 {
        let mid = choose|mid: ContextView|
            {
                &&& polled_pending(items, cx, after.update(k - 1, items[k - 1]), mid, (k - 1) as nat)
                &&& #[trigger] items[k - 1].polls_to(mid, after[k - 1], next_cx, Poll::Pending)
            };
        lemma_later_polls_wait(waits, now, after.update(k - 1, items[k - 1]), mid, (k - 1) as nat);
        assert(items[k - 1].timer == Some((k - 1) as usize));
        assert(!cx.timer_fired((k - 1) as usize));
        assert(cx.timers[k - 1] == TimerState::armed(0, waits[k - 1], Waker { task: 0 }).at(now));
        assert(now < waits[k - 1]);
        assert(next_cx.timers =~= cx.timers);
        assert(after =~= items) by {
            assert forall|j: int| 0 <= j < waits.len() implies after[j] == items[j] by {
                if j != k - 1 {
                    assert(after[j] == after.update(k - 1, items[k - 1])[j]);
                }
            }
        }
    }
}

/// How a race of several timer futures ended.
pub struct FirstOfAll {
    /// The index of the one that was ready first.
    pub index: usize,
    /// The reading of the clock at which it was ready.
    pub decided_at: u64,
    /// The other futures in their order, each as its last poll left it.
    pub remaining: Vec<TimerFuture>,
    /// The timers as the race left them.
    pub timers: Timers,
}

impl FirstOfAll {
    /// The context of the poll that decided the race.
    pub open spec fn context(self) -> ContextView {
        ContextView::fresh(0, self.decided_at, self.timers@)
    }

    /// Whether this is how the race of timer futures that wait `waits` ends,
    /// when the task 0 polls them all at time 0 and again as soon as a timer
    /// is due.
    pub open spec fn is_outcome_of(self, waits: Seq<u128>) -> bool {
        let n = waits.len() as int;
        // The winner is the first of those with the least wait, and the
        // race is decided as soon as that wait has passed.
        &&& is_first_least(waits, self.index as int)
        &&& self.decided_at == waits[self.index as int]
        // Every future was polled and has armed its timer; all but the
        // winner are handed back, in their order.
        &&& self.remaining@ == timer_futures(waits, n).remove(self.index as int)
        &&& self.timers.wf()
        &&& self.timers.clock() == self.decided_at
        &&& self.timers@ == timers_at(timers_armed(waits, n), self.decided_at)
        // Those that wait longer than the winner are still pending: their
        // timers are armed, hold the waker and have not fired.
        &&& forall|j: int|
            0 <= j < n && self.decided_at < waits[j] ==> {
                &&& (#[trigger] timer_futures(waits, n)[j]).poll_result(self.context()) is Pending
                &&& self.timers@[j] == TimerState::armed(0, waits[j], Waker { task: 0 })
            }
    }
}

/// Races timer futures that wait `waits` nanoseconds each. All are polled at
/// time 0, which arms their timers; then the clock is advanced to the
/// earliest deadline and all are polled again, in their order, up to the
/// first that is ready. Returns how the race ended: the winner is the first
/// of those with the least wait, and the others are handed back. There is
/// no winner if no clock that counts in `u64` reaches any of the deadlines.
pub fn first_of_all(waits: &Vec<u128>) -> (outcome: Option<FirstOfAll>)
    ensures
        match outcome {
            Some(o) => o.is_outcome_of(waits@),
            None => forall|j: int| 0 <= j < waits@.len() ==> #[trigger] waits@[j] > u64::MAX,
        },
{
    let n = waits.len();
    let mut tasks: Vec<TimerFuture> = Vec::new();
    let mut i: usize = 0;
    while i < n
        invariant
            i <= n,
            n == waits@.len(),
            tasks@ == timer_futures(waits@, 0).take(i as int),
        decreases n - i,
    {
        tasks.push(TimerFuture::after_nanos(waits[i]));
        assert(tasks@ =~= timer_futures(waits@, 0).take(i as int + 1));
        i += 1;
    }
    assert(tasks@ =~= timer_futures(waits@, 0));
    let mut all = SelectAll::new(tasks);
    let ghost fresh = all;
    let mut cx = Context::new(Waker::new(0), Timers::new());
    let ghost cx0 = cx@;
    let started = all.poll(&mut cx);
    proof {
        assert(cx0 == ContextView::fresh(0, 0, Seq::empty()));
        assert(fresh.polls_to(cx0, all, cx@, started));
        if started is Ready {
            // No timer future that has not been polled before is ready.
            let (i, before, mid, done, v) = choose|
                i: int,
                before: Seq<TimerFuture>,
                mid: ContextView,
                done: TimerFuture,
                v: (),
            |
                {
                    &&& 0 <= i < fresh.items@.len()
                    &&& polled_pending(fresh.items@, cx0, before, mid, i as nat)
                    &&& #[trigger] before[i].polls_to(mid, done, cx@, Poll::Ready(v))
                };
            lemma_first_polls_arm(waits@, before, mid, i as nat);
            assert(before[i].timer is None);
            assert(false);
        }
        lemma_first_polls_arm(waits@, all.items@, cx@, n as nat);
    }
    let (_, mut timers) = cx.finish();
    let ghost armed = timers@;
    assert(armed == timers_armed(waits@, n as int));
    assert(forall|j: int| 0 <= j < n ==> armed[j] == TimerState::armed(0, waits@[j], Waker { task: 0 }));
    match timers.next_deadline() {
        None => {
            assert forall|j: int| 0 <= j < waits@.len() implies #[trigger] waits@[j] > u64::MAX by {
                assert(armed[j].armed_at + armed[j].wait > u64::MAX);
            }
            None
        },
        Some(deadline) => {
            let ghost first = choose|i: int|
                0 <= i < armed.len() && !armed[i].fired && #[trigger] armed[i].armed_at + armed[i].wait
                    == deadline;
            let _ = timers.advance_to(deadline);
            let ghost fired = timers@;
            proof {
                // The deadline is the least of the waits.
                assert forall|j: int| 0 <= j < n implies deadline <= #[trigger] waits@[j] by {
                    assert(deadline <= armed[j].armed_at + armed[j].wait);
                }
                assert(waits@[first] == deadline);
                assert(fired =~= timers_at(armed, deadline));
            }
            let ghost before_poll = all;
            let mut cx = Context::new(Waker::new(0), timers);
            let ghost cx2 = cx@;
            let finished = all.poll(&mut cx);
            proof {
                assert(cx2 == all_context(waits@, deadline));
                assert(before_poll.polls_to(cx2, all, cx@, finished));
                if finished is Pending {
                    // Then no wait has passed; but the least has.
                    lemma_later_polls_wait(waits@, deadline, all.items@, cx@, n as nat);
                    assert(deadline < waits@[first]);
                    assert(false);
                }
            }
            match finished {
                Poll::Ready(ready) => {
                    let (_, index, remaining) = ready;
                    proof {
                        // The winner's wait has passed, and none before it.
                        let (i, before, mid, done, v) = choose|
                            i: int,
                            before: Seq<TimerFuture>,
                            mid: ContextView,
                            done: TimerFuture,
                            v: (),
                        |
                            {
                                &&& 0 <= i < before_poll.items@.len()
                                &&& polled_pending(before_poll.items@, cx2, before, mid, i as nat)
                                &&& #[trigger] before[i].polls_to(mid, done, cx@, Poll::Ready(v))
                                &&& finished matches Poll::Ready(r)
                                &&& r.1 == i
                                &&& r.2@ == before.remove(i)
                            };
                        lemma_later_polls_wait(waits@, deadline, before, mid, i as nat);
                        assert(before[i].timer == Some(i as usize));
                        assert(mid.timer_fired(i as usize));
                        assert(mid.timers[i] == TimerState::armed(0, waits@[i], Waker { task: 0 }).at(deadline));
                        assert(waits@[i] == deadline);
                        assert(is_first_least(waits@, i));
                        assert(cx@ == mid);
                    }
                    let (_, timers) = cx.finish();
                    Some(FirstOfAll { index, decided_at: deadline, remaining, timers })
                },
                Poll::Pending => None,
            }
        },
    }
}

} // verus!
