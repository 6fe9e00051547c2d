//! The executor: the arena of tasks, the ready queue and the run loop.
//!
//! A task is a slot of the arena that holds its computation until the
//! computation is ready; its handle is the slot's index. The ready queue
//! holds the handles of the tasks to poll, in the order in which they were
//! spawned or woken. The run loop pops a handle, polls the task in a fresh
//! context bound to its waker, and empties the slot if the poll ends ready. A
//! task whose poll ends pending comes back to the queue only when its waker
//! is invoked: by the poll itself, by a timer that fires, or from outside.

use crate::computation::Computation;
use crate::context::{Context, ContextView};
use crate::task::{Poll, Waker};
use crate::timers::{fired_wakers, is_next_deadline, no_deadline, timers_at, timers_extend, TimerState, Timers};
use std::collections::VecDeque;
use vstd::prelude::*;

verus! {

/// What one turn of the run loop did.
#[derive(Debug, Clone, Copy, PartialEq, Eq)]
pub enum Step {
    /// The task was polled and is ready: it is gone.
    Completed(usize),
    /// The task was polled and is not ready yet.
    Pending(usize),
    /// The task had been woken after it was ready: there was nothing to poll.
    Skipped(usize),
    /// The queue is empty but a spawner, or a timer that a task waits for,
    /// can still fill it.
    Blocked,
    /// The queue is empty and nothing can fill it any more.
    Terminated,
}

/// How a run of the executor ended.
#[derive(Debug, Clone, Copy, PartialEq, Eq)]
pub enum RunState {
    /// The queue is drained, but a spawner, or a timer that a task waits for,
    /// can still fill it: run again after the next spawn, wake or passing of
    /// time.
    Blocked,
    /// The queue is drained and closed.
    Terminated,
}

/// The sum of the work left in the slots `slots`.
pub open spec fn total_work<C: Computation>(slots: Seq<Option<C>>) -> nat
    decreases slots.len(),
{
    if slots.len() == 0 {
        0
    } else {
        total_work(slots.drop_last()) + slot_work(slots.last())
    }
}

/// The work left in a slot: one turn to get ready, and one for each poll
/// that its budget allows to end pending with the task woken. An empty slot
/// has none.
pub open spec fn slot_work<C: Computation>(slot: Option<C>) -> nat {
    match slot {
        Some(c) => c.budget() + 1,
        None => 0,
    }
}

/// The handles of the tasks that `wakers` re-schedule, in their order.
pub open spec fn woken_tasks(wakers: Seq<Waker>) -> Seq<usize> {
    Seq::new(wakers.len(), |i: int| wakers[i].task)
}

/// An executor as a plain value.
pub struct ExecutorView<C> {
    /// The arena: the slot of each task, empty once the task is ready.
    pub slots: Seq<Option<C>>,
    /// The ready queue, the next task to poll first.
    pub queue: Seq<usize>,
    /// The number of spawners that have not been closed.
    pub spawners: nat,
    /// The reading of the clock.
    pub clock: u64,
    /// The timers.
    pub timers: Seq<TimerState>,
}

impl<C: Computation> ExecutorView<C> {
    /// Whether `t` is the handle of a task that is not ready yet.
    pub open spec fn live(self, t: usize) -> bool {
        t < self.slots.len() && self.slots[t as int] is Some
    }

    /// Whether the timer `i` holds the waker of a task that is not ready yet.
    pub open spec fn timer_awaited(self, i: int) -> bool {
        &&& 0 <= i < self.timers.len()
        &&& self.timers[i].waker matches Some(w)
        &&& self.live(w.task)
    }

    /// Whether some task that is not ready yet waits for a timer.
    pub open spec fn awaits_timer(self) -> bool {
        exists|i: int| #[trigger] self.timer_awaited(i)
    }

    /// Whether the queue can still be filled: a spawner is left, or a task
    /// that is not ready yet waits for a timer. The waker of a task that is
    /// ready keeps nothing open.
    pub open spec fn is_open(self) -> bool {
        self.spawners > 0 || self.awaits_timer()
    }

    /// A bound on the turns that the run loop can take before the queue is
    /// empty.
    pub open spec fn work(self) -> nat {
        total_work(self.slots) + self.queue.len()
    }

    /// Whether every task that is not ready yet is queued and gets ready
    /// without outside help.
    pub open spec fn all_runnable(self) -> bool {
        forall|t: usize| #[trigger]
            self.live(t) ==> self.slots[t as int]->0.self_driven() && self.queue.contains(t)
    }

    /// Whether every task is ready.
    pub open spec fn all_done(self) -> bool {
        forall|t: usize| !#[trigger] self.live(t)
    }

    /// The executor with `computation` spawned: a new task, queued last.
    pub open spec fn spawn(self, computation: C) -> ExecutorView<C> {
        ExecutorView {
            slots: self.slots.push(Some(computation)),
            queue: self.queue.push(self.slots.len() as usize),
            ..self
        }
    }

    /// The executor with the computations `computations` spawned in their
    /// order.
    pub open spec fn spawn_all(self, computations: Seq<C>) -> ExecutorView<C>
        decreases computations.len(),
    {
        if computations.len() == 0 {
            self
        } else {
            self.spawn_all(computations.drop_last()).spawn(computations.last())
        }
    }

    /// The executor with `waker` invoked: its task is queued last, ready or
    /// not. A waker of no task of this executor does nothing.
    pub open spec fn wake(self, waker: Waker) -> ExecutorView<C> {
        if waker.task < self.slots.len() {
            ExecutorView { queue: self.queue.push(waker.task), ..self }
        } else {
            self
        }
    }

    /// The executor with the task `task` cancelled: its slot is empty.
    pub open spec fn cancel(self, task: usize) -> ExecutorView<C> {
        if task < self.slots.len() {
            ExecutorView { slots: self.slots.update(task as int, None), ..self }
        } else {
            self
        }
    }

    /// The executor once the clock has come to read `now`: the timers that
    /// have become due have fired and their tasks are queued, in the order of
    /// the timers' indices.
    pub open spec fn advance_to(self, now: u64) -> ExecutorView<C> {
        let clock = if now > self.clock {
            now
        } else {
            self.clock
        };
        ExecutorView {
            clock,
            timers: timers_at(self.timers, clock),
            queue: self.queue + woken_tasks(fired_wakers(self.timers, clock)),
            ..self
        }
    }

    /// The context in which the task `t` is polled.
    pub open spec fn context(self, t: usize) -> ContextView {
        ContextView::fresh(t, self.clock, self.timers)
    }

    /// The executor after a turn in which the first task of the queue, `t`,
    /// was polled: `slot` is what is left of the task and `cx` the context
    /// after the poll. A task that woke itself is queued last.
    pub open spec fn after_poll(self, t: usize, slot: Option<C>, cx: ContextView) -> ExecutorView<C> {
        ExecutorView {
            slots: self.slots.update(t as int, slot),
            queue: if cx.woken {
                self.queue.drop_first().push(t)
            } else {
                self.queue.drop_first()
            },
            timers: cx.timers,
            ..self
        }
    }

    /// Whether one turn of the run loop can take the executor to `post` with
    /// the outcome `step`.
    pub open spec fn steps_to(self, post: ExecutorView<C>, step: Step) -> bool {
        match step {
            Step::Terminated => self.queue.len() == 0 && !self.is_open() && post == self,
            Step::Blocked => self.queue.len() == 0 && self.is_open() && post == self,
            Step::Skipped(t) => {
                &&& self.queue.len() > 0
                &&& t == self.queue[0]
                &&& !self.live(t)
                &&& post == ExecutorView { queue: self.queue.drop_first(), ..self }
            },
            Step::Completed(t) => {
                &&& self.queue.len() > 0
                &&& t == self.queue[0]
                &&& self.live(t)
                &&& exists|next: C, cx: ContextView, out: Poll<C::Output>|
                    {
                        &&& #[trigger] self.slots[t as int]->0.polls_to(self.context(t), next, cx, out)
                        &&& out is Ready
                        &&& post == self.after_poll(t, None, cx)
                    }
            },
            Step::Pending(t) => {
                &&& self.queue.len() > 0
                &&& t == self.queue[0]
                &&& self.live(t)
                &&& exists|next: C, cx: ContextView, out: Poll<C::Output>|
                    {
                        &&& #[trigger] self.slots[t as int]->0.polls_to(self.context(t), next, cx, out)
                        &&& out is Pending
                        &&& post == self.after_poll(t, Some(next), cx)
                    }
            },
        }
    }

    /// Whether `turns` turns of the run loop, none of them the last, can take
    /// the executor to `post`.
    pub open spec fn runs_to(self, post: ExecutorView<C>, turns: nat) -> bool
        decreases turns,
    {
        if turns == 0 {
            post == self
        } else {
            exists|mid: ExecutorView<C>, step: Step|
                {
                    &&& self.runs_to(mid, (turns - 1) as nat)
                    &&& #[trigger] mid.steps_to(post, step)
                    &&& step !is Blocked
                    &&& step !is Terminated
                }
        }
    }
}

/// Putting something else in a slot changes the sum of the work by the
/// difference of the two.
pub proof fn lemma_total_work_update<C: Computation>(slots: Seq<Option<C>>, t: int, slot: Option<C>)
    requires
        0 <= t < slots.len(),
    ensures
        total_work(slots.update(t, slot)) + slot_work(slots[t]) == total_work(slots) + slot_work(slot),
    decreases slots.len(),
{
    let updated = slots.update(t, slot);
    if t == slots.len() - 1 {
        assert(updated.drop_last() =~= slots.drop_last());
    } else {
        assert(updated.drop_last() =~= slots.drop_last().update(t, slot));
        lemma_total_work_update(slots.drop_last(), t, slot);
    }
}

/// A turn that polls the first task of the queue leaves less work, if what
/// is left in the slot has no more work than before, and less if the task was
/// woken.
pub proof fn lemma_poll_leaves_less_work<C: Computation>(
    pre: ExecutorView<C>,
    slot: Option<C>,
    cx: ContextView,
)
    requires
        pre.queue.len() > 0,
        pre.queue[0] < pre.slots.len(),
        slot_work(slot) <= slot_work(pre.slots[pre.queue[0] as int]),
        cx.woken ==> slot_work(slot) < slot_work(pre.slots[pre.queue[0] as int]),
    ensures
        pre.after_poll(pre.queue[0], slot, cx).work() < pre.work(),
{
    lemma_total_work_update(pre.slots, pre.queue[0] as int, slot);
}

/// A turn that polls the first task of the queue keeps every task that is
/// not ready yet queued, if the polled task is ready or was woken.
pub proof fn lemma_poll_keeps_runnable<C: Computation>(
    pre: ExecutorView<C>,
    slot: Option<C>,
    cx: ContextView,
)
    requires
        pre.all_runnable(),
        pre.queue.len() > 0,
        pre.queue[0] < pre.slots.len(),
        slot matches Some(c) ==> c.self_driven() && cx.woken,
    ensures
        pre.after_poll(pre.queue[0], slot, cx).all_runnable(),
{
    let t = pre.queue[0];
    let post = pre.after_poll(t, slot, cx);
    assert forall|u: usize| #[trigger] post.live(u) implies post.slots[u as int]->0.self_driven()
        && post.queue.contains(u) by {
        if u == t {
            assert(post.queue[post.queue.len() - 1] == u);
        } else {
            assert(pre.live(u));
            assert(pre.queue.contains(u));
            let k = choose|k: int| 0 <= k < pre.queue.len() && pre.queue[k] == u;
            assert(post.queue[k - 1] == u);
        }
    }
}

/// Every waker that the timers invoke at `now` was held by one of them.
pub proof fn lemma_fired_wakers_held(timers: Seq<TimerState>, now: u64, k: int)
    requires
        0 <= k < fired_wakers(timers, now).len(),
    ensures
        exists|i: int| 0 <= i < timers.len() && #[trigger] timers[i].waker == Some(fired_wakers(timers, now)[k]),
    decreases timers.len(),
{
    if timers.len() > 0 {
        let before = fired_wakers(timers.drop_last(), now);
        let last = timers.last();
        if k < before.len() {
            lemma_fired_wakers_held(timers.drop_last(), now, k);
            let i = choose|i: int|
                0 <= i < timers.drop_last().len() && #[trigger] timers.drop_last()[i].waker == Some(
                    before[k],
                );
            assert(timers[i].waker == Some(before[k]));
        } else {
            assert(timers[timers.len() - 1].waker == Some(fired_wakers(timers, now)[k]));
        }
    }
}

/// Spawning a computation that gets ready without outside help keeps every
/// task that is not ready yet queued and able to get ready by itself.
pub proof fn lemma_spawn_keeps_runnable<C: Computation>(pre: ExecutorView<C>, computation: C)
    requires
        pre.all_runnable(),
        computation.self_driven(),
        pre.slots.len() <= usize::MAX,
    ensures
        pre.spawn(computation).all_runnable(),
{
    let post = pre.spawn(computation);
    assert forall|t: usize| #[trigger] post.live(t) implies post.slots[t as int]->0.self_driven()
        && post.queue.contains(t) by {
        if t < pre.slots.len() {
            assert(pre.live(t));
            assert(pre.queue.contains(t));
            let k = choose|k: int| 0 <= k < pre.queue.len() && pre.queue[k] == t;
            assert(post.queue[k] == t);
        } else {
            assert(post.queue[pre.queue.len() as int] == t);
        }
    }
}

/// However many computations that get ready without outside help are
/// spawned, every task that is not ready yet is queued and able to get ready
/// by itself.
pub proof fn lemma_spawned_are_runnable<C: Computation>(pre: ExecutorView<C>, computations: Seq<C>)
    requires
        pre.all_runnable(),
        forall|i: int| 0 <= i < computations.len() ==> (#[trigger] computations[i]).self_driven(),
        pre.slots.len() + computations.len() <= usize::MAX,
    ensures
        pre.spawn_all(computations).all_runnable(),
        pre.spawn_all(computations).slots.len() == pre.slots.len() + computations.len(),
        pre.spawn_all(computations).spawners == pre.spawners,
    decreases computations.len(),
{
    if computations.len() > 0 {
        let before = computations.drop_last();
        lemma_spawned_are_runnable(pre, before);
        lemma_spawn_keeps_runnable(pre.spawn_all(before), computations.last());
    }
}

/// Whatever is queued after the handles in the queue, and whatever happens to
/// the spawners, the clock and the timers, every task that is not ready yet
/// stays queued.
pub proof fn lemma_queue_keeps_runnable<C: Computation>(pre: ExecutorView<C>, post: ExecutorView<C>)
    requires
        pre.all_runnable(),
        post.slots == pre.slots,
        pre.queue.is_prefix_of(post.queue),
    ensures
        post.all_runnable(),
{
    assert forall|t: usize| #[trigger] post.live(t) implies post.slots[t as int]->0.self_driven()
        && post.queue.contains(t) by {
        assert(pre.live(t));
        assert(pre.queue.contains(t));
        let k = choose|k: int| 0 <= k < pre.queue.len() && pre.queue[k] == t;
        assert(post.queue[k] == t);
    }
}

/// Invoking the waker of a task that is ready is harmless: with nothing else
/// in the queue, the next turn of the run loop passes the task over without a
/// poll and leaves the executor as it was before the wake.
pub proof fn lemma_wake_of_done_task_is_passed_over<C: Computation>(
    pre: ExecutorView<C>,
    waker: Waker,
    post: ExecutorView<C>,
    step: Step,
)
    requires
        pre.queue.len() == 0,
        waker.task < pre.slots.len(),
        !pre.live(waker.task),
        pre.wake(waker).steps_to(post, step),
    ensures
        step == Step::Skipped(waker.task),
        post == pre,
{
    let woken = pre.wake(waker);
    assert(woken.queue[0] == waker.task);
    assert(woken.queue.drop_first() =~= pre.queue);
}

/// A task that is ready is never polled again: a turn of the run loop brings
/// no task back.
pub proof fn lemma_done_stays_done<C: Computation>(
    pre: ExecutorView<C>,
    post: ExecutorView<C>,
    step: Step,
    t: usize,
)
    requires
        !pre.live(t),
        pre.steps_to(post, step),
    ensures
        !post.live(t),
        step != Step::Completed(t),
        step != Step::Pending(t),
{
}

/// With an empty queue, no spawner and no task that waits for a timer, the
/// run loop ends at once: its next turn is the last and polls nothing.
pub proof fn lemma_closed_and_drained_terminates<C: Computation>(
    pre: ExecutorView<C>,
    post: ExecutorView<C>,
    step: Step,
)
    requires
        pre.queue.len() == 0,
        pre.spawners == 0,
        !pre.awaits_timer(),
        pre.steps_to(post, step),
    ensures
        step == Step::Terminated,
        post == pre,
{
}

/// The executor: it owns the tasks, the ready queue and the timers.
pub struct Executor<C: Computation> {
    slots: Vec<Option<C>>,
    queue: VecDeque<usize>,
    spawners: usize,
    timers: Timers,
}

/// A handle through which computations are spawned onto an executor. The
/// executor counts its spawners; it can terminate once all are closed.
#[derive(Debug)]
pub struct Spawner {
    handle: (),
}

impl<C: Computation> View for Executor<C> {
    type V = ExecutorView<C>;

    closed spec fn view(&self) -> ExecutorView<C> {
        ExecutorView {
            slots: self.slots@,
            queue: self.queue@,
            spawners: self.spawners as nat,
            clock: self.timers.clock(),
            timers: self.timers@,
        }
    }
}

/// An executor without tasks, and its first spawner.
pub fn new_executor_and_spawner<C: Computation>() -> (pair: (Executor<C>, Spawner))
    ensures
        pair.0.wf(),
        pair.0@ == (ExecutorView::<C> {
            slots: Seq::empty(),
            queue: Seq::empty(),
            spawners: 1,
            clock: 0,
            timers: Seq::empty(),
        }),
        pair.0@.all_runnable(),
{
    let executor = Executor { slots: Vec::new(), queue: VecDeque::new(), spawners: 1, timers: Timers::new() };
    (executor, Spawner { handle: () })
}

impl Spawner {
    /// Spawns `computation` onto `executor`: it becomes a new task, queued
    /// last. Returns nothing, as the task is known to the executor alone.
    pub fn spawn<C: Computation>(&self, executor: &mut Executor<C>, computation: C)
        requires
            old(executor).wf(),
        ensures
            final(executor).wf(),
            final(executor)@ == old(executor)@.spawn(computation),
            old(executor)@.all_runnable() && computation.self_driven() ==> final(executor)@.all_runnable(),
    {
        let ghost pre = executor@;
        let task = executor.slots.len();
        executor.slots.push(Some(computation));
        executor.queue.push_back(task);
        proof {
            if pre.all_runnable() && computation.self_driven() {
                lemma_spawn_keeps_runnable(pre, computation);
            }
        }
    }

    /// A second spawner for `executor`.
    pub fn duplicate<C: Computation>(&self, executor: &mut Executor<C>) -> (s: Spawner)
        requires
            old(executor).wf(),
            old(executor)@.spawners < usize::MAX,
        ensures
            final(executor).wf(),
            final(executor)@ == (ExecutorView { spawners: old(executor)@.spawners + 1, ..old(executor)@ }),
            old(executor)@.all_runnable() ==> final(executor)@.all_runnable(),
    {
        executor.spawners = executor.spawners + 1;
        proof {
            executor.lemma_wf_frame(*old(executor));
            if old(executor)@.all_runnable() {
                lemma_queue_keeps_runnable(old(executor)@, executor@);
            }
        }
        Spawner { handle: () }
    }

    /// Closes the spawner: `executor` counts one spawner less.
    pub fn close<C: Computation>(self, executor: &mut Executor<C>)
        requires
            old(executor).wf(),
        ensures
            final(executor).wf(),
            final(executor)@ == (ExecutorView {
                spawners: if old(executor)@.spawners > 0 {
                    (old(executor)@.spawners - 1) as nat
                } else {
                    0
                },
                ..old(executor)@
            }),
            old(executor)@.all_runnable() ==> final(executor)@.all_runnable(),
    {
        if executor.spawners > 0 {
            executor.spawners = executor.spawners - 1;
        }
        proof {
            executor.lemma_wf_frame(*old(executor));
            if old(executor)@.all_runnable() {
                lemma_queue_keeps_runnable(old(executor)@, executor@);
            }
        }
    }
}

impl<C: Computation> Executor<C> {
    /// The timers are well formed, the queue holds handles of tasks only,
    /// and so do the wakers that the timers hold.
    pub closed spec fn wf(&self) -> bool {
        &&& self.timers.wf()
        &&& forall|k: int| 0 <= k < self.queue@.len() ==> #[trigger] self.queue@[k] < self.slots@.len()
        &&& forall|i: int|
            0 <= i < self.timers@.len() ==> ((#[trigger] self.timers@[i]).waker matches Some(w)
                ==> w.task < self.slots@.len())
    }

    /// Well-formedness does not depend on the number of spawners.
    proof fn lemma_wf_frame(self, other: Executor<C>)
        requires
            other.wf(),
            self.slots == other.slots,
            self.queue == other.queue,
            self.timers == other.timers,
        ensures
            self.wf(),
    {
    }

    /// In a well-formed executor every timer is consistent with the clock: a
    /// timer that has fired was due.
    pub proof fn lemma_timers_consistent(self, id: int)
        requires
            self.wf(),
            0 <= id < self@.timers.len(),
        ensures
            self@.timers[id].consistent(self@.clock),
    {
        self.timers.lemma_fired_is_due(id);
    }

    /// The handles of the tasks and the indices of the timers fit in `usize`.
    pub proof fn lemma_sizes_fit(self)
        ensures
            self@.slots.len() <= usize::MAX,
            self@.timers.len() <= usize::MAX,
    {
        self.timers.lemma_len_fits();
        assert(self.slots@.len() == self.slots.len());
    }

    /// The number of tasks spawned so far, ready or not.
    pub fn task_count(&self) -> (n: usize)
        ensures
            n == self@.slots.len(),
    {
        self.slots.len()
    }

    /// The number of spawners that have not been closed.
    pub fn spawners(&self) -> (n: usize)
        ensures
            n == self@.spawners,
    {
        self.spawners
    }

    /// Whether the queue can still be filled: a spawner is left, or a task
    /// that is not ready yet waits for a timer.
    pub fn is_open(&self) -> (b: bool)
        ensures
            b == self@.is_open(),
    {
        self.spawners > 0 || self.awaits_timer()
    }

    /// The number of handles in the ready queue.
    pub fn queued(&self) -> (n: usize)
        ensures
            n == self@.queue.len(),
    {
        self.queue.len()
    }

    /// Whether `task` is the handle of a task that is not ready yet.
    pub fn is_live(&self, task: usize) -> (b: bool)
        ensures
            b == self@.live(task),
    {
        task < self.slots.len() && self.slots[task].is_some()
    }

    /// The reading of the clock.
    pub fn now(&self) -> (now: u64)
        ensures
            now == self@.clock,
    {
        self.timers.now()
    }

    /// The earliest reading of the clock at which a timer that has not fired
    /// yet becomes due, or `None` if there is no such reading.
    pub fn next_deadline(&self) -> (next: Option<u64>)
        ensures
            match next {
                Some(d) => is_next_deadline(self@.timers, d),
                None => no_deadline(self@.timers),
            },
    {
        self.timers.next_deadline()
    }

    /// Invokes `waker`: its task is queued last. This is harmless at any
    /// time: a task that is ready is queued too, and the run loop passes it
    /// over.
    pub fn wake(&mut self, waker: Waker)
        requires
            old(self).wf(),
        ensures
            final(self).wf(),
            final(self)@ == old(self)@.wake(waker),
            old(self)@.all_runnable() ==> final(self)@.all_runnable(),
    {
        if waker.task() < self.slots.len() {
            self.queue.push_back(waker.task());
        }
        proof {
            if old(self)@.all_runnable() {
                lemma_queue_keeps_runnable(old(self)@, self@);
            }
        }
    }

    /// Cancels the task `task`: takes its computation out of its slot and
    /// hands it back, or `None` if the task is ready or `task` is the handle
    /// of no task. Whatever the computation has started goes on: its handles
    /// stay in the queue and its timers fire, and both are passed over.
    pub fn cancel(&mut self, task: usize) -> (computation: Option<C>)
        requires
            old(self).wf(),
        ensures
            final(self).wf(),
            final(self)@ == old(self)@.cancel(task),
            computation == (if old(self)@.live(task) {
                old(self)@.slots[task as int]
            } else {
                None
            }),
            old(self)@.all_runnable() ==> final(self)@.all_runnable(),
    {
        if task < self.slots.len() {
            let computation = self.slots[task].take();
            proof {
                assert(self@.slots =~= old(self)@.slots.update(task as int, None));
                if old(self)@.all_runnable() {
                    assert forall|t: usize| #[trigger] self@.live(t) implies self@.slots[t as int]->0.self_driven()
                        && self@.queue.contains(t) by {
                        assert(old(self)@.live(t));
                    }
                }
            }
            computation
        } else {
            None
        }
    }

    /// Tells the executor that the clock reads `now`. A reading earlier than
    /// the latest is taken for the latest. Every timer that has become due
    /// fires and wakes the task whose waker it holds.
    pub fn advance_to(&mut self, now: u64)
        requires
            old(self).wf(),
        ensures
            final(self).wf(),
            final(self)@ == old(self)@.advance_to(now),
            old(self)@.all_runnable() ==> final(self)@.all_runnable(),
    {
        let ghost pre = self@;
        let wakers = self.timers.advance_to(now);
        let ghost tasks = woken_tasks(wakers@);
        let ghost clock = self.timers.clock();
        let n = wakers.len();
        let mut i: usize = 0;
        while i < n
            invariant
                i <= n,
                n == wakers@.len(),
                tasks == woken_tasks(wakers@),
                wakers@ == fired_wakers(pre.timers, clock),
                self.timers.wf(),
                self.timers.clock() == clock,
                self.spawners == pre.spawners,
                self.slots@ == pre.slots,
                self.timers@ == timers_at(pre.timers, clock),
                self.queue@ == pre.queue + tasks.take(i as int),
                forall|k: int| 0 <= k < self.queue@.len() ==> #[trigger] self.queue@[k] < pre.slots.len(),
                forall|j: int|
                    0 <= j < pre.timers.len() ==> ((#[trigger] pre.timers[j]).waker matches Some(w)
                        ==> w.task < pre.slots.len()),
            decreases n - i,
        {
            let waker = wakers[i];
            proof {
                lemma_fired_wakers_held(pre.timers, clock, i as int);
                let j = choose|j: int|
                    0 <= j < pre.timers.len() && #[trigger] pre.timers[j].waker == Some(
                        fired_wakers(pre.timers, clock)[i as int],
                    );
                assert(waker.task < pre.slots.len());
                assert(tasks.take(i as int + 1) =~= tasks.take(i as int).push(waker.task));
            }
            self.queue.push_back(waker.task());
            assert(self.queue@ =~= pre.queue + tasks.take(i as int + 1));
            i += 1;
        }
        proof {
            assert(tasks.take(n as int) =~= tasks);
            assert forall|j: int| 0 <= j < self.timers@.len() implies ((#[trigger] self.timers@[j]).waker matches Some(
                w,
            ) ==> w.task < self.slots@.len()) by {
                assert(pre.timers[j].waker matches Some(w) ==> w.task < pre.slots.len());
            }
            assert(self@.queue =~= pre.advance_to(now).queue);
            if pre.all_runnable() {
                lemma_queue_keeps_runnable(pre, self@);
            }
        }
    }

    /// Whether some task that is not ready yet waits for a timer.
    fn awaits_timer(&self) -> (b: bool)
        ensures
            b == self@.awaits_timer(),
    {
        let n = self.timers.len();
        let mut i: usize = 0;
        while i < n
            invariant
                i <= n,
                n == self@.timers.len(),
                forall|j: int| 0 <= j < i ==> !#[trigger] self@.timer_awaited(j),
            decreases n - i,
        {
            match self.timers.waker_of(i) {
                Some(w) => {
                    if self.is_live(w.task()) {
                        assert(self@.timer_awaited(i as int));
                        return true;
                    }
                },
                None => {},
            }
            i += 1;
        }
        false
    }

    /// One turn of the run loop. Pops the first handle of the queue and polls
    /// its task in a fresh context bound to the task's waker. If the poll
    /// ends ready the task is gone; if it ends pending the task stays, and it
    /// is queued again only if the poll woke it. A handle of a task that is
    /// ready already is passed over. With an empty queue nothing changes, and
    /// the outcome says whether the queue can still be filled.
    pub fn step(&mut self) -> (step: Step)
        requires
            old(self).wf(),
        ensures
            final(self).wf(),
            old(self)@.steps_to(final(self)@, step),
            final(self)@.slots.len() == old(self)@.slots.len(),
            timers_extend(old(self)@.timers, final(self)@.timers),
            forall|t: usize| !old(self)@.live(t) ==> !#[trigger] final(self)@.live(t),
            step !is Blocked && step !is Terminated ==> final(self)@.work() < old(self)@.work(),
            old(self)@.all_runnable() ==> final(self)@.all_runnable(),
    {
        let ghost pre = self@;
        match self.queue.pop_front() {
            None => {
                assert(self@ == pre);
                if self.spawners > 0 || self.awaits_timer() {
                    Step::Blocked
                } else {
                    Step::Terminated
                }
            },
            Some(task) => {
                assert(self.queue@ == pre.queue.drop_first());
                match self.slots[task].take() {
                    None => {
                        proof {
                            let cx = pre.context(task);
                            assert(self.slots@ =~= pre.slots);
                            assert(pre.slots.update(task as int, None) =~= pre.slots);
                            assert(self@ == pre.after_poll(task, None, cx));
                            lemma_poll_leaves_less_work(pre, None, cx);
                            if pre.all_runnable() {
                                lemma_poll_keeps_runnable(pre, None, cx);
                            }
                        }
                        Step::Skipped(task)
                    },
                    Some(computation) => {
                        let mut computation = computation;
                        let ghost before = computation;
                        let mut timers = Timers::new();
                        core::mem::swap(&mut self.timers, &mut timers);
                        let mut cx = Context::new(Waker::new(task), timers);
                        let ghost cx0 = cx@;
                        let out = computation.poll(&mut cx);
                        let ghost cx1 = cx@;
                        let ghost after = computation;
                        let (woken, timers) = cx.finish();
                        self.timers = timers;
                        if woken {
                            self.queue.push_back(task);
                        }
                        proof {
                            assert(cx0 == pre.context(task));
                            assert(before.polls_to(cx0, after, cx1, out));
                            assert forall|i: int| 0 <= i < cx1.timers.len() implies ((
                            #[trigger] cx1.timers[i]).waker matches Some(w) ==> w.task < pre.slots.len()) by {
                                if i < cx0.timers.len() {
                                    assert(pre.timers[i].waker matches Some(w) ==> w.task < pre.slots.len());
                                }
                            }
                        }
                        match out {
                            Poll::Ready(_) => {
                                proof {
                                    assert(self@.slots =~= pre.slots.update(task as int, None));
                                    assert(self@ == pre.after_poll(task, None, cx1));
                                    lemma_poll_leaves_less_work(pre, None, cx1);
                                    if pre.all_runnable() {
                                        lemma_poll_keeps_runnable(pre, None, cx1);
                                    }
                                }
                                Step::Completed(task)
                            },
                            Poll::Pending => {
                                self.slots[task] = Some(computation);
                                proof {
                                    assert(self@.slots =~= pre.slots.update(task as int, Some(after)));
                                    assert(self@ == pre.after_poll(task, Some(after), cx1));
                                    lemma_poll_leaves_less_work(pre, Some(after), cx1);
                                    if pre.all_runnable() {
                                        assert(pre.live(task));
                                        lemma_poll_keeps_runnable(pre, Some(after), cx1);
                                    }
                                }
                                Step::Pending(task)
                            },
                        }
                    },
                }
            },
        }
    }

    /// Runs the executor: takes turns of the run loop until the queue is
    /// empty. Returns `Terminated` if nothing can fill the queue any more,
    /// and `Blocked` if a spawner is left or a task waits for a timer; then
    /// the caller runs it again after the next spawn, wake or passing of
    /// time. If every task that is not ready yet is queued and gets ready
    /// without outside help, every task is ready at the end.
    pub fn run(&mut self) -> (state: RunState)
        requires
            old(self).wf(),
        ensures
            final(self).wf(),
            final(self)@.queue.len() == 0,
            state == (if final(self)@.is_open() {
                RunState::Blocked
            } else {
                RunState::Terminated
            }),
            exists|turns: nat| old(self)@.runs_to(final(self)@, turns) && turns <= old(self)@.work(),
            old(self)@.queue.len() == 0 ==> final(self)@ == old(self)@,
            final(self)@.spawners == old(self)@.spawners,
            final(self)@.clock == old(self)@.clock,
            final(self)@.slots.len() == old(self)@.slots.len(),
            timers_extend(old(self)@.timers, final(self)@.timers),
            forall|t: usize| !old(self)@.live(t) ==> !#[trigger] final(self)@.live(t),
            old(self)@.all_runnable() ==> final(self)@.all_done(),
            old(self)@.all_runnable() && old(self)@.spawners == 0 ==> state == RunState::Terminated,
    {
        let ghost pre = self@;
        let ghost mut turns: nat = 0;
        loop
            invariant
                self.wf(),
                pre == old(self)@,
                pre.runs_to(self@, turns),
                turns + self@.work() <= pre.work(),
                turns == 0 ==> self@ == pre,
                turns > 0 ==> pre.queue.len() > 0,
                self@.spawners == pre.spawners,
                self@.clock == pre.clock,
                self@.slots.len() == pre.slots.len(),
                timers_extend(pre.timers, self@.timers),
                forall|t: usize| !pre.live(t) ==> !#[trigger] self@.live(t),
                pre.all_runnable() ==> self@.all_runnable(),
            decreases self@.work(),
        {
            let ghost mid = self@;
            let step = self.step();
            match step {
                Step::Blocked => {
                    proof {
                        if mid.all_runnable() {
                            assert forall|t: usize| !#[trigger] mid.live(t) by {
                                if mid.live(t) {
                                    assert(mid.queue.contains(t));
                                }
                            }
                        }
                    }
                    return RunState::Blocked;
                },
                Step::Terminated => {
                    proof {
                        if mid.all_runnable() {
                            assert forall|t: usize| !#[trigger] mid.live(t) by {
                                if mid.live(t) {
                                    assert(mid.queue.contains(t));
                                }
                            }
                        }
                    }
                    return RunState::Terminated;
                },
                _ => {
                    proof {
                        assert(mid.steps_to(self@, step));
                        turns = turns + 1;
                        assert(pre.runs_to(self@, turns));
                        if turns == 1 {
                            assert(mid == pre);
                        }
                    }
                },
            }
        }
    }
}

} // verus!
