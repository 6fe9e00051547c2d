//! The timers that timer futures wait on.
//!
//! A timer is the state that a timer future shares with whatever measures the
//! time for it: when it was armed, how long it waits, whether it has fired,
//! and the waker that was stored last. The timers live in a table and are
//! known by their index. Time is a count of nanoseconds on a clock that never
//! runs backwards; the table learns of its passing through `advance_to`, and
//! that is the only way for a timer to fire.

use crate::task::Waker;
use vstd::prelude::*;

verus! {

/// The state of one timer.
#[derive(Debug, Clone, Copy, PartialEq, Eq)]
pub struct TimerState {
    /// The reading of the clock when the timer was armed.
    pub armed_at: u64,
    /// The nanoseconds that must pass after `armed_at` before it fires.
    pub wait: u128,
    /// Whether it has fired.
    pub fired: bool,
    /// The waker stored last; it is taken when the timer fires.
    pub waker: Option<Waker>,
}

impl TimerState {
    /// A timer armed at `armed_at` that waits `wait` nanoseconds and will
    /// invoke `waker`.
    pub open spec fn armed(armed_at: u64, wait: u128, waker: Waker) -> TimerState {
        TimerState { armed_at, wait, fired: false, waker: Some(waker) }
    }

    /// Whether the whole wait has passed when the clock reads `now`.
    pub open spec fn due(self, now: u64) -> bool {
        self.armed_at + self.wait <= now
    }

    /// Whether the timer fires when the clock comes to read `now`.
    pub open spec fn fires(self, now: u64) -> bool {
        !self.fired && self.due(now)
    }

    /// The timer once the clock has come to read `now`.
    pub open spec fn at(self, now: u64) -> TimerState {
        if self.fires(now) {
            TimerState { fired: true, waker: None, ..self }
        } else {
            self
        }
    }

    /// The timer with `waker` stored in place of the one before; a timer that
    /// has fired stores none.
    pub open spec fn with_waker(self, waker: Waker) -> TimerState {
        if self.fired {
            self
        } else {
            TimerState { waker: Some(waker), ..self }
        }
    }

    /// What holds of every timer in a table whose clock reads `clock`: it was
    /// not armed in the future, it has fired only if its wait has passed, and
    /// it holds a waker exactly as long as it has not fired.
    pub open spec fn consistent(self, clock: u64) -> bool {
        &&& self.armed_at <= clock
        &&& self.fired ==> self.due(clock)
        &&& self.fired <==> self.waker is None
    }
}

/// The timers of `timers` once the clock has come to read `now`.
pub open spec fn timers_at(timers: Seq<TimerState>, now: u64) -> Seq<TimerState> {
    Seq::new(timers.len(), |i: int| timers[i].at(now))
}

/// The wakers that the timers of `timers` invoke when the clock comes to read
/// `now`, in the order of their indices.
pub open spec fn fired_wakers(timers: Seq<TimerState>, now: u64) -> Seq<Waker>
    decreases timers.len(),
{
    if timers.len() == 0 {
        Seq::empty()
    } else {
        let before = fired_wakers(timers.drop_last(), now);
        let last = timers.last();
        if last.fires(now) && last.waker is Some {
            before.push(last.waker->0)
        } else {
            before
        }
    }
}

/// Whether `d` is the earliest reading of the clock at which a timer of
/// `timers` that has not fired yet becomes due.
pub open spec fn is_next_deadline(timers: Seq<TimerState>, d: u64) -> bool {
    &&& exists|i: int|
        0 <= i < timers.len() && !timers[i].fired && #[trigger] timers[i].armed_at
            + timers[i].wait == d
    &&& forall|i: int|
        0 <= i < timers.len() && !timers[i].fired ==> d <= #[trigger] timers[i].armed_at
            + timers[i].wait
}

/// Whether no timer of `timers` that has not fired yet can become due on a
/// clock that counts in `u64`.
pub open spec fn no_deadline(timers: Seq<TimerState>) -> bool {
    forall|i: int|
        0 <= i < timers.len() && !timers[i].fired ==> #[trigger] timers[i].armed_at
            + timers[i].wait > u64::MAX
}

/// Whether `post` can be what polls have made of the timers `pre`: no timer
/// is lost, none has fired or changed its wait, and the new ones have not
/// fired.
pub open spec fn timers_extend(pre: Seq<TimerState>, post: Seq<TimerState>) -> bool {
    &&& pre.len() <= post.len()
    &&& forall|i: int|
        0 <= i < pre.len() ==> {
            &&& (#[trigger] post[i]).armed_at == pre[i].armed_at
            &&& post[i].wait == pre[i].wait
            &&& post[i].fired == pre[i].fired
        }
    &&& forall|i: int| pre.len() <= i < post.len() ==> !(#[trigger] post[i]).fired
}

/// A timer has fired once the clock reads `now` exactly if it had fired
/// before or its whole wait has passed by then. So it never fires early,
/// always fires in time, and once fired it stays fired.
pub proof fn lemma_fired_exactly_when_due(timers: Seq<TimerState>, id: int, now: u64)
    requires
        0 <= id < timers.len(),
    ensures
        timers_at(timers, now)[id].fired <==> timers[id].fired || timers[id].armed_at + timers[id].wait
            <= now,
        timers_at(timers, now)[id].armed_at == timers[id].armed_at,
        timers_at(timers, now)[id].wait == timers[id].wait,
{
}

/// A timer that has fired stays fired, whatever polls do to the timers.
pub proof fn lemma_fired_stays_fired(pre: Seq<TimerState>, post: Seq<TimerState>, id: int)
    requires
        timers_extend(pre, post),
        0 <= id < pre.len(),
        pre[id].fired,
    ensures
        id < post.len(),
        post[id].fired,
{
}

/// The table of timers, with the clock by which they fire.
pub struct Timers {
    clock: u64,
    entries: Vec<TimerState>,
}

impl View for Timers {
    type V = Seq<TimerState>;

    closed spec fn view(&self) -> Seq<TimerState> {
        self.entries@
    }
}

impl Timers {
    /// The latest reading of the clock that the table has been told of.
    pub closed spec fn clock(&self) -> u64 {
        self.clock
    }

    /// Every timer of the table is consistent with its clock. Every table
    /// that this module hands out is well formed, and stays so.
    pub closed spec fn wf(self) -> bool {
        forall|i: int| 0 <= i < self.entries@.len() ==> (#[trigger] self.entries@[i]).consistent(self.clock)
    }

    /// A timer that has fired was due: no timer is seen to have fired before
    /// its whole wait has passed.
    pub proof fn lemma_fired_is_due(self, id: int)
        requires
            self.wf(),
            0 <= id < self@.len(),
        ensures
            self@[id].consistent(self.clock()),
            self@[id].fired ==> self@[id].armed_at + self@[id].wait <= self.clock(),
    {
    }

    /// The indices of the timers fit in `usize`.
    pub proof fn lemma_len_fits(self)
        ensures
            self@.len() <= usize::MAX,
    {
        assert(self.entries@.len() == self.entries.len());
    }

    /// An empty table whose clock reads 0.
    pub fn new() -> (t: Timers)
        ensures
            t.wf(),
            t@ == Seq::<TimerState>::empty(),
            t.clock() == 0,
    {
        Timers { clock: 0, entries: Vec::new() }
    }

    /// The latest reading of the clock that the table has been told of.
    pub fn now(&self) -> (now: u64)
        ensures
            now == self.clock(),
    {
        self.clock
    }

    /// The number of timers armed so far.
    pub fn len(&self) -> (n: usize)
        ensures
            n == self@.len(),
    {
        self.entries.len()
    }

    /// Arms a new timer that waits `wait` nanoseconds from now and will invoke
    /// `waker`. Returns its index.
    pub fn start(&mut self, wait: u128, waker: Waker) -> (id: usize)
        requires
            old(self).wf(),
        ensures
            final(self).wf(),
            id == old(self)@.len(),
            final(self)@ == old(self)@.push(TimerState::armed(old(self).clock(), wait, waker)),
            final(self).clock() == old(self).clock(),
    {
        let id = self.entries.len();
        self.entries.push(TimerState { armed_at: self.clock, wait, fired: false, waker: Some(waker) });
        id
    }

    /// Whether the timer `id` has fired. An index that names no timer has
    /// not.
    pub fn is_fired(&self, id: usize) -> (b: bool)
        ensures
            b == (id < self@.len() && self@[id as int].fired),
    {
        id < self.entries.len() && self.entries[id].fired
    }

    /// The waker that the timer `id` holds: the one stored last, if the timer
    /// has not fired. An index that names no timer holds none.
    pub fn waker_of(&self, id: usize) -> (w: Option<Waker>)
        ensures
            w == (if id < self@.len() {
                self@[id as int].waker
            } else {
                None
            }),
    {
        if id < self.entries.len() {
            self.entries[id].waker
        } else {
            None
        }
    }

    /// Stores `waker` in the timer `id` in place of the one stored before, so
    /// that the timer invokes the latest. Nothing changes if the timer has
    /// fired or `id` names none.
    pub fn set_waker(&mut self, id: usize, waker: Waker)
        requires
            old(self).wf(),
        ensures
            final(self).wf(),
            final(self).clock() == old(self).clock(),
            id < old(self)@.len() ==> final(self)@ == old(self)@.update(
                id as int,
                old(self)@[id as int].with_waker(waker),
            ),
            id >= old(self)@.len() ==> final(self)@ == old(self)@,
    {
        if id < self.entries.len() {
            let entry = self.entries[id];
            if !entry.fired {
                self.entries.set(
                    id,
                    TimerState {
                        armed_at: entry.armed_at,
                        wait: entry.wait,
                        fired: false,
                        waker: Some(waker),
                    },
                );
            }
            assert(self.entries@ =~= old(self).entries@.update(
                id as int,
                old(self).entries@[id as int].with_waker(waker),
            ));
        }
    }

    /// Tells the table that the clock reads `now`. A reading earlier than the
    /// latest is taken for the latest. Every timer that has become due fires:
    /// it is marked as fired and gives up its waker. Returns those wakers in
    /// the order of their timers' indices, for the caller to invoke.
    pub fn advance_to(&mut self, now: u64) -> (wakers: Vec<Waker>)
        requires
            old(self).wf(),
        ensures
            final(self).wf(),
            final(self).clock() == (if now > old(self).clock() {
                now
            } else {
                old(self).clock()
            }),
            final(self)@ == timers_at(old(self)@, final(self).clock()),
            wakers@ == fired_wakers(old(self)@, final(self).clock()),
    {
        let clock = if now > self.clock {
            now
        } else {
            self.clock
        };
        let mut entries: Vec<TimerState> = Vec::new();
        let mut wakers: Vec<Waker> = Vec::new();
        let n = self.entries.len();
        let mut i: usize = 0;
        while i < n
            invariant
                i <= n,
                n == self.entries@.len(),
                self.clock <= clock,
                *self == *old(self),
                forall|k: int|
                    0 <= k < n ==> (#[trigger] self.entries@[k]).consistent(self.clock),
                entries@ == timers_at(self.entries@.take(i as int), clock),
                wakers@ == fired_wakers(self.entries@.take(i as int), clock),
                forall|k: int| 0 <= k < i ==> (#[trigger] entries@[k]).consistent(clock),
            decreases n - i,
        {
            let entry = self.entries[i];
            let ghost before = self.entries@.take(i as int);
            let ghost upto = self.entries@.take(i as int + 1);
            assert(upto.drop_last() =~= before);
            assert(upto.last() == entry);
            assert(entry.consistent(self.clock));
            if !entry.fired && (clock - entry.armed_at) as u128 >= entry.wait {
                match entry.waker {
                    Some(w) => {
                        wakers.push(w);
                    },
                    None => {},
                }
                entries.push(
                    TimerState { armed_at: entry.armed_at, wait: entry.wait, fired: true, waker: None },
                );
            } else {
                entries.push(entry);
            }
            assert(entries@ =~= timers_at(upto, clock));
            i += 1;
        }
        assert(self.entries@.take(n as int) =~= self.entries@);
        self.clock = clock;
        self.entries = entries;
        wakers
    }

    /// The earliest reading of the clock at which a timer that has not fired
    /// yet becomes due, or `None` if there is no such reading.
    pub fn next_deadline(&self) -> (next: Option<u64>)
        ensures
            match next {
                Some(d) => is_next_deadline(self@, d),
                None => no_deadline(self@),
            },
    {
        let mut next: Option<u64> = None;
        let n = self.entries.len();
        let mut i: usize = 0;
        while i < n
            invariant
                i <= n,
                n == self.entries@.len(),
                match next {
                    Some(d) => is_next_deadline(self.entries@.take(i as int), d),
                    None => no_deadline(self.entries@.take(i as int)),
                },
            decreases n - i,
        {
            let entry = self.entries[i];
            let ghost before = self.entries@.take(i as int);
            let ghost upto = self.entries@.take(i as int + 1);
            assert(forall|k: int| 0 <= k < i ==> upto[k] == before[k]);
            assert(upto[i as int] == entry);
            if !entry.fired && entry.wait <= (u64::MAX - entry.armed_at) as u128 {
                let deadline: u64 = entry.armed_at + entry.wait as u64;
                match next {
                    Some(d) => {
                        if deadline < d {
                            next = Some(deadline);
                        } else {
                            let ghost w = choose|k: int|
                                0 <= k < before.len() && !before[k].fired && #[trigger] before[k].armed_at
                                    + before[k].wait == d;
                            assert(upto[w].armed_at + upto[w].wait == d);
                        }
                    },
                    None => {
                        next = Some(deadline);
                    },
                }
                assert(upto[i as int].armed_at + upto[i as int].wait == deadline);
            } else {
                match next {
                    Some(d) => {
                        let ghost w = choose|k: int|
                            0 <= k < before.len() && !before[k].fired && #[trigger] before[k].armed_at
                                + before[k].wait == d;
                        assert(upto[w].armed_at + upto[w].wait == d);
                    },
                    None => {},
                }
            }
            i += 1;
        }
        assert(self.entries@.take(n as int) =~= self.entries@);
        next
    }
}

} // verus!
