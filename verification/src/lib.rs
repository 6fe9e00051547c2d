//! A cooperative, single-threaded task executor with timer futures, stated
//! over plain values.
//!
//! The tasks live in an arena and are known by their handles; a waker is the
//! handle of the task that it re-schedules; the state that a timer future
//! shares with whatever measures its time lives in a table of timers. Nothing
//! here blocks, sleeps or starts a thread: that a timer's time has passed is
//! an event which the driver of the executor reports, and a run of the
//! executor that can go no further says so and returns.
//!
//! - `task`: the result of a poll, and the waker binding.
//! - `timers`: the table of timers and its clock.
//! - `context`: what a poll is given.
//! - `computation`: the interface through which the executor polls.
//! - `executor`: the arena of tasks, the ready queue, the spawner and the
//!   run loop.
//! - `timer_future`, `delay_future`, `yields`: computations that wait for a
//!   timer, for the machine's clock, and for nothing.
//! - `select`: races of two and of many computations, and tasks of one of
//!   two kinds.
//! - `racing`, `streams`: races of timers played through, and loops that
//!   select until every source is exhausted.
//! - `clock`: what is taken from `std::time`.

pub mod clock;
pub mod computation;
pub mod context;
pub mod delay_future;
pub mod executor;
pub mod racing;
pub mod select;
pub mod streams;
pub mod task;
pub mod timer_future;
pub mod timers;
pub mod yields;
