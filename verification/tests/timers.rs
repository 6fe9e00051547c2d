use async_book::context::Context;
use async_book::task::{Poll, Waker};
use async_book::computation::Computation;
use async_book::timer_future::TimerFuture;
use async_book::timers::{TimerState, Timers};
use std::time::Duration;

const SECOND: u64 = 1_000_000_000;

#[test]
fn a_new_table_is_empty_at_time_zero() {
    let timers = Timers::new();
    assert_eq!(timers.len(), 0);
    assert_eq!(timers.now(), 0);
    assert_eq!(timers.next_deadline(), None);
    assert!(!timers.is_fired(0));
    assert_eq!(timers.waker_of(0), None);
}

#[test]
fn timers_fire_when_due_and_not_before() {
    let mut timers = Timers::new();
    assert_eq!(timers.start(5 * SECOND as u128, Waker::new(7)), 0);
    assert_eq!(timers.start(SECOND as u128, Waker::new(8)), 1);
    assert_eq!(timers.next_deadline(), Some(SECOND));

    assert_eq!(timers.advance_to(SECOND - 1), vec![]);
    assert!(!timers.is_fired(0));
    assert!(!timers.is_fired(1));

    assert_eq!(timers.advance_to(SECOND), vec![Waker::new(8)]);
    assert!(!timers.is_fired(0));
    assert!(timers.is_fired(1));
    assert_eq!(timers.waker_of(1), None);
    assert_eq!(timers.next_deadline(), Some(5 * SECOND));

    assert_eq!(timers.advance_to(5 * SECOND), vec![Waker::new(7)]);
    assert!(timers.is_fired(0));
    assert_eq!(timers.next_deadline(), None);
}

#[test]
fn a_timer_fires_once() {
    let mut timers = Timers::new();
    timers.start(10, Waker::new(1));
    assert_eq!(timers.advance_to(10), vec![Waker::new(1)]);
    assert_eq!(timers.advance_to(11), vec![]);
    assert_eq!(timers.advance_to(u64::MAX), vec![]);
    assert!(timers.is_fired(0));
}

#[test]
fn a_timer_wakes_the_waker_stored_last() {
    let mut timers = Timers::new();
    let id = timers.start(10, Waker::new(1));
    timers.set_waker(id, Waker::new(2));
    assert_eq!(timers.waker_of(id), Some(Waker::new(2)));
    assert_eq!(timers.advance_to(10), vec![Waker::new(2)]);
    timers.set_waker(id, Waker::new(3));
    assert_eq!(timers.waker_of(id), None);
    timers.set_waker(99, Waker::new(3));
    assert_eq!(timers.len(), 1);
}

#[test]
fn timers_that_are_due_together_fire_in_the_order_of_their_indices() {
    let mut timers = Timers::new();
    timers.start(30, Waker::new(0));
    timers.start(10, Waker::new(1));
    timers.start(20, Waker::new(2));
    timers.start(40, Waker::new(3));
    assert_eq!(timers.advance_to(30), vec![Waker::new(0), Waker::new(1), Waker::new(2)]);
    assert_eq!(timers.next_deadline(), Some(40));
}

#[test]
fn the_clock_never_runs_backwards() {
    let mut timers = Timers::new();
    timers.advance_to(100);
    assert_eq!(timers.now(), 100);
    timers.advance_to(50);
    assert_eq!(timers.now(), 100);
    let id = timers.start(10, Waker::new(0));
    assert_eq!(timers.next_deadline(), Some(110));
    assert_eq!(timers.advance_to(109), vec![]);
    assert!(!timers.is_fired(id));
    assert_eq!(timers.advance_to(110), vec![Waker::new(0)]);
}

#[test]
fn a_wait_beyond_the_clock_has_no_deadline() {
    let mut timers = Timers::new();
    timers.advance_to(1);
    timers.start(u64::MAX as u128, Waker::new(0));
    assert_eq!(timers.next_deadline(), None);
    assert_eq!(timers.advance_to(u64::MAX), vec![]);
    timers.start(u128::MAX, Waker::new(0));
    assert_eq!(timers.next_deadline(), None);
    let mut timers = Timers::new();
    timers.start(u64::MAX as u128, Waker::new(0));
    assert_eq!(timers.next_deadline(), Some(u64::MAX));
    assert_eq!(timers.advance_to(u64::MAX), vec![Waker::new(0)]);
}

#[test]
fn timer_state_is_a_plain_value() {
    let state = TimerState { armed_at: 1, wait: 2, fired: false, waker: Some(Waker::new(3)) };
    assert_eq!(state, state.clone());
    assert_eq!(state.waker.unwrap().task(), 3);
}

#[test]
fn timer_future_holds_its_duration_in_nanoseconds() {
    let timer = TimerFuture::new(Duration::new(5, 0));
    assert_eq!(timer.wait, 5_000_000_000);
    assert_eq!(timer.timer, None);
    let timer = TimerFuture::new(Duration::new(2, 7));
    assert_eq!(timer.wait, 2_000_000_007);
    let timer = TimerFuture::after_nanos(12);
    assert_eq!(timer.wait, 12);
    assert_eq!(timer.timer, None);
}

#[test]
fn timer_future_arms_its_timer_on_the_first_poll() {
    let mut timers = Timers::new();
    timers.advance_to(100);
    let mut timer = TimerFuture::new(Duration::new(2, 0));
    let mut cx = Context::new(Waker::new(4), timers);
    assert_eq!(timer.poll(&mut cx), Poll::Pending);
    assert_eq!(timer.timer, Some(0));
    let (woken, timers) = cx.finish();
    assert!(!woken);
    assert_eq!(timers.len(), 1);
    assert_eq!(timers.waker_of(0), Some(Waker::new(4)));
    assert_eq!(timers.next_deadline(), Some(100 + 2 * SECOND));
}

#[test]
fn timer_future_is_pending_until_its_timer_fires_and_ready_ever_after() {
    let mut timer = TimerFuture::new(Duration::new(2, 0));
    let mut cx = Context::new(Waker::new(4), Timers::new());
    assert_eq!(timer.poll(&mut cx), Poll::Pending);
    assert_eq!(timer.poll(&mut cx), Poll::Pending);
    let (_, mut timers) = cx.finish();
    assert_eq!(timers.len(), 1);

    assert_eq!(timers.advance_to(2 * SECOND - 1), vec![]);
    let mut cx = Context::new(Waker::new(4), timers);
    assert_eq!(timer.poll(&mut cx), Poll::Pending);
    let (_, mut timers) = cx.finish();

    assert_eq!(timers.advance_to(2 * SECOND), vec![Waker::new(4)]);
    let mut cx = Context::new(Waker::new(4), timers);
    assert_eq!(timer.poll(&mut cx), Poll::Ready(()));
    assert_eq!(timer.poll(&mut cx), Poll::Ready(()));
    let (woken, mut timers) = cx.finish();
    assert!(!woken);
    assert_eq!(timers.len(), 1);

    assert_eq!(timers.advance_to(u64::MAX), vec![]);
    let mut cx = Context::new(Waker::new(4), timers);
    assert_eq!(timer.poll(&mut cx), Poll::Ready(()));
}

#[test]
fn timer_future_leaves_the_waker_of_the_task_that_polled_last() {
    let mut timer = TimerFuture::after_nanos(50);
    let mut cx = Context::new(Waker::new(1), Timers::new());
    assert_eq!(timer.poll(&mut cx), Poll::Pending);
    let (_, timers) = cx.finish();
    let mut cx = Context::new(Waker::new(2), timers);
    assert_eq!(timer.poll(&mut cx), Poll::Pending);
    let (_, mut timers) = cx.finish();
    assert_eq!(timers.len(), 1);
    assert_eq!(timers.advance_to(50), vec![Waker::new(2)]);
}

#[test]
fn timer_future_with_a_timer_that_is_not_there_is_pending() {
    let mut timer = TimerFuture { wait: 5, timer: Some(9) };
    let mut cx = Context::new(Waker::new(1), Timers::new());
    assert_eq!(timer.poll(&mut cx), Poll::Pending);
    let (woken, timers) = cx.finish();
    assert!(!woken);
    assert_eq!(timers.len(), 0);
}

#[test]
fn context_binds_the_waker_and_the_timers() {
    let mut timers = Timers::new();
    timers.advance_to(5);
    let mut cx = Context::new(Waker::new(6), timers);
    assert_eq!(cx.waker(), Waker::new(6));
    assert_eq!(cx.now(), 5);
    assert!(!cx.is_woken());
    assert_eq!(cx.start_timer(10), 0);
    assert!(!cx.timer_fired(0));
    assert!(!cx.timer_fired(1));
    cx.refresh_timer(0);
    cx.refresh_timer(1);
    cx.wake_by_ref();
    cx.wake_by_ref();
    assert!(cx.is_woken());
    let (woken, timers) = cx.finish();
    assert!(woken);
    assert_eq!(timers.len(), 1);
    assert_eq!(timers.waker_of(0), Some(Waker::new(6)));
}

#[test]
fn poll_says_what_it_is() {
    assert!(Poll::Ready(1).is_ready());
    assert!(!Poll::Ready(1).is_pending());
    assert!(Poll::<u8>::Pending.is_pending());
    assert!(!Poll::<u8>::Pending.is_ready());
}
