use async_book::executor::{new_executor_and_spawner, Executor, RunState, Spawner, Step};
use async_book::select::{Either, Race};
use async_book::task::Waker;
use async_book::timer_future::TimerFuture;
use async_book::yields::Yields;
use std::time::Duration;

const SECOND: u64 = 1_000_000_000;

#[test]
fn a_new_executor_is_blocked_until_its_spawner_is_closed() {
    let (mut executor, spawner): (Executor<Yields>, Spawner) = new_executor_and_spawner();
    assert_eq!(executor.task_count(), 0);
    assert_eq!(executor.queued(), 0);
    assert_eq!(executor.now(), 0);
    assert_eq!(executor.step(), Step::Blocked);
    assert_eq!(executor.run(), RunState::Blocked);
    spawner.close(&mut executor);
    assert_eq!(executor.step(), Step::Terminated);
    assert_eq!(executor.run(), RunState::Terminated);
}

#[test]
fn run_polls_every_task_that_drives_itself_to_completion() {
    let (mut executor, spawner) = new_executor_and_spawner();
    spawner.spawn(&mut executor, Yields::new(3));
    spawner.spawn(&mut executor, Yields::new(0));
    spawner.spawn(&mut executor, Yields::new(1));
    assert_eq!(executor.task_count(), 3);
    assert_eq!(executor.queued(), 3);
    spawner.close(&mut executor);
    assert_eq!(executor.run(), RunState::Terminated);
    assert_eq!(executor.queued(), 0);
    assert!(!executor.is_live(0));
    assert!(!executor.is_live(1));
    assert!(!executor.is_live(2));
    assert_eq!(executor.task_count(), 3);
}

#[test]
fn run_with_an_open_spawner_ends_blocked_with_every_task_done() {
    let (mut executor, spawner) = new_executor_and_spawner();
    spawner.spawn(&mut executor, Yields::new(2));
    assert_eq!(executor.run(), RunState::Blocked);
    assert!(!executor.is_live(0));
    spawner.spawn(&mut executor, Yields::new(2));
    assert!(executor.is_live(1));
    assert_eq!(executor.run(), RunState::Blocked);
    assert!(!executor.is_live(1));
    spawner.close(&mut executor);
    assert_eq!(executor.run(), RunState::Terminated);
}

#[test]
fn tasks_are_polled_in_the_order_in_which_they_were_queued() {
    let (mut executor, spawner) = new_executor_and_spawner();
    spawner.spawn(&mut executor, Yields::new(1));
    spawner.spawn(&mut executor, Yields::new(0));
    spawner.spawn(&mut executor, Yields::new(2));
    spawner.close(&mut executor);
    assert_eq!(executor.step(), Step::Pending(0));
    assert_eq!(executor.step(), Step::Completed(1));
    assert_eq!(executor.step(), Step::Pending(2));
    assert_eq!(executor.step(), Step::Completed(0));
    assert_eq!(executor.step(), Step::Pending(2));
    assert_eq!(executor.step(), Step::Completed(2));
    assert_eq!(executor.step(), Step::Terminated);
    assert_eq!(executor.step(), Step::Terminated);
}

#[test]
fn waking_a_task_that_is_done_is_harmless() {
    let (mut executor, spawner) = new_executor_and_spawner();
    spawner.spawn(&mut executor, Yields::new(0));
    spawner.close(&mut executor);
    assert_eq!(executor.run(), RunState::Terminated);
    assert!(!executor.is_live(0));

    executor.wake(Waker::new(0));
    executor.wake(Waker::new(0));
    assert_eq!(executor.queued(), 2);
    assert_eq!(executor.step(), Step::Skipped(0));
    assert_eq!(executor.step(), Step::Skipped(0));
    assert_eq!(executor.step(), Step::Terminated);
    assert!(!executor.is_live(0));
    assert_eq!(executor.task_count(), 1);
}

#[test]
fn waking_a_task_twice_polls_it_twice_at_most() {
    let (mut executor, spawner) = new_executor_and_spawner();
    spawner.spawn(&mut executor, TimerFuture::after_nanos(10));
    spawner.close(&mut executor);
    assert_eq!(executor.run(), RunState::Blocked);
    executor.advance_to(10);
    executor.wake(Waker::new(0));
    assert_eq!(executor.queued(), 2);
    assert_eq!(executor.step(), Step::Completed(0));
    assert_eq!(executor.step(), Step::Skipped(0));
    assert_eq!(executor.step(), Step::Terminated);
}

#[test]
fn a_waker_of_no_task_does_nothing() {
    let (mut executor, spawner): (Executor<Yields>, Spawner) = new_executor_and_spawner();
    executor.wake(Waker::new(0));
    executor.wake(Waker::new(5));
    assert_eq!(executor.queued(), 0);
    spawner.close(&mut executor);
    assert_eq!(executor.run(), RunState::Terminated);
}

#[test]
fn closing_every_spawner_with_an_empty_queue_ends_the_run_at_once() {
    let (mut executor, spawner): (Executor<TimerFuture>, Spawner) = new_executor_and_spawner();
    assert_eq!(executor.spawners(), 1);
    let second = spawner.duplicate(&mut executor);
    assert_eq!(executor.spawners(), 2);
    spawner.close(&mut executor);
    assert_eq!(executor.spawners(), 1);
    assert!(executor.is_open());
    assert_eq!(executor.run(), RunState::Blocked);
    second.close(&mut executor);
    assert_eq!(executor.spawners(), 0);
    assert!(!executor.is_open());
    assert_eq!(executor.run(), RunState::Terminated);
    assert_eq!(executor.task_count(), 0);
}

#[test]
fn an_orphaned_waker_that_fires_after_the_end_changes_nothing() {
    let (mut executor, spawner) = new_executor_and_spawner();
    spawner.spawn(&mut executor, Race::new(TimerFuture::after_nanos(50), TimerFuture::after_nanos(10)));
    spawner.close(&mut executor);
    assert_eq!(executor.run(), RunState::Blocked);
    executor.advance_to(10);
    assert_eq!(executor.run(), RunState::Terminated);
    assert!(!executor.is_live(0));

    executor.advance_to(50);
    assert_eq!(executor.queued(), 1);
    assert_eq!(executor.run(), RunState::Terminated);
    assert_eq!(executor.queued(), 0);
    assert!(!executor.is_live(0));
    assert_eq!(executor.next_deadline(), None);
}

#[test]
fn a_task_that_waits_for_a_timer_keeps_the_executor_blocked_until_the_timer_fires() {
    let (mut executor, spawner) = new_executor_and_spawner();
    spawner.spawn(&mut executor, TimerFuture::new(Duration::new(5, 0)));
    spawner.close(&mut executor);
    assert_eq!(executor.step(), Step::Pending(0));
    assert_eq!(executor.step(), Step::Blocked);
    assert_eq!(executor.run(), RunState::Blocked);
    assert_eq!(executor.next_deadline(), Some(5 * SECOND));

    executor.advance_to(5 * SECOND - 1);
    assert_eq!(executor.queued(), 0);
    assert_eq!(executor.run(), RunState::Blocked);
    assert!(executor.is_live(0));
    assert!(executor.is_open());
    assert_eq!(executor.spawners(), 0);

    executor.advance_to(5 * SECOND);
    assert_eq!(executor.now(), 5 * SECOND);
    assert_eq!(executor.queued(), 1);
    assert_eq!(executor.step(), Step::Completed(0));
    assert_eq!(executor.step(), Step::Terminated);
    assert!(!executor.is_live(0));
}

#[test]
fn a_pending_task_that_nothing_will_wake_does_not_keep_the_executor_open() {
    let (mut executor, spawner) = new_executor_and_spawner();
    spawner.spawn(&mut executor, TimerFuture { wait: 1, timer: Some(3) });
    spawner.close(&mut executor);
    assert_eq!(executor.step(), Step::Pending(0));
    assert_eq!(executor.step(), Step::Terminated);
    assert!(executor.is_live(0));
    assert_eq!(executor.run(), RunState::Terminated);
}

#[test]
fn timers_wake_their_tasks_in_the_order_in_which_they_fire() {
    let (mut executor, spawner) = new_executor_and_spawner();
    spawner.spawn(&mut executor, TimerFuture::after_nanos(30));
    spawner.spawn(&mut executor, TimerFuture::after_nanos(10));
    spawner.spawn(&mut executor, TimerFuture::after_nanos(20));
    spawner.close(&mut executor);
    assert_eq!(executor.run(), RunState::Blocked);
    assert_eq!(executor.next_deadline(), Some(10));
    executor.advance_to(10);
    assert_eq!(executor.step(), Step::Completed(1));
    assert_eq!(executor.step(), Step::Blocked);
    assert_eq!(executor.next_deadline(), Some(20));
    executor.advance_to(20);
    assert_eq!(executor.step(), Step::Completed(2));
    executor.advance_to(30);
    assert_eq!(executor.step(), Step::Completed(0));
    assert_eq!(executor.step(), Step::Terminated);
}

#[test]
fn spawning_while_running_queues_the_new_task_last() {
    let (mut executor, spawner) = new_executor_and_spawner();
    spawner.spawn(&mut executor, Yields::new(1));
    assert_eq!(executor.step(), Step::Pending(0));
    spawner.spawn(&mut executor, Yields::new(0));
    assert_eq!(executor.step(), Step::Completed(0));
    assert_eq!(executor.step(), Step::Completed(1));
    assert_eq!(executor.step(), Step::Blocked);
    spawner.close(&mut executor);
    assert_eq!(executor.step(), Step::Terminated);
}

#[test]
fn a_cancelled_task_is_never_polled_again() {
    let (mut executor, spawner) = new_executor_and_spawner();
    spawner.spawn(&mut executor, TimerFuture::after_nanos(10));
    spawner.spawn(&mut executor, TimerFuture::after_nanos(20));
    spawner.close(&mut executor);
    assert_eq!(executor.run(), RunState::Blocked);

    let cancelled = executor.cancel(0);
    assert_eq!(cancelled, Some(TimerFuture { wait: 10, timer: Some(0) }));
    assert!(!executor.is_live(0));
    assert_eq!(executor.cancel(0), None);
    assert_eq!(executor.cancel(7), None);

    // Its timer fires all the same, and wakes a task that is gone.
    executor.advance_to(10);
    assert_eq!(executor.queued(), 1);
    assert_eq!(executor.step(), Step::Skipped(0));
    assert_eq!(executor.step(), Step::Blocked);
    executor.advance_to(20);
    assert_eq!(executor.step(), Step::Completed(1));
    assert_eq!(executor.step(), Step::Terminated);
}

#[test]
fn cancelling_the_last_task_that_waits_closes_the_queue() {
    let (mut executor, spawner) = new_executor_and_spawner();
    spawner.spawn(&mut executor, TimerFuture::after_nanos(10));
    spawner.close(&mut executor);
    assert_eq!(executor.run(), RunState::Blocked);
    assert!(executor.is_open());
    executor.cancel(0);
    assert!(!executor.is_open());
    assert_eq!(executor.run(), RunState::Terminated);
}

#[test]
fn a_task_that_is_cancelled_while_queued_is_passed_over() {
    let (mut executor, spawner) = new_executor_and_spawner();
    spawner.spawn(&mut executor, Yields::new(3));
    spawner.close(&mut executor);
    assert_eq!(executor.step(), Step::Pending(0));
    assert_eq!(executor.cancel(0), Some(Yields::new(2)));
    assert_eq!(executor.step(), Step::Skipped(0));
    assert_eq!(executor.step(), Step::Terminated);
}

#[test]
fn an_executor_of_either_takes_tasks_of_two_kinds() {
    let (mut executor, spawner) = new_executor_and_spawner();
    spawner.spawn(&mut executor, Either::First(Yields::new(1)));
    spawner.spawn(&mut executor, Either::Second(TimerFuture::after_nanos(10)));
    spawner.close(&mut executor);
    assert_eq!(executor.step(), Step::Pending(0));
    assert_eq!(executor.step(), Step::Pending(1));
    assert_eq!(executor.step(), Step::Completed(0));
    assert_eq!(executor.step(), Step::Blocked);
    executor.advance_to(10);
    assert_eq!(executor.step(), Step::Completed(1));
    assert_eq!(executor.run(), RunState::Terminated);
}
