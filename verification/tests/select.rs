use async_book::computation::Computation;
use async_book::context::Context;
use async_book::select::{Either, Race, SelectAll};
use async_book::task::{Poll, Waker};
use async_book::timer_future::TimerFuture;
use async_book::timers::Timers;
use async_book::yields::Yields;
use std::time::Duration;

const SECOND: u64 = 1_000_000_000;

#[test]
fn racing_a_timer_of_five_seconds_with_one_of_one_second_the_second_wins() {
    let task_1 = TimerFuture::new(Duration::new(5, 0));
    let task_2 = TimerFuture::new(Duration::new(1, 0));
    let mut race = Race::new(task_1, task_2);

    let mut cx = Context::new(Waker::new(0), Timers::new());
    assert_eq!(race.poll(&mut cx), Poll::Pending);
    let (woken, mut timers) = cx.finish();
    assert!(!woken);
    assert_eq!(timers.next_deadline(), Some(SECOND));

    assert_eq!(timers.advance_to(SECOND), vec![Waker::new(0)]);
    let mut cx = Context::new(Waker::new(0), timers);
    assert_eq!(race.poll(&mut cx), Poll::Ready(Either::Second(())));
    let (_, mut timers) = cx.finish();

    // The one that lost is still pending; when its time comes its timer
    // fires as if nothing had happened.
    assert_eq!(timers.next_deadline(), Some(5 * SECOND));
    assert_eq!(timers.advance_to(5 * SECOND), vec![Waker::new(0)]);
    let mut cx = Context::new(Waker::new(0), timers);
    assert_eq!(race.first.poll(&mut cx), Poll::Ready(()));
}

#[test]
fn the_first_wins_a_race_when_both_are_ready() {
    let mut race = Race::new(Yields::new(0), Yields::new(0));
    let mut cx = Context::new(Waker::new(0), Timers::new());
    assert_eq!(race.poll(&mut cx), Poll::Ready(Either::First(())));
    assert_eq!(race.second, Yields::new(0));
}

#[test]
fn a_race_does_not_poll_the_second_when_the_first_is_ready() {
    let mut race = Race::new(Yields::new(0), Yields::new(4));
    let mut cx = Context::new(Waker::new(0), Timers::new());
    assert_eq!(race.poll(&mut cx), Poll::Ready(Either::First(())));
    assert_eq!(race.second.left, 4);
    assert!(!cx.is_woken());
}

#[test]
fn a_race_polls_both_while_both_are_pending() {
    let mut race = Race::new(Yields::new(3), Yields::new(1));
    let mut cx = Context::new(Waker::new(0), Timers::new());
    assert_eq!(race.poll(&mut cx), Poll::Pending);
    assert!(cx.is_woken());
    assert_eq!(race.first.left, 2);
    assert_eq!(race.second.left, 0);
    assert_eq!(race.poll(&mut cx), Poll::Ready(Either::Second(())));
    assert_eq!(race.first.left, 1);
}

fn timers_of_seconds(seconds: &[u64]) -> Vec<TimerFuture> {
    let mut tasks = Vec::new();
    for s in seconds {
        tasks.push(TimerFuture::new(Duration::new(*s, 0)));
    }
    tasks
}

#[test]
fn of_five_timers_the_one_with_the_shortest_wait_is_ready_first() {
    let mut all = SelectAll::new(timers_of_seconds(&[5, 4, 1, 2, 3]));
    let mut cx = Context::new(Waker::new(0), Timers::new());
    assert_eq!(all.poll(&mut cx), Poll::Pending);
    let (_, mut timers) = cx.finish();
    assert_eq!(timers.len(), 5);
    assert_eq!(timers.next_deadline(), Some(SECOND));
    assert_eq!(timers.advance_to(SECOND), vec![Waker::new(0)]);

    let mut cx = Context::new(Waker::new(0), timers);
    match all.poll(&mut cx) {
        Poll::Ready((value, index, remaining)) => {
            assert_eq!(value, ());
            assert_eq!(index, 2);
            assert_eq!(remaining.len(), 4);
            let waits: Vec<u128> = remaining.iter().map(|t| t.wait).collect();
            assert_eq!(
                waits,
                vec![5 * SECOND as u128, 4 * SECOND as u128, 2 * SECOND as u128, 3 * SECOND as u128]
            );
            let armed: Vec<Option<usize>> = remaining.iter().map(|t| t.timer).collect();
            assert_eq!(armed, vec![Some(0), Some(1), Some(3), Some(4)]);
            let (_, timers) = cx.finish();
            let mut cx = Context::new(Waker::new(0), timers);
            for mut timer in remaining {
                assert_eq!(timer.poll(&mut cx), Poll::Pending);
            }
        }
        Poll::Pending => panic!("the timer of one second has fired"),
    }
    assert_eq!(all.items.len(), 0);
}

#[test]
fn select_all_stops_at_the_first_that_is_ready() {
    let mut all = SelectAll::new(vec![Yields::new(2), Yields::new(0), Yields::new(0), Yields::new(5)]);
    let mut cx = Context::new(Waker::new(0), Timers::new());
    match all.poll(&mut cx) {
        Poll::Ready((_, index, remaining)) => {
            assert_eq!(index, 1);
            assert_eq!(remaining, vec![Yields::new(1), Yields::new(0), Yields::new(5)]);
        }
        Poll::Pending => panic!("the second computation is ready"),
    }
    assert!(cx.is_woken());
}

#[test]
fn select_all_of_nothing_is_pending() {
    let mut all: SelectAll<Yields> = SelectAll::new(Vec::new());
    let mut cx = Context::new(Waker::new(0), Timers::new());
    assert_eq!(all.poll(&mut cx), Poll::Pending);
    assert!(!cx.is_woken());
}

#[test]
fn yields_is_pending_as_often_as_it_says() {
    let mut y = Yields::new(2);
    let mut cx = Context::new(Waker::new(0), Timers::new());
    assert_eq!(y.poll(&mut cx), Poll::Pending);
    assert!(cx.is_woken());
    assert_eq!(y.poll(&mut cx), Poll::Pending);
    assert_eq!(y.poll(&mut cx), Poll::Ready(()));
    assert_eq!(y.poll(&mut cx), Poll::Ready(()));
    assert_eq!(y.left, 0);
}

#[test]
fn either_polls_whichever_it_is() {
    let mut first: Either<Yields, Yields> = Either::First(Yields::new(1));
    let mut cx = Context::new(Waker::new(0), Timers::new());
    assert_eq!(first.poll(&mut cx), Poll::Pending);
    assert_eq!(first, Either::First(Yields::new(0)));
    assert_eq!(first.poll(&mut cx), Poll::Ready(Either::First(())));
    let mut second: Either<Yields, Yields> = Either::Second(Yields::new(0));
    assert_eq!(second.poll(&mut cx), Poll::Ready(Either::Second(())));
}
