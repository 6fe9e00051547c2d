use async_book::computation::Computation;
use async_book::context::Context;
use async_book::executor::{new_executor_and_spawner, RunState, Step};
use async_book::task::Poll;

/// A computation written outside the library: it arms a timer of ten
/// nanoseconds twice in a row, and is ready after the second has fired.
struct TwoNaps {
    naps: u8,
    timer: Option<usize>,
}

impl Computation for TwoNaps {
    type Output = u8;

    fn poll(&mut self, cx: &mut Context) -> Poll<u8> {
        loop {
            match self.timer {
                Some(id) if !cx.timer_fired(id) => {
                    cx.refresh_timer(id);
                    return Poll::Pending;
                }
                Some(_) => {
                    self.naps += 1;
                    self.timer = None;
                }
                None if self.naps == 2 => return Poll::Ready(self.naps),
                None => self.timer = Some(cx.start_timer(10)),
            }
        }
    }
}

#[test]
fn the_executor_polls_a_computation_that_it_does_not_know() {
    let (mut executor, spawner) = new_executor_and_spawner();
    spawner.spawn(&mut executor, TwoNaps { naps: 0, timer: None });
    spawner.close(&mut executor);
    assert_eq!(executor.run(), RunState::Blocked);
    assert_eq!(executor.next_deadline(), Some(10));
    executor.advance_to(10);
    assert_eq!(executor.step(), Step::Pending(0));
    assert_eq!(executor.next_deadline(), Some(20));
    executor.advance_to(15);
    assert_eq!(executor.run(), RunState::Blocked);
    executor.advance_to(20);
    assert_eq!(executor.step(), Step::Completed(0));
    assert_eq!(executor.run(), RunState::Terminated);
}
