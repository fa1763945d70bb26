use std::time::{Duration, Instant};

use futures::future::{lazy, Future};
use stream_combinators::delay::{DelayFault, DelayState, DelayStream};
use stream_combinators::poll::Async;
use tokio_executor::park::ParkThread;
use tokio_timer::timer::Timer;

type Polled<T, E> = Result<Result<Async<Option<T>>, E>, DelayFault>;

/// One whole poll: the upstream result, then, when asked, the front timer's outcome.
fn whole_poll<F: Fn() -> Instant, T, E>(state: &mut DelayState<(), F, T, E>, upstream: Result<Async<Option<T>>, E>) -> Polled<T, E> {
    match state.poll(upstream) {
        Ok(Some(decided)) => Ok(decided),
        Ok(None) => {
            let fired = match state.front_timer().poll() {
                Ok(futures::Async::Ready(())) => Ok(Async::Ready(())),
                Ok(futures::Async::NotReady) => Ok(Async::NotReady),
                Err(e) => Err(e),
            };
            state.after_timer(fired)
        }
        Err(fault) => Err(fault),
    }
}

#[test]
fn delay_without_timer_holds_everything_back() {
    let mut state = ().delay::<_, u8, ()>(Duration::from_millis(0), Instant::now);
    assert_eq!(whole_poll(&mut state, Ok(Async::Ready(Some(1)))), Ok(Ok(Async::NotReady)));
    assert_eq!(whole_poll(&mut state, Ok(Async::Ready(Some(2)))), Ok(Ok(Async::NotReady)));
    assert_eq!(whole_poll(&mut state, Ok(Async::NotReady)), Ok(Ok(Async::NotReady)));
}

#[test]
fn delay_first_step_asks_for_the_timer_only_when_something_is_pending() {
    let mut state = ().delay::<_, u8, ()>(Duration::from_millis(5), Instant::now);
    assert_eq!(state.poll(Ok(Async::NotReady)), Ok(Some(Ok(Async::NotReady))));
    assert_eq!(state.poll(Ok(Async::Ready(Some(3)))), Ok(None));
    assert_eq!(state.poll(Ok(Async::NotReady)), Ok(None));
}

#[test]
fn delay_new_timer_is_set_for_now_plus_the_delay() {
    let before = Instant::now();
    let mut state = ().delay::<_, u8, ()>(Duration::from_secs(60), Instant::now);
    assert_eq!(state.poll(Ok(Async::Ready(Some(3)))), Ok(None));
    let after = Instant::now();
    let deadline = state.front_timer().deadline();
    assert!(deadline >= before + Duration::from_secs(60));
    assert!(deadline <= after + Duration::from_secs(60));
}

#[test]
fn delay_reports_unrepresentable_deadline() {
    let mut state = ().delay::<_, u8, ()>(Duration::new(u64::MAX, 0), Instant::now);
    assert_eq!(state.poll(Ok(Async::Ready(Some(1)))), Err(DelayFault::DeadlineOverflow));
    // nothing was queued
    assert_eq!(state.poll(Ok(Async::NotReady)), Ok(Some(Ok(Async::NotReady))));
}

#[test]
fn delay_nothing_pending_is_not_ready() {
    let mut state = ().delay::<_, u8, ()>(Duration::new(u64::MAX, 0), Instant::now);
    // "not ready" from upstream brings no entry, so no deadline is computed
    assert_eq!(whole_poll(&mut state, Ok(Async::NotReady)), Ok(Ok(Async::NotReady)));
}

#[test]
fn delay_hands_events_out_in_arrival_order_after_the_delay() {
    let mut timer = Timer::new(ParkThread::new());
    let handle = timer.handle();
    let mut enter = tokio_executor::enter().unwrap();
    tokio_timer::with_default(&handle, &mut enter, |_| {
        let mut state = ().delay::<_, u8, &str>(Duration::from_millis(20), Instant::now);
        let early: Vec<Polled<u8, &str>> = lazy(|| {
            let out = vec![
                whole_poll(&mut state, Ok(Async::Ready(Some(1)))),
                whole_poll(&mut state, Ok(Async::Ready(Some(2)))),
                whole_poll(&mut state, Err("bad")),
            ];
            Ok::<_, ()>(out)
        }).wait().unwrap();
        assert_eq!(early, vec![Ok(Ok(Async::NotReady)), Ok(Ok(Async::NotReady)), Ok(Ok(Async::NotReady))]);

        let start = Instant::now();
        while start.elapsed() < Duration::from_millis(200) {
            timer.turn(Some(Duration::from_millis(10))).unwrap();
        }

        let late: Vec<Polled<u8, &str>> = lazy(|| {
            let out = vec![
                whole_poll(&mut state, Ok(Async::NotReady)),
                whole_poll(&mut state, Ok(Async::NotReady)),
                whole_poll(&mut state, Ok(Async::NotReady)),
            ];
            Ok::<_, ()>(out)
        }).wait().unwrap();
        assert_eq!(late, vec![Ok(Ok(Async::Ready(Some(1)))), Ok(Ok(Async::Ready(Some(2)))), Ok(Err("bad"))]);
    });
}

#[test]
fn delay_after_timer_hands_out_front_by_outcome() {
    let mut state = ().delay::<_, u8, &str>(Duration::from_millis(0), Instant::now);
    // nothing pending: whatever the timer says, not ready
    assert_eq!(state.after_timer(Ok(Async::Ready(()))), Ok(Ok(Async::NotReady)));
    // queue 7, 8, an error, then the end
    assert_eq!(state.poll(Ok(Async::Ready(Some(7)))), Ok(None));
    assert_eq!(state.poll(Ok(Async::Ready(Some(8)))), Ok(None));
    assert_eq!(state.poll(Err("e")), Ok(None));
    assert_eq!(state.poll(Ok(Async::Ready(None))), Ok(None));
    // a timer that has not fired, or failed, hands nothing out
    assert_eq!(state.after_timer(Ok(Async::NotReady)), Ok(Ok(Async::NotReady)));
    assert_eq!(state.after_timer(Err(tokio_timer::Error::shutdown())), Ok(Ok(Async::NotReady)));
    // fired timers hand the entries out in arrival order
    assert_eq!(state.after_timer(Ok(Async::Ready(()))), Ok(Ok(Async::Ready(Some(7)))));
    assert_eq!(state.after_timer(Ok(Async::Ready(()))), Ok(Ok(Async::Ready(Some(8)))));
    assert_eq!(state.after_timer(Ok(Async::Ready(()))), Ok(Err("e")));
    // the error entry is spent: firing again is a fault
    assert_eq!(state.after_timer(Ok(Async::Ready(()))), Err(DelayFault::SpentEntry));
}

#[test]
fn delay_end_of_stream_is_handed_out_then_spent() {
    let mut state = ().delay::<_, u8, ()>(Duration::from_millis(0), Instant::now);
    assert_eq!(state.poll(Ok(Async::Ready(None))), Ok(None));
    assert_eq!(state.after_timer(Ok(Async::Ready(()))), Ok(Ok(Async::Ready(None))));
    assert_eq!(state.after_timer(Ok(Async::NotReady)), Ok(Ok(Async::NotReady)));
    assert_eq!(state.after_timer(Ok(Async::Ready(()))), Err(DelayFault::SpentEntry));
}
