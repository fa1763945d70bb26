use futures::Stream;
use stream_combinators::fork::{after_send, Fork, ForkReceiverDropped};
use stream_combinators::poll::Async;
use stream_combinators::value::Value;

#[test]
fn value_replaces_output_once_ready() {
    let mut state = ().value("constant");
    assert!(state.has_value());
    assert_eq!(state.poll::<u64, ()>(Ok(Async::NotReady)), Ok(Async::NotReady));
    assert!(state.has_value());
    assert_eq!(state.poll::<u64, ()>(Ok(Async::Ready(42))), Ok(Async::Ready("constant")));
    assert!(!state.has_value());
}

#[test]
fn value_passes_errors_through_and_keeps_value() {
    let mut state = ().value(7u8);
    assert_eq!(state.poll::<(), &str>(Err("late")), Err("late"));
    assert!(state.has_value());
    assert_eq!(state.poll::<(), &str>(Ok(Async::Ready(()))), Ok(Async::Ready(7)));
}

#[test]
fn fork_passes_items_and_sends_copies() {
    let (mut state, fork) = ().fork::<u8>();
    assert_eq!(state.poll::<()>(Ok(Async::Ready(Some(1)))), Ok(Ok(Async::Ready(Some(1)))));
    assert_eq!(state.poll::<()>(Ok(Async::NotReady)), Ok(Ok(Async::NotReady)));
    assert_eq!(state.poll::<()>(Ok(Async::Ready(Some(2)))), Ok(Ok(Async::Ready(Some(2)))));
    assert_eq!(state.poll::<()>(Err(())), Ok(Err(())));
    assert_eq!(state.poll::<()>(Ok(Async::Ready(Some(3)))), Ok(Ok(Async::Ready(Some(3)))));
    assert_eq!(state.poll::<()>(Ok(Async::Ready(None))), Ok(Ok(Async::Ready(None))));
    drop(state);
    let copies: Vec<u8> = fork.wait().map(|r| r.unwrap()).collect();
    assert_eq!(copies, vec![1, 2, 3]);
}

#[test]
fn fork_reports_dropped_receiver() {
    let (mut state, fork) = ().fork::<u8>();
    drop(fork);
    assert_eq!(state.poll::<()>(Ok(Async::Ready(Some(1)))), Err(ForkReceiverDropped));
    // events that carry no item send nothing and still pass through
    assert_eq!(state.poll::<()>(Ok(Async::NotReady)), Ok(Ok(Async::NotReady)));
}

#[test]
fn fork_after_send_by_outcome() {
    assert_eq!(after_send::<u8, ()>(5, Ok(())), Ok(Ok(Async::Ready(Some(5)))));
    assert_eq!(after_send::<u8, ()>(5, Err(5)), Err(ForkReceiverDropped));
}

#[test]
fn fork_test() {
    let (mut original, fork) = ().fork::<u8>();
    let mut c1: Vec<u8> = Vec::new();
    for v in vec![1u8, 2, 3] {
        match original.poll::<()>(Ok(Async::Ready(Some(v)))) {
            Ok(Ok(Async::Ready(Some(a)))) => c1.push(a * 2),
            _ => panic!("items pass through"),
        }
    }
    assert_eq!(original.poll::<()>(Ok(Async::Ready(None))), Ok(Ok(Async::Ready(None))));
    drop(original);
    let c2: Vec<u8> = fork.wait().map(|r| r.unwrap() * 3).collect();
    assert_eq!(c1, vec![2, 4, 6]);
    assert_eq!(c2, vec![3, 6, 9]);
}
