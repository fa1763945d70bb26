use stream_combinators::combine_latest::CombineLatest;
use stream_combinators::poll::Async;
use stream_combinators::with_latest_from::WithLatestFrom;

type Polled<T> = Result<Async<Option<T>>, ()>;

fn item<T>(v: T) -> Polled<T> {
    Ok(Async::Ready(Some(v)))
}

fn pending<T>() -> Polled<T> {
    Ok(Async::NotReady)
}

fn ended<T>() -> Polled<T> {
    Ok(Async::Ready(None))
}

#[test]
fn with_latest_from() {
    // the order in which the two channels deliver: 1 on the first, 2 and 3 on the
    // second, 4, 5, 6 on the first, 7 on the second, then both close
    let events: Vec<(Polled<u32>, Polled<u32>)> = vec![
        (item(1), pending()),
        (pending(), item(2)),
        (pending(), item(3)),
        (item(4), pending()),
        (item(5), pending()),
        (item(6), pending()),
        (pending(), item(7)),
        (ended(), ended()),
    ];
    let mut state = ().with_latest_from::<(), u32, u32>(());
    let mut r: Vec<(u32, u32)> = Vec::new();
    let mut finished = false;
    for (e1, e2) in events {
        assert_eq!(state.poll_first(e1), Ok(()));
        match state.poll_second(e2) {
            Ok(Async::Ready(Some(pair))) => r.push(pair),
            Ok(Async::Ready(None)) => finished = true,
            Ok(Async::NotReady) => {}
            Err(()) => panic!("no error expected"),
        }
    }
    let c = vec![(1, 2), (4, 3), (5, 3), (6, 3)];
    assert_eq!(c, r);
    assert!(finished);
}

#[test]
fn with_latest_from_newer_first_item_replaces_waiting_one() {
    let mut state = ().with_latest_from::<(), char, u8>(());
    assert_eq!(state.poll_first::<()>(item('a')), Ok(()));
    assert_eq!(state.poll_second(pending()), Ok(Async::NotReady));
    assert_eq!(state.poll_first::<()>(item('b')), Ok(()));
    assert_eq!(state.poll_second(item(9)), Ok(Async::Ready(Some(('b', 9)))));
    // nothing waits any more
    assert_eq!(state.poll_first::<()>(pending()), Ok(()));
    assert_eq!(state.poll_second(item(10)), Ok(Async::NotReady));
}

#[test]
fn with_latest_from_errors_pass_through() {
    let mut state = ().with_latest_from::<(), u8, u8>(());
    assert_eq!(state.poll_first::<&str>(Err("first")), Err("first"));
    assert_eq!(state.poll_first::<&str>(Ok(Async::NotReady)), Ok(()));
    assert_eq!(state.poll_second::<&str>(Err("second")), Err("second"));
}

#[test]
fn with_latest_from_ends_only_when_both_end() {
    let mut state = ().with_latest_from::<(), u8, u8>(());
    assert_eq!(state.poll_first::<()>(ended()), Ok(()));
    assert_eq!(state.poll_second(pending()), Ok(Async::NotReady));
    assert_eq!(state.poll_first::<()>(ended()), Ok(()));
    assert_eq!(state.poll_second(ended()), Ok(Async::Ready(None)));
}

#[test]
fn combine_latest() {
    // two sources that are always ready: 1 3 5 6 7 9 and 2 4 8
    let v1: Vec<u8> = vec![1, 3, 5, 6, 7, 9];
    let v2: Vec<u8> = vec![2, 4, 8];
    let mut state = ().combine_latest::<(), u8, u8>(());
    let mut r: Vec<(u8, u8)> = Vec::new();
    let mut i1 = v1.into_iter();
    let mut i2 = v2.into_iter();
    let mut finished = false;
    let mut d1 = false;
    let mut d2 = false;
    for _ in 0..20 {
        // a fused source is not polled once it has ended
        let e1: Polled<u8> = if d1 { ended() } else {
            match i1.next() { Some(v) => item(v), None => { d1 = true; ended() } }
        };
        let e2: Polled<u8> = if d2 { ended() } else {
            match i2.next() { Some(v) => item(v), None => { d2 = true; ended() } }
        };
        assert_eq!(state.poll_first(e1), Ok(()));
        match state.poll_second(e2) {
            Ok(Async::Ready(Some(pair))) => r.push(pair),
            Ok(Async::Ready(None)) => {
                finished = true;
                break;
            }
            Ok(Async::NotReady) => {}
            Err(()) => panic!("no error expected"),
        }
    }
    let c = vec![(1, 2), (3, 4), (5, 8), (6, 8), (7, 8), (9, 8)];
    assert_eq!(c, r);
    assert!(finished);
}

#[test]
fn combine_latest_waits_for_both_and_for_news() {
    let mut state = ().combine_latest::<(), u8, u8>(());
    assert_eq!(state.poll_first::<()>(item(1)), Ok(()));
    assert_eq!(state.poll_second(pending()), Ok(Async::NotReady));
    assert_eq!(state.poll_first::<()>(pending()), Ok(()));
    assert_eq!(state.poll_second(item(2)), Ok(Async::Ready(Some((1, 2)))));
    // no news: not ready, though both have values
    assert_eq!(state.poll_first::<()>(pending()), Ok(()));
    assert_eq!(state.poll_second(pending()), Ok(Async::NotReady));
    // news on the first source alone
    assert_eq!(state.poll_first::<()>(item(3)), Ok(()));
    assert_eq!(state.poll_second(pending()), Ok(Async::Ready(Some((3, 2)))));
}

#[test]
fn combine_latest_errors_pass_through() {
    let mut state = ().combine_latest::<(), u8, u8>(());
    assert_eq!(state.poll_first::<&str>(Err("first")), Err("first"));
    assert_eq!(state.poll_first::<&str>(Ok(Async::Ready(Some(1)))), Ok(()));
    assert_eq!(state.poll_second::<&str>(Err("second")), Err("second"));
}

#[test]
fn with_latest_from_pairs_when_both_arrive_in_one_poll() {
    let mut state = ().with_latest_from::<(), u8, u8>(());
    assert_eq!(state.poll_first::<()>(item(1)), Ok(()));
    assert_eq!(state.poll_second(item(2)), Ok(Async::Ready(Some((1, 2)))));
}

#[test]
fn combine_latest_is_symmetric() {
    let events: Vec<(Polled<u8>, Polled<char>)> = vec![
        (item(1), pending()),
        (pending(), item('a')),
        (item(2), item('b')),
        (pending(), pending()),
        (ended(), item('c')),
        (ended(), ended()),
    ];
    let mut forward = ().combine_latest::<(), u8, char>(());
    let mut backward = ().combine_latest::<(), char, u8>(());
    for (e1, e2) in events {
        assert_eq!(forward.poll_first(e1.clone()), Ok(()));
        let f = forward.poll_second(e2.clone());
        assert_eq!(backward.poll_first(e2), Ok(()));
        let b = backward.poll_second(e1);
        let swapped = match b {
            Ok(Async::Ready(Some((x, y)))) => Ok(Async::Ready(Some((y, x)))),
            Ok(Async::Ready(None)) => Ok(Async::Ready(None)),
            Ok(Async::NotReady) => Ok(Async::NotReady),
            Err(e) => Err(e),
        };
        assert_eq!(f, swapped);
    }
}
