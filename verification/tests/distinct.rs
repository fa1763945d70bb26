use stream_combinators::distinct::{Distinct, DistinctState};
use stream_combinators::poll::Async;

fn run_distinct<T: Clone, F: Fn(&T, &T) -> bool>(state: &mut DistinctState<(), F, T>, items: Vec<T>) -> Vec<T> {
    let mut out = Vec::new();
    for item in items {
        match state.poll::<()>(Ok(Async::Ready(Some(item)))) {
            Some(Ok(Async::Ready(Some(v)))) => out.push(v),
            None => {}
            _ => panic!("unexpected poll result"),
        }
    }
    match state.poll::<()>(Ok(Async::Ready(None))) {
        Some(Ok(Async::Ready(None))) => {}
        _ => panic!("the end of the stream must pass through"),
    }
    out
}

#[test]
fn distinct_test() {
    let v: Vec<u8> = vec![1, 2, 2, 3, 3, 3, 1];
    let mut state = ().distinct(|a: &u8, b: &u8| a == b);
    let c = run_distinct(&mut state, v);
    let r: Vec<u8> = vec![1, 2, 3, 1];
    assert_eq!(c, r);
}

#[test]
fn distinct_drops_only_consecutive_duplicates() {
    let mut state = ().distinct(|a: &i32, b: &i32| a == b);
    let c = run_distinct(&mut state, vec![5, 5, 5, 6, 5, 5, 7, 7, 6]);
    assert_eq!(c, vec![5, 6, 5, 7, 6]);
}

#[test]
fn distinct_uses_the_given_predicate() {
    // equal when they have the same parity: a run of one parity collapses to its first item
    let mut state = ().distinct(|a: &u32, b: &u32| a % 2 == b % 2);
    let c = run_distinct(&mut state, vec![1, 3, 5, 2, 4, 7, 8]);
    assert_eq!(c, vec![1, 2, 7, 8]);
}

#[test]
fn distinct_first_item_always_passes_and_duplicate_asks_for_more() {
    let mut state = ().distinct(|a: &u8, b: &u8| a == b);
    assert_eq!(state.poll::<()>(Ok(Async::Ready(Some(4)))), Some(Ok(Async::Ready(Some(4)))));
    assert_eq!(state.poll::<()>(Ok(Async::Ready(Some(4)))), None);
}

#[test]
fn distinct_passes_not_ready_end_and_errors_through() {
    let mut state = ().distinct(|a: &u8, b: &u8| a == b);
    assert_eq!(state.poll::<&str>(Ok(Async::NotReady)), Some(Ok(Async::NotReady)));
    assert_eq!(state.poll::<&str>(Err("e")), Some(Err("e")));
    assert_eq!(state.poll::<&str>(Ok(Async::Ready(None))), Some(Ok(Async::Ready(None))));
}

#[test]
fn distinct_compares_with_last_item_passed_on() {
    // "close" is no equivalence: 2 is close to 1 and dropped, 3 is compared with 1
    let mut state = ().distinct(|a: &i32, b: &i32| (a - b).abs() <= 1);
    let c = run_distinct(&mut state, vec![1, 2, 3, 5, 4, 4]);
    assert_eq!(c, vec![1, 3, 5]);
}

#[test]
fn distinct_is_idempotent() {
    let mut once = ().distinct(|a: &u8, b: &u8| a == b);
    let first = run_distinct(&mut once, vec![4, 4, 1, 1, 1, 4, 2, 2]);
    let mut twice = ().distinct(|a: &u8, b: &u8| a == b);
    let second = run_distinct(&mut twice, first.clone());
    assert_eq!(first, vec![4, 1, 4, 2]);
    assert_eq!(second, first);
}
