use std::cell::RefCell;
use std::rc::Rc;

use stream_combinators::poll::Async;
use stream_combinators::scan2::{Scan2, Scan2State};
use stream_combinators::scan3::{Scan3, Scan3State};

fn run_scan3<T: Clone, I, F: Fn(T, I) -> T>(state: &mut Scan3State<(), F, T>, items: Vec<I>) -> Vec<T> {
    let mut out = Vec::new();
    for item in items {
        match state.poll_next::<I, ()>(Ok(Async::Ready(Some(item)))) {
            Ok(Async::Ready(Some(v))) => out.push(v),
            _ => panic!("unexpected poll result"),
        }
    }
    match state.poll_next::<I, ()>(Ok(Async::Ready(None))) {
        Ok(Async::Ready(None)) => {}
        _ => panic!("the end of the stream must pass through"),
    }
    out
}

fn run_scan2<T, I, R, F: Fn(T, I) -> (T, R)>(state: &mut Scan2State<(), F, T, R>, items: Vec<I>) -> Vec<R> {
    let mut out = Vec::new();
    for item in items {
        match state.poll::<I, ()>(Ok(Async::Ready(Some(item)))) {
            Ok(Async::Ready(Some(v))) => out.push(v),
            _ => panic!("unexpected poll result"),
        }
    }
    match state.poll::<I, ()>(Ok(Async::Ready(None))) {
        Ok(Async::Ready(None)) => {}
        _ => panic!("the end of the stream must pass through"),
    }
    out
}

#[test]
fn scan() {
    let mut state = ().scan3(0u8, |a: u8, v: u8| a + v);
    let result = run_scan3(&mut state, vec![1, 2, 3, 4, 5, 6]);
    let expected: Vec<u8> = vec![1, 3, 6, 10, 15, 21];
    assert_eq!(result, expected);
}

#[test]
fn scan_b() {
    let mut state = ().scan3(Rc::new(RefCell::new(vec![])), |a: Rc<RefCell<Vec<u8>>>, v: u8| {
        (*a).borrow_mut().push(v);
        a
    });
    let result = run_scan3(&mut state, vec![1u8, 2, 3, 4, 5, 6]);

    let r = Rc::new(RefCell::new(vec![1u8, 2, 3, 4, 5, 6]));
    let expected: Vec<Rc<RefCell<Vec<u8>>>> = (0..6).map(|_| r.clone()).collect();
    assert_eq!(result, expected);
}

#[test]
fn scan2() {
    let mut state = ().scan2(vec![], |mut acc: Vec<u8>, v: u8| {
        acc.push(v);
        let len = acc.len();
        (acc, len)
    });
    let result = run_scan2(&mut state, vec![1u8, 2, 3, 1, 2, 3]);
    let expected: Vec<usize> = vec![1, 2, 3, 4, 5, 6];
    assert_eq!(result, expected);
}

#[test]
fn scan3_running_fold_of_products() {
    let mut state = ().scan3(1u64, |a: u64, v: u64| a * v);
    let result = run_scan3(&mut state, vec![2, 3, 4, 5]);
    assert_eq!(result, vec![2u64, 6, 24, 120]);
}

#[test]
fn scan3_passes_not_ready_and_errors_through() {
    let mut state = ().scan3(10i32, |a: i32, v: i32| a - v);
    assert_eq!(state.poll_next::<i32, &str>(Ok(Async::NotReady)), Ok(Async::NotReady));
    assert_eq!(state.poll_next::<i32, &str>(Err("boom")), Err("boom"));
    // the accumulator is untouched by what passed through
    assert_eq!(state.poll_next::<i32, &str>(Ok(Async::Ready(Some(3)))), Ok(Async::Ready(Some(7))));
    assert_eq!(state.poll_next::<i32, &str>(Ok(Async::Ready(Some(7)))), Ok(Async::Ready(Some(0))));
}

#[test]
fn scan2_threads_accumulator_and_yields_side_value() {
    // the accumulator is the running sum; the yielded value is the item doubled plus the old sum
    let mut state = ().scan2(0u32, |acc: u32, v: u32| (acc + v, acc + 2 * v));
    let result = run_scan2(&mut state, vec![1, 2, 3]);
    assert_eq!(result, vec![2u32, 5, 9]);
}

#[test]
fn scan2_passes_not_ready_and_errors_through() {
    let mut state = ().scan2(0u32, |acc: u32, v: u32| (acc + v, acc));
    assert_eq!(state.poll::<u32, u8>(Ok(Async::NotReady)), Ok(Async::NotReady));
    assert_eq!(state.poll::<u32, u8>(Err(9)), Err(9));
    assert_eq!(state.poll::<u32, u8>(Ok(Async::Ready(Some(5)))), Ok(Async::Ready(Some(0))));
    assert_eq!(state.poll::<u32, u8>(Ok(Async::Ready(Some(5)))), Ok(Async::Ready(Some(5))));
}

#[test]
fn scan2_with_unit_state_is_map() {
    let mut state = ().scan2((), |(), v: u32| ((), v * 10 + 1));
    let result = run_scan2(&mut state, vec![0, 1, 2, 7]);
    assert_eq!(result, vec![1u32, 11, 21, 71]);
}
