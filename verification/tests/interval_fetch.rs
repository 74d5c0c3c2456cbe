use keifu::interval_fetch::{FetchEvent, IntervalFetch};

const SECOND: u64 = 1_000_000_000;

#[test]
fn delivers_producer_value() {
    let mut f = IntervalFetch::new(300 * SECOND);
    assert!(f.maybe_start(0));
    assert!(f.poll::<String>(FetchEvent::Pending, 1).is_none());
    assert_eq!(f.poll(FetchEvent::Done(Ok("fetched:repo".to_string())), 2), Some(Ok("fetched:repo".to_string())));
}

#[test]
fn surfaces_producer_error() {
    let mut f = IntervalFetch::new(300 * SECOND);
    assert!(f.maybe_start(0));
    let r = f.poll::<String>(FetchEvent::Done(Err("gh not available".to_string())), 1);
    assert_eq!(r.unwrap().unwrap_err(), "gh not available");
}

#[test]
fn interval_gates_a_second_fetch() {
    let mut f = IntervalFetch::new(300 * SECOND);
    let mut calls = 0;
    if f.maybe_start(0) {
        calls += 1;
    }
    assert_eq!(f.poll(FetchEvent::Done(Ok(())), SECOND), Some(Ok(())));
    assert_eq!(calls, 1);
    if f.maybe_start(2 * SECOND) {
        calls += 1;
    }
    assert!(f.poll::<()>(FetchEvent::Pending, 2 * SECOND).is_none());
    assert_eq!(calls, 1, "interval must gate the refetch");
    assert!(!f.maybe_start(300 * SECOND), "a nanosecond before it is due, and earlier");
    assert!(f.maybe_start(301 * SECOND));
}

#[test]
fn force_ignores_the_interval() {
    let mut f = IntervalFetch::new(300 * SECOND);
    assert!(f.maybe_start(0));
    assert_eq!(f.poll(FetchEvent::Done(Ok(())), 0), Some(Ok(())));
    f.force();
    assert!(f.maybe_start(1));
    assert_eq!(f.poll(FetchEvent::Done(Ok(())), 1), Some(Ok(())));
}

#[test]
fn only_one_fetch_in_flight_at_a_time() {
    let mut f = IntervalFetch::new(300 * SECOND);
    assert!(f.maybe_start(0));
    assert!(!f.maybe_start(0), "in flight");
    assert!(!f.maybe_start(1000 * SECOND), "in flight, however long it takes");
    assert_eq!(f.poll(FetchEvent::Done(Ok(())), 1), Some(Ok(())));
    assert!(f.poll(FetchEvent::Done(Ok(())), 1).is_none(), "delivered once");
}

#[test]
fn a_dead_worker_is_reported() {
    let mut f = IntervalFetch::new(SECOND);
    assert!(f.maybe_start(0));
    assert!(matches!(f.poll::<()>(FetchEvent::Died, 5), Some(Err(_))));
}
