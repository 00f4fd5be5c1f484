use reconciler::abi::{ReconcileError, ReconcileResult};
use reconciler::scheduler::{backoff, Completion, RetryPolicy, Scheduler};

fn policy(max_attempts: u32, base_delay: u64, max_delay: u64) -> RetryPolicy {
    RetryPolicy { max_attempts, base_delay, max_delay }
}

fn ok(requeue: bool, requeue_after: u32, object: &str) -> Result<ReconcileResult, ReconcileError> {
    Ok(ReconcileResult { requeue, requeue_after, object: String::from(object) })
}

fn err(code: u32, message: &str) -> Result<ReconcileResult, ReconcileError> {
    Err(ReconcileError { code, message: String::from(message) })
}

#[test]
fn requeue_after_five_is_not_due_earlier() {
    let mut s = Scheduler::new(policy(3, 1, 60));
    s.enqueue(String::from("{}"), 0);
    let i = s.next_due(0).expect("a fresh item is due immediately");
    let object = s.begin(i);
    assert_eq!(object, "{}");
    // guest asks: run me again with "{}" after 5 time units
    let c = s.finish(0, ok(true, 5, "{}"), 10);
    assert!(c.is_none());
    // never proactively earlier than 10 + 5
    assert!(s.next_due(10).is_none());
    assert!(s.next_due(12).is_none());
    assert!(s.next_due(14).is_none());
    assert_eq!(s.earliest_deadline(), Some(15));
    // exactly at the deadline it runs again, with the same object
    let i = s.next_due(15).expect("due once the delay has elapsed");
    assert_eq!(s.begin(i), "{}");
}

#[test]
fn requeue_with_zero_delay_still_goes_through_the_queue() {
    let mut s = Scheduler::new(policy(3, 1, 60));
    s.enqueue(String::from("{}"), 0);
    let i = s.next_due(0).unwrap();
    let _ = s.begin(i);
    let c = s.finish(0, ok(true, 0, "{}"), 3);
    assert!(c.is_none());
    // re-enters the queue rather than recursing: it is pending, and due now
    assert_eq!(s.earliest_deadline(), Some(3));
    assert!(s.next_due(3).is_some());
}

#[test]
fn no_requeue_removes_the_item() {
    let mut s = Scheduler::new(policy(3, 1, 60));
    s.enqueue(String::from("{}"), 0);
    let i = s.next_due(0).unwrap();
    let _ = s.begin(i);
    // the returned object replaces the stored one verbatim
    match s.finish(0, ok(false, 0, "X"), 1) {
        Some(Completion::Succeeded(object)) => assert_eq!(object, "X"),
        _ => panic!("a success without requeue completes the item"),
    }
    // no further invocation ever occurs
    assert!(s.next_due(u64::MAX).is_none());
    assert_eq!(s.earliest_deadline(), None);
    assert!(!s.tracks_object(&String::from("{}")));
    assert!(!s.tracks_object(&String::from("X")));
}

#[test]
fn persistent_error_surfaces_verbatim_after_the_attempt_limit() {
    let n: u32 = 3;
    let mut s = Scheduler::new(policy(n, 2, 60));
    s.enqueue(String::from("{}"), 0);
    let mut now: u64 = 0;
    for attempt in 1..n {
        let i = s.next_due(now).expect("still retried");
        let _ = s.begin(i);
        let c = s.finish(0, err(500, "boom"), now);
        assert!(c.is_none(), "attempt {attempt} is retried, not surfaced");
        // capped exponential backoff: 2, then 4
        let expected_delay = 2u64 << (attempt - 1);
        assert_eq!(s.earliest_deadline(), Some(now + expected_delay));
        now += expected_delay;
    }
    let i = s.next_due(now).expect("the final attempt still runs");
    let _ = s.begin(i);
    match s.finish(0, err(500, "boom"), now) {
        Some(Completion::Failed(e)) => {
            assert_eq!(e.code, 500);
            assert_eq!(e.message, "boom");
        },
        _ => panic!("after N configured attempts the caller sees the failure"),
    }
    // and the item is removed
    assert!(s.next_due(u64::MAX).is_none());
}

#[test]
fn success_clears_the_attempt_count() {
    let mut s = Scheduler::new(policy(2, 1, 60));
    s.enqueue(String::from("{}"), 0);
    let i = s.next_due(0).unwrap();
    let _ = s.begin(i);
    assert!(s.finish(0, err(1, "flaky"), 0).is_none());
    let i = s.next_due(1).unwrap();
    let _ = s.begin(i);
    // a success with requeue starts the error budget afresh
    assert!(s.finish(0, ok(true, 0, "{}"), 1).is_none());
    let i = s.next_due(1).unwrap();
    let _ = s.begin(i);
    // so the next error is the first of a new run and is retried again
    assert!(s.finish(0, err(1, "flaky"), 1).is_none());
}

#[test]
fn distinct_objects_run_independently_and_never_reentrantly() {
    let mut s = Scheduler::new(policy(3, 1, 60));
    s.enqueue(String::from("a"), 0);
    s.enqueue(String::from("b"), 0);
    // both are due; starting one leaves the other pending
    let i = s.next_due(0).expect("a is due");
    let first = s.begin(i);
    // the same object cannot be started again: only the other one is left
    let j = s.next_due(0).expect("b is still due while a runs");
    let second = s.begin(j);
    assert_ne!(first, second);
    assert!(s.next_due(u64::MAX).is_none(), "no third invocation exists");
    // each in-flight invocation completes exactly once
    let c1 = s.finish(0, ok(false, 0, &first), 1);
    assert!(matches!(c1, Some(Completion::Succeeded(_))));
    let c2 = s.finish(0, ok(false, 0, &second), 1);
    assert!(matches!(c2, Some(Completion::Succeeded(_))));
}

#[test]
fn cancel_removes_a_pending_item_before_its_deadline() {
    let mut s = Scheduler::new(policy(3, 1, 60));
    s.enqueue(String::from("a"), 10);
    s.enqueue(String::from("b"), 20);
    assert_eq!(s.earliest_deadline(), Some(10));
    let i = s.next_due(30).unwrap();
    // the due item with the earliest time is "a"; cancel it
    s.cancel(i);
    assert!(!s.tracks_object(&String::from("a")));
    assert!(s.tracks_object(&String::from("b")));
    assert_eq!(s.earliest_deadline(), Some(20));
}

#[test]
fn backoff_doubles_and_caps() {
    let p = policy(10, 3, 10);
    assert_eq!(backoff(&p, 1), 3);
    assert_eq!(backoff(&p, 2), 6);
    assert_eq!(backoff(&p, 3), 10);
    assert_eq!(backoff(&p, 4), 10);
    let zero = policy(10, 0, 10);
    assert_eq!(backoff(&zero, 5), 0);
    let capped = policy(10, 7, 5);
    assert_eq!(backoff(&capped, 1), 5);
}
