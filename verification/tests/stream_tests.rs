use reconciler::caps::{get_random_bytes, get_random_u64, poll, set_pollable_ready, RandomSource};
use reconciler::streams::{
    close_input, close_output, drain_output, fail_input, fail_output, feed_input, get_stdout,
    new_error, new_input_stream, new_pollable, StreamError,
};
use reconciler::table::ResourceTable;

#[test]
fn write_buffers_and_drain_empties() {
    let mut t = ResourceTable::new();
    let out = get_stdout(&mut t);
    assert!(out.write(&mut t, b"hello ").is_ok());
    assert!(out.write(&mut t, b"world").is_ok());
    assert_eq!(drain_output(&mut t, out.handle()), b"hello world".to_vec());
    // drained: the buffer is empty again and the budget is back to full
    assert_eq!(out.check_write(&t).unwrap(), 65536);
}

#[test]
fn check_write_reports_the_remaining_budget() {
    let mut t = ResourceTable::new();
    let out = get_stdout(&mut t);
    assert_eq!(out.check_write(&t).unwrap(), 65536);
    assert!(out.write(&mut t, &[0u8; 1000]).is_ok());
    assert_eq!(out.check_write(&t).unwrap(), 64536);
}

#[test]
fn closed_output_stays_closed() {
    let mut t = ResourceTable::new();
    let out = get_stdout(&mut t);
    assert!(out.write(&mut t, b"a").is_ok());
    close_output(&mut t, out.handle());
    assert!(matches!(out.write(&mut t, b"b"), Err(StreamError::Closed)));
    assert!(matches!(out.flush(&mut t), Err(StreamError::Closed)));
    assert!(matches!(out.check_write(&t), Err(StreamError::Closed)));
    assert!(matches!(out.write_zeroes(&mut t, 3), Err(StreamError::Closed)));
    // never silently succeeds again
    assert!(matches!(out.blocking_write_and_flush(&mut t, b"c"), Err(StreamError::Closed)));
}

#[test]
fn read_takes_from_the_front() {
    let mut t = ResourceTable::new();
    let input = new_input_stream(&mut t);
    feed_input(&mut t, input.handle(), b"abcdef".to_vec());
    assert_eq!(input.read(&mut t, 4).unwrap(), b"abcd".to_vec());
    assert_eq!(input.read(&mut t, 4).unwrap(), b"ef".to_vec());
    // non-blocking: empty stream returns immediately with nothing
    assert_eq!(input.read(&mut t, 4).unwrap(), Vec::<u8>::new());
}

#[test]
fn closed_input_stays_closed() {
    let mut t = ResourceTable::new();
    let input = new_input_stream(&mut t);
    feed_input(&mut t, input.handle(), b"zz".to_vec());
    close_input(&mut t, input.handle());
    assert!(matches!(input.read(&mut t, 1), Err(StreamError::Closed)));
    assert!(matches!(input.skip(&mut t, 1), Err(StreamError::Closed)));
    assert!(matches!(input.blocking_read(&mut t, 1), Err(StreamError::Closed)));
}

#[test]
fn skip_discards_and_reports_the_count() {
    let mut t = ResourceTable::new();
    let input = new_input_stream(&mut t);
    feed_input(&mut t, input.handle(), b"abcdef".to_vec());
    assert_eq!(input.skip(&mut t, 2).unwrap(), 2);
    assert_eq!(input.read(&mut t, 10).unwrap(), b"cdef".to_vec());
    assert_eq!(input.skip(&mut t, 10).unwrap(), 0);
}

#[test]
fn blocking_variants_match_their_non_blocking_contract() {
    let mut t = ResourceTable::new();
    let input = new_input_stream(&mut t);
    feed_input(&mut t, input.handle(), b"xy".to_vec());
    assert_eq!(input.blocking_read(&mut t, 1).unwrap(), b"x".to_vec());
    assert_eq!(input.blocking_skip(&mut t, 1).unwrap(), 1);
    let out = get_stdout(&mut t);
    assert!(out.blocking_write_and_flush(&mut t, b"ok").is_ok());
    assert!(out.blocking_flush(&mut t).is_ok());
    assert!(out.blocking_write_zeroes_and_flush(&mut t, 2).is_ok());
    assert_eq!(drain_output(&mut t, out.handle()), vec![b'o', b'k', 0, 0]);
}

#[test]
fn splice_moves_bytes_up_to_the_budget() {
    let mut t = ResourceTable::new();
    let out = get_stdout(&mut t);
    let input = new_input_stream(&mut t);
    feed_input(&mut t, input.handle(), b"0123456789".to_vec());
    assert_eq!(out.splice(&mut t, &input, 4).unwrap(), 4);
    assert_eq!(out.splice(&mut t, &input, 100).unwrap(), 6);
    // a drained source: the non-blocking splice returns immediately with 0,
    // a zero-length blocking request is the only trivial one allowed
    assert_eq!(out.splice(&mut t, &input, 5).unwrap(), 0);
    assert_eq!(out.blocking_splice(&mut t, &input, 0).unwrap(), 0);
    // with bytes available again, a blocking splice must make progress
    feed_input(&mut t, input.handle(), b"ab".to_vec());
    let moved = out.blocking_splice(&mut t, &input, 5).unwrap();
    assert!(moved > 0);
    assert_eq!(moved, 2);
    assert_eq!(drain_output(&mut t, out.handle()), b"0123456789ab".to_vec());
}

#[test]
fn splice_fails_closed_when_either_side_is_closed() {
    let mut t = ResourceTable::new();
    let out = get_stdout(&mut t);
    let input = new_input_stream(&mut t);
    close_input(&mut t, input.handle());
    assert!(matches!(out.splice(&mut t, &input, 1), Err(StreamError::Closed)));
}

#[test]
fn subscribe_reflects_readiness() {
    let mut t = ResourceTable::new();
    let input = new_input_stream(&mut t);
    let p_empty = input.subscribe(&mut t);
    assert!(!p_empty.ready(&t));
    feed_input(&mut t, input.handle(), b"!".to_vec());
    let p_data = input.subscribe(&mut t);
    assert!(p_data.ready(&t));
    p_data.block(&t);
    let out = get_stdout(&mut t);
    let p_out = out.subscribe(&mut t);
    assert!(p_out.ready(&t));
}

#[test]
fn poll_returns_exactly_the_ready_indices_in_order() {
    let mut t = ResourceTable::new();
    let p0 = new_pollable(&mut t, true);
    let p1 = new_pollable(&mut t, false);
    let p2 = new_pollable(&mut t, true);
    let set = vec![p0, p1, p2];
    assert_eq!(poll(&t, &set), vec![0, 2]);
    set_pollable_ready(&mut t, set[1].handle(), true);
    assert_eq!(poll(&t, &set), vec![0, 1, 2]);
    set_pollable_ready(&mut t, set[0].handle(), false);
    set_pollable_ready(&mut t, set[2].handle(), false);
    assert_eq!(poll(&t, &set), vec![1]);
}

#[test]
fn recorded_output_failure_is_reported_once() {
    let mut t = ResourceTable::new();
    let out = get_stdout(&mut t);
    assert!(out.write(&mut t, b"pre").is_ok());
    fail_output(&mut t, out.handle(), String::from("pipe burst"));
    // the failure surfaces on the next operation, with its error handle
    match out.write(&mut t, b"x") {
        Err(StreamError::LastOperationFailed(e)) => {
            assert_eq!(e.to_debug_string(&t), "pipe burst");
        },
        _ => panic!("a recorded failure must surface as LastOperationFailed"),
    }
    // reported exactly once: afterwards the stream works again
    assert!(out.write(&mut t, b"post").is_ok());
    assert_eq!(drain_output(&mut t, out.handle()), b"prepost".to_vec());
}

#[test]
fn recorded_input_failure_is_reported_once() {
    let mut t = ResourceTable::new();
    let input = new_input_stream(&mut t);
    feed_input(&mut t, input.handle(), b"kept".to_vec());
    fail_input(&mut t, input.handle(), String::from("link down"));
    // the failure makes the stream ready and is reported before any bytes
    let p = input.subscribe(&mut t);
    assert!(p.ready(&t));
    match input.read(&mut t, 4) {
        Err(StreamError::LastOperationFailed(e)) => {
            assert_eq!(e.to_debug_string(&t), "link down");
        },
        _ => panic!("a recorded failure must surface as LastOperationFailed"),
    }
    // the buffered bytes were untouched and flow after the report
    assert_eq!(input.read(&mut t, 4).unwrap(), b"kept".to_vec());
}

#[test]
fn flush_reports_a_recorded_failure() {
    let mut t = ResourceTable::new();
    let out = get_stdout(&mut t);
    fail_output(&mut t, out.handle(), String::from("sink gone"));
    assert!(matches!(out.flush(&mut t), Err(StreamError::LastOperationFailed(_))));
    assert!(out.flush(&mut t).is_ok());
}

#[test]
fn splice_reports_the_destination_failure_first() {
    let mut t = ResourceTable::new();
    let out = get_stdout(&mut t);
    let input = new_input_stream(&mut t);
    feed_input(&mut t, input.handle(), b"zz".to_vec());
    fail_output(&mut t, out.handle(), String::from("dest broken"));
    fail_input(&mut t, input.handle(), String::from("src broken"));
    match out.splice(&mut t, &input, 2) {
        Err(StreamError::LastOperationFailed(e)) => {
            assert_eq!(e.to_debug_string(&t), "dest broken");
        },
        _ => panic!("the destination's failure is reported first"),
    }
    match out.splice(&mut t, &input, 2) {
        Err(StreamError::LastOperationFailed(e)) => {
            assert_eq!(e.to_debug_string(&t), "src broken");
        },
        _ => panic!("then the source's"),
    }
    // both reported; now the bytes move
    assert_eq!(out.blocking_splice(&mut t, &input, 2).unwrap(), 2);
    assert_eq!(drain_output(&mut t, out.handle()), b"zz".to_vec());
}

#[test]
fn error_capability_exposes_only_its_description() {
    let mut t = ResourceTable::new();
    let mut e = new_error(&mut t, String::from("disk on fire"));
    assert_eq!(e.to_debug_string(&t), "disk on fire");
    let taken = e.take_handle();
    assert_ne!(taken, reconciler::resource::INVALID_HANDLE);
    assert_eq!(e.handle(), reconciler::resource::INVALID_HANDLE);
}

#[test]
fn random_source_draws_from_the_front_of_the_pool() {
    let mut src = RandomSource { pool: vec![1, 2, 3, 4, 5, 6, 7, 8, 9, 10] };
    assert_eq!(get_random_bytes(&mut src, 2), vec![1, 2]);
    assert_eq!(src.pool, vec![3, 4, 5, 6, 7, 8, 9, 10]);
    // little-endian reading of the next eight bytes
    assert_eq!(get_random_u64(&mut src), 0x0A09_0807_0605_0403);
    assert!(src.pool.is_empty());
}
