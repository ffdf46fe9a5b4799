//! The dispatch table, the shutdown publish that follows a queued stop
//! response, and the benchmark's all-or-nothing reply.

use pose::bench::{BENCHMARK_INSERTS, Benchmark, BenchmarkStep, DispatchError};
use pose::dispatch::{DispatchStep, after_response, dispatch};
use pose::message::{Command, Response};
use tokio::sync::broadcast;

#[test]
fn dispatch_table() {
    assert_eq!(dispatch(&Command::GetStatus), DispatchStep::Reply(Response::Status));
    assert_eq!(dispatch(&Command::Stop), DispatchStep::Reply(Response::StoppingServer));
    assert_eq!(
        dispatch(&Command::Echo("hello".to_string())),
        DispatchStep::Reply(Response::Echo("hello".to_string()))
    );
    assert_eq!(dispatch(&Command::DatabaseTest), DispatchStep::Benchmark);
}

#[test]
fn echo_identity_for_special_strings() {
    for s in ["", "hello", "a\"b\\c", "sp\u{e9}cial \u{2206}"] {
        assert_eq!(
            dispatch(&Command::Echo(s.to_string())),
            DispatchStep::Reply(Response::Echo(s.to_string()))
        );
    }
}

#[test]
fn only_stop_publishes_shutdown() {
    let (tx, mut rx) = broadcast::channel::<()>(4);
    assert!(!after_response(&Command::GetStatus, &tx));
    assert!(!after_response(&Command::Echo("x".to_string()), &tx));
    assert!(!after_response(&Command::DatabaseTest, &tx));
    assert!(rx.try_recv().is_err());
    assert!(after_response(&Command::Stop, &tx));
    assert!(rx.try_recv().is_ok());
}

#[test]
fn publishing_twice_is_safe() {
    let (tx, mut rx) = broadcast::channel::<()>(4);
    assert!(after_response(&Command::Stop, &tx));
    assert!(after_response(&Command::Stop, &tx));
    assert!(rx.try_recv().is_ok());
    assert!(rx.try_recv().is_ok());
    // publishing with no live subscriber must not error either
    drop(rx);
    assert!(after_response(&Command::Stop, &tx));
}

#[test]
fn subscriber_after_publish_sees_nothing() {
    let (tx, _keep) = broadcast::channel::<()>(4);
    assert!(after_response(&Command::Stop, &tx));
    let mut late = tx.subscribe();
    assert!(late.try_recv().is_err());
}

#[test]
fn benchmark_runs_exactly_the_fixed_count() {
    let mut b = Benchmark::start();
    let mut issued: u32 = 0;
    while b.next_step() == BenchmarkStep::Insert {
        b.record_success();
        issued += 1;
    }
    assert_eq!(issued, BENCHMARK_INSERTS);
    assert_eq!(issued, 10000);
    assert_eq!(b.finish(123), Ok(Response::DatabaseTestResponse(123)));
}

#[test]
fn aborted_benchmark_yields_no_partial_response() {
    let mut b = Benchmark::start();
    for _ in 0..9999 {
        assert_eq!(b.next_step(), BenchmarkStep::Insert);
        b.record_success();
    }
    // a statement failure aborts the run here; no response may be composed
    assert_eq!(b.finish(55), Err(DispatchError::BenchmarkIncomplete));
}
