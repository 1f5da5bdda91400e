use std::cell::Cell;

use alloy_core::promise::executor::{initialize, PromiseExecutor};
use alloy_core::promise::{bridge, call_handler, settle, CallError, Driver, Polled, Promise, PromiseResult, SharedState};
use alloy_core::HandlerReq;

fn decode_number(bytes: &[u8]) -> Result<PromiseResult<u64>, String> {
    let value: serde_json::Value = serde_json::from_slice(bytes).map_err(|e| e.to_string())?;
    match value["t"].as_str() {
        Some("Fulfilled") => value["c"].as_u64().map(PromiseResult::Fulfilled).ok_or("no number".to_string()),
        Some("Rejected") => Ok(PromiseResult::Rejected(value["c"].as_str().unwrap_or("").to_string())),
        _ => Err("no tag".to_string()),
    }
}

fn framed(payload: &str) -> Vec<u8> {
    format!("{}{}", payload.len(), payload).into_bytes()
}

#[test]
fn shared_state_starts_pending() {
    let state: SharedState<u32> = SharedState::new();
    assert_eq!(state, SharedState { completed: false, waker: None });
}

#[test]
fn poll_step_null_rejects() {
    let mut state: SharedState<u32> = SharedState::new();
    let out = state.poll_step(None, 9, decode_number);
    assert_eq!(out, Polled::Ready(PromiseResult::Rejected("Internal server error.".to_string())));
    assert_eq!(state, SharedState { completed: true, waker: None });
}

#[test]
fn poll_step_not_ready_records_the_task() {
    let mut state: SharedState<u32> = SharedState::new();
    let out = state.poll_step(Some(vec![0]), 9, decode_number);
    assert_eq!(out, Polled::Pending);
    assert_eq!(state, SharedState { completed: false, waker: Some(9) });
    let out = state.poll_step(Some(vec![0, 1, 2]), 10, decode_number);
    assert_eq!(out, Polled::Pending);
    assert_eq!(state, SharedState { completed: false, waker: Some(10) });
}

#[test]
fn poll_step_zero_length_is_not_ready() {
    let mut state: SharedState<u32> = SharedState::new();
    let out = state.poll_step(Some(b"0{}".to_vec()), 9, decode_number);
    assert_eq!(out, Polled::Pending);
    assert_eq!(state.waker, Some(9));
    assert!(!state.completed);
}

#[test]
fn poll_step_value_fulfils() {
    let mut state: SharedState<u32> = SharedState { completed: false, waker: Some(3) };
    let out = state.poll_step(Some(framed("{\"t\":\"Fulfilled\",\"c\":42}")), 9, decode_number);
    assert_eq!(out, Polled::Ready(PromiseResult::Fulfilled(42)));
    assert_eq!(state, SharedState { completed: true, waker: Some(3) });
}

#[test]
fn poll_step_value_rejects() {
    let mut state: SharedState<u32> = SharedState::new();
    let out = state.poll_step(Some(framed("{\"t\":\"Rejected\",\"c\":\"boom\"}")), 9, decode_number);
    assert_eq!(out, Polled::Ready(PromiseResult::Rejected("boom".to_string())));
    assert!(state.completed);
}

#[test]
fn poll_step_malformed_buffer_rejects() {
    for buf in [&b"x{}"[..], &b"{}"[..], &b"12"[..], &b""[..], &b"9{}"[..]] {
        let mut state: SharedState<u32> = SharedState::new();
        let out = state.poll_step(Some(buf.to_vec()), 9, decode_number);
        assert_eq!(out, Polled::Ready(PromiseResult::Rejected("Malformed wire buffer.".to_string())));
        assert_eq!(state, SharedState { completed: true, waker: None });
    }
}

#[test]
fn poll_step_payload_that_does_not_decode_rejects_with_the_decoder_message() {
    let mut state: SharedState<u32> = SharedState::new();
    let out = state.poll_step(Some(framed("{\"x\":1}")), 9, decode_number);
    assert_eq!(out, Polled::Ready(PromiseResult::Rejected("no tag".to_string())));
    assert!(state.completed);
}

#[test]
fn poll_step_decoder_sees_the_payload_only() {
    let mut state: SharedState<u32> = SharedState::new();
    let mut buf = framed("{\"t\":\"Fulfilled\",\"c\":7}");
    buf.extend_from_slice(b"garbage");
    let out = state.poll_step(Some(buf), 9, decode_number);
    assert_eq!(out, Polled::Ready(PromiseResult::Fulfilled(7)));
}

#[test]
fn settle_passes_the_result_on() {
    assert_eq!(settle(Ok(PromiseResult::Fulfilled(5u8))), PromiseResult::Fulfilled(5u8));
    assert_eq!(
        settle::<u8>(Ok(PromiseResult::Rejected("r".to_string()))),
        PromiseResult::Rejected("r".to_string())
    );
    assert_eq!(settle::<u8>(Err("bad payload".to_string())), PromiseResult::Rejected("bad payload".to_string()));
}

#[test]
fn poll_data_invokes_the_callable_once_on_its_handle() {
    let calls = Cell::new(0u32);
    let mut p: Promise<u64, u32> = Promise::no_execute(31);
    let out = p.poll_data(
        |handle| {
            assert_eq!(handle, 31);
            calls.set(calls.get() + 1);
            Some(vec![0])
        },
        decode_number,
        4,
    );
    assert_eq!(out, Polled::Pending);
    assert_eq!(calls.get(), 1);
    assert_eq!(p.driver, Driver::Owner(SharedState { completed: false, waker: Some(4) }));
    assert_eq!(p.poll_promise, 31);
}

#[test]
fn bridge_suspends_n_times_then_resolves_once() {
    for n in [0u32, 1, 2, 5, 40] {
        let calls = Cell::new(0u32);
        let mut p: Promise<u64, u32> = Promise::no_execute(1);
        let mut suspensions = 0;
        let resolved;
        loop {
            let attempt = calls.get();
            let out = p.poll_data(
                |_| {
                    calls.set(calls.get() + 1);
                    if attempt < n { Some(vec![0]) } else { Some(framed("{\"t\":\"Fulfilled\",\"c\":99}")) }
                },
                decode_number,
                attempt,
            );
            match out {
                Polled::Pending => {
                    assert!(attempt < n);
                    assert_eq!(p.driver, Driver::Owner(SharedState { completed: false, waker: Some(attempt) }));
                    suspensions += 1;
                }
                Polled::Ready(result) => {
                    resolved = result;
                    break;
                }
            }
        }
        assert_eq!(suspensions, n);
        assert_eq!(resolved, PromiseResult::Fulfilled(99));
        assert_eq!(calls.get(), n + 1);
        assert!(matches!(p.driver, Driver::Owner(SharedState { completed: true, .. })));
    }
}

#[test]
fn poll_on_a_self_driven_bridge_leaves_the_registry_alone() {
    let mut executor: PromiseExecutor<u32> = initialize();
    let _managed: Promise<u64, u32> = Promise::new(1, &mut executor);
    let mut own: Promise<u64, u32> = Promise::no_execute(2);
    let out = own.poll(&mut executor, |_| Some(framed("{\"t\":\"Fulfilled\",\"c\":1}")), decode_number, 5);
    assert_eq!(out, Polled::Ready(PromiseResult::Fulfilled(1)));
    assert_eq!(executor.len(), 1);
    assert!(executor.is_pending(0));
}

#[test]
fn poll_entry_moves_one_entry() {
    let mut executor: PromiseExecutor<u32> = initialize();
    let _a: Promise<u64, u32> = Promise::new(1, &mut executor);
    let _b: Promise<u64, u32> = Promise::new(2, &mut executor);
    let out = executor.poll_entry(1, Some(framed("{\"t\":\"Fulfilled\",\"c\":8}")), 0, decode_number);
    assert_eq!(out, Polled::Ready(PromiseResult::Fulfilled(8)));
    assert!(executor.is_pending(0));
    assert!(!executor.is_pending(1));
    assert_eq!(executor.len(), 2);
}

#[test]
fn bridge_wraps_a_poll_handle() {
    let mut executor: PromiseExecutor<u32> = initialize();
    let p: Promise<u64, u32> = bridge(Some(66), &mut executor).unwrap();
    assert_eq!(p.poll_promise, 66);
    assert_eq!(p.driver, Driver::Executor(0));
    assert_eq!(executor.len(), 1);
}

#[test]
fn bridge_without_a_poll_handle() {
    let mut executor: PromiseExecutor<u32> = initialize();
    let r: Result<Promise<u64, u32>, CallError> = bridge(None, &mut executor);
    assert_eq!(r, Err(CallError::NoPollHandle));
    assert!(executor.is_empty());
}

#[test]
fn call_handler_hands_the_encoded_context_to_the_handler() {
    let mut executor: PromiseExecutor<u32> = initialize();
    executor.start();
    let mut req = HandlerReq::default();
    req.pathname = "/users/42".to_string();
    let seen = Cell::new(false);
    let r: Result<Promise<u64, u32>, CallError> = call_handler(
        4096,
        req,
        |req: &HandlerReq| format!("{{\"pathname\":\"{}\"}}", req.pathname).into_bytes(),
        |handler, bytes: &[u8]| {
            assert_eq!(handler, 4096);
            assert_eq!(bytes, b"{\"pathname\":\"/users/42\"}");
            seen.set(true);
            Some(777)
        },
        &mut executor,
    );
    let promise = r.unwrap();
    assert!(seen.get());
    assert_eq!(promise.poll_promise, 777);
    assert_eq!(promise.driver, Driver::Executor(0));
    assert!(executor.is_pending(0));
}

#[test]
fn call_handler_null_handle() {
    let mut executor: PromiseExecutor<u32> = initialize();
    executor.start();
    let r: Result<Promise<u64, u32>, CallError> = call_handler(
        0,
        HandlerReq::default(),
        |_: &HandlerReq| panic!("nothing is encoded for the null handle"),
        |_, _: &[u8]| panic!("nothing is invoked for the null handle"),
        &mut executor,
    );
    assert_eq!(r, Err(CallError::NullHandler));
    assert!(executor.is_empty());
}

#[test]
fn call_handler_without_a_poll_handle() {
    let mut executor: PromiseExecutor<u32> = initialize();
    executor.start();
    let r: Result<Promise<u64, u32>, CallError> =
        call_handler(1, HandlerReq::default(), |_: &HandlerReq| Vec::new(), |_, _: &[u8]| None, &mut executor);
    assert_eq!(r, Err(CallError::NoPollHandle));
    assert!(executor.is_empty());
    assert_eq!(executor.next_ticket(), 0);
}

#[test]
fn call_handler_before_the_scheduler_was_started() {
    let mut executor: PromiseExecutor<u32> = initialize();
    assert!(!executor.is_started());
    let r: Result<Promise<u64, u32>, CallError> = call_handler(
        4096,
        HandlerReq::default(),
        |_: &HandlerReq| panic!("nothing is encoded before the start"),
        |_, _: &[u8]| panic!("nothing is invoked before the start"),
        &mut executor,
    );
    assert_eq!(r, Err(CallError::NotStarted));
    assert!(executor.is_empty());
    assert_eq!(executor.next_ticket(), 0);
}
