use std::cell::{Cell, RefCell};
use std::collections::VecDeque;

use alloy_core::promise::{Driver, Polled, Promise, PromiseResult, SharedState};
use alloy_core::readable_stream::{ReadResult, ReadableStream};

fn decode_read(bytes: &[u8]) -> Result<PromiseResult<ReadResult>, String> {
    let value: serde_json::Value = serde_json::from_slice(bytes).map_err(|e| e.to_string())?;
    match value["t"].as_str() {
        Some("Fulfilled") => {
            let done = value["c"]["done"].as_bool().ok_or("no done".to_string())?;
            let chunk = value["c"]["value"]
                .as_array()
                .map(|items| items.iter().map(|item| item.as_u64().unwrap_or(0) as u8).collect());
            Ok(PromiseResult::Fulfilled(ReadResult { done, value: chunk }))
        }
        Some("Rejected") => Ok(PromiseResult::Rejected(value["c"].as_str().unwrap_or("").to_string())),
        _ => Err("no tag".to_string()),
    }
}

fn framed(payload: &str) -> Vec<u8> {
    format!("{}{}", payload.len(), payload).into_bytes()
}

#[test]
fn new_stream_has_read_nothing() {
    let stream: ReadableStream<u32> = ReadableStream::new(12);
    assert_eq!(stream.read_fn(), 12);
    assert!(!stream.is_finished());
    assert!(!stream.is_reading());
}

#[test]
fn stream_of_chunk_then_no_chunk_then_done() {
    let answers: RefCell<VecDeque<Vec<u8>>> = RefCell::new(VecDeque::from(vec![
        framed("{\"t\":\"Fulfilled\",\"c\":{\"done\":false,\"value\":[1,2,3]}}"),
        framed("{\"t\":\"Fulfilled\",\"c\":{\"done\":false}}"),
        framed("{\"t\":\"Fulfilled\",\"c\":{\"done\":true}}"),
    ]));
    let reads = Cell::new(0usize);
    let mut stream: ReadableStream<u32> = ReadableStream::new(5);
    let mut items = Vec::new();
    loop {
        let out = stream.poll_next(
            |read_fn| {
                assert_eq!(read_fn, 5);
                reads.set(reads.get() + 1);
                1000 + reads.get()
            },
            |handle| {
                assert_eq!(handle, 1000 + reads.get());
                answers.borrow_mut().pop_front()
            },
            decode_read,
            0,
        );
        match out {
            Polled::Ready(Some(item)) => items.push(item),
            Polled::Ready(None) => break,
            Polled::Pending => panic!("every read had its answer"),
        }
    }
    assert_eq!(items, vec![Ok(vec![1, 2, 3]), Err("Read returned no chunk while not done.".to_string())]);
    assert_eq!(reads.get(), 3);
    assert!(stream.is_finished());
    // The stream has ended: a further pull invokes nothing.
    let again = stream.poll_next(
        |_| panic!("no read after the end"),
        |_| panic!("no poll after the end"),
        |_: &[u8]| panic!("no decoding after the end"),
        0,
    );
    assert_eq!(again, Polled::Ready(None));
    assert_eq!(reads.get(), 3);
}

#[test]
fn pending_read_is_kept_and_polled_again() {
    let reads = Cell::new(0usize);
    let polls = Cell::new(0usize);
    let mut stream: ReadableStream<u32> = ReadableStream::new(5);
    for attempt in 0..3u32 {
        let out = stream.poll_next(
            |_| {
                reads.set(reads.get() + 1);
                900
            },
            |handle| {
                assert_eq!(handle, 900);
                polls.set(polls.get() + 1);
                Some(vec![0])
            },
            decode_read,
            attempt,
        );
        assert_eq!(out, Polled::Pending);
        assert!(stream.is_reading());
        assert!(!stream.is_finished());
    }
    assert_eq!(reads.get(), 1);
    assert_eq!(polls.get(), 3);
    let out = stream.poll_next(
        |_| panic!("the read is under way"),
        |handle| {
            assert_eq!(handle, 900);
            Some(framed("{\"t\":\"Fulfilled\",\"c\":{\"done\":false,\"value\":[9]}}"))
        },
        decode_read,
        3,
    );
    assert_eq!(out, Polled::Ready(Some(Ok(vec![9]))));
    assert!(!stream.is_reading());
    // The next pull asks for a new read.
    let out = stream.poll_next(
        |_| {
            reads.set(reads.get() + 1);
            901
        },
        |handle| {
            assert_eq!(handle, 901);
            Some(vec![0])
        },
        decode_read,
        4,
    );
    assert_eq!(out, Polled::Pending);
    assert_eq!(reads.get(), 2);
}

#[test]
fn rejected_read_ends_the_stream() {
    let mut stream: ReadableStream<u32> = ReadableStream::new(5);
    let out = stream.poll_next(|_| 1, |_| Some(framed("{\"t\":\"Rejected\",\"c\":\"disk on fire\"}")), decode_read, 0);
    assert_eq!(out, Polled::Ready(Some(Err("disk on fire".to_string()))));
    assert!(stream.is_finished());
    let again = stream.poll_next(
        |_| panic!("no read after a rejection"),
        |_| panic!("no poll after a rejection"),
        decode_read,
        0,
    );
    assert_eq!(again, Polled::Ready(None));
}

#[test]
fn null_poll_result_ends_the_stream_with_an_error() {
    let mut stream: ReadableStream<u32> = ReadableStream::new(5);
    let out = stream.poll_next(|_| 1, |_| None, decode_read, 0);
    assert_eq!(out, Polled::Ready(Some(Err("Internal server error.".to_string()))));
    assert!(stream.is_finished());
}

#[test]
fn chunk_that_does_not_decode_ends_the_stream_with_the_decoder_message() {
    let mut stream: ReadableStream<u32> = ReadableStream::new(5);
    let out = stream.poll_next(|_| 1, |_| Some(framed("{\"t\":\"Fulfilled\",\"c\":{}}")), decode_read, 0);
    assert_eq!(out, Polled::Ready(Some(Err("no done".to_string()))));
    assert!(stream.is_finished());
}

#[test]
fn done_with_a_chunk_still_ends_the_stream() {
    let mut stream: ReadableStream<u32> = ReadableStream::new(5);
    let out = stream.poll_next(
        |_| 1,
        |_| Some(framed("{\"t\":\"Fulfilled\",\"c\":{\"done\":true,\"value\":[1]}}")),
        decode_read,
        0,
    );
    assert_eq!(out, Polled::Ready(None));
    assert!(stream.is_finished());
}

#[test]
fn empty_chunk_is_a_chunk() {
    let mut stream: ReadableStream<u32> = ReadableStream::new(5);
    let out = stream.poll_next(
        |_| 1,
        |_| Some(framed("{\"t\":\"Fulfilled\",\"c\":{\"done\":false,\"value\":[]}}")),
        decode_read,
        0,
    );
    assert_eq!(out, Polled::Ready(Some(Ok(Vec::new()))));
    assert!(!stream.is_finished());
}

#[test]
fn emit_table() {
    let bridge = || -> Promise<ReadResult, u32> { Promise::no_execute(3) };

    let mut stream: ReadableStream<u32> = ReadableStream::new(5);
    assert_eq!(stream.emit(bridge(), Polled::Pending), Polled::Pending);
    assert!(stream.is_reading());
    assert!(!stream.is_finished());

    let mut stream: ReadableStream<u32> = ReadableStream::new(5);
    let read = ReadResult { done: false, value: Some(vec![4, 5]) };
    assert_eq!(
        stream.emit(bridge(), Polled::Ready(PromiseResult::Fulfilled(read))),
        Polled::Ready(Some(Ok(vec![4, 5])))
    );
    assert!(!stream.is_reading());
    assert!(!stream.is_finished());

    let mut stream: ReadableStream<u32> = ReadableStream::new(5);
    let read = ReadResult { done: false, value: None };
    assert_eq!(
        stream.emit(bridge(), Polled::Ready(PromiseResult::Fulfilled(read))),
        Polled::Ready(Some(Err("Read returned no chunk while not done.".to_string())))
    );
    assert!(!stream.is_finished());

    let mut stream: ReadableStream<u32> = ReadableStream::new(5);
    let read = ReadResult { done: true, value: None };
    assert_eq!(stream.emit(bridge(), Polled::Ready(PromiseResult::Fulfilled(read))), Polled::Ready(None));
    assert!(stream.is_finished());

    let mut stream: ReadableStream<u32> = ReadableStream::new(5);
    assert_eq!(
        stream.emit(bridge(), Polled::Ready(PromiseResult::Rejected("boom".to_string()))),
        Polled::Ready(Some(Err("boom".to_string())))
    );
    assert!(stream.is_finished());
}

#[test]
fn stream_bridges_are_self_driven() {
    let p: Promise<ReadResult, u32> = Promise::no_execute(3);
    assert_eq!(p.driver, Driver::Owner(SharedState { completed: false, waker: None }));
}
