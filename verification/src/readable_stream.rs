//! The stream adapter: a body that arrives chunk by chunk.
//!
//! Each call of the read callable hands back the poll handle of the next
//! chunk. The adapter wraps that handle as a self-driven bridge and polls it
//! at each pull until it resolves. The chunks form one forward pass: once the
//! reader says it is done, or a read is rejected, the stream has ended and
//! the read callable is not invoked again.

use std::marker::PhantomData;
use vstd::prelude::*;
use vstd::string::*;

use crate::promise::{after_poll, raw_view, reading, reported, Driver, Polled, Promise, PromiseResult, SharedState};

verus! {

/// What one read resolves to: the next chunk, or the end.
#[derive(Debug, PartialEq, Eq)]
pub struct ReadResult {
    pub done: bool,
    pub value: Option<Vec<u8>>,
}

/// One item of the stream: a chunk, or an error message.
pub type Item = Result<Vec<u8>, String>;

/// A body read through a read callable.
#[derive(Debug)]
pub struct ReadableStream<W> {
    read_fn: usize,
    current_promise: Option<Promise<ReadResult, W>>,
    finished: bool,
}

/// The message of the item that a read without a chunk gives.
pub open spec fn no_chunk() -> Seq<char> {
    "Read returned no chunk while not done."@
}

/// The completion state of the bridge that a pull polls: that of the active
/// bridge, or that of a bridge just made.
pub open spec fn polled_state<W>(active: Option<Promise<ReadResult, W>>) -> SharedState<W> {
    match active {
        Some(promise) => promise.driver->Owner_0,
        None => SharedState { completed: false, waker: None },
    }
}

/// A bridge that a stream may keep: self-driven, and not resolved.
pub open spec fn keepable<W>(promise: Promise<ReadResult, W>) -> bool {
    promise.driver matches Driver::Owner(state) && !state.completed
}

/// What the stream does with what its bridge reported.
///
/// Nothing yet: the bridge stays active. The end: the stream has ended. A
/// chunk: it is the next item. No chunk though not at the end: an error
/// item, and the stream goes on. A rejection: an error item with the
/// rejection's message, and the stream has ended.
pub open spec fn emitted<W>(
    promise: Promise<ReadResult, W>,
    polled: Polled<PromiseResult<ReadResult>>,
    active: Option<Promise<ReadResult, W>>,
    finished: bool,
    out: Polled<Option<Item>>,
) -> bool {
    match polled {
        Polled::Pending => active == Some(promise) && !finished && out is Pending,
        Polled::Ready(PromiseResult::Fulfilled(read)) => {
            &&& active is None
            &&& finished == read.done
            &&& if read.done {
                out == Polled::Ready(None::<Item>)
            } else {
                match read.value {
                    Some(chunk) => out == Polled::Ready(Some(Ok::<Vec<u8>, String>(chunk))),
                    None => out matches Polled::Ready(Some(Err(m))) && m@ == no_chunk(),
                }
            }
        },
        Polled::Ready(PromiseResult::Rejected(message)) => {
            &&& active is None
            &&& finished
            &&& out == Polled::Ready(Some(Err::<Vec<u8>, String>(message)))
        },
    }
}

impl<W> ReadableStream<W> {
    #[verifier::type_invariant]
    spec fn active_is_pending(&self) -> bool {
        match self.current_promise {
            Some(promise) => keepable(promise) && !self.finished,
            None => true,
        }
    }

    /// The handle of the read callable.
    pub closed spec fn read_handle(&self) -> usize {
        self.read_fn
    }

    /// The bridge of the read that is under way, if any.
    pub closed spec fn active(&self) -> Option<Promise<ReadResult, W>> {
        self.current_promise
    }

    /// Whether the stream has ended.
    pub closed spec fn finished(&self) -> bool {
        self.finished
    }

    /// A stream over the read callable behind `read_fn`; nothing is read
    /// yet.
    pub fn new(read_fn: usize) -> (stream: Self)
        ensures
            stream.read_handle() == read_fn,
            stream.active() is None,
            !stream.finished(),
    {
        ReadableStream { read_fn, current_promise: None, finished: false }
    }

    /// The handle of the read callable.
    pub fn read_fn(&self) -> (handle: usize)
        ensures
            handle == self.read_handle(),
    {
        self.read_fn
    }

    /// Whether the stream has ended.
    pub fn is_finished(&self) -> (r: bool)
        ensures
            r == self.finished(),
    {
        self.finished
    }

    /// Whether a read is under way.
    pub fn is_reading(&self) -> (r: bool)
        ensures
            r == self.active() is Some,
            self.active() matches Some(promise) ==> keepable(promise) && !self.finished(),
    {
        proof {
            use_type_invariant(self);
        }
        self.current_promise.is_some()
    }

    /// Takes in what the bridge `promise` reported, and says what the pull
    /// gives: `emitted` is the whole table.
    pub fn emit(&mut self, promise: Promise<ReadResult, W>, polled: Polled<PromiseResult<ReadResult>>) -> (out:
        Polled<Option<Item>>)
        requires
            old(self).active() is None,
            !old(self).finished(),
            polled is Pending ==> keepable(promise),
        ensures
            final(self).read_handle() == old(self).read_handle(),
            emitted(promise, polled, final(self).active(), final(self).finished(), out),
    {
        match polled {
            Polled::Pending => {
                self.current_promise = Some(promise);
                Polled::Pending
            },
            Polled::Ready(PromiseResult::Fulfilled(read)) => {
                if read.done {
                    self.finished = true;
                    Polled::Ready(None)
                } else {
                    match read.value {
                        Some(chunk) => Polled::Ready(Some(Ok(chunk))),
                        None => Polled::Ready(
                            Some(Err(String::from_str("Read returned no chunk while not done."))),
                        ),
                    }
                }
            },
            Polled::Ready(PromiseResult::Rejected(message)) => {
                self.finished = true;
                Polled::Ready(Some(Err(message)))
            },
        }
    }

    /// One pull, for the task `waker`.
    ///
    /// A stream that has ended gives `Ready(None)` and invokes nothing.
    /// Otherwise, where no read is under way, `read` is invoked once on the
    /// read handle and its answer becomes the active bridge; `poll` is then
    /// invoked once on the active bridge's handle, as `Promise::poll_data`
    /// does, and `emit` takes in what the bridge reported.
    pub fn poll_next<R, P, D>(&mut self, read: R, poll: P, decode: D, waker: W) -> (out: Polled<
        Option<Item>,
    >) where
        R: FnOnce(usize) -> usize,
        P: FnOnce(usize) -> Option<Vec<u8>>,
        D: FnOnce(&[u8]) -> Result<PromiseResult<ReadResult>, String>,

        requires
            call_requires(read, (old(self).read_handle(),)),
            forall|handle: usize| call_requires(poll, (handle,)),
            forall|bytes: &[u8]| call_requires(decode, (bytes,)),
        ensures
            final(self).read_handle() == old(self).read_handle(),
            old(self).finished() ==> {
                &&& final(self).finished()
                &&& final(self).active() is None
                &&& out == Polled::Ready(None::<Item>)
            },
            !old(self).finished() ==> exists|
                handle: usize,
                raw: Option<Vec<u8>>,
                polled: Polled<PromiseResult<ReadResult>>,
            |
                {
                    &&& match old(self).active() {
                        Some(promise) => handle == promise.poll_promise,
                        None => call_ensures(read, (old(self).read_handle(),), handle),
                    }
                    &&& call_ensures(poll, (handle,), raw)
                    &&& reported(reading(raw_view(raw)), decode, polled)
                    &&& emitted(
                        Promise {
                            poll_promise: handle,
                            driver: Driver::Owner(
                                after_poll(polled_state(old(self).active()), reading(raw_view(raw)), waker),
                            ),
                            result: PhantomData,
                        },
                        polled,
                        final(self).active(),
                        final(self).finished(),
                        out,
                    )
                },
    {
        proof {
            use_type_invariant(&*self);
        }
        if self.finished {
            return Polled::Ready(None);
        }
        let mut current: Option<Promise<ReadResult, W>> = None;
        std::mem::swap(&mut self.current_promise, &mut current);
        let mut promise = match current {
            Some(promise) => promise,
            None => {
                let handle = read(self.read_fn);
                Promise::no_execute(handle)
            },
        };
        let polled = promise.poll_data(poll, decode, waker);
        self.emit(promise, polled)
    }
}

} // verus!
