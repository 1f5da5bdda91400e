//! The promise bridge: one pending foreign operation, found out about by
//! asking its poll callable again.
//!
//! A bridge starts pending and resolves once, to a fulfilled value or to a
//! rejection. Each poll attempt invokes the callable once. While the callable
//! has no value the caller's task handle is recorded and the bridge stays
//! pending; the caller suspends and is resumed later, by the scheduler's
//! sweep or by the bridge's owner.

pub mod executor;

use std::marker::PhantomData;
use vstd::prelude::*;
use vstd::string::*;

use crate::json::{deserialize_json_buffer, payload, DecodeError, WireError};
use crate::promise::executor::{pending_in, polled, Entry, PromiseExecutor};
use crate::HandlerReq;

verus! {

/// How a foreign operation ended.
#[derive(Debug, PartialEq, Eq)]
pub enum PromiseResult<T> {
    Fulfilled(T),
    Rejected(String),
}

/// What a poll attempt has to report: the outcome, or that there is none yet.
#[derive(Debug, PartialEq, Eq)]
pub enum Polled<T> {
    Ready(T),
    Pending,
}

/// The completion state that a bridge shares with the scheduler: whether the
/// bridge has resolved, and the handle of the task that waits for it.
#[derive(Debug, PartialEq, Eq)]
pub struct SharedState<W> {
    pub completed: bool,
    pub waker: Option<W>,
}

/// Who repolls a bridge.
#[derive(Debug, PartialEq, Eq)]
pub enum Driver<W> {
    /// Self-driven: the bridge holds its own completion state, and whoever
    /// owns the bridge polls it again on its own schedule.
    Owner(SharedState<W>),
    /// Executor-managed: the completion state stands in the scheduler's
    /// registry under this ticket, and the sweep resumes the waiting task.
    Executor(u64),
}

/// A bridge to one pending foreign operation.
///
/// `poll_promise` is the handle of the operation's poll callable; `T` is what
/// the operation's payload decodes to.
#[derive(Debug, PartialEq, Eq)]
pub struct Promise<T, W> {
    pub poll_promise: usize,
    pub driver: Driver<W>,
    pub result: PhantomData<T>,
}

/// How a poll callable's answer reads.
pub enum Reading {
    /// The null address: the foreign side failed for good.
    Null,
    /// A buffer that carries no value yet.
    NotReady,
    /// A buffer that cannot be framed.
    Malformed(WireError),
    /// A buffer that carries this payload.
    Value(Seq<u8>),
}

/// Reads a poll callable's answer; `None` stands for the null address.
pub open spec fn reading(raw: Option<Seq<u8>>) -> Reading {
    match raw {
        None => Reading::Null,
        Some(buf) => match payload(buf) {
            Err(e) => Reading::Malformed(e),
            Ok(None) => Reading::NotReady,
            Ok(Some(p)) => Reading::Value(p),
        },
    }
}

/// The message of a bridge whose poll callable returned the null address.
pub open spec fn internal_error() -> Seq<char> {
    "Internal server error."@
}

/// The message of a bridge whose poll callable returned a buffer that cannot
/// be framed.
pub open spec fn malformed_buffer() -> Seq<char> {
    "Malformed wire buffer."@
}

/// The shared state after a poll attempt by the task `waker`: the task is
/// recorded while there is no value, and any other answer completes the
/// bridge.
pub open spec fn after_poll<W>(state: SharedState<W>, r: Reading, waker: W) -> SharedState<W> {
    match r {
        Reading::NotReady => SharedState { completed: false, waker: Some(waker) },
        _ => SharedState { completed: true, waker: state.waker },
    }
}

/// What a decoder's answer resolves the bridge to: the decoded result, or a
/// rejection that carries the decoder's message.
pub open spec fn settled<T>(decoded: Result<PromiseResult<T>, String>, out: PromiseResult<T>) -> bool {
    match decoded {
        Ok(result) => out == result,
        Err(message) => out matches PromiseResult::Rejected(m) && m@ == message@,
    }
}

/// What a poll attempt reports for an answer that reads as `r`.
pub open spec fn reported<T, D: FnOnce(&[u8]) -> Result<PromiseResult<T>, String>>(
    r: Reading,
    decode: D,
    out: Polled<PromiseResult<T>>,
) -> bool {
    match r {
        Reading::Null => out matches Polled::Ready(PromiseResult::Rejected(m)) && m@ == internal_error(),
        Reading::NotReady => out is Pending,
        Reading::Malformed(_) => out matches Polled::Ready(PromiseResult::Rejected(m)) && m@
            == malformed_buffer(),
        Reading::Value(p) => out matches Polled::Ready(result) && exists|
            bytes: &[u8],
            decoded: Result<PromiseResult<T>, String>,
        |
            bytes@ == p && call_ensures(decode, (bytes,), decoded) && settled(decoded, result),
    }
}

/// The view of a poll callable's answer.
pub open spec fn raw_view(raw: Option<Vec<u8>>) -> Option<Seq<u8>> {
    match raw {
        None => None,
        Some(buf) => Some(buf@),
    }
}

/// Resolves a bridge from what the decoder made of the payload. A payload
/// that the decoder refuses rejects the bridge with the decoder's message.
pub fn settle<T>(decoded: Result<PromiseResult<T>, String>) -> (out: PromiseResult<T>)
    ensures
        settled(decoded, out),
{
    match decoded {
        Ok(result) => result,
        Err(message) => PromiseResult::Rejected(message),
    }
}

/// Reads a poll callable's answer `raw` (`None` for the null address) and
/// says what the attempt reports. The null address and a buffer that cannot
/// be framed reject the bridge; a buffer without a value reports nothing; a
/// payload goes to `decode`, and `settle` resolves the bridge from what
/// comes back.
pub fn attempt<T, D: FnOnce(&[u8]) -> Result<PromiseResult<T>, String>>(raw: Option<Vec<u8>>, decode: D) -> (out:
    Polled<PromiseResult<T>>)
    requires
        forall|bytes: &[u8]| call_requires(decode, (bytes,)),
    ensures
        reported(reading(raw_view(raw)), decode, out),
        out is Pending <==> reading(raw_view(raw)) is NotReady,
{
    let buf = match raw {
        None => {
            return Polled::Ready(PromiseResult::Rejected(String::from_str("Internal server error.")));
        },
        Some(buf) => buf,
    };
    match deserialize_json_buffer(buf.as_slice(), decode) {
        Ok(None) => Polled::Pending,
        Ok(Some(result)) => Polled::Ready(result),
        Err(DecodeError::Frame(_)) => Polled::Ready(
            PromiseResult::Rejected(String::from_str("Malformed wire buffer.")),
        ),
        Err(DecodeError::Payload(message)) => Polled::Ready(settle(Err(message))),
    }
}

impl<W> SharedState<W> {
    /// The state of a bridge that was just made: pending, with no task
    /// waiting.
    pub fn new() -> (state: Self)
        ensures
            state == (SharedState::<W> { completed: false, waker: None }),
    {
        SharedState { completed: false, waker: None }
    }

    /// Takes in the outcome of a poll attempt by the task `waker`: an
    /// attempt that reported nothing records the task, and any other
    /// completes the bridge.
    pub fn advance(&mut self, suspended: bool, waker: W)
        requires
            !old(self).completed,
        ensures
            *final(self) == if suspended {
                SharedState { completed: false, waker: Some(waker) }
            } else {
                SharedState { completed: true, waker: old(self).waker }
            },
    {
        if suspended {
            self.waker = Some(waker);
        } else {
            self.completed = true;
        }
    }

    /// One poll attempt on this state, given the callable's answer `raw`
    /// (`None` for the null address).
    ///
    /// The bridge must still be pending: a resolved bridge is not polled
    /// again, and its state is not written again. The state is completed
    /// exactly when the attempt reports an outcome.
    pub fn poll_step<T, D: FnOnce(&[u8]) -> Result<PromiseResult<T>, String>>(
        &mut self,
        raw: Option<Vec<u8>>,
        waker: W,
        decode: D,
    ) -> (out: Polled<PromiseResult<T>>)
        requires
            !old(self).completed,
            forall|bytes: &[u8]| call_requires(decode, (bytes,)),
        ensures
            *final(self) == after_poll(*old(self), reading(raw_view(raw)), waker),
            reported(reading(raw_view(raw)), decode, out),
            final(self).completed <==> out is Ready,
    {
        let out = attempt(raw, decode);
        self.advance(is_pending(&out), waker);
        out
    }
}

/// Whether a poll attempt reported nothing.
pub fn is_pending<T>(polled: &Polled<T>) -> (r: bool)
    ensures
        r == (*polled is Pending),
{
    match polled {
        Polled::Pending => true,
        Polled::Ready(_) => false,
    }
}

/// Why a handler could not be called.
#[derive(Debug, Clone, Copy, PartialEq, Eq, Structural)]
pub enum CallError {
    /// The scheduler was not started: nothing would resume the request.
    NotStarted,
    /// The handler's handle is the null handle.
    NullHandler,
    /// The handler returned no poll handle.
    NoPollHandle,
}

/// What a call of the handler gives, once the handler answered `answer`:
/// without a poll handle an error and an unchanged registry, and with one an
/// executor-managed bridge to it, registered under the next ticket.
pub open spec fn called<T, W>(
    answer: Option<usize>,
    before: PromiseExecutor<W>,
    after: PromiseExecutor<W>,
    r: Result<Promise<T, W>, CallError>,
) -> bool {
    match answer {
        None => {
            &&& r matches Err(e)
            &&& e == CallError::NoPollHandle
            &&& unchanged(before, after)
        },
        Some(poll_promise) => {
            &&& r matches Ok(promise)
            &&& promise.poll_promise == poll_promise
            &&& promise.driver == Driver::<W>::Executor(before.issued() as u64)
            &&& after@ == before@.push(
                Entry { ticket: before.issued() as u64, state: SharedState { completed: false, waker: None } },
            )
            &&& after.issued() == before.issued() + 1
            &&& after.started() == before.started()
        },
    }
}

/// The registry is as it was.
pub open spec fn unchanged<W>(before: PromiseExecutor<W>, after: PromiseExecutor<W>) -> bool {
    &&& after@ == before@
    &&& after.issued() == before.issued()
    &&& after.started() == before.started()
}

/// Wraps the handler's answer: a poll handle becomes an executor-managed
/// bridge, and no poll handle is an error.
pub fn bridge<T, W>(answer: Option<usize>, executor: &mut PromiseExecutor<W>) -> (r: Result<
    Promise<T, W>,
    CallError,
>)
    requires
        old(executor).issued() < u64::MAX,
    ensures
        called(answer, *old(executor), *final(executor), r),
{
    match answer {
        None => Err(CallError::NoPollHandle),
        Some(poll_promise) => Ok(Promise::new(poll_promise, executor)),
    }
}

/// Calls a handler with a request context.
///
/// The context is encoded with `encode`, and `invoke` is called once with
/// the handler's handle and the encoded bytes; it has to return at once,
/// with the poll handle of the work it started. `bridge` wraps its answer.
/// A registry that was not started is an error, and so is the null handle;
/// nothing is encoded or invoked for either.
pub fn call_handler<T, W, E, I>(
    handler: usize,
    req: HandlerReq,
    encode: E,
    invoke: I,
    executor: &mut PromiseExecutor<W>,
) -> (r: Result<Promise<T, W>, CallError>) where
    E: FnOnce(&HandlerReq) -> Vec<u8>,
    I: FnOnce(usize, &[u8]) -> Option<usize>,

    requires
        old(executor).issued() < u64::MAX,
        call_requires(encode, (&req,)),
        forall|bytes: &[u8]| call_requires(invoke, (handler, bytes)),
    ensures
        !old(executor).started() ==> {
            &&& r matches Err(e)
            &&& e == CallError::NotStarted
            &&& unchanged(*old(executor), *final(executor))
        },
        old(executor).started() && handler == 0 ==> {
            &&& r matches Err(e)
            &&& e == CallError::NullHandler
            &&& unchanged(*old(executor), *final(executor))
        },
        old(executor).started() && handler != 0 ==> exists|
            encoded: Vec<u8>,
            bytes: &[u8],
            answer: Option<usize>,
        |
            {
                &&& call_ensures(encode, (&req,), encoded)
                &&& bytes@ == encoded@
                &&& call_ensures(invoke, (handler, bytes), answer)
                &&& called(answer, *old(executor), *final(executor), r)
            },
{
    if !executor.is_started() {
        return Err(CallError::NotStarted);
    }
    if handler == 0 {
        return Err(CallError::NullHandler);
    }
    let encoded = encode(&req);
    let answer = invoke(handler, encoded.as_slice());
    bridge(answer, executor)
}

/// The state after a run of poll attempts, one answer and one task each.
pub open spec fn after_polls<W>(state: SharedState<W>, readings: Seq<Reading>, wakers: Seq<W>) -> SharedState<W>
    recommends
        readings.len() == wakers.len(),
    decreases readings.len(),
{
    if readings.len() == 0 {
        state
    } else {
        after_poll(
            after_polls(state, readings.drop_last(), wakers.drop_last()),
            readings.last(),
            wakers.last(),
        )
    }
}

/// A poll source that has no value for its first attempts and a value at the
/// last one suspends the bridge at each of the first attempts, with that
/// attempt's task recorded and nothing resolved, and resolves it at the last.
/// The bridge is then completed, so that no further poll can be made.
pub proof fn lemma_suspends_until_value<W>(state: SharedState<W>, readings: Seq<Reading>, wakers: Seq<W>)
    requires
        !state.completed,
        readings.len() == wakers.len(),
        readings.len() > 0,
        forall|k: int| 0 <= k < readings.len() - 1 ==> readings[k] is NotReady,
        readings.last() is Value,
    ensures
        forall|k: int|
            1 <= k < readings.len() ==> #[trigger] after_polls(state, readings.take(k), wakers.take(k)) == (
            SharedState { completed: false, waker: Some(wakers[k - 1]) }),
        after_polls(state, readings, wakers).completed,
{
    assert forall|k: int| 0 <= k < readings.len() implies !(#[trigger] after_polls(
        state,
        readings.take(k),
        wakers.take(k),
    )).completed && (k >= 1 ==> after_polls(state, readings.take(k), wakers.take(k)) == (SharedState {
        completed: false,
        waker: Some(wakers[k - 1]),
    })) by {
        lemma_pending_prefix(state, readings, wakers, k);
    }
    let n = readings.len() - 1;
    assert(readings.drop_last() =~= readings.take(n));
    assert(wakers.drop_last() =~= wakers.take(n));
}

proof fn lemma_pending_prefix<W>(state: SharedState<W>, readings: Seq<Reading>, wakers: Seq<W>, k: int)
    requires
        !state.completed,
        readings.len() == wakers.len(),
        0 <= k < readings.len(),
        forall|j: int| 0 <= j < readings.len() - 1 ==> readings[j] is NotReady,
    ensures
        !after_polls(state, readings.take(k), wakers.take(k)).completed,
        k >= 1 ==> after_polls(state, readings.take(k), wakers.take(k)) == (SharedState {
            completed: false,
            waker: Some(wakers[k - 1]),
        }),
    decreases k,
{
    if k > 0 {
        lemma_pending_prefix(state, readings, wakers, k - 1);
        assert(readings.take(k).drop_last() =~= readings.take(k - 1));
        assert(wakers.take(k).drop_last() =~= wakers.take(k - 1));
        assert(readings.take(k).last() == readings[k - 1]);
    }
}

/// A poll attempt on a buffer that carries no value reports nothing, and one
/// on a payload resolves to what the decoder makes of that payload.
pub proof fn lemma_reported<T, D: FnOnce(&[u8]) -> Result<PromiseResult<T>, String>>(
    r: Reading,
    decode: D,
    out: Polled<PromiseResult<T>>,
    result: PromiseResult<T>,
)
    requires
        reported(r, decode, out),
        r matches Reading::Value(p) ==> forall|bytes: &[u8], decoded: Result<PromiseResult<T>, String>|
            bytes@ == p && call_ensures(decode, (bytes,), decoded) ==> decoded == Ok::<
                PromiseResult<T>,
                String,
            >(result),
    ensures
        r is NotReady <==> out is Pending,
        r is Value ==> out == Polled::Ready(result),
{
}

impl<T, W> Promise<T, W> {
    /// Whether the bridge has not resolved yet; `q` is what the registry
    /// holds.
    pub open spec fn is_pending(&self, q: Seq<Entry<W>>) -> bool {
        match self.driver {
            Driver::Owner(state) => !state.completed,
            Driver::Executor(ticket) => pending_in(q, ticket),
        }
    }

    /// An executor-managed bridge to the operation behind `poll_promise`:
    /// its completion state is registered with the scheduler, which will
    /// resume whoever awaits it.
    pub fn new(poll_promise: usize, executor: &mut PromiseExecutor<W>) -> (promise: Self)
        requires
            old(executor).issued() < u64::MAX,
        ensures
            promise.poll_promise == poll_promise,
            promise.driver == Driver::<W>::Executor(old(executor).issued() as u64),
            final(executor)@ == old(executor)@.push(
                Entry {
                    ticket: old(executor).issued() as u64,
                    state: SharedState { completed: false, waker: None },
                },
            ),
            final(executor).issued() == old(executor).issued() + 1,
            final(executor).started() == old(executor).started(),
            promise.is_pending(final(executor)@),
    {
        let ticket = executor.add_from_shared_state(SharedState::new());
        proof {
            let q = executor@;
            assert(q[q.len() - 1].ticket == ticket);
        }
        Promise { poll_promise, driver: Driver::Executor(ticket), result: PhantomData }
    }

    /// A self-driven bridge to the operation behind `poll_promise`: nothing
    /// is registered, and its owner polls it.
    pub fn no_execute(poll_promise: usize) -> (promise: Self)
        ensures
            promise.poll_promise == poll_promise,
            promise.driver == Driver::<W>::Owner(SharedState { completed: false, waker: None }),
    {
        Promise { poll_promise, driver: Driver::Owner(SharedState::new()), result: PhantomData }
    }

    /// One poll attempt on a self-driven bridge, for the task `waker`.
    ///
    /// Invokes `poll` once, on the bridge's poll handle. The null address
    /// (`None`) rejects the bridge with "Internal server error."; a buffer
    /// without a value records `waker` and leaves the bridge pending; a
    /// buffer that cannot be framed rejects it; a payload goes to `decode`,
    /// and what comes back resolves the bridge.
    pub fn poll_data<P, D>(&mut self, poll: P, decode: D, waker: W) -> (out: Polled<PromiseResult<T>>) where
        P: FnOnce(usize) -> Option<Vec<u8>>,
        D: FnOnce(&[u8]) -> Result<PromiseResult<T>, String>,

        requires
            old(self).driver matches Driver::Owner(state) && !state.completed,
            call_requires(poll, (old(self).poll_promise,)),
            forall|bytes: &[u8]| call_requires(decode, (bytes,)),
        ensures
            final(self).poll_promise == old(self).poll_promise,
            exists|raw: Option<Vec<u8>>|
                {
                    &&& call_ensures(poll, (old(self).poll_promise,), raw)
                    &&& final(self).driver == Driver::Owner(
                        after_poll(old(self).driver->Owner_0, reading(raw_view(raw)), waker),
                    )
                    &&& reported(reading(raw_view(raw)), decode, out)
                },
    {
        let raw = poll(self.poll_promise);
        match &mut self.driver {
            Driver::Owner(state) => state.poll_step(raw, waker, decode),
            Driver::Executor(_) => Polled::Pending,
        }
    }

    /// One poll attempt for the task `waker`, on a bridge of either kind:
    /// as `poll_data`, with the completion state taken from the registry
    /// where the bridge is executor-managed. No other entry of the registry
    /// changes.
    pub fn poll<P, D>(&mut self, executor: &mut PromiseExecutor<W>, poll: P, decode: D, waker: W) -> (out:
        Polled<PromiseResult<T>>) where
        P: FnOnce(usize) -> Option<Vec<u8>>,
        D: FnOnce(&[u8]) -> Result<PromiseResult<T>, String>,

        requires
            old(self).is_pending(old(executor)@),
            call_requires(poll, (old(self).poll_promise,)),
            forall|bytes: &[u8]| call_requires(decode, (bytes,)),
        ensures
            final(self).poll_promise == old(self).poll_promise,
            final(executor).issued() == old(executor).issued(),
            final(executor).started() == old(executor).started(),
            exists|raw: Option<Vec<u8>>|
                {
                    &&& call_ensures(poll, (old(self).poll_promise,), raw)
                    &&& reported(reading(raw_view(raw)), decode, out)
                    &&& match old(self).driver {
                        Driver::Owner(state) => {
                            &&& final(self).driver == Driver::Owner(
                                after_poll(state, reading(raw_view(raw)), waker),
                            )
                            &&& final(executor)@ == old(executor)@
                        },
                        Driver::Executor(ticket) => {
                            &&& final(self).driver == old(self).driver
                            &&& final(executor)@ == polled(
                                old(executor)@,
                                ticket,
                                reading(raw_view(raw)),
                                waker,
                            )
                        },
                    }
                },
    {
        let raw = poll(self.poll_promise);
        match &mut self.driver {
            Driver::Owner(state) => state.poll_step(raw, waker, decode),
            Driver::Executor(ticket) => executor.poll_entry(*ticket, raw, waker, decode),
        }
    }
}

} // verus!
