//! The repoll scheduler.
//!
//! A poll callable never announces that it has a value: the only way to find
//! out is to ask again. The scheduler keeps a registry of the bridges that
//! wait, and on each tick of a short fixed interval it sweeps the registry:
//! every task that waits on a pending bridge is handed back to be resumed,
//! so that it polls again, and every completed entry leaves.
//!
//! The registry owns the completion state of the bridges it looks after and
//! gives each a ticket. It is an ordinary value, made with `initialize` and
//! passed to whoever needs it: two registries know nothing of each other.
//! Its life is: made, then started, when the recurring sweep is set going,
//! then swept until the program ends. No request is dispatched on a registry
//! that was not started.

use vstd::prelude::*;

use crate::promise::{
    after_poll, attempt, is_pending, raw_view, reading, reported, Driver, Polled, Promise, PromiseResult, Reading,
    SharedState,
};
use crate::text::{find, lemma_find, lemma_find_is};

verus! {

/// The time between two sweeps, in microseconds.
pub const SWEEP_INTERVAL_MICROS: u64 = 500;

/// One registered bridge: its ticket and its completion state.
#[derive(Debug, PartialEq, Eq)]
pub struct Entry<W> {
    pub ticket: u64,
    pub state: SharedState<W>,
}

/// The registry of the bridges that the scheduler looks after, in the order
/// in which they were registered.
#[derive(Debug)]
pub struct PromiseExecutor<W> {
    queue: Vec<Entry<W>>,
    issued: u64,
    started: bool,
}

/// Every ticket in the registry was issued, and none stands twice.
pub open spec fn well_ticketed<W>(q: Seq<Entry<W>>, issued: nat) -> bool {
    &&& forall|i: int| 0 <= i < q.len() ==> (#[trigger] q[i]).ticket < issued
    &&& forall|i: int, j: int| 0 <= i < j < q.len() ==> (#[trigger] q[i]).ticket != (#[trigger] q[j]).ticket
}

/// The tickets of a registry, in order.
pub open spec fn tickets<W>(q: Seq<Entry<W>>) -> Seq<u64> {
    q.map_values(|e: Entry<W>| e.ticket)
}

/// Where the entry with `ticket` stands: `q.len()` where there is none.
pub open spec fn position<W>(q: Seq<Entry<W>>, ticket: u64) -> nat {
    find(tickets(q), ticket)
}

/// The registry after a poll attempt on the bridge with `ticket`: that
/// entry's state moves as `after_poll` says, and every other entry stays as
/// it is.
pub open spec fn polled<W>(q: Seq<Entry<W>>, ticket: u64, r: Reading, waker: W) -> Seq<Entry<W>> {
    let i = position(q, ticket) as int;
    q.update(i, Entry { ticket, state: after_poll(q[i].state, r, waker) })
}

/// The registry holds `ticket`, and its bridge has not resolved.
pub open spec fn pending_in<W>(q: Seq<Entry<W>>, ticket: u64) -> bool {
    exists|i: int| 0 <= i < q.len() && (#[trigger] q[i]).ticket == ticket && !q[i].state.completed
}

/// A task waits on this entry, and its bridge has not resolved.
pub open spec fn suspended<W>(e: Entry<W>) -> bool {
    !e.state.completed && e.state.waker is Some
}

/// An entry after a sweep that resumed its task.
pub open spec fn rested<W>(e: Entry<W>) -> Entry<W> {
    Entry { ticket: e.ticket, state: SharedState { completed: e.state.completed, waker: None } }
}

/// The tasks that a sweep resumes: those that wait on a pending bridge, in
/// registry order.
pub open spec fn woken<W>(q: Seq<Entry<W>>) -> Seq<W> {
    q.filter(|e: Entry<W>| suspended(e)).map_values(|e: Entry<W>| e.state.waker->0)
}

/// The registry after a sweep: the completed entries are gone, and no task
/// is recorded on those that stay.
pub open spec fn swept<W>(q: Seq<Entry<W>>) -> Seq<Entry<W>> {
    q.filter(|e: Entry<W>| !e.state.completed).map_values(|e: Entry<W>| rested(e))
}

impl<W> View for PromiseExecutor<W> {
    type V = Seq<Entry<W>>;

    closed spec fn view(&self) -> Seq<Entry<W>> {
        self.queue@
    }
}

impl<W> PromiseExecutor<W> {
    #[verifier::type_invariant]
    spec fn tickets_are_well(&self) -> bool {
        well_ticketed(self.queue@, self.issued as nat)
    }

    /// How many tickets this registry has given out.
    pub closed spec fn issued(&self) -> nat {
        self.issued as nat
    }

    /// Whether the recurring sweep was set going.
    pub closed spec fn started(&self) -> bool {
        self.started
    }

    /// An empty registry, not started.
    pub fn new() -> (executor: Self)
        ensures
            executor@ == Seq::<Entry<W>>::empty(),
            executor.issued() == 0,
            !executor.started(),
    {
        PromiseExecutor { queue: Vec::new(), issued: 0, started: false }
    }

    /// Records that the recurring sweep was set going. From now on requests
    /// may be dispatched on this registry.
    pub fn start(&mut self)
        ensures
            final(self).started(),
            final(self)@ == old(self)@,
            final(self).issued() == old(self).issued(),
    {
        proof {
            use_type_invariant(&*self);
        }
        self.started = true;
    }

    /// Whether the recurring sweep was set going.
    pub fn is_started(&self) -> (r: bool)
        ensures
            r == self.started(),
    {
        self.started
    }

    /// The number of bridges in the registry.
    pub fn len(&self) -> (n: usize)
        ensures
            n == self@.len(),
    {
        self.queue.len()
    }

    /// Whether the registry is empty.
    pub fn is_empty(&self) -> (r: bool)
        ensures
            r == (self@.len() == 0),
    {
        self.queue.len() == 0
    }

    /// Whether the registry holds `ticket` with a bridge that has not
    /// resolved.
    pub fn is_pending(&self, ticket: u64) -> (r: bool)
        ensures
            r == pending_in(self@, ticket),
            well_ticketed(self@, self.issued()),
    {
        proof {
            use_type_invariant(self);
        }
        let mut i: usize = 0;
        while i < self.queue.len()
            invariant
                i <= self.queue@.len(),
                forall|j: int| 0 <= j < i ==> (#[trigger] self.queue@[j]).ticket != ticket,
                well_ticketed(self.queue@, self.issued as nat),
            decreases self.queue.len() - i,
        {
            if self.queue[i].ticket == ticket {
                return !self.queue[i].state.completed;
            }
            i += 1;
        }
        false
    }

    /// The ticket that the next registration gets.
    pub fn next_ticket(&self) -> (ticket: u64)
        ensures
            ticket == self.issued(),
    {
        self.issued
    }

    /// One poll attempt on the registered bridge with `ticket`, given the
    /// poll callable's answer `raw`. Only that bridge's entry changes.
    pub fn poll_entry<T, D: FnOnce(&[u8]) -> Result<PromiseResult<T>, String>>(
        &mut self,
        ticket: u64,
        raw: Option<Vec<u8>>,
        waker: W,
        decode: D,
    ) -> (out: Polled<PromiseResult<T>>)
        requires
            pending_in(old(self)@, ticket),
            forall|bytes: &[u8]| call_requires(decode, (bytes,)),
        ensures
            final(self)@ == polled(old(self)@, ticket, reading(raw_view(raw)), waker),
            final(self).issued() == old(self).issued(),
            final(self).started() == old(self).started(),
            reported(reading(raw_view(raw)), decode, out),
            well_ticketed(final(self)@, final(self).issued()),
    {
        proof {
            use_type_invariant(&*self);
        }
        let out = attempt(raw, decode);
        let mut queue: Vec<Entry<W>> = Vec::new();
        std::mem::swap(&mut self.queue, &mut queue);
        let ghost before = queue@;
        let mut i: usize = 0;
        while i < queue.len() && queue[i].ticket != ticket
            invariant
                i <= queue@.len(),
                queue@ == before,
                pending_in(before, ticket),
                forall|j: int| 0 <= j < i ==> (#[trigger] before[j]).ticket != ticket,
            decreases queue.len() - i,
        {
            i += 1;
        }
        proof {
            let w = choose|w: int|
                0 <= w < before.len() && (#[trigger] before[w]).ticket == ticket && !before[w].state.completed;
            assert(i < before.len());
            assert(w == i);
            let ts = tickets(before);
            assert forall|j: int| 0 <= j < i implies ts[j] != ticket by {
                assert(ts[j] == before[j].ticket);
            }
            lemma_find_is(ts, ticket, i as int);
        }
        queue[i].state.advance(is_pending(&out), waker);
        proof {
            let after = polled(before, ticket, reading(raw_view(raw)), waker);
            assert(queue@ =~= after);
            assert forall|a: int| 0 <= a < after.len() implies (#[trigger] after[a]).ticket == before[a].ticket by {}
        }
        self.queue = queue;
        out
    }

    /// Registers a completion state and returns its ticket.
    pub(crate) fn add_from_shared_state(&mut self, shared_state: SharedState<W>) -> (ticket: u64)
        requires
            old(self).issued() < u64::MAX,
        ensures
            ticket == old(self).issued(),
            final(self).issued() == old(self).issued() + 1,
            final(self).started() == old(self).started(),
            final(self)@ == old(self)@.push(Entry { ticket, state: shared_state }),
            well_ticketed(final(self)@, final(self).issued()),
    {
        proof {
            use_type_invariant(&*self);
        }
        let ticket = self.issued;
        let mut queue: Vec<Entry<W>> = Vec::new();
        std::mem::swap(&mut self.queue, &mut queue);
        queue.push(Entry { ticket, state: shared_state });
        self.issued = ticket + 1;
        self.queue = queue;
        ticket
    }
}

/// Makes the registry: empty, and not started.
pub fn initialize<W>() -> (executor: PromiseExecutor<W>)
    ensures
        executor@ == Seq::<Entry<W>>::empty(),
        executor.issued() == 0,
        !executor.started(),
{
    PromiseExecutor::new()
}

/// Hands a self-driven bridge over to the scheduler: its completion state
/// moves into the registry. A bridge that is executor-managed already stays
/// as it is, and so does the registry.
pub fn add_promise<T, W>(executor: &mut PromiseExecutor<W>, promise: &mut Promise<T, W>)
    requires
        old(executor).issued() < u64::MAX,
    ensures
        final(promise).poll_promise == old(promise).poll_promise,
        final(executor).started() == old(executor).started(),
        match old(promise).driver {
            Driver::Owner(state) => {
                &&& final(promise).driver == Driver::<W>::Executor(old(executor).issued() as u64)
                &&& final(executor)@ == old(executor)@.push(
                    Entry { ticket: old(executor).issued() as u64, state },
                )
                &&& final(executor).issued() == old(executor).issued() + 1
            },
            Driver::Executor(_) => {
                &&& final(promise).driver == old(promise).driver
                &&& final(executor)@ == old(executor)@
                &&& final(executor).issued() == old(executor).issued()
            },
        },
{
    let mut driver = Driver::Executor(executor.next_ticket());
    match promise.driver {
        Driver::Owner(_) => {
            std::mem::swap(&mut promise.driver, &mut driver);
        },
        Driver::Executor(_) => {},
    }
    match driver {
        Driver::Owner(state) => {
            executor.add_from_shared_state(state);
        },
        Driver::Executor(_) => {},
    }
}

/// Polling one bridge leaves every other bridge of the registry as it was:
/// the same entries stand at the same places, and only the polled one may
/// have changed.
pub proof fn lemma_poll_touches_one<W>(q: Seq<Entry<W>>, issued: nat, ticket: u64, r: Reading, waker: W)
    requires
        well_ticketed(q, issued),
        pending_in(q, ticket),
    ensures
        polled(q, ticket, r, waker).len() == q.len(),
        well_ticketed(polled(q, ticket, r, waker), issued),
        forall|j: int|
            0 <= j < q.len() && (#[trigger] q[j]).ticket != ticket ==> polled(q, ticket, r, waker)[j] == q[j],
        forall|other: u64|
            other != ticket ==> (pending_in(polled(q, ticket, r, waker), other) <==> pending_in(q, other)),
        pending_in(polled(q, ticket, r, waker), ticket) <==> r is NotReady,
{
    let after = polled(q, ticket, r, waker);
    let ts = tickets(q);
    let i = position(q, ticket) as int;
    lemma_find(ts, ticket);
    let w = choose|w: int| 0 <= w < q.len() && (#[trigger] q[w]).ticket == ticket && !q[w].state.completed;
    assert(ts[w] == ticket);
    assert(i < q.len());
    assert(ts[i] == q[i].ticket);
    assert forall|a: int| 0 <= a < after.len() implies (#[trigger] after[a]).ticket == q[a].ticket by {}
    assert forall|other: u64| other != ticket implies (pending_in(after, other) <==> pending_in(q, other)) by {
        if pending_in(q, other) {
            let a = choose|a: int| 0 <= a < q.len() && (#[trigger] q[a]).ticket == other && !q[a].state.completed;
            assert(after[a] == q[a]);
        }
        if pending_in(after, other) {
            let a = choose|a: int|
                0 <= a < after.len() && (#[trigger] after[a]).ticket == other && !after[a].state.completed;
            assert(after[a] == q[a]);
        }
    }
    if r is NotReady {
        assert(after[i].ticket == ticket && !after[i].state.completed);
    }
    if pending_in(after, ticket) {
        let a = choose|a: int|
            0 <= a < after.len() && (#[trigger] after[a]).ticket == ticket && !after[a].state.completed;
        assert(q[a].ticket == ticket);
        assert(a == i);
    }
}

/// One sweep of the registry.
///
/// Returns the tasks to resume: every task recorded on an entry that has not
/// completed, in registry order. Those entries stay, with no task recorded;
/// every completed entry leaves. No entry's completion changes.
pub fn run<W>(executor: &mut PromiseExecutor<W>) -> (tasks: Vec<W>)
    ensures
        tasks@ == woken(old(executor)@),
        final(executor)@ == swept(old(executor)@),
        final(executor).issued() == old(executor).issued(),
        final(executor).started() == old(executor).started(),
        well_ticketed(final(executor)@, final(executor).issued()),
{
    proof {
        use_type_invariant(&*executor);
    }
    let mut entries: Vec<Entry<W>> = Vec::new();
    std::mem::swap(&mut executor.queue, &mut entries);
    let ghost before = entries@;
    let mut tasks: Vec<W> = Vec::new();
    let mut kept: Vec<Entry<W>> = Vec::new();
    for entry in it: entries
        invariant
            it.seq() == before,
            tasks@ == woken(before.take(it.index() as int)),
            kept@ == swept(before.take(it.index() as int)),
    {
        proof {
            let i = it.index() as int;
            lemma_sweep_step(before.take(i + 1));
            assert(before.take(i + 1).drop_last() =~= before.take(i));
        }
        let Entry { ticket, state } = entry;
        if !state.completed {
            match state.waker {
                Some(waker) => {
                    tasks.push(waker);
                },
                None => {},
            }
            kept.push(Entry { ticket, state: SharedState { completed: false, waker: None } });
        }
    }
    proof {
        assert(before.take(before.len() as int) =~= before);
        lemma_swept_tickets(before, executor.issued as nat);
    }
    executor.queue = kept;
    tasks
}

/// How one more entry at the end changes what a sweep does.
pub proof fn lemma_sweep_step<W>(q: Seq<Entry<W>>)
    requires
        q.len() > 0,
    ensures
        woken(q) == if suspended(q.last()) {
            woken(q.drop_last()).push(q.last().state.waker->0)
        } else {
            woken(q.drop_last())
        },
        swept(q) == if q.last().state.completed {
            swept(q.drop_last())
        } else {
            swept(q.drop_last()).push(rested(q.last()))
        },
{
    reveal(Seq::filter);
    let waits = |e: Entry<W>| suspended(e);
    let stays = |e: Entry<W>| !e.state.completed;
    let task = |e: Entry<W>| e.state.waker->0;
    let rest = |e: Entry<W>| rested(e);
    let front = q.drop_last();
    if suspended(q.last()) {
        assert(q.filter(waits) == front.filter(waits).push(q.last()));
        assert(q.filter(waits).map_values(task) =~= front.filter(waits).map_values(task).push(task(q.last())));
    } else {
        assert(q.filter(waits) == front.filter(waits));
    }
    if q.last().state.completed {
        assert(q.filter(stays) == front.filter(stays));
    } else {
        assert(q.filter(stays) == front.filter(stays).push(q.last()));
        assert(q.filter(stays).map_values(rest) =~= front.filter(stays).map_values(rest).push(rest(q.last())));
    }
}

/// A sweep removes an entry only once its bridge has completed: each entry
/// that it leaves is pending, has no task recorded, and stood in the
/// registry before, pending; and each entry that was pending is still
/// there.
pub proof fn lemma_swept_from<W>(q: Seq<Entry<W>>)
    ensures
        swept(q).len() <= q.len(),
        forall|k: int|
            0 <= k < swept(q).len() ==> {
                &&& !(#[trigger] swept(q)[k]).state.completed
                &&& swept(q)[k].state.waker is None
                &&& pending_in(q, swept(q)[k].ticket)
            },
        forall|i: int|
            0 <= i < q.len() && !(#[trigger] q[i]).state.completed ==> pending_in(swept(q), q[i].ticket),
    decreases q.len(),
{
    if q.len() == 0 {
        reveal(Seq::filter);
        assert(swept(q) =~= Seq::<Entry<W>>::empty());
    } else {
        let front = q.drop_last();
        lemma_sweep_step(q);
        lemma_swept_from(front);
        let s = swept(q);
        let sf = swept(front);
        assert forall|k: int| 0 <= k < s.len() implies {
            &&& !(#[trigger] s[k]).state.completed
            &&& s[k].state.waker is None
            &&& pending_in(q, s[k].ticket)
        } by {
            if k < sf.len() {
                assert(s[k] == sf[k]);
                let i = choose|i: int|
                    0 <= i < front.len() && (#[trigger] front[i]).ticket == sf[k].ticket
                        && !front[i].state.completed;
                assert(q[i] == front[i]);
            } else {
                assert(s[k] == rested(q.last()));
                assert(q[q.len() - 1] == q.last());
            }
        }
        assert forall|i: int| 0 <= i < q.len() && !(#[trigger] q[i]).state.completed implies pending_in(
            s,
            q[i].ticket,
        ) by {
            if i < front.len() {
                assert(front[i] == q[i]);
                let k = choose|k: int|
                    0 <= k < sf.len() && (#[trigger] sf[k]).ticket == q[i].ticket && !sf[k].state.completed;
                assert(s[k] == sf[k]);
            } else {
                assert(s[s.len() - 1] == rested(q.last()));
            }
        }
    }
}

/// After a sweep every ticket is still one that was issued, and none stands
/// twice.
pub proof fn lemma_swept_tickets<W>(q: Seq<Entry<W>>, issued: nat)
    requires
        well_ticketed(q, issued),
    ensures
        well_ticketed(swept(q), issued),
    decreases q.len(),
{
    if q.len() == 0 {
        reveal(Seq::filter);
        assert(swept(q) =~= Seq::<Entry<W>>::empty());
    } else {
        let front = q.drop_last();
        assert(well_ticketed(front, issued)) by {
            assert forall|i: int| 0 <= i < front.len() implies (#[trigger] front[i]).ticket < issued by {
                assert(front[i] == q[i]);
            }
            assert forall|i: int, j: int| 0 <= i < j < front.len() implies (#[trigger] front[i]).ticket != (
            #[trigger] front[j]).ticket by {
                assert(front[i] == q[i]);
                assert(front[j] == q[j]);
            }
        }
        lemma_sweep_step(q);
        lemma_swept_tickets(front, issued);
        lemma_swept_from(front);
        let s = swept(q);
        let sf = swept(front);
        if !q.last().state.completed {
            assert forall|i: int| 0 <= i < s.len() implies (#[trigger] s[i]).ticket < issued by {
                if i < sf.len() {
                    assert(s[i] == sf[i]);
                } else {
                    assert(q[q.len() - 1] == q.last());
                }
            }
            assert forall|i: int, j: int| 0 <= i < j < s.len() implies (#[trigger] s[i]).ticket != (
            #[trigger] s[j]).ticket by {
                assert(s[i] == sf[i]);
                if j < sf.len() {
                    assert(s[j] == sf[j]);
                } else {
                    let a = choose|a: int|
                        0 <= a < front.len() && (#[trigger] front[a]).ticket == sf[i].ticket
                            && !front[a].state.completed;
                    assert(front[a] == q[a]);
                    assert(q[q.len() - 1] == q.last());
                }
            }
        }
    }
}

/// Once every bridge in the registry has completed, a sweep empties it.
pub proof fn lemma_sweep_empties<W>(q: Seq<Entry<W>>)
    requires
        forall|i: int| 0 <= i < q.len() ==> (#[trigger] q[i]).state.completed,
    ensures
        swept(q).len() == 0,
        woken(q).len() == 0,
    decreases q.len(),
{
    if q.len() == 0 {
        reveal(Seq::filter);
    } else {
        let front = q.drop_last();
        assert forall|i: int| 0 <= i < front.len() implies (#[trigger] front[i]).state.completed by {
            assert(front[i] == q[i]);
        }
        lemma_sweep_step(q);
        lemma_sweep_empties(front);
        assert(q[q.len() - 1] == q.last());
    }
}

} // verus!
