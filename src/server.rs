//! The server side of the `Echo` call.
//!
//! Each call runs one consumption task: it pulls the inbound items one at a
//! time and, for each, decides what to enqueue on the bounded outbound buffer
//! and whether to go on. `EchoTask` holds that decision logic; the runtime
//! around it performs the pulls and the sends.
use vstd::prelude::*;
use crate::client::{
    after_inbounds, after_pulls, delivered, lemma_client_sends, lemma_receives_all, reported,
    sent_labels, Call, CallState,
};
use crate::buffer::{bounded_channel, max_capacity_of, Outbound};
use tokio::sync::mpsc::{Receiver, Sender};
use crate::cause::{is_broken_pipe, is_disconnect, CauseLayer};
use crate::message::{fixed_persons, EchoRequest, EchoResponse};

verus! {

/// Capacity of the bounded buffer between the consumption task and the
/// outbound stream.
pub const OUTBOUND_CAPACITY: usize = 4;

/// The service that answers `Echo` calls.
pub struct StreamingServer {}

/// Where a call's consumption task stands.
#[derive(Clone, Copy, Debug, PartialEq, Eq, Structural)]
pub enum TaskState {
    /// Pulling inbound items and enqueueing answers; a transport fault other
    /// than a broken pipe is forwarded and the task goes on pulling.
    Streaming,
    /// The inbound stream ended normally.
    Completed,
    /// The client went away (a broken pipe), or nobody reads the answers any
    /// more: the task ends without reporting anything.
    Aborted,
}

/// What pulling the inbound stream yielded.
pub enum Inbound<E> {
    /// A request.
    Item(EchoRequest),
    /// A transport fault, with its chain of causes, outermost first.
    Fault(E, Vec<CauseLayer>),
    /// The inbound stream has no more items.
    End,
}

/// What the task does after one pull.
pub enum TaskAction<E> {
    /// Enqueue this item on the outbound buffer.
    Send(Result<EchoResponse, E>),
    /// Enqueue nothing.
    Skip,
}

/// The consumption task of one call.
pub struct EchoTask {
    pub state: TaskState,
}

/// An outbound item, with a response seen as its list of persons.
pub type OutItem<E> = Result<Seq<(Seq<char>, i32)>, E>;

/// The state after handling one inbound event. Once the task has left
/// `Streaming` it pulls nothing more, and nothing changes it.
pub open spec fn step_state<E>(s: TaskState, ev: Inbound<E>) -> TaskState {
    if s != TaskState::Streaming {
        s
    } else {
        match ev {
            Inbound::Item(_) => TaskState::Streaming,
            Inbound::Fault(_, causes) => if is_disconnect(causes@) {
                TaskState::Aborted
            } else {
                TaskState::Streaming
            },
            Inbound::End => TaskState::Completed,
        }
    }
}

/// What handling one inbound event enqueues: the fixed answer for a request,
/// the fault itself unless it is a disconnect, nothing otherwise.
pub open spec fn step_output<E>(s: TaskState, ev: Inbound<E>) -> Seq<OutItem<E>> {
    if s != TaskState::Streaming {
        seq![]
    } else {
        match ev {
            Inbound::Item(_) => seq![Ok(fixed_persons())],
            Inbound::Fault(e, causes) => if is_disconnect(causes@) {
                seq![]
            } else {
                seq![Err(e)]
            },
            Inbound::End => seq![],
        }
    }
}

/// The items that an action enqueues.
pub open spec fn action_output<E>(a: TaskAction<E>) -> Seq<OutItem<E>> {
    match a {
        TaskAction::Send(Ok(resp)) => seq![Ok(resp@)],
        TaskAction::Send(Err(e)) => seq![Err(e)],
        TaskAction::Skip => seq![],
    }
}

/// The state after handling a whole sequence of inbound events.
pub open spec fn run_state<E>(s: TaskState, evs: Seq<Inbound<E>>) -> TaskState
    decreases evs.len(),
{
    if evs.len() == 0 {
        s
    } else {
        run_state(step_state(s, evs[0]), evs.drop_first())
    }
}

/// Everything enqueued while handling a sequence of inbound events, in order.
pub open spec fn run_output<E>(s: TaskState, evs: Seq<Inbound<E>>) -> Seq<OutItem<E>>
    decreases evs.len(),
{
    if evs.len() == 0 {
        seq![]
    } else {
        step_output(s, evs[0]) + run_output(step_state(s, evs[0]), evs.drop_first())
    }
}

/// How many of the events the task pulls: it stops pulling once it has left
/// `Streaming`.
pub open spec fn pulled<E>(s: TaskState, evs: Seq<Inbound<E>>) -> nat
    decreases evs.len(),
{
    if evs.len() == 0 || s != TaskState::Streaming {
        0
    } else {
        1 + pulled(step_state(s, evs[0]), evs.drop_first())
    }
}

/// Every event of the sequence is a request.
pub open spec fn all_items<E>(evs: Seq<Inbound<E>>) -> bool {
    forall|i: int| 0 <= i < evs.len() ==> (#[trigger] evs[i]) is Item
}

/// `n` successful responses.
pub open spec fn answers<E>(n: nat) -> Seq<OutItem<E>> {
    Seq::new(n, |i: int| Ok(fixed_persons()))
}

impl StreamingServer {
    /// A server with no state of its own: every call keeps its own.
    pub fn new() -> (r: StreamingServer) {
        StreamingServer {}
    }

    /// The bounded buffer of a new call: the consumption task sends on the
    /// first half, the outbound stream reads the second.
    pub fn outbound_buffer(&self) -> (r: (Sender<Outbound>, Receiver<Outbound>))
        ensures
            max_capacity_of(r.0) == OUTBOUND_CAPACITY,
    {
        bounded_channel(OUTBOUND_CAPACITY)
    }

    /// Starts the consumption task of a new call.
    pub fn start_echo(&self) -> (r: EchoTask)
        ensures
            r.state == TaskState::Streaming,
    {
        EchoTask { state: TaskState::Streaming }
    }
}

impl EchoTask {
    /// Whether the task has ended and pulls no more inbound items.
    pub fn is_finished(&self) -> (r: bool)
        ensures
            r == (self.state != TaskState::Streaming),
    {
        !matches!(self.state, TaskState::Streaming)
    }

    /// Handles one inbound event: returns what to enqueue, and moves to the
    /// next state.
    pub fn step<E>(&mut self, event: Inbound<E>) -> (r: TaskAction<E>)
        ensures
            final(self).state == step_state(old(self).state, event),
            action_output(r) == step_output(old(self).state, event),
    {
        if !matches!(self.state, TaskState::Streaming) {
            return TaskAction::Skip;
        }
        match event {
            Inbound::Item(_) => TaskAction::Send(Ok(EchoResponse::echo_reply())),
            Inbound::Fault(err, causes) => {
                if is_broken_pipe(&causes) {
                    self.state = TaskState::Aborted;
                    TaskAction::Skip
                } else {
                    TaskAction::Send(Err(err))
                }
            },
            Inbound::End => {
                self.state = TaskState::Completed;
                TaskAction::Skip
            },
        }
    }

    /// The outbound buffer refused an item: its reader has gone away, so the
    /// task ends quietly.
    pub fn outbound_closed(&mut self)
        ensures
            final(self).state == (if old(self).state == TaskState::Streaming {
                TaskState::Aborted
            } else {
                old(self).state
            }),
    {
        if matches!(self.state, TaskState::Streaming) {
            self.state = TaskState::Aborted;
        }
    }
}

/// Once the task has left `Streaming`, further events change nothing,
/// enqueue nothing, and are not pulled.
pub proof fn lemma_finished_is_final<E>(s: TaskState, evs: Seq<Inbound<E>>)
    requires
        s != TaskState::Streaming,
    ensures
        run_state(s, evs) == s,
        run_output(s, evs) == Seq::<OutItem<E>>::empty(),
        pulled(s, evs) == 0,
    decreases evs.len(),
{
    if evs.len() > 0 {
        lemma_finished_is_final(s, evs.drop_first());
    }
}

/// Handling `a` and then `b` is handling `a + b`: the outputs follow one
/// another in order, and the pulls add up.
pub proof fn lemma_run_concat<E>(s: TaskState, a: Seq<Inbound<E>>, b: Seq<Inbound<E>>)
    ensures
        run_state(s, a + b) == run_state(run_state(s, a), b),
        run_output(s, a + b) == run_output(s, a) + run_output(run_state(s, a), b),
        pulled(s, a + b) == pulled(s, a) + pulled(run_state(s, a), b),
    decreases a.len(),
{
    if a.len() == 0 {
        assert(a + b =~= b);
        assert(run_output(s, a) + run_output(s, b) =~= run_output(s, b));
    } else {
        let s1 = step_state(s, a[0]);
        assert((a + b).drop_first() =~= a.drop_first() + b);
        assert((a + b)[0] == a[0]);
        lemma_run_concat(s1, a.drop_first(), b);
        assert(run_output(s, a + b) =~= step_output(s, a[0]) + (run_output(s1, a.drop_first())
            + run_output(run_state(s, a), b)));
        assert(run_output(s, a + b) =~= run_output(s, a) + run_output(run_state(s, a), b));
        if s != TaskState::Streaming {
            lemma_finished_is_final(s, a);
            lemma_finished_is_final(s, b);
        }
    }
}

/// What is enqueued for a prefix of the inbound events is a prefix of what
/// is enqueued for all of them: answers never change or move once enqueued.
pub proof fn lemma_output_prefix<E>(s: TaskState, evs: Seq<Inbound<E>>, k: int)
    requires
        0 <= k <= evs.len(),
    ensures
        run_output(s, evs.take(k)).len() <= run_output(s, evs).len(),
        run_output(s, evs.take(k)) == run_output(s, evs).take(
            run_output(s, evs.take(k)).len() as int,
        ),
{
    assert(evs =~= evs.take(k) + evs.skip(k));
    lemma_run_concat(s, evs.take(k), evs.skip(k));
    let a = run_output(s, evs.take(k));
    assert(run_output(s, evs).take(a.len() as int) =~= a);
}

/// While only requests arrive, the task keeps streaming and answers each of
/// them, in order, with the fixed list of persons: answer `i` is the
/// handling of request `i`.
pub proof fn lemma_requests_answered<E>(evs: Seq<Inbound<E>>)
    requires
        all_items(evs),
    ensures
        run_state(TaskState::Streaming, evs) == TaskState::Streaming,
        run_output(TaskState::Streaming, evs) == answers::<E>(evs.len()),
        pulled(TaskState::Streaming, evs) == evs.len(),
    decreases evs.len(),
{
    if evs.len() > 0 {
        let rest = evs.drop_first();
        assert(evs[0] is Item);
        assert forall|i: int| 0 <= i < rest.len() implies (#[trigger] rest[i]) is Item by {
            assert(rest[i] == evs[i + 1]);
        }
        lemma_requests_answered(rest);
        assert(run_output(TaskState::Streaming, evs) =~= answers::<E>(evs.len()));
    }
}

/// A whole call without faults: `n` requests and then the end of the inbound
/// stream give exactly `n` answers, each the fixed list, in the order of
/// the requests, and the task completes after pulling everything.
pub proof fn lemma_round_trip<E>(requests: Seq<Inbound<E>>)
    requires
        all_items(requests),
    ensures
        run_output(TaskState::Streaming, requests.push(Inbound::End)) == answers::<E>(
            requests.len(),
        ),
        run_state(TaskState::Streaming, requests.push(Inbound::End)) == TaskState::Completed,
        pulled(TaskState::Streaming, requests.push(Inbound::End)) == requests.len() + 1,
{
    let end: Seq<Inbound<E>> = seq![Inbound::End];
    assert(requests.push(Inbound::End) =~= requests + end);
    lemma_requests_answered(requests);
    lemma_run_concat(TaskState::Streaming, requests, end);
    assert(end[0] == Inbound::<E>::End);
    assert(end.drop_first() =~= Seq::<Inbound<E>>::empty());
    assert(run_state(TaskState::Completed, end.drop_first()) == TaskState::Completed);
    assert(run_output(TaskState::Completed, end.drop_first()) == Seq::<OutItem<E>>::empty());
    assert(pulled(TaskState::Completed, end.drop_first()) == 0);
    assert(answers::<E>(requests.len()) + Seq::<OutItem<E>>::empty() =~= answers::<E>(
        requests.len(),
    ));
}

/// A call with no requests: the inbound stream ends at once, nothing is
/// enqueued, and the task completes.
pub proof fn lemma_no_requests<E>()
    ensures
        run_output(TaskState::Streaming, seq![Inbound::<E>::End]) == Seq::<OutItem<E>>::empty(),
        run_state(TaskState::Streaming, seq![Inbound::<E>::End]) == TaskState::Completed,
{
    lemma_round_trip(Seq::<Inbound<E>>::empty());
    assert(Seq::<Inbound<E>>::empty().push(Inbound::End) =~= seq![Inbound::<E>::End]);
}

/// What the task enqueues depends only on which events are requests, not on
/// what the requests say: two inbound sequences that differ only in the
/// content of their requests give the same outbound items.
pub proof fn lemma_content_independent<E>(a: Seq<Inbound<E>>, b: Seq<Inbound<E>>, s: TaskState)
    requires
        a.len() == b.len(),
        forall|i: int| 0 <= i < a.len() ==> (#[trigger] a[i] is Item && b[i] is Item) || a[i] == b[i],
    ensures
        run_output(s, a) == run_output(s, b),
        run_state(s, a) == run_state(s, b),
    decreases a.len(),
{
    if a.len() > 0 {
        assert(a[0] is Item && b[0] is Item || a[0] == b[0]);
        let (ra, rb) = (a.drop_first(), b.drop_first());
        assert forall|i: int| 0 <= i < ra.len() implies (#[trigger] ra[i] is Item && rb[i] is Item)
            || ra[i] == rb[i] by {
            assert(ra[i] == a[i + 1] && rb[i] == b[i + 1]);
            assert(a[i + 1] is Item && b[i + 1] is Item || a[i + 1] == b[i + 1]);
        }
        lemma_content_independent(ra, rb, step_state(s, a[0]));
    }
}

/// A broken pipe after `n` requests: the `n` answers are enqueued, no error
/// follows them, the task ends, and nothing after the fault is pulled.
pub proof fn lemma_disconnect_ends_cleanly<E>(
    requests: Seq<Inbound<E>>,
    err: E,
    causes: Vec<CauseLayer>,
    rest: Seq<Inbound<E>>,
)
    requires
        all_items(requests),
        is_disconnect(causes@),
    ensures
        run_output(TaskState::Streaming, requests.push(Inbound::Fault(err, causes)) + rest)
            == answers::<E>(requests.len()),
        run_state(TaskState::Streaming, requests.push(Inbound::Fault(err, causes)) + rest)
            == TaskState::Aborted,
        pulled(TaskState::Streaming, requests.push(Inbound::Fault(err, causes)) + rest)
            == requests.len() + 1,
{
    let fault: Seq<Inbound<E>> = seq![Inbound::Fault(err, causes)];
    assert(requests.push(Inbound::Fault(err, causes)) + rest =~= requests + (fault + rest));
    lemma_requests_answered(requests);
    lemma_run_concat(TaskState::Streaming, requests, fault + rest);
    assert((fault + rest)[0] == Inbound::<E>::Fault(err, causes));
    assert((fault + rest).drop_first() =~= rest);
    lemma_finished_is_final(TaskState::Aborted, rest);
    assert(answers::<E>(requests.len()) + Seq::<OutItem<E>>::empty() =~= answers::<E>(
        requests.len(),
    ));
}

/// Whether an inbound event ends the consumption: the end of the stream, or
/// a broken pipe.
pub open spec fn ends_call<E>(ev: Inbound<E>) -> bool {
    match ev {
        Inbound::Item(_) => false,
        Inbound::Fault(_, causes) => is_disconnect(causes@),
        Inbound::End => true,
    }
}

/// The outbound item that answers an inbound event that does not end the
/// consumption: the fixed list for a request, the fault itself otherwise.
pub open spec fn answer_of<E>(ev: Inbound<E>) -> OutItem<E> {
    match ev {
        Inbound::Fault(e, _) => Err(e),
        _ => Ok(fixed_persons()),
    }
}

/// While no event ends the consumption, the task keeps streaming and
/// answers every event, in order: item `i` of the output answers event `i`.
pub proof fn lemma_streams_through<E>(evs: Seq<Inbound<E>>)
    requires
        forall|i: int| 0 <= i < evs.len() ==> !ends_call(#[trigger] evs[i]),
    ensures
        run_state(TaskState::Streaming, evs) == TaskState::Streaming,
        run_output(TaskState::Streaming, evs) == evs.map_values(|ev: Inbound<E>| answer_of(ev)),
        pulled(TaskState::Streaming, evs) == evs.len(),
    decreases evs.len(),
{
    if evs.len() > 0 {
        let rest = evs.drop_first();
        assert(!ends_call(evs[0]));
        assert forall|i: int| 0 <= i < rest.len() implies !ends_call(#[trigger] rest[i]) by {
            assert(rest[i] == evs[i + 1]);
        }
        lemma_streams_through(rest);
        assert(run_output(TaskState::Streaming, evs) =~= evs.map_values(
            |ev: Inbound<E>| answer_of(ev),
        ));
    }
}

/// The whole outbound stream of a call: the inbound events up to the first
/// one that ends the consumption (the end of the stream, or a broken pipe)
/// are answered one for one and in order, the fault itself for a fault and
/// the fixed list for a request; nothing else is enqueued, and nothing after
/// that event is pulled.
pub proof fn lemma_echo_stream<E>(evs: Seq<Inbound<E>>, k: int)
    requires
        0 <= k < evs.len(),
        forall|i: int| 0 <= i < k ==> !ends_call(#[trigger] evs[i]),
        ends_call(evs[k]),
    ensures
        run_output(TaskState::Streaming, evs) == evs.take(k).map_values(
            |ev: Inbound<E>| answer_of(ev),
        ),
        pulled(TaskState::Streaming, evs) == k + 1,
        run_state(TaskState::Streaming, evs) == (if evs[k] is End {
            TaskState::Completed
        } else {
            TaskState::Aborted
        }),
{
    let head = evs.take(k);
    let tail = evs.skip(k);
    assert(evs =~= head + tail);
    assert forall|i: int| 0 <= i < head.len() implies !ends_call(#[trigger] head[i]) by {
        assert(head[i] == evs[i]);
    }
    lemma_streams_through(head);
    lemma_run_concat(TaskState::Streaming, head, tail);
    assert(tail[0] == evs[k]);
    let s1 = step_state(TaskState::Streaming, tail[0]);
    assert(s1 != TaskState::Streaming);
    assert(step_output(TaskState::Streaming, tail[0]) =~= Seq::<OutItem<E>>::empty());
    lemma_finished_is_final(s1, tail.drop_first());
    assert(run_output(TaskState::Streaming, tail) =~= Seq::<OutItem<E>>::empty());
    assert(head.map_values(|ev: Inbound<E>| answer_of(ev)) + Seq::<OutItem<E>>::empty()
        =~= head.map_values(|ev: Inbound<E>| answer_of(ev)));
}

/// A fault other than a broken pipe after `n` requests, and then the end of
/// the inbound stream: the `n` answers are enqueued, then the fault itself
/// as the last item, and the task completes.
pub proof fn lemma_fault_forwarded<E>(requests: Seq<Inbound<E>>, err: E, causes: Vec<CauseLayer>)
    requires
        all_items(requests),
        !is_disconnect(causes@),
    ensures
        run_output(TaskState::Streaming, requests.push(Inbound::Fault(err, causes)).push(Inbound::End))
            == answers::<E>(requests.len()).push(Err(err)),
        run_state(TaskState::Streaming, requests.push(Inbound::Fault(err, causes)).push(Inbound::End))
            == TaskState::Completed,
        pulled(TaskState::Streaming, requests.push(Inbound::Fault(err, causes)).push(Inbound::End))
            == requests.len() + 2,
{
    let evs = requests.push(Inbound::Fault(err, causes)).push(Inbound::End);
    let k: int = requests.len() as int + 1;
    assert forall|i: int| 0 <= i < k implies !ends_call(#[trigger] evs[i]) by {
        if i < requests.len() {
            assert(evs[i] == requests[i]);
            assert(requests[i] is Item);
        } else {
            assert(evs[i] == Inbound::<E>::Fault(err, causes));
        }
    }
    assert(evs[k] == Inbound::<E>::End);
    lemma_echo_stream(evs, k);
    assert(evs.take(k).map_values(|ev: Inbound<E>| answer_of(ev)) =~= answers::<E>(
        requests.len(),
    ).push(Err(err))) by {
        assert forall|i: int| 0 <= i < requests.len() implies evs[i] is Item by {
            assert(evs[i] == requests[i]);
            assert(requests[i] is Item);
        }
        assert(evs[requests.len() as int] == Inbound::<E>::Fault(err, causes));
    }
}

/// The task runs at most one item ahead of the outbound buffer: every pulled
/// event enqueues at most one item, and every pulled event but the last one
/// enqueues exactly one. So once the buffer holds as many items as it can
/// take and nobody reads, the task has pulled at most one event more than
/// that capacity and waits.
pub proof fn lemma_pull_ahead_bounded<E>(s: TaskState, evs: Seq<Inbound<E>>)
    ensures
        run_output(s, evs).len() <= pulled(s, evs),
        pulled(s, evs) <= run_output(s, evs).len() + 1,
    decreases evs.len(),
{
    if evs.len() > 0 {
        if s != TaskState::Streaming {
            lemma_finished_is_final(s, evs);
        } else {
            let s1 = step_state(s, evs[0]);
            lemma_pull_ahead_bounded(s1, evs.drop_first());
            if s1 != TaskState::Streaming {
                lemma_finished_is_final(s1, evs.drop_first());
            }
        }
    }
}

/// The requests of a sequence, as inbound events.
pub open spec fn as_inbound<E>(reqs: Seq<EchoRequest>) -> Seq<Inbound<E>> {
    reqs.map_values(|r: EchoRequest| Inbound::<E>::Item(r))
}

/// A full round trip: what a new call for `n` requests sends, followed by
/// the end of its outbound half, is answered by exactly `n` responses, each
/// the fixed list, in the order the requests were sent.
pub proof fn lemma_client_round_trip<E>(n: usize, k: nat, reqs: Seq<EchoRequest>)
    requires
        k > n,
        reqs.map_values(|r: EchoRequest| r@) == sent_labels(
            Call { request_count: n, sent: 0, received: 0, state: CallState::Open },
            k,
        ),
    ensures
        reqs.len() == n,
        run_output(TaskState::Streaming, as_inbound::<E>(reqs).push(Inbound::End)) == answers::<E>(
            n as nat,
        ),
        run_state(TaskState::Streaming, as_inbound::<E>(reqs).push(Inbound::End))
            == TaskState::Completed,
{
    lemma_client_sends(n, k);
    assert(reqs.map_values(|r: EchoRequest| r@).len() == reqs.len());
    let evs = as_inbound::<E>(reqs);
    assert forall|i: int| 0 <= i < evs.len() implies (#[trigger] evs[i]) is Item by {
        assert(evs[i] == Inbound::<E>::Item(reqs[i]));
    }
    lemma_round_trip(evs);
}

/// A full call seen from the client: a new call for `n` requests sends the
/// first `n` labels and closes its outbound half; when the transport
/// delivers, in order, what the server enqueues for them, the client reports
/// exactly `n` responses, each the fixed list, counts them, and ends with
/// both halves closed.
pub proof fn lemma_client_sees_answers<E>(
    n: usize,
    k: nat,
    reqs: Seq<EchoRequest>,
    resps: Seq<EchoResponse>,
)
    requires
        k > n,
        n < usize::MAX,
        reqs.map_values(|r: EchoRequest| r@) == sent_labels(
            Call { request_count: n, sent: 0, received: 0, state: CallState::Open },
            k,
        ),
        resps.map_values(|r: EchoResponse| Ok::<Seq<(Seq<char>, i32)>, E>(r@)) == run_output(
            TaskState::Streaming,
            as_inbound::<E>(reqs).push(Inbound::End),
        ),
    ensures
        reported(
            after_pulls(Call { request_count: n, sent: 0, received: 0, state: CallState::Open }, k),
            delivered::<E>(resps),
        ) == Seq::new(n as nat, |i: int| fixed_persons()),
        after_inbounds(
            after_pulls(Call { request_count: n, sent: 0, received: 0, state: CallState::Open }, k),
            delivered::<E>(resps),
        ) == (Call { request_count: n, sent: n, received: n, state: CallState::Closed }),
{
    lemma_client_round_trip::<E>(n, k, reqs);
    lemma_client_sends(n, k);
    let c = Call { request_count: n, sent: n, received: 0, state: CallState::HalfClosedByClient };
    assert(resps.map_values(|r: EchoResponse| Ok::<Seq<(Seq<char>, i32)>, E>(r@)).len()
        == resps.len());
    lemma_receives_all::<E>(c, resps);
    assert forall|i: int| 0 <= i < resps.len() implies #[trigger] resps[i]@ == fixed_persons() by {
        assert(resps.map_values(|r: EchoResponse| Ok::<Seq<(Seq<char>, i32)>, E>(r@))[i]
            == answers::<E>(n as nat)[i]);
    }
    assert(resps.map_values(|r: EchoResponse| r@) =~= Seq::new(n as nat, |i: int| fixed_persons()));
}

} // verus!
