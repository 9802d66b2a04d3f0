//! The client side of the `Echo` call.
//!
//! `Call` keeps the client's view of one duplex call: how many requests it
//! has sent, how many responses it has received, and which halves are still
//! open. The runtime around it feeds the outbound half from `next_request`
//! and hands every inbound event to `on_inbound`.
use vstd::prelude::*;
use crate::message::{EchoRequest, EchoResponse};
use crate::request::{echo_request, label_of};

verus! {

/// The termination state of a duplex call, as the client sees it.
#[derive(Clone, Copy, Debug, PartialEq, Eq, Structural)]
pub enum CallState {
    /// Both halves are open.
    Open,
    /// The client has closed its outbound half; responses may still come.
    HalfClosedByClient,
    /// The server has ended the inbound half; the client may still send.
    HalfClosedByServer,
    /// Both halves are closed.
    Closed,
    /// An error arrived on the inbound half; the call is over.
    Failed,
}

/// One duplex call, driven by the client.
pub struct Call {
    /// How many requests the client sends before closing its outbound half.
    pub request_count: usize,
    /// Outbound cursor: requests sent so far.
    pub sent: usize,
    /// Inbound cursor: responses received so far.
    pub received: usize,
    pub state: CallState,
}

/// What the client does with one inbound event.
pub enum ClientAction<E> {
    /// Report this response, as it arrives.
    Report(EchoResponse),
    /// The inbound half has ended: the call is done.
    Finished,
    /// An error arrived: it is fatal to the call and is handed up unchanged.
    Fatal(E),
}

/// Whether the client may still send on a call in this state.
pub open spec fn outbound_open(s: CallState) -> bool {
    s == CallState::Open || s == CallState::HalfClosedByServer
}

/// Whether the client still reads the inbound half in this state.
pub open spec fn inbound_open(s: CallState) -> bool {
    s == CallState::Open || s == CallState::HalfClosedByClient
}

/// The state after the client closes its outbound half.
pub open spec fn close_outbound(s: CallState) -> CallState {
    if s == CallState::Open {
        CallState::HalfClosedByClient
    } else {
        CallState::Closed
    }
}

/// The state after the server ends the inbound half.
pub open spec fn close_inbound(s: CallState) -> CallState {
    if s == CallState::Open {
        CallState::HalfClosedByServer
    } else {
        CallState::Closed
    }
}

/// The call after one pull of the outbound half.
pub open spec fn after_pull(c: Call) -> Call {
    if outbound_open(c.state) && c.sent < c.request_count {
        Call { sent: (c.sent + 1) as usize, ..c }
    } else if outbound_open(c.state) {
        Call { state: close_outbound(c.state), ..c }
    } else {
        c
    }
}

/// The label of the request that one pull of the outbound half yields, if any.
pub open spec fn pulled_label(c: Call) -> Option<Seq<char>> {
    if outbound_open(c.state) && c.sent < c.request_count {
        Some(label_of(c.sent as nat))
    } else {
        None
    }
}

/// The labels that `k` pulls of the outbound half yield, in order.
pub open spec fn sent_labels(c: Call, k: nat) -> Seq<Seq<char>>
    decreases k,
{
    if k == 0 {
        seq![]
    } else {
        let rest = sent_labels(after_pull(c), (k - 1) as nat);
        match pulled_label(c) {
            Some(l) => seq![l] + rest,
            None => rest,
        }
    }
}

/// The call after `k` pulls of the outbound half.
pub open spec fn after_pulls(c: Call, k: nat) -> Call
    decreases k,
{
    if k == 0 {
        c
    } else {
        after_pulls(after_pull(c), (k - 1) as nat)
    }
}

/// The call after one inbound event.
pub open spec fn after_inbound<E>(c: Call, item: Option<Result<EchoResponse, E>>) -> Call {
    if !inbound_open(c.state) {
        c
    } else {
        match item {
            Some(Ok(_)) => Call { received: (c.received + 1) as usize, ..c },
            Some(Err(_)) => Call { state: CallState::Failed, ..c },
            None => Call { state: close_inbound(c.state), ..c },
        }
    }
}

/// The response, as its list of persons, that one inbound event reports.
pub open spec fn report_of<E>(c: Call, item: Option<Result<EchoResponse, E>>) -> Seq<
    Seq<(Seq<char>, i32)>,
> {
    match item {
        Some(Ok(resp)) => if inbound_open(c.state) {
            seq![resp@]
        } else {
            seq![]
        },
        _ => seq![],
    }
}

/// The call after a sequence of inbound events.
pub open spec fn after_inbounds<E>(c: Call, items: Seq<Option<Result<EchoResponse, E>>>) -> Call
    decreases items.len(),
{
    if items.len() == 0 {
        c
    } else {
        after_inbounds(after_inbound(c, items[0]), items.drop_first())
    }
}

/// The responses that a sequence of inbound events reports, in order.
pub open spec fn reported<E>(c: Call, items: Seq<Option<Result<EchoResponse, E>>>) -> Seq<
    Seq<(Seq<char>, i32)>,
>
    decreases items.len(),
{
    if items.len() == 0 {
        seq![]
    } else {
        report_of(c, items[0]) + reported(after_inbound(c, items[0]), items.drop_first())
    }
}

/// The inbound events of a stream that delivers these responses and ends.
pub open spec fn delivered<E>(resps: Seq<EchoResponse>) -> Seq<Option<Result<EchoResponse, E>>> {
    resps.map_values(|r: EchoResponse| Some(Ok::<EchoResponse, E>(r))).push(None)
}

/// The labels of the first `n` requests, in order.
pub open spec fn request_labels(n: nat) -> Seq<Seq<char>> {
    Seq::new(n, |i: int| label_of(i as nat))
}

impl Call {
    /// The outbound cursor never passes the number of requests to send.
    pub open spec fn wf(&self) -> bool {
        self.sent <= self.request_count
    }

    /// A new call that will send `request_count` requests.
    pub fn new(request_count: usize) -> (r: Call)
        ensures
            r.request_count == request_count,
            r.sent == 0,
            r.received == 0,
            r.state == CallState::Open,
            r.wf(),
    {
        Call { request_count, sent: 0, received: 0, state: CallState::Open }
    }

    /// The next request to send, or `None` once the outbound half is closed.
    /// The pull that finds all requests sent closes the outbound half.
    pub fn next_request(&mut self) -> (r: Option<EchoRequest>)
        ensures
            *final(self) == after_pull(*old(self)),
            old(self).wf() ==> final(self).wf(),
            r is Some == (pulled_label(*old(self)) is Some),
            r matches Some(req) ==> pulled_label(*old(self)) == Some(req@),
    {
        let can_send = matches!(self.state, CallState::Open | CallState::HalfClosedByServer);
        if can_send && self.sent < self.request_count {
            let req = echo_request(self.sent);
            self.sent = self.sent + 1;
            Some(req)
        } else {
            if can_send {
                self.state = if matches!(self.state, CallState::Open) {
                    CallState::HalfClosedByClient
                } else {
                    CallState::Closed
                };
            }
            None
        }
    }

    /// Handles one inbound event: `Some(Ok(..))` is a response, `Some(Err(..))`
    /// a fault, `None` the end of the inbound half. Events that come after
    /// the inbound half has ended or failed are ignored.
    pub fn on_inbound<E>(&mut self, item: Option<Result<EchoResponse, E>>) -> (r: ClientAction<E>)
        requires
            old(self).received < usize::MAX,
        ensures
            final(self).request_count == old(self).request_count,
            final(self).sent == old(self).sent,
            *final(self) == after_inbound(*old(self), item),
            old(self).wf() ==> final(self).wf(),
            !inbound_open(old(self).state) ==> (r is Finished && *final(self) == *old(self)),
            inbound_open(old(self).state) ==> match item {
                Some(Ok(resp)) => r == ClientAction::<E>::Report(resp)
                    && final(self).received == old(self).received + 1
                    && final(self).state == old(self).state,
                Some(Err(e)) => r == ClientAction::<E>::Fatal(e)
                    && final(self).received == old(self).received
                    && final(self).state == CallState::Failed,
                None => r is Finished
                    && final(self).received == old(self).received
                    && final(self).state == close_inbound(old(self).state),
            },
    {
        if !matches!(self.state, CallState::Open | CallState::HalfClosedByClient) {
            return ClientAction::Finished;
        }
        match item {
            Some(Ok(resp)) => {
                self.received = self.received + 1;
                ClientAction::Report(resp)
            },
            Some(Err(e)) => {
                self.state = CallState::Failed;
                ClientAction::Fatal(e)
            },
            None => {
                self.state = if matches!(self.state, CallState::Open) {
                    CallState::HalfClosedByServer
                } else {
                    CallState::Closed
                };
                ClientAction::Finished
            },
        }
    }

    /// Whether the call is over for the client: the inbound half has ended
    /// or failed.
    pub fn is_done(&self) -> (r: bool)
        ensures
            r == !inbound_open(self.state),
    {
        !matches!(self.state, CallState::Open | CallState::HalfClosedByClient)
    }
}

/// Once the client has closed its outbound half (and the server has not
/// ended the call), pulls yield nothing and change nothing.
pub proof fn lemma_closed_outbound_stays(c: Call, k: nat)
    requires
        !outbound_open(c.state),
    ensures
        sent_labels(c, k) == Seq::<Seq<char>>::empty(),
        after_pulls(c, k) == c,
    decreases k,
{
    if k > 0 {
        lemma_closed_outbound_stays(after_pull(c), (k - 1) as nat);
    }
}

/// From an open call, enough pulls yield the remaining requests, in order,
/// and then close the outbound half.
pub proof fn lemma_sends_remaining(c: Call, k: nat)
    requires
        c.state == CallState::Open,
        c.sent <= c.request_count,
        k > c.request_count - c.sent,
    ensures
        sent_labels(c, k) == Seq::new(
            (c.request_count - c.sent) as nat,
            |i: int| label_of((c.sent + i) as nat),
        ),
        after_pulls(c, k) == (Call { sent: c.request_count, state: CallState::HalfClosedByClient, ..c }),
    decreases k,
{
    let c1 = after_pull(c);
    if c.sent < c.request_count {
        lemma_sends_remaining(c1, (k - 1) as nat);
        assert(sent_labels(c, k) =~= Seq::new(
            (c.request_count - c.sent) as nat,
            |i: int| label_of((c.sent + i) as nat),
        ));
    } else {
        lemma_closed_outbound_stays(c1, (k - 1) as nat);
        assert(sent_labels(c, k) =~= Seq::new(
            (c.request_count - c.sent) as nat,
            |i: int| label_of((c.sent + i) as nat),
        ));
    }
}

/// A new call for `n` requests sends exactly the first `n` labels, in order,
/// and closes its outbound half: `n + 1` pulls or more give the same.
pub proof fn lemma_client_sends(n: usize, k: nat)
    requires
        k > n,
    ensures
        sent_labels(Call { request_count: n, sent: 0, received: 0, state: CallState::Open }, k)
            == request_labels(n as nat),
        after_pulls(Call { request_count: n, sent: 0, received: 0, state: CallState::Open }, k)
            == (Call { request_count: n, sent: n, received: 0, state: CallState::HalfClosedByClient }),
{
    let c = Call { request_count: n, sent: 0, received: 0, state: CallState::Open };
    lemma_sends_remaining(c, k);
    assert(sent_labels(c, k) =~= request_labels(n as nat));
}

/// A call whose inbound half is open, fed a stream that delivers some
/// responses and then ends, reports every response once, in the order of
/// delivery, counts them, and closes its inbound half.
pub proof fn lemma_receives_all<E>(c: Call, resps: Seq<EchoResponse>)
    requires
        inbound_open(c.state),
        c.received + resps.len() < usize::MAX,
    ensures
        reported(c, delivered::<E>(resps)) == resps.map_values(|r: EchoResponse| r@),
        after_inbounds(c, delivered::<E>(resps)) == (Call {
            received: (c.received + resps.len()) as usize,
            state: close_inbound(c.state),
            ..c
        }),
    decreases resps.len(),
{
    let items = delivered::<E>(resps);
    if resps.len() == 0 {
        assert(resps.map_values(|r: EchoResponse| Some(Ok::<EchoResponse, E>(r))) =~= Seq::<
            Option<Result<EchoResponse, E>>,
        >::empty());
        assert(items =~= seq![None]);
        assert(items[0] == None::<Result<EchoResponse, E>>);
        let e = items.drop_first();
        assert(e =~= Seq::<Option<Result<EchoResponse, E>>>::empty());
        let c1 = after_inbound(c, items[0]);
        assert(c1 == (Call { state: close_inbound(c.state), ..c }));
        assert(reported(c1, e) == Seq::<Seq<(Seq<char>, i32)>>::empty());
        assert(after_inbounds(c1, e) == c1);
        assert(report_of(c, items[0]) == Seq::<Seq<(Seq<char>, i32)>>::empty());
        assert(reported(c, items) =~= resps.map_values(|r: EchoResponse| r@));
    } else {
        let c1 = after_inbound(c, items[0]);
        assert(items[0] == Some(Ok::<EchoResponse, E>(resps[0])));
        assert(items.drop_first() =~= delivered::<E>(resps.drop_first()));
        lemma_receives_all::<E>(c1, resps.drop_first());
        assert(reported(c, items) =~= resps.map_values(|r: EchoResponse| r@));
    }
}

} // verus!
