//! The bounded buffer between a call's consumption task and its outbound
//! stream: a tokio bounded channel of outbound items.
use vstd::prelude::*;
use tokio::sync::mpsc::{Receiver, Sender};
use crate::message::EchoResponse;

verus! {

#[verifier::external_type_specification]
#[verifier::external_body]
#[verifier::reject_recursive_types(T)]
pub struct ExSender<T>(Sender<T>);

#[verifier::external_type_specification]
#[verifier::external_body]
#[verifier::reject_recursive_types(T)]
pub struct ExReceiver<T>(Receiver<T>);

#[verifier::external_type_specification]
#[verifier::external_body]
pub struct ExStatus(tonic::Status);

/// An item of the outbound stream: a response, or a transport fault.
pub type Outbound = Result<EchoResponse, tonic::Status>;

/// The number of items that the channel behind this sender holds at most:
/// once it holds that many, a send waits until an item is received.
pub uninterp spec fn max_capacity_of(tx: Sender<Outbound>) -> nat;

/// Relies on tokio::sync::mpsc::channel: it makes a bounded channel whose
/// sender reports `capacity` as its `max_capacity`; it panics when
/// `capacity` is 0 or above `usize::MAX >> 3`, that is `usize::MAX / 8`.
#[verifier::external_body]
pub(crate) fn bounded_channel(capacity: usize) -> (r: (Sender<Outbound>, Receiver<Outbound>))
    requires
        0 < capacity <= usize::MAX / 8,
    ensures
        max_capacity_of(r.0) == capacity,
{
    tokio::sync::mpsc::channel(capacity)
}

} // verus!
