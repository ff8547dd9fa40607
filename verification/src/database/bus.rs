//! The channels that carry request envelopes to the request actor and
//! replies back to the callers.

use vstd::prelude::*;
use tokio::sync::mpsc;
use tokio::sync::oneshot;
use crate::database::types::DbRequest;
use crate::database::types::GenericDatabase;
use crate::database::types::GenericDatabaseResponse;

verus! {

/// Channel for sending requests to the database task: an unbounded,
/// multi-producer mailbox with a single consumer, so requests are served
/// strictly in arrival order.
pub type RequestBus<DB> = mpsc::UnboundedSender<DbRequest<DB>>;

/// The single-use channel a reply to one request goes back on.
pub type RequestSender<DB> = oneshot::Sender<Option<GenericDatabaseResponse<DB>>>;

/// tokio's unbounded mpsc sender: the producing end of the mailbox.
#[verifier::external_type_specification]
#[verifier::external_body]
#[verifier::reject_recursive_types(T)]
pub struct ExUnboundedSender<T>(mpsc::UnboundedSender<T>);

/// tokio's oneshot sender: the replying end of one request's channel.
#[verifier::external_type_specification]
#[verifier::external_body]
#[verifier::reject_recursive_types(T)]
pub struct ExOneshotSender<T>(oneshot::Sender<T>);

/// tokio's oneshot receiver: the awaiting end of one request's channel.
#[verifier::external_type_specification]
#[verifier::external_body]
#[verifier::reject_recursive_types(T)]
pub struct ExOneshotReceiver<T>(oneshot::Receiver<T>);

/// tokio's oneshot receive error: the sender was dropped without replying.
#[verifier::external_type_specification]
#[verifier::external_body]
pub struct ExOneshotRecvError(oneshot::error::RecvError);

/// Relies on tokio's oneshot channel: creates the sender and receiver of a
/// fresh single-use, single-consumer reply channel.
pub assume_specification<T>[ oneshot::channel::<T> ]() -> (r: (
    oneshot::Sender<T>,
    oneshot::Receiver<T>,
));

/// Relies on tokio's UnboundedSender::send to enqueue one request envelope
/// on the actor's mailbox without blocking. The queue is unbounded, so the
/// send fails only when the consuming side is gone, and the envelope is then
/// dropped.
#[verifier::external_body]
pub(crate) fn send_request<DB: GenericDatabase>(bus: &RequestBus<DB>, req: DbRequest<DB>) {
    let _ = bus.send(req);
}

/// Relies on tokio's oneshot Sender::send to hand the reply to the caller
/// that awaits it. The send fails only when the caller stopped listening,
/// and the reply is then dropped.
#[verifier::external_body]
pub(crate) fn send_reply<DB: GenericDatabase>(
    sender: RequestSender<DB>,
    reply: Option<GenericDatabaseResponse<DB>>,
) {
    let _ = sender.send(reply);
}

} // verus!
