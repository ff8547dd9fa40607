//! The request actor's serving logic: one envelope in, one reply out.
//!
//! The actor is the single owner of the backend; the loop that drains the
//! mailbox lives with the runtime, and hands every envelope to
//! [`handle_envelope`] strictly in arrival order.

use vstd::prelude::*;
use tokio::sync::oneshot;
use crate::database::bus::send_reply;
use crate::database::bus::send_request;
use crate::database::bus::RequestBus;
use crate::database::types::DbRequest;
use crate::database::types::GenericDatabase;
use crate::database::types::GenericDatabaseResponse;
use crate::database::types::RequestKind;

verus! {

/// Asks the actor to read from the DB and hands back the channel the reply
/// arrives on: `None` if there was an error or the data isn't present,
/// `Some` if the operation completed successfully.
pub fn db_get<DB: GenericDatabase>(channel: &RequestBus<DB>, data: DB::ReadArgs) -> (rx:
    oneshot::Receiver<Option<GenericDatabaseResponse<DB>>>) {
    let (tx, rx) = oneshot::channel();
    let req = DbRequest::new(RequestKind::Read(data), tx);
    send_request(channel, req);
    rx
}

/// Asks the actor to insert data into the DB and hands back the channel the
/// reply arrives on.
pub fn db_insert<DB: GenericDatabase>(
    channel: &RequestBus<DB>,
    k: DB::WriteArgs,
) -> (rx: oneshot::Receiver<Option<GenericDatabaseResponse<DB>>>) {
    let (tx, rx) = oneshot::channel();
    let req = DbRequest::new(RequestKind::Write(k), tx);
    send_request(channel, req);
    rx
}

/// Asks the actor to write batch data to the DB and hands back the channel
/// the reply arrives on.
pub fn db_batch<DB: GenericDatabase>(
    channel: &RequestBus<DB>,
    data: DB::BatchArgs,
) -> (rx: oneshot::Receiver<Option<GenericDatabaseResponse<DB>>>) {
    let (tx, rx) = oneshot::channel();
    let req = DbRequest::new(RequestKind::Batch(data), tx);
    send_request(channel, req);
    rx
}

/// Asks the actor to flush the DB and hands back the channel the reply
/// arrives on.
pub fn db_flush<DB: GenericDatabase>(
    channel: &RequestBus<DB>,
    data: DB::FlushArgs,
) -> (rx: oneshot::Receiver<Option<GenericDatabaseResponse<DB>>>) {
    let (tx, rx) = oneshot::channel();
    let req = DbRequest::new(RequestKind::Flush(data), tx);
    send_request(channel, req);
    rx
}

/// The reply a caller observes for a backend outcome: the tagged receipt of
/// a success, or nothing. A failed operation and an absent value are
/// deliberately indistinguishable to callers.
pub fn reply_of<DB: GenericDatabase>(
    result: Result<GenericDatabaseResponse<DB>, DB::Error>,
) -> (r: Option<GenericDatabaseResponse<DB>>)
    ensures
        result matches Ok(resp) ==> r == Some(resp),
        result is Err ==> r is None,
{
    match result {
        Ok(resp) => Some(resp),
        Err(_) => None,
    }
}

/// Executes one storage request against the backend and returns the reply
/// for it: the receipt tagged like the request when the backend succeeded,
/// nothing when it failed. A failure never escapes this boundary.
pub fn process_request<DB: GenericDatabase>(cache: &DB, request: RequestKind<DB>) -> (r: Option<
    GenericDatabaseResponse<DB>,
>)
    ensures
        r matches Some(resp) ==> {
            &&& request is Read <==> resp is Read
            &&& request is Write <==> resp is Write
            &&& request is Batch <==> resp is Batch
            &&& request is Flush <==> resp is Flush
        },
{
    let result = match request {
        RequestKind::Read(k) => match cache.read(k) {
            Ok(x) => Ok(GenericDatabaseResponse::Read(x)),
            Err(e) => Err(e),
        },
        RequestKind::Write(kv) => match cache.write(kv) {
            Ok(x) => Ok(GenericDatabaseResponse::Write(x)),
            Err(e) => Err(e),
        },
        RequestKind::Batch(b) => match cache.batch(b) {
            Ok(x) => Ok(GenericDatabaseResponse::Batch(x)),
            Err(e) => Err(e),
        },
        RequestKind::Flush(a) => match cache.flush(a) {
            Ok(x) => Ok(GenericDatabaseResponse::Flush(x)),
            Err(e) => Err(e),
        },
    };
    reply_of(result)
}

/// Serves one request envelope: executes its operation and sends the reply
/// back on the envelope's single-use channel. A backend failure is absorbed
/// here — the caller sees an absent result and the actor goes on to the
/// next envelope.
pub fn handle_envelope<DB: GenericDatabase>(cache: &DB, envelope: DbRequest<DB>) {
    let DbRequest { request, sender } = envelope;
    let reply = process_request(cache, request);
    send_reply::<DB>(sender, reply);
}

} // verus!
