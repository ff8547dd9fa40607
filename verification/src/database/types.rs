//! The storage capability contract and the request envelope carried to the
//! request actor.

use vstd::prelude::*;
use core::fmt::Debug;

verus! {

/// A generic database layer abstraction.
///
/// Every operation is synchronous and atomic from the caller's point of
/// view; errors are backend-specific and opaque to the rest of the system,
/// which only ever asks whether an operation succeeded.
pub trait GenericDatabase: Send {
    type Error: Debug;

    type ReadArgs: Debug + Send;

    type ReadReceipt: Debug + Send;

    type WriteArgs: Debug + Send;

    type WriteReceipt: Debug + Send;

    type BatchArgs: Debug + Send;

    type BatchReceipt: Debug + Send;

    type FlushArgs: Debug + Send;

    type FlushReceipt: Debug + Send;

    /// A database read operation.
    fn read(&self, args: Self::ReadArgs) -> Result<Self::ReadReceipt, Self::Error>;

    /// A database write operation.
    fn write(&self, args: Self::WriteArgs) -> Result<Self::WriteReceipt, Self::Error>;

    /// A database batch operation: applied all-or-nothing.
    fn batch(&self, args: Self::BatchArgs) -> Result<Self::BatchReceipt, Self::Error>;

    /// A database flush operation.
    fn flush(&self, args: Self::FlushArgs) -> Result<Self::FlushReceipt, Self::Error>;
}

/// The operation-tagged receipt of a completed storage operation.
#[derive(Debug)]
#[verifier::reject_recursive_types(DB)]
pub enum GenericDatabaseResponse<DB: GenericDatabase> {
    Read(DB::ReadReceipt),
    Write(DB::WriteReceipt),
    Batch(DB::BatchReceipt),
    Flush(DB::FlushReceipt),
}

impl<DB: GenericDatabase> GenericDatabaseResponse<DB> {
    /// The receipt of a read operation; only a read response carries one.
    pub fn into_read(self) -> (r: DB::ReadReceipt)
        requires
            self is Read,
        ensures
            r == self->Read_0,
    {
        match self {
            GenericDatabaseResponse::Read(read) => read,
            _ => vstd::pervasive::unreached(),
        }
    }
}

/// Specifies if we are reading or writing to the DB.
#[derive(Debug)]
#[verifier::reject_recursive_types(DB)]
pub enum RequestKind<DB: GenericDatabase> {
    Read(DB::ReadArgs),
    Write(DB::WriteArgs),
    Batch(DB::BatchArgs),
    Flush(DB::FlushArgs),
}

/// Contains data to be sent to the DB task for processing: the requested
/// operation and the single-use channel the reply goes back on.
#[derive(Debug)]
#[verifier::reject_recursive_types(DB)]
pub struct DbRequest<DB: GenericDatabase> {
    pub request: RequestKind<DB>,
    pub sender: crate::database::bus::RequestSender<DB>,
}

impl<DB: GenericDatabase> DbRequest<DB> {
    pub fn new(request: RequestKind<DB>, sender: crate::database::bus::RequestSender<DB>) -> (r:
        Self)
        ensures
            r.request == request,
            r.sender == sender,
    {
        DbRequest { request, sender }
    }
}

} // verus!
