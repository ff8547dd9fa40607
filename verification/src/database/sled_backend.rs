//! The sled-backed storage capability, and the deletion batches the
//! coordinator hands to it.

use vstd::prelude::*;
use crate::database::types::GenericDatabase;

verus! {

/// sled's database handle: the storage backend the request actor owns.
#[verifier::external_type_specification]
#[verifier::external_body]
pub struct ExSledDb(sled::Db);

/// sled's buffer type for keys and values.
#[verifier::external_type_specification]
#[verifier::external_body]
pub struct ExSledIVec(sled::IVec);

/// sled's write batch: a set of pending operations, one per key, applied
/// atomically.
#[verifier::external_type_specification]
#[verifier::external_body]
pub struct ExSledBatch(sled::Batch);

/// sled's error type; the core never inspects it, only whether an
/// operation succeeded.
#[verifier::external_type_specification]
#[verifier::external_body]
pub struct ExSledError(sled::Error);

/// The keys whose removal `b` records, each as the character sequence whose
/// UTF-8 bytes key the store.
pub uninterp spec fn batch_removed_keys(b: sled::Batch) -> Set<Seq<char>>;

/// Relies on sled's Batch::default: a fresh batch records no operations.
#[verifier::external_body]
pub(crate) fn new_batch() -> (b: sled::Batch)
    ensures
        batch_removed_keys(b) == Set::<Seq<char>>::empty(),
{
    sled::Batch::default()
}

/// Relies on sled's Batch::remove: records the removal of the key given by
/// the string's UTF-8 bytes. A batch keeps one pending operation per key, so
/// the recorded removals grow by exactly this key.
#[verifier::external_body]
pub(crate) fn batch_remove(b: &mut sled::Batch, key: &str)
    ensures
        batch_removed_keys(*final(b)) == batch_removed_keys(*old(b)).insert(key@),
{
    b.remove(key.as_bytes());
}

/// Relies on sled's Tree::get: reads the latest committed value, if any.
#[verifier::external_body]
fn sled_get(db: &sled::Db, key: Vec<u8>) -> (r: Result<Option<sled::IVec>, sled::Error>) {
    db.get(key)
}

/// Relies on sled's Tree::insert: writes the value and returns the one it
/// replaced, if any.
#[verifier::external_body]
fn sled_insert(db: &sled::Db, key: Vec<u8>, value: sled::IVec) -> (r: Result<
    Option<sled::IVec>,
    sled::Error,
>) {
    db.insert(key, value)
}

/// Relies on sled's Tree::apply_batch: applies every operation of the batch
/// atomically.
#[verifier::external_body]
fn sled_apply_batch(db: &sled::Db, batch: sled::Batch) -> (r: Result<(), sled::Error>) {
    db.apply_batch(batch)
}

/// Relies on sled's Tree::flush: persists all pending writes and returns
/// the number of bytes flushed.
#[verifier::external_body]
fn sled_flush(db: &sled::Db) -> (r: Result<usize, sled::Error>) {
    sled::Tree::flush(db)
}

impl GenericDatabase for sled::Db {
    type Error = sled::Error;

    type ReadArgs = Vec<u8>;

    type ReadReceipt = Option<sled::IVec>;

    type WriteArgs = (Vec<u8>, sled::IVec);

    type WriteReceipt = Option<sled::IVec>;

    type BatchArgs = sled::Batch;

    type BatchReceipt = ();

    type FlushArgs = ();

    type FlushReceipt = usize;

    fn read(&self, key: Self::ReadArgs) -> Result<Self::ReadReceipt, Self::Error> {
        sled_get(self, key)
    }

    fn write(&self, kv: Self::WriteArgs) -> Result<Self::WriteReceipt, Self::Error> {
        let (key, value) = kv;
        sled_insert(self, key, value)
    }

    fn batch(&self, batch: Self::BatchArgs) -> Result<Self::BatchReceipt, Self::Error> {
        sled_apply_batch(self, batch)
    }

    fn flush(&self, _args: Self::FlushArgs) -> Result<Self::FlushReceipt, Self::Error> {
        sled_flush(self)
    }
}

} // verus!
