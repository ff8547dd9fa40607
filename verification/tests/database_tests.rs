use blutgang::config::error::ConfigError;
use blutgang::database::accept::db_batch;
use blutgang::database::accept::db_flush;
use blutgang::database::accept::db_get;
use blutgang::database::accept::db_insert;
use blutgang::database::accept::handle_envelope;
use blutgang::database::error::DbError;
use blutgang::database::accept::process_request;
use blutgang::database::accept::reply_of;
use blutgang::database::types::DbRequest;
use blutgang::database::types::GenericDatabase;
use blutgang::database::types::GenericDatabaseResponse;
use blutgang::database::types::RequestKind;

/// A backend that fails every operation.
#[derive(Debug)]
struct FailDb;

impl GenericDatabase for FailDb {
    type Error = String;

    type ReadArgs = Vec<u8>;

    type ReadReceipt = Option<Vec<u8>>;

    type WriteArgs = (Vec<u8>, Vec<u8>);

    type WriteReceipt = Option<Vec<u8>>;

    type BatchArgs = Vec<Vec<u8>>;

    type BatchReceipt = ();

    type FlushArgs = ();

    type FlushReceipt = ();

    fn read(&self, _args: Self::ReadArgs) -> Result<Self::ReadReceipt, Self::Error> {
        Err("backend failure".to_string())
    }

    fn write(&self, _args: Self::WriteArgs) -> Result<Self::WriteReceipt, Self::Error> {
        Err("backend failure".to_string())
    }

    fn batch(&self, _args: Self::BatchArgs) -> Result<Self::BatchReceipt, Self::Error> {
        Err("backend failure".to_string())
    }

    fn flush(&self, _args: Self::FlushArgs) -> Result<Self::FlushReceipt, Self::Error> {
        Err("backend failure".to_string())
    }
}

#[test]
fn test_failure_transparency() {
    let db = FailDb;
    // Every operation against a failing backend earns the caller a plain
    // "no result" -- indistinguishable from a miss.
    assert!(process_request(&db, RequestKind::Read(b"k".to_vec())).is_none());
    assert!(process_request(&db, RequestKind::Write((b"k".to_vec(), b"v".to_vec()))).is_none());
    assert!(process_request(&db, RequestKind::Batch(vec![b"k".to_vec()])).is_none());
    assert!(process_request(&db, RequestKind::Flush(())).is_none());

    // The actor is not stopped by failures: a subsequent, unrelated
    // operation against a working backend still succeeds.
    let config = sled::Config::new().temporary(true);
    let cache = config.open().unwrap();
    let write = process_request(
        &cache,
        RequestKind::Write((b"k".to_vec(), sled::IVec::from("v"))),
    );
    assert!(write.is_some());
    let read = process_request(&cache, RequestKind::Read(b"k".to_vec()));
    match read {
        Some(GenericDatabaseResponse::Read(Some(v))) => assert_eq!(&v[..], b"v"),
        _ => panic!("expected the value just written"),
    }
}

#[test]
fn test_sled_roundtrip_through_actor() {
    let config = sled::Config::new().temporary(true);
    let cache = config.open().unwrap();

    let write = process_request(
        &cache,
        RequestKind::Write((b"key1".to_vec(), sled::IVec::from("value1"))),
    );
    match write {
        Some(GenericDatabaseResponse::Write(prev)) => assert!(prev.is_none()),
        _ => panic!("expected a write receipt"),
    }

    let overwrite = process_request(
        &cache,
        RequestKind::Write((b"key1".to_vec(), sled::IVec::from("value2"))),
    );
    match overwrite {
        Some(GenericDatabaseResponse::Write(Some(prev))) => assert_eq!(&prev[..], b"value1"),
        _ => panic!("expected the replaced value"),
    }

    let read = process_request(&cache, RequestKind::Read(b"key1".to_vec()));
    let receipt = read.expect("read succeeds").into_read();
    assert_eq!(&receipt.expect("key1 is present")[..], b"value2");

    let missing = process_request(&cache, RequestKind::Read(b"absent".to_vec()));
    let receipt = missing.expect("read succeeds").into_read();
    assert!(receipt.is_none());

    let flush = process_request(&cache, RequestKind::Flush(()));
    assert!(matches!(flush, Some(GenericDatabaseResponse::Flush(_))));
}

#[test]
fn test_handle_envelope_replies_on_the_oneshot() {
    let config = sled::Config::new().temporary(true);
    let cache = config.open().unwrap();
    let _ = cache.insert("key1", "value1");

    let (tx, mut rx) = tokio::sync::oneshot::channel();
    let envelope = DbRequest::new(RequestKind::Read(b"key1".to_vec()), tx);
    handle_envelope(&cache, envelope);
    let reply = rx.try_recv().expect("a reply was sent");
    match reply {
        Some(GenericDatabaseResponse::Read(Some(v))) => assert_eq!(&v[..], b"value1"),
        _ => panic!("expected the stored value"),
    }

    // A failing backend is absorbed: the caller sees "no result".
    let db = FailDb;
    let (tx, mut rx) = tokio::sync::oneshot::channel();
    let envelope = DbRequest::new(RequestKind::Read(b"key1".to_vec()), tx);
    handle_envelope(&db, envelope);
    let reply = rx.try_recv().expect("a reply was sent");
    assert!(reply.is_none());
}

#[test]
fn test_reply_of_collapses_failures() {
    let ok: Result<GenericDatabaseResponse<FailDb>, String> =
        Ok(GenericDatabaseResponse::Batch(()));
    assert!(matches!(reply_of(ok), Some(GenericDatabaseResponse::Batch(()))));

    let err: Result<GenericDatabaseResponse<FailDb>, String> = Err("boom".to_string());
    assert!(reply_of(err).is_none());
}

#[test]
fn test_into_read_returns_the_receipt() {
    let response: GenericDatabaseResponse<FailDb> =
        GenericDatabaseResponse::Read(Some(b"v".to_vec()));
    assert_eq!(response.into_read(), Some(b"v".to_vec()));
}

#[test]
fn test_db_helpers_roundtrip_through_the_mailbox() {
    let config = sled::Config::new().temporary(true);
    let cache = config.open().unwrap();
    let (db_tx, mut db_rx) = tokio::sync::mpsc::unbounded_channel::<DbRequest<sled::Db>>();

    // Enqueue an insert, a batched removal of another key, a read and a
    // flush, then serve the mailbox strictly in arrival order, as the
    // actor's loop does.
    let _ = cache.insert("doomed", "value");
    let mut insert_rx = db_insert(&db_tx, (b"key1".to_vec(), sled::IVec::from("value1")));
    let mut batch = sled::Batch::default();
    batch.remove("doomed");
    let mut batch_rx = db_batch(&db_tx, batch);
    let mut get_rx = db_get(&db_tx, b"key1".to_vec());
    let mut flush_rx = db_flush(&db_tx, ());

    while let Ok(envelope) = db_rx.try_recv() {
        handle_envelope(&cache, envelope);
    }

    let inserted = insert_rx.try_recv().expect("the actor replied");
    assert!(matches!(inserted, Some(GenericDatabaseResponse::Write(None))));
    let batched = batch_rx.try_recv().expect("the actor replied");
    assert!(matches!(batched, Some(GenericDatabaseResponse::Batch(()))));
    assert!(cache.get("doomed").unwrap().is_none());
    let got = get_rx.try_recv().expect("the actor replied");
    match got {
        Some(GenericDatabaseResponse::Read(Some(v))) => assert_eq!(&v[..], b"value1"),
        _ => panic!("expected the inserted value"),
    }
    let flushed = flush_rx.try_recv().expect("the actor replied");
    assert!(matches!(flushed, Some(GenericDatabaseResponse::Flush(_))));
}

#[test]
fn test_error_messages() {
    assert_eq!(ConfigError::Syncing.message(), "Node is syncing!");
    assert_eq!(ConfigError::RpcError("rpc down".to_string()).message(), "rpc down");
    assert_eq!(DbError::StreamClosed.message(), "notification stream closed");
    assert_eq!(DbError::Backend("disk gone".to_string()).message(), "disk gone");
}
