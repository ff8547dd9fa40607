use blutgang::database::serial::MemBackend;
use blutgang::database::serial::StoreOp;
use blutgang::database::serial::StoreReply;

#[test]
fn test_operations_apply_in_submission_order() {
    let mut store = MemBackend::new();
    let ops = vec![
        StoreOp::Write(b"k1".to_vec(), b"v1".to_vec()),
        StoreOp::Write(b"k1".to_vec(), b"v2".to_vec()),
        StoreOp::Read(b"k1".to_vec()),
        StoreOp::BatchRemove(vec![b"k1".to_vec(), b"k2".to_vec()]),
        StoreOp::Read(b"k1".to_vec()),
        StoreOp::Flush,
    ];
    let replies = blutgang::database::serial::run_in_order(&mut store, ops);

    assert_eq!(replies.len(), 6);
    // The first write finds nothing; the second replaces the first's value,
    // so it must have been applied after it.
    assert!(matches!(&replies[0], StoreReply::Write(None)));
    match &replies[1] {
        StoreReply::Write(Some(prev)) => assert_eq!(&prev[..], b"v1"),
        _ => panic!("expected the first write's value to be replaced"),
    }
    // The read sees exactly the state both earlier writes produced.
    match &replies[2] {
        StoreReply::Read(Some(v)) => assert_eq!(&v[..], b"v2"),
        _ => panic!("expected the second write's value"),
    }
    assert!(matches!(&replies[3], StoreReply::Batch));
    // The read after the batched removal no longer sees the key.
    assert!(matches!(&replies[4], StoreReply::Read(None)));
    assert!(matches!(&replies[5], StoreReply::Flush));
}

#[test]
fn test_step_serves_one_operation() {
    let mut store = MemBackend::new();
    assert!(matches!(store.step(StoreOp::Read(b"k".to_vec())), StoreReply::Read(None)));
    assert!(matches!(store.step(StoreOp::Write(b"k".to_vec(), b"v".to_vec())),
        StoreReply::Write(None)));
    match store.step(StoreOp::Read(b"k".to_vec())) {
        StoreReply::Read(Some(v)) => assert_eq!(&v[..], b"v"),
        _ => panic!("expected the written value"),
    }
    assert!(matches!(store.step(StoreOp::Flush), StoreReply::Flush));
    assert!(matches!(store.step(StoreOp::BatchRemove(vec![b"k".to_vec()])),
        StoreReply::Batch));
    assert!(matches!(store.step(StoreOp::Read(b"k".to_vec())), StoreReply::Read(None)));
}
