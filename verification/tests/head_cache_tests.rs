use blutgang::database::types::DbRequest;
use blutgang::database::types::RequestKind;
use blutgang::health::head_cache::handle_reorg;
use blutgang::health::head_cache::observe;
use blutgang::health::head_cache::remove_stale;
use blutgang::health::head_cache::ChainPosition;
use blutgang::health::index::HeadCache;

#[test]
fn test_handle_reorg() {
    // Create test data and resources
    let config = sled::Config::new().temporary(true);
    let cache = config.open().unwrap();

    let _ = cache.insert("key1", "value1");
    let _ = cache.insert("key2", "value2");
    let _ = cache.insert("key3", "value3");

    // Add some data to the head_cache
    let mut head_cache = HeadCache::new();
    head_cache.record(1, "key1".to_string());
    head_cache.record(2, "key2".to_string());
    head_cache.record(3, "key3".to_string());

    let (db_tx, mut db_rx) = tokio::sync::mpsc::unbounded_channel::<DbRequest<sled::Db>>();

    // Call handle_reorg
    let result = handle_reorg(&mut head_cache, 2, 3, &db_tx);

    // Verify the result and check if the data is removed from the cache
    assert!(result.is_ok());
    assert!(head_cache.contains_block(1));
    assert!(!head_cache.contains_block(2));
    assert!(!head_cache.contains_block(3));

    // The deletion batch was submitted fire-and-forget; apply it like the
    // request actor would.
    let envelope = db_rx.try_recv().expect("a deletion batch was submitted");
    match envelope.request {
        RequestKind::Batch(batch) => cache.apply_batch(batch).unwrap(),
        _ => panic!("expected a batch request"),
    }

    // Check if the data is removed from the cache
    let key1 = cache.get("key1").unwrap();
    assert!(key1.is_some());
    let key2 = cache.get("key2").unwrap();
    assert!(key2.is_none());
    let key3 = cache.get("key3").unwrap();
    assert!(key3.is_none());
}

#[test]
fn test_remove_stale() {
    // Create test data and resources
    let mut head_cache = HeadCache::new();

    // Add some data to the head_cache
    head_cache.record(1, "key1".to_string());
    head_cache.record(2, "key2".to_string());

    // Call remove_stale
    let result = remove_stale(&mut head_cache, 1);

    // Verify the result and check if the data is removed from the cache
    assert!(result.is_ok());
    assert!(!head_cache.contains_block(1));
    assert!(!head_cache.contains_block(2));
}

#[test]
fn test_finality_pruning_keeps_unfinalized_blocks() {
    let mut head_cache = HeadCache::new();
    head_cache.record(1, "key1".to_string());
    head_cache.record(2, "key2".to_string());

    // Finality advancing past block 1 retires block 1's entry (the sweep
    // reaches one block past the finalized value) and leaves block 2 alone.
    let result = remove_stale(&mut head_cache, 0);

    assert!(result.is_ok());
    assert!(!head_cache.contains_block(1));
    assert!(head_cache.contains_block(2));
}

#[test]
fn test_empty_index_is_noop() {
    let mut head_cache = HeadCache::new();
    let (db_tx, mut db_rx) = tokio::sync::mpsc::unbounded_channel::<DbRequest<sled::Db>>();

    // Pruning an empty index succeeds and changes nothing.
    assert!(remove_stale(&mut head_cache, 7).is_ok());
    assert!(head_cache.is_empty());

    // Evicting against an empty index succeeds, leaves it empty, and the
    // submitted deletion batch deletes nothing.
    assert!(handle_reorg(&mut head_cache, 1, 5, &db_tx).is_ok());
    assert!(head_cache.is_empty());

    let config = sled::Config::new().temporary(true);
    let cache = config.open().unwrap();
    let _ = cache.insert("key1", "value1");
    let envelope = db_rx.try_recv().expect("a (empty) deletion batch was submitted");
    match envelope.request {
        RequestKind::Batch(batch) => cache.apply_batch(batch).unwrap(),
        _ => panic!("expected a batch request"),
    }
    assert!(cache.get("key1").unwrap().is_some());
}

#[test]
fn test_repeated_head_notification_is_idempotent() {
    let mut position = ChainPosition::new();
    let mut head_cache = HeadCache::new();
    let (db_tx, mut db_rx) = tokio::sync::mpsc::unbounded_channel::<DbRequest<sled::Db>>();

    // First observation: the head advances to 5, no reorg.
    assert!(observe(&mut position, &mut head_cache, 5, 0, &db_tx).is_ok());
    assert!(db_rx.try_recv().is_err());

    head_cache.record(5, "key5".to_string());

    // The same head value again: the single-block reorg path runs and
    // evicts block 5.
    assert!(observe(&mut position, &mut head_cache, 5, 0, &db_tx).is_ok());
    assert!(!head_cache.contains_block(5));
    assert!(head_cache.is_empty());
    let first = db_rx.try_recv().expect("a deletion batch was submitted");
    assert!(matches!(first.request, RequestKind::Batch(_)));

    // And a third delivery of the same value: the same path runs again,
    // finds nothing, and the index stays consistent.
    assert!(observe(&mut position, &mut head_cache, 5, 0, &db_tx).is_ok());
    assert!(head_cache.is_empty());
    let second = db_rx.try_recv().expect("a deletion batch was submitted again");
    match second.request {
        RequestKind::Batch(batch) => {
            // The second batch deletes nothing.
            let config = sled::Config::new().temporary(true);
            let cache = config.open().unwrap();
            let _ = cache.insert("key5", "value5");
            cache.apply_batch(batch).unwrap();
            assert!(cache.get("key5").unwrap().is_some());
        }
        _ => panic!("expected a batch request"),
    }
}

#[test]
fn test_record_appends_and_get_keys_reads_back() {
    let mut head_cache = HeadCache::new();
    assert!(head_cache.is_empty());
    assert!(head_cache.oldest().is_none());

    head_cache.record(9, "a".to_string());
    head_cache.record(7, "b".to_string());
    head_cache.record(9, "c".to_string());

    assert_eq!(head_cache.oldest(), Some(7));
    let keys = head_cache.get_keys(9).expect("block 9 is present");
    assert_eq!(keys.len(), 2);
    assert_eq!(keys[0], "a".to_string());
    assert_eq!(keys[1], "c".to_string());
    assert!(head_cache.get_keys(8).is_none());
}

#[test]
fn test_remove_range_returns_keys_in_block_order() {
    let mut head_cache = HeadCache::new();
    head_cache.record(3, "d".to_string());
    head_cache.record(1, "a".to_string());
    head_cache.record(2, "b".to_string());
    head_cache.record(2, "c".to_string());

    // The sweep hands keys back ascending by block, within one block in
    // the order they were recorded.
    let removed = head_cache.remove_range(2, 3);
    assert_eq!(removed, vec!["b".to_string(), "c".to_string(), "d".to_string()]);
    assert!(head_cache.contains_block(1));
    assert!(!head_cache.contains_block(2));
    assert!(!head_cache.contains_block(3));
}

#[test]
fn test_reorg_collects_all_keys_of_the_range() {
    let config = sled::Config::new().temporary(true);
    let cache = config.open().unwrap();
    let _ = cache.insert("a", "1");
    let _ = cache.insert("b", "2");
    let _ = cache.insert("c", "3");
    let _ = cache.insert("d", "4");

    let mut head_cache = HeadCache::new();
    head_cache.record(10, "a".to_string());
    head_cache.record(11, "b".to_string());
    head_cache.record(11, "c".to_string());
    head_cache.record(12, "d".to_string());

    let (db_tx, mut db_rx) = tokio::sync::mpsc::unbounded_channel::<DbRequest<sled::Db>>();
    assert!(handle_reorg(&mut head_cache, 11, 12, &db_tx).is_ok());

    assert!(head_cache.contains_block(10));
    assert!(!head_cache.contains_block(11));
    assert!(!head_cache.contains_block(12));

    let envelope = db_rx.try_recv().unwrap();
    match envelope.request {
        RequestKind::Batch(batch) => cache.apply_batch(batch).unwrap(),
        _ => panic!("expected a batch request"),
    }
    assert!(cache.get("a").unwrap().is_some());
    assert!(cache.get("b").unwrap().is_none());
    assert!(cache.get("c").unwrap().is_none());
    assert!(cache.get("d").unwrap().is_none());
}
