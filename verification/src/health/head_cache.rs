//! The reorg/finality coordinator.
//!
//! It watches the head-block and finalized-block notification values, evicts
//! the index range a reorg invalidates (and submits the matching deletion
//! batch to the request actor, fire-and-forget), and retires index entries
//! that finality has made safe to keep forever. The loop that awaits the
//! notification streams lives with the runtime and hands every observation
//! to [`observe`].

use vstd::prelude::*;
use crate::database::accept::db_batch;
use crate::database::bus::RequestBus;
use crate::database::error::DbError;
use crate::database::sled_backend::batch_remove;
use crate::database::sled_backend::batch_removed_keys;
use crate::database::sled_backend::new_batch;
use crate::database::types::GenericDatabase;
use crate::health::index::block_range;
use crate::health::index::blocks_through;
use crate::health::index::evicted_key_seq;
use crate::health::index::key_evicted;
use crate::health::index::lemma_evicted_key_seq_empty;
use crate::health::index::HeadCache;

verus! {

/// Builds the deletion batch for `keys`: one removal per key, nothing else.
pub fn build_deletion_batch(keys: &Vec<String>) -> (b: sled::Batch)
    ensures
        forall|key: Seq<char>| #[trigger] batch_removed_keys(b).contains(key)
            <==> keys.deep_view().contains(key),
{
    let ghost ks = keys.deep_view();
    let mut b = new_batch();
    let mut i: usize = 0;
    #[verifier::loop_isolation(false)]
    while i < keys.len()
        invariant
            i <= keys@.len(),
            forall|key: Seq<char>| #[trigger] batch_removed_keys(b).contains(key) <==> ks.take(
                i as int,
            ).contains(key),
        decreases keys@.len() - i,
    {
        let ghost before = batch_removed_keys(b);
        batch_remove(&mut b, keys[i].as_str());
        proof {
            assert forall|key: Seq<char>| #[trigger] batch_removed_keys(b).contains(key)
                == ks.take(i as int + 1).contains(key) by {
                if batch_removed_keys(b).contains(key) {
                    if key == ks[i as int] {
                        assert(ks.take(i as int + 1)[i as int] == key);
                    } else {
                        assert(before.contains(key));
                        let w = choose|w: int|
                            0 <= w < i && #[trigger] ks.take(i as int)[w] == key;
                        assert(ks.take(i as int + 1)[w] == key);
                    }
                }
                if ks.take(i as int + 1).contains(key) {
                    let w = choose|w: int|
                        0 <= w < i + 1 && #[trigger] ks.take(i as int + 1)[w] == key;
                    if w < i {
                        assert(ks.take(i as int)[w] == key);
                    }
                }
            }
        }
        i = i + 1;
    }
    proof {
        assert(ks.take(keys@.len() as int) =~= ks);
    }
    b
}

/// Evicts the inclusive block range `[from_block, to_block]` from the head
/// cache and submits one deletion batch for every key those blocks had
/// recorded, as a single batch request on the actor's mailbox. The send is
/// fire-and-forget: the mailbox's single consumer applies it before any
/// operation submitted later.
pub fn handle_reorg<DB: GenericDatabase<BatchArgs = sled::Batch>>(
    head_cache: &mut HeadCache,
    from_block: u64,
    to_block: u64,
    cache: &RequestBus<DB>,
) -> (r: Result<(), DbError>)
    requires
        old(head_cache).wf(),
    ensures
        final(head_cache).wf(),
        final(head_cache)@ == old(head_cache)@.remove_keys(
            block_range(from_block as int, to_block as int),
        ),
        r is Ok,
{
    let removed = head_cache.remove_range(from_block, to_block);
    let batch = build_deletion_batch(&removed);

    // Send the batch to the actor, dropping the unawaited reply channel.
    let _ = db_batch(cache, batch);

    Ok(())
}

/// Retires every index entry up to one block past `block_number`: once a
/// block has finalized it can no longer reorg, so its keys stay in the
/// store for good and no backend deletion is issued.
pub fn remove_stale(head_cache: &mut HeadCache, block_number: u64) -> (r: Result<(), DbError>)
    requires
        old(head_cache).wf(),
        old(head_cache)@ != Map::<u64, Seq<Seq<char>>>::empty() ==> block_number < u64::MAX,
    ensures
        final(head_cache).wf(),
        final(head_cache)@ == old(head_cache)@.remove_keys(
            blocks_through(block_number as int + 1),
        ),
        r is Ok,
{
    if head_cache.is_empty() {
        proof {
            assert(head_cache@.remove_keys(blocks_through(block_number as int + 1))
                =~= head_cache@);
        }
        return Ok(());
    }
    let _ = head_cache.remove_range(0, block_number + 1);
    proof {
        assert(block_range(0, block_number as int + 1) =~= blocks_through(
            block_number as int + 1,
        ));
    }
    Ok(())
}

/// The chain position the coordinator has fully acted on: the notification
/// values whose invalidation passes have completed.
pub struct ChainPosition {
    pub last_head: u64,
    pub last_finalized: u64,
}

/// The index after the reorg check of one head notification: when the new
/// head does not advance, every block from it up to the last observed head
/// is evicted; otherwise nothing changes.
pub open spec fn after_reorg(
    m: Map<u64, Seq<Seq<char>>>,
    last_head: u64,
    new_block: u64,
) -> Map<u64, Seq<Seq<char>>> {
    if new_block <= last_head {
        m.remove_keys(block_range(new_block as int, last_head as int))
    } else {
        m
    }
}

/// The index after the finality check of one notification pass: when the
/// finalized value moved, every block up to one past it is retired;
/// otherwise nothing changes.
pub open spec fn after_finality(
    m: Map<u64, Seq<Seq<char>>>,
    last_finalized: u64,
    finalized: u64,
) -> Map<u64, Seq<Seq<char>>> {
    if finalized != last_finalized {
        m.remove_keys(blocks_through(finalized as int + 1))
    } else {
        m
    }
}

impl ChainPosition {
    /// The position before any notification has been observed.
    pub fn new() -> (r: ChainPosition)
        ensures
            r.last_head == 0,
            r.last_finalized == 0,
    {
        ChainPosition { last_head: 0, last_finalized: 0 }
    }
}

/// Acts on one observation of the notification streams: the current head
/// value and the current finalized value. A head that did not advance is a
/// reorg — the whole range back to it is evicted and its keys are submitted
/// for deletion; a finalized value that moved retires the settled entries.
/// The position is updated only after both passes completed.
pub fn observe<DB: GenericDatabase<BatchArgs = sled::Batch>>(
    position: &mut ChainPosition,
    head_cache: &mut HeadCache,
    new_block: u64,
    finalized: u64,
    cache: &RequestBus<DB>,
) -> (r: Result<(), DbError>)
    requires
        old(head_cache).wf(),
        finalized != old(position).last_finalized && after_reorg(
            old(head_cache)@,
            old(position).last_head,
            new_block,
        ) != Map::<u64, Seq<Seq<char>>>::empty() ==> finalized < u64::MAX,
    ensures
        final(position).last_head == new_block,
        final(position).last_finalized == finalized,
        final(head_cache).wf(),
        final(head_cache)@ == after_finality(
            after_reorg(old(head_cache)@, old(position).last_head, new_block),
            old(position).last_finalized,
            finalized,
        ),
        r is Ok,
{
    if new_block <= position.last_head {
        handle_reorg(head_cache, new_block, position.last_head, cache)?;
    }
    if finalized != position.last_finalized {
        remove_stale(head_cache, finalized)?;
        position.last_finalized = finalized;
    }
    position.last_head = new_block;
    Ok(())
}

/// Law: delivering the same head-block value twice in a row takes the
/// single-block reorg-eviction path both times, but the second pass is
/// harmless — the index is already rid of that block, so it is left exactly
/// as the first pass left it, and the second deletion batch is empty.
pub proof fn lemma_repeated_head_is_idempotent(m: Map<u64, Seq<Seq<char>>>, h: u64)
    ensures
        after_reorg(after_reorg(m, h, h), h, h) == after_reorg(m, h, h),
        forall|key: Seq<char>| !key_evicted(after_reorg(m, h, h), h as int, h as int, key),
{
    let m1 = after_reorg(m, h, h);
    assert(m1.remove_keys(block_range(h as int, h as int)) =~= m1);
    assert forall|key: Seq<char>| !key_evicted(m1, h as int, h as int, key) by {
        if key_evicted(m1, h as int, h as int, key) {
            let b = choose|b: u64|
                h as int <= b <= h as int && #[trigger] m1.contains_key(b) && m1[b].contains(key);
            assert(b == h);
            assert(block_range(h as int, h as int).contains(h));
            assert(!m1.contains_key(h));
        }
    }
}

/// Law: pruning or evicting against an empty index is a no-op — the index
/// stays empty, no key is evicted, and the swept key sequence is empty.
pub proof fn lemma_empty_index_is_noop(from: int, to: int, bound: int)
    ensures
        evicted_key_seq(Map::<u64, Seq<Seq<char>>>::empty(), from, to) == Seq::<
            Seq<char>,
        >::empty(),
        Map::<u64, Seq<Seq<char>>>::empty().remove_keys(block_range(from, to)) == Map::<
            u64,
            Seq<Seq<char>>,
        >::empty(),
        Map::<u64, Seq<Seq<char>>>::empty().remove_keys(blocks_through(bound)) == Map::<
            u64,
            Seq<Seq<char>>,
        >::empty(),
        forall|key: Seq<char>|
            !key_evicted(Map::<u64, Seq<Seq<char>>>::empty(), from, to, key),
{
    lemma_evicted_key_seq_empty(from, to);
    assert(Map::<u64, Seq<Seq<char>>>::empty().remove_keys(block_range(from, to)) =~= Map::<
        u64,
        Seq<Seq<char>>,
    >::empty());
    assert(Map::<u64, Seq<Seq<char>>>::empty().remove_keys(blocks_through(bound)) =~= Map::<
        u64,
        Seq<Seq<char>>,
    >::empty());
}

} // verus!
