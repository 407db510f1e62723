use chain_indexer::search::{parse_height, SearchHit};
use chain_indexer::store::{PersistError, Persisted, Store};
use chain_indexer::sync::{Action, Engine, Event, Phase, SyncError, BACKOFF_MS, POLL_INTERVAL_MS};
use chain_indexer::types::{Block, Tx};

fn tx(id: &str, from: Option<&str>, to: Option<&str>, ts: u64, idx: u32) -> Tx {
    Tx {
        txid: id.to_string(),
        from_addr: from.map(|s| s.to_string()),
        to_addr: to.map(|s| s.to_string()),
        amount: "100".to_string(),
        fee: "1".to_string(),
        timestamp: ts,
        index_in_block: idx,
    }
}

fn block(h: u64, txs: Vec<Tx>) -> Block {
    Block {
        height: h,
        hash: format!("hash{h}"),
        parent_hash: format!("hash{}", h.saturating_sub(1)),
        timestamp: 1000 + h,
        txs,
        size_bytes: 200,
        difficulty: "5".to_string(),
        nonce: "7".to_string(),
    }
}

fn ab_block(h: u64) -> Block {
    block(h, vec![tx(&format!("t{h}"), Some("A"), Some("B"), 1000 + h, 0)])
}

fn sync_to(engine: &mut Engine, remote: u64, blocks: &dyn Fn(u64) -> Block) -> Action {
    let mut action = engine.step(Event::Wake);
    loop {
        action = match action {
            Action::QueryRemoteTip => engine.step(Event::RemoteTip(remote)),
            Action::FetchBlock(h) => engine.step(Event::BlockFetched(blocks(h), 77)),
            Action::Sleep { .. } => return action,
        };
    }
}

#[test]
fn full_sync_of_three_blocks() {
    let mut engine = Engine::new(Store::new());
    let last = sync_to(&mut engine, 3, &ab_block);
    assert_eq!(last, Action::Sleep { millis: POLL_INTERVAL_MS, error: None });
    assert_eq!(engine.phase, Phase::Idle);
    assert_eq!(engine.store.status(), 3);
    assert_eq!(engine.store.address_txs(&"A".to_string(), 50).len(), 3);
    let b = engine.store.address_summary(&"B".to_string()).unwrap();
    assert_eq!(b.tx_count, 3);
    assert_eq!(b.last_seen, 1003);
}

#[test]
fn step_sequence_is_ordered() {
    let mut engine = Engine::new(Store::new());
    assert_eq!(engine.step(Event::Wake), Action::QueryRemoteTip);
    assert_eq!(engine.step(Event::RemoteTip(2)), Action::FetchBlock(1));
    assert_eq!(engine.phase, Phase::Fetch { height: 1, target: 2 });
    assert_eq!(engine.step(Event::BlockFetched(ab_block(1), 77)), Action::FetchBlock(2));
    assert_eq!(engine.step(Event::BlockFetched(ab_block(2), 77)), Action::QueryRemoteTip);
    assert_eq!(engine.step(Event::RemoteTip(2)), Action::Sleep { millis: POLL_INTERVAL_MS, error: None });
}

#[test]
fn search_classifies_height_hash_tx_address() {
    let mut engine = Engine::new(Store::new());
    sync_to(&mut engine, 3, &ab_block);
    let s = &engine.store;
    match s.search(&"2".to_string()) {
        SearchHit::Block { height, hash } => {
            assert_eq!(height, 2);
            assert_eq!(hash, "hash2");
        }
        _ => panic!("expected a block"),
    }
    match s.search(&"hash3".to_string()) {
        SearchHit::Block { height, .. } => assert_eq!(height, 3),
        _ => panic!("expected a block"),
    }
    match s.search(&"t1".to_string()) {
        SearchHit::Tx { txid } => assert_eq!(txid, "t1"),
        _ => panic!("expected a transaction"),
    }
    match s.search(&"nobody".to_string()) {
        SearchHit::Address { address } => assert_eq!(address, "nobody"),
        _ => panic!("expected an address"),
    }
    match s.search(&"9".to_string()) {
        SearchHit::Address { address } => assert_eq!(address, "9"),
        _ => panic!("a height above the tip is no block"),
    }
}

#[test]
fn block_above_tip_is_not_found() {
    let mut engine = Engine::new(Store::new());
    sync_to(&mut engine, 3, &ab_block);
    assert!(engine.store.get_block(4).is_none());
    assert!(engine.store.get_block(0).is_none());
    assert!(engine.store.block_at(4).is_none());
    let (row, txs) = engine.store.get_block(3).unwrap();
    assert_eq!(row.height, 3);
    assert_eq!(row.tx_count, 1);
    assert_eq!(txs.len(), 1);
    assert_eq!(txs[0].tx.txid, "t3");
    assert_eq!(txs[0].block_height, 3);
}

#[test]
fn ingesting_twice_equals_once() {
    let mut s = Store::new();
    let b = block(1, vec![tx("x", Some("A"), Some("B"), 5, 0), tx("y", Some("B"), None, 6, 1)]);
    assert_eq!(s.ingest_block(&b, 77), Ok(Persisted::Ingested));
    assert_eq!(s.ingest_block(&b, 77), Ok(Persisted::AlreadyPresent));
    assert_eq!(s.status(), 1);
    assert_eq!(s.block_txs(1).len(), 2);
    assert_eq!(s.address_summary(&"A".to_string()).unwrap().tx_count, 1);
    assert_eq!(s.address_summary(&"B".to_string()).unwrap().tx_count, 2);
}

#[test]
fn repeated_txid_is_inserted_once() {
    let mut s = Store::new();
    let b1 = block(1, vec![tx("x", Some("A"), Some("B"), 5, 0)]);
    let b2 = block(2, vec![tx("x", Some("A"), Some("B"), 9, 0), tx("z", None, Some("A"), 9, 1)]);
    assert_eq!(s.ingest_block(&b1, 77), Ok(Persisted::Ingested));
    assert_eq!(s.ingest_block(&b2, 77), Ok(Persisted::Ingested));
    assert_eq!(s.block_txs(2).len(), 1);
    let a = s.address_summary(&"A".to_string()).unwrap();
    assert_eq!(a.tx_count, 2);
    assert_eq!(a.last_seen, 9);
    assert_eq!(s.address_summary(&"B".to_string()).unwrap().last_seen, 5);
    assert_eq!(s.get_block(2).unwrap().0.tx_count, 2);
}

#[test]
fn self_transfer_counts_twice() {
    let mut s = Store::new();
    let b = block(1, vec![tx("x", Some("C"), Some("C"), 5, 0)]);
    assert_eq!(s.ingest_block(&b, 77), Ok(Persisted::Ingested));
    assert_eq!(s.address_summary(&"C".to_string()).unwrap().tx_count, 2);
    assert!(s.address_summary(&"D".to_string()).is_none());
}

#[test]
fn block_beyond_next_height_is_refused() {
    let mut s = Store::new();
    assert_eq!(s.ingest_block(&ab_block(2), 77), Err(PersistError::HeightGap { expected: 1, got: 2 }));
    assert_eq!(s.status(), 0);
    assert!(s.get_tx(&"t2".to_string()).is_none());
}

#[test]
fn failures_leave_no_gaps() {
    let mut engine = Engine::new(Store::new());
    engine.step(Event::Wake);
    engine.step(Event::RemoteTip(4));
    engine.step(Event::BlockFetched(ab_block(1), 77));
    let a = engine.step(Event::SourceFailed);
    assert_eq!(a, Action::Sleep { millis: BACKOFF_MS, error: Some(SyncError::Source) });
    assert_eq!(engine.store.status(), 1);
    assert_eq!(engine.step(Event::Wake), Action::QueryRemoteTip);
    assert_eq!(engine.step(Event::RemoteTip(4)), Action::FetchBlock(2));
    engine.step(Event::BlockFetched(ab_block(2), 77));
    let a = engine.step(Event::BlockFetched(ab_block(9), 77));
    assert_eq!(a, Action::Sleep {
        millis: BACKOFF_MS,
        error: Some(SyncError::HeightMismatch { requested: 3, got: 9 }),
    });
    let last = sync_to(&mut engine, 4, &ab_block);
    assert_eq!(last, Action::Sleep { millis: POLL_INTERVAL_MS, error: None });
    assert_eq!(engine.store.status(), 4);
    let recent = engine.store.recent_blocks(20);
    let heights: Vec<u64> = recent.iter().map(|b| b.height).collect();
    assert_eq!(heights, vec![4, 3, 2, 1]);
    assert_eq!(engine.store.address_summary(&"A".to_string()).unwrap().tx_count, 4);
}

#[test]
fn interrupted_height_is_retried_from_scratch() {
    let mut engine = Engine::new(Store::new());
    sync_to(&mut engine, 1, &ab_block);
    engine.step(Event::Wake);
    assert_eq!(engine.step(Event::RemoteTip(2)), Action::FetchBlock(2));
    engine.step(Event::SourceFailed);
    assert_eq!(engine.store.status(), 1);
    assert!(engine.store.get_tx(&"t2".to_string()).is_none());
    assert_eq!(engine.store.address_summary(&"A".to_string()).unwrap().tx_count, 1);
    engine.step(Event::Wake);
    assert_eq!(engine.step(Event::RemoteTip(2)), Action::FetchBlock(2));
    assert_eq!(engine.step(Event::BlockFetched(ab_block(2), 77)), Action::QueryRemoteTip);
    assert_eq!(engine.store.status(), 2);
    assert_eq!(engine.store.cursor().tip_hash, "hash2");
    assert_eq!(engine.store.cursor().updated_at, 77);
    assert_eq!(engine.store.address_summary(&"A".to_string()).unwrap().tx_count, 2);
}

#[test]
fn unexpected_event_backs_off() {
    let mut engine = Engine::new(Store::new());
    let a = engine.step(Event::RemoteTip(5));
    assert_eq!(a, Action::Sleep { millis: BACKOFF_MS, error: Some(SyncError::Unexpected) });
    assert_eq!(engine.phase, Phase::Idle);
}

#[test]
fn caught_up_cycle_polls() {
    let mut engine = Engine::new(Store::new());
    engine.step(Event::Wake);
    assert_eq!(engine.step(Event::RemoteTip(0)), Action::Sleep { millis: POLL_INTERVAL_MS, error: None });
    assert_eq!(engine.store.status(), 0);
}

#[test]
fn recent_blocks_newest_first_and_limited() {
    let mut engine = Engine::new(Store::new());
    sync_to(&mut engine, 25, &ab_block);
    let recent = engine.store.recent_blocks(20);
    assert_eq!(recent.len(), 20);
    assert_eq!(recent[0].height, 25);
    assert_eq!(recent[19].height, 6);
}

#[test]
fn address_activity_newest_first_and_limited() {
    let mut engine = Engine::new(Store::new());
    sync_to(&mut engine, 5, &ab_block);
    let txs = engine.store.address_txs(&"A".to_string(), 2);
    assert_eq!(txs.len(), 2);
    assert_eq!(txs[0].tx.txid, "t5");
    assert_eq!(txs[1].tx.txid, "t4");
    assert!(engine.store.address_txs(&"Z".to_string(), 50).is_empty());
}

#[test]
fn parse_height_values() {
    assert_eq!(parse_height("42"), Some(42));
    assert_eq!(parse_height("+7"), Some(7));
    assert_eq!(parse_height("007"), Some(7));
    assert_eq!(parse_height("9223372036854775807"), Some(9223372036854775807));
    assert_eq!(parse_height("9223372036854775808"), None);
    assert_eq!(parse_height("-1"), None);
    assert_eq!(parse_height(""), None);
    assert_eq!(parse_height("+"), None);
    assert_eq!(parse_height("12a"), None);
    assert_eq!(parse_height("abc"), None);
}

#[test]
fn address_activity_ordered_by_timestamp() {
    let mut s = Store::new();
    let b1 = block(1, vec![tx("late", Some("A"), None, 50, 0), tx("early", None, Some("A"), 10, 1)]);
    let b2 = block(2, vec![tx("mid", Some("A"), Some("B"), 30, 0), tx("tie", Some("A"), None, 50, 1)]);
    assert_eq!(s.ingest_block(&b1, 77), Ok(Persisted::Ingested));
    assert_eq!(s.ingest_block(&b2, 77), Ok(Persisted::Ingested));
    let ids: Vec<String> = s.address_txs(&"A".to_string(), 50).into_iter().map(|r| r.tx.txid).collect();
    assert_eq!(ids, vec!["tie", "late", "mid", "early"]);
    let ids: Vec<String> = s.address_txs(&"A".to_string(), 2).into_iter().map(|r| r.tx.txid).collect();
    assert_eq!(ids, vec!["tie", "late"]);
}

#[test]
fn block_transactions_ordered_by_index() {
    let mut s = Store::new();
    let b = block(1, vec![tx("c", None, None, 1, 2), tx("a", None, None, 1, 0), tx("b", None, None, 1, 1)]);
    assert_eq!(s.ingest_block(&b, 77), Ok(Persisted::Ingested));
    let (_, txs) = s.get_block(1).unwrap();
    let ids: Vec<String> = txs.into_iter().map(|r| r.tx.txid).collect();
    assert_eq!(ids, vec!["a", "b", "c"]);
    assert!(s.block_by_hash(&"hash1".to_string()).is_some());
    assert!(s.block_by_hash(&"nope".to_string()).is_none());
}

#[test]
fn empty_store_cursor() {
    let s = Store::new();
    let c = s.cursor();
    assert_eq!(c.tip_height, 0);
    assert_eq!(c.tip_hash, "");
    assert_eq!(c.updated_at, 0);
    assert!(s.recent_blocks(20).is_empty());
    assert!(s.get_tx(&"t1".to_string()).is_none());
}
