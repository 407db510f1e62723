use vstd::prelude::*;
use crate::model::{count_refs, has_txid, insert_new, names};
use crate::store::{gap_free, ingest_post, persist_view, PersistError, Persisted, Store, MAX_TX_ROWS};
use crate::sync::{step_post, Action, Engine, Event, Phase};
use crate::types::{row_of, Block, BlockRow, Tx, TxRow};

verus! {

/// Number of transactions in the log sent by `a`.
pub open spec fn count_senders(rows: Seq<TxRow>, a: Seq<char>) -> nat
    decreases rows.len(),
{
    if rows.len() == 0 {
        0
    } else {
        count_senders(rows.drop_last(), a) + if names(rows.last().tx.from_addr, a) { 1nat } else { 0nat }
    }
}

/// Number of transactions in the log received by `a`.
pub open spec fn count_recipients(rows: Seq<TxRow>, a: Seq<char>) -> nat
    decreases rows.len(),
{
    if rows.len() == 0 {
        0
    } else {
        count_recipients(rows.drop_last(), a) + if names(rows.last().tx.to_addr, a) { 1nat } else { 0nat }
    }
}

/// The set of heights that have a stored block.
pub open spec fn stored_heights(blocks: Seq<BlockRow>) -> Set<nat> {
    Set::new(|h: nat| exists|i: int| 0 <= i < blocks.len() && #[trigger] blocks[i].height == h)
}

/// A view-level invariant of the engine that every step keeps.
pub open spec fn run_inv(e: Engine) -> bool {
    &&& gap_free(e.store@.blocks)
    &&& e.store.tip() <= u64::MAX
    &&& match e.phase {
        Phase::Fetch { height, target } => height == e.store.tip() + 1 && height <= target,
        _ => true,
    }
}

/// Persisting a block twice leaves the store exactly as persisting it once.
pub proof fn lemma_ingest_idempotent(
    s0: Store,
    b: Block,
    now1: u64,
    s1: Store,
    r1: Result<Persisted, PersistError>,
    now2: u64,
    s2: Store,
    r2: Result<Persisted, PersistError>,
)
    requires
        s0.wf(),
        ingest_post(s0, b, now1, s1, r1),
        ingest_post(s1, b, now2, s2, r2),
    ensures
        s2 == s1,
{
}

proof fn lemma_insert_new_prefix(rows: Seq<TxRow>, txs: Seq<Tx>, h: u64)
    ensures
        insert_new(rows, txs, h).len() >= rows.len(),
        forall|i: int| 0 <= i < rows.len() ==> #[trigger] insert_new(rows, txs, h)[i] == rows[i],
    decreases txs.len(),
{
    if txs.len() > 0 {
        lemma_insert_new_prefix(rows, txs.drop_last(), h);
    }
}

proof fn lemma_insert_new_covers(rows: Seq<TxRow>, txs: Seq<Tx>, h: u64)
    ensures
        forall|j: int| 0 <= j < txs.len() ==> has_txid(insert_new(rows, txs, h), #[trigger] txs[j].txid@),
    decreases txs.len(),
{
    if txs.len() > 0 {
        let p = txs.drop_last();
        let r = insert_new(rows, p, h);
        let full = insert_new(rows, txs, h);
        lemma_insert_new_covers(rows, p, h);
        assert forall|j: int| 0 <= j < txs.len() implies has_txid(full, #[trigger] txs[j].txid@) by {
            if j < txs.len() - 1 {
                assert(p[j] == txs[j]);
                assert(has_txid(r, p[j].txid@));
                let k = choose|k: int| 0 <= k < r.len() && #[trigger] r[k].tx.txid@ == p[j].txid@;
                assert(full[k] == r[k]);
            } else if !has_txid(r, txs.last().txid@) {
                assert(full[r.len() as int].tx.txid@ == txs[j].txid@);
            }
        }
    }
}

proof fn lemma_insert_present(rows: Seq<TxRow>, txs: Seq<Tx>, h: u64)
    requires
        forall|j: int| 0 <= j < txs.len() ==> has_txid(rows, #[trigger] txs[j].txid@),
    ensures
        insert_new(rows, txs, h) == rows,
    decreases txs.len(),
{
    if txs.len() > 0 {
        let p = txs.drop_last();
        assert forall|j: int| 0 <= j < p.len() implies has_txid(rows, #[trigger] p[j].txid@) by {
            assert(p[j] == txs[j]);
        }
        lemma_insert_present(rows, p, h);
        assert(has_txid(rows, txs[txs.len() - 1].txid@));
    }
}

/// Re-observing a block's transactions inserts nothing: every id is already present.
pub proof fn lemma_insert_new_idempotent(rows: Seq<TxRow>, txs: Seq<Tx>, h: u64, h2: u64)
    ensures
        insert_new(insert_new(rows, txs, h), txs, h2) == insert_new(rows, txs, h),
{
    lemma_insert_new_covers(rows, txs, h);
    lemma_insert_present(insert_new(rows, txs, h), txs, h2);
}

/// A stored address counter splits into sends plus receipts (a self-transfer counts twice).
pub proof fn lemma_count_split(rows: Seq<TxRow>, a: Seq<char>)
    ensures
        count_refs(rows, a) == count_senders(rows, a) + count_recipients(rows, a),
    decreases rows.len(),
{
    if rows.len() > 0 {
        lemma_count_split(rows.drop_last(), a);
    }
}

/// The aggregate kept for any address equals the number of stored transactions
/// it sent plus the number it received.
pub proof fn lemma_aggregate_correct(s: Store, a: Seq<char>)
    requires
        s.wf(),
    ensures
        s.summary_count(a) == count_senders(s@.rows, a) + count_recipients(s@.rows, a),
{
    s.lemma_summary_count(a);
    lemma_count_split(s@.rows, a);
}

/// The stored heights are exactly 1 through the tip.
pub proof fn lemma_heights_exact(blocks: Seq<BlockRow>)
    requires
        gap_free(blocks),
    ensures
        stored_heights(blocks) == Set::new(|h: nat| 1 <= h <= blocks.len()),
{
    assert forall|h: nat| #[trigger] stored_heights(blocks).contains(h) <==> 1 <= h <= blocks.len() by {
        if 1 <= h <= blocks.len() {
            assert(blocks[h - 1].height == h);
        }
    }
    assert(stored_heights(blocks) =~= Set::new(|h: nat| 1 <= h <= blocks.len()));
}

/// Every step of the engine keeps the stored heights gap-free and a fetch aimed
/// at the height just above the tip.
pub proof fn lemma_step_keeps_inv(e0: Engine, ev: Event, e1: Engine, a: Action)
    requires
        run_inv(e0),
        step_post(e0, ev, e1, a),
    ensures
        run_inv(e1),
{
    match (e0.phase, ev) {
        (Phase::Fetch { height, target }, Event::BlockFetched(b, _)) => {
            if b.height == height && e0.store@.rows.len() + b.txs@.len() <= MAX_TX_ROWS {
                let nb = e1.store@.blocks;
                assert(nb == e0.store@.blocks.push(row_of(b)));
                assert forall|i: int| 0 <= i < nb.len() implies #[trigger] nb[i].height == i + 1 by {
                    if i < nb.len() - 1 {
                        assert(nb[i] == e0.store@.blocks[i]);
                    }
                }
            }
        },
        _ => {},
    }
}

/// After any sequence of steps, transient failures included, the stored heights
/// are exactly 1 through the tip.
pub proof fn lemma_run_gap_free(es: Seq<Engine>, evs: Seq<Event>, acts: Seq<Action>)
    requires
        es.len() == evs.len() + 1,
        acts.len() == evs.len(),
        es[0].wf(),
        forall|i: int| 0 <= i < evs.len() ==> step_post(#[trigger] es[i], evs[i], es[i + 1], acts[i]),
    ensures
        forall|i: int| 0 <= i < es.len() ==> stored_heights(#[trigger] es[i].store@.blocks)
            == Set::new(|h: nat| 1 <= h <= es[i].store.tip()),
{
    assert forall|i: int| 0 <= i < es.len() implies run_inv(#[trigger] es[i]) by {
        lemma_run_inv_upto(es, evs, acts, i);
    }
    assert forall|i: int| 0 <= i < es.len() implies stored_heights(#[trigger] es[i].store@.blocks)
        == Set::new(|h: nat| 1 <= h <= es[i].store.tip()) by {
        lemma_heights_exact(es[i].store@.blocks);
    }
}

proof fn lemma_run_inv_upto(es: Seq<Engine>, evs: Seq<Event>, acts: Seq<Action>, i: int)
    requires
        es.len() == evs.len() + 1,
        acts.len() == evs.len(),
        es[0].wf(),
        forall|k: int| 0 <= k < evs.len() ==> step_post(#[trigger] es[k], evs[k], es[k + 1], acts[k]),
        0 <= i < es.len(),
    ensures
        run_inv(es[i]),
    decreases i,
{
    if i == 0 {
        es[0].store.lemma_wf();
    } else {
        lemma_run_inv_upto(es, evs, acts, i - 1);
        lemma_step_keeps_inv(es[i - 1], evs[i - 1], es[i], acts[i - 1]);
    }
}

/// A step that aborts the cycle leaves the store as it was.
pub proof fn lemma_abort_changes_nothing(e0: Engine, ev: Event, e1: Engine, a: Action)
    requires
        step_post(e0, ev, e1, a),
        a matches Action::Sleep { error: Some(_), .. },
    ensures
        e1.store == e0.store,
        e1.phase == Phase::Idle,
{
}

/// A fetch of height `h` interrupted before commit leaves the store at `h - 1`;
/// the next cycle that finds the source at `h` or above fetches `h` again and,
/// given the block, persists it.
pub proof fn lemma_interrupted_then_ingested(
    e0: Engine,
    ev1: Event,
    e1: Engine,
    a1: Action,
    e2: Engine,
    a2: Action,
    r: u64,
    e3: Engine,
    a3: Action,
    b: Block,
    now: u64,
    e4: Engine,
    a4: Action,
)
    requires
        run_inv(e0),
        e0.phase matches Phase::Fetch { .. },
        step_post(e0, ev1, e1, a1),
        a1 matches Action::Sleep { error: Some(_), .. },
        step_post(e1, Event::Wake, e2, a2),
        step_post(e2, Event::RemoteTip(r), e3, a3),
        r >= e0.store.tip() + 1,
        step_post(e3, Event::BlockFetched(b, now), e4, a4),
        b.height == e0.store.tip() + 1,
        e0.store@.rows.len() + b.txs@.len() <= MAX_TX_ROWS,
    ensures
        e1.store == e0.store,
        e1.store.tip() == b.height - 1,
        a3 == Action::FetchBlock(b.height),
        e4.store@ == persist_view(e0.store@, b),
        e4.store.tip() == b.height,
        e4.store.updated_at() == now,
{
}

} // verus!
