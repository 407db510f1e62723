use vstd::prelude::*;

verus! {

/// A transaction as the upstream source reports it, already normalized.
/// Amounts and fees are exact decimal text in minimal units.
pub struct Tx {
    pub txid: String,
    pub from_addr: Option<String>,
    pub to_addr: Option<String>,
    pub amount: String,
    pub fee: String,
    pub timestamp: u64,
    pub index_in_block: u32,
}

/// A block as the upstream source reports it, already normalized.
pub struct Block {
    pub height: u64,
    pub hash: String,
    pub parent_hash: String,
    pub timestamp: u64,
    pub txs: Vec<Tx>,
    pub size_bytes: u32,
    pub difficulty: String,
    pub nonce: String,
}

/// A persisted block: the header fields plus the derived transaction count.
pub struct BlockRow {
    pub height: u64,
    pub hash: String,
    pub parent_hash: String,
    pub timestamp: u64,
    pub tx_count: u64,
    pub size_bytes: u32,
    pub difficulty: String,
    pub nonce: String,
}

/// A persisted transaction together with the height of the block that owns it.
pub struct TxRow {
    pub tx: Tx,
    pub block_height: u64,
}

/// The derived per-address aggregate.
pub struct AddressSummary {
    pub address: String,
    pub tx_count: u64,
    pub last_seen: u64,
}

/// The singleton record of ingestion progress.
pub struct ChainCursor {
    pub tip_height: u64,
    pub tip_hash: String,
    /// When the cursor last advanced, as handed in by the caller.
    pub updated_at: u64,
}

/// The persisted row for a block.
pub open spec fn row_of(b: Block) -> BlockRow {
    BlockRow {
        height: b.height,
        hash: b.hash,
        parent_hash: b.parent_hash,
        timestamp: b.timestamp,
        tx_count: b.txs@.len() as u64,
        size_bytes: b.size_bytes,
        difficulty: b.difficulty,
        nonce: b.nonce,
    }
}

/// A copy of an optional address.
pub fn copy_opt(o: &Option<String>) -> (r: Option<String>)
    ensures
        r == *o,
{
    match o {
        Some(s) => Some(s.clone()),
        None => None,
    }
}

/// A copy of a transaction.
pub fn copy_tx(t: &Tx) -> (r: Tx)
    ensures
        r == *t,
{
    Tx {
        txid: t.txid.clone(),
        from_addr: copy_opt(&t.from_addr),
        to_addr: copy_opt(&t.to_addr),
        amount: t.amount.clone(),
        fee: t.fee.clone(),
        timestamp: t.timestamp,
        index_in_block: t.index_in_block,
    }
}

/// A copy of a transaction row.
pub fn copy_tx_row(r: &TxRow) -> (c: TxRow)
    ensures
        c == *r,
{
    TxRow { tx: copy_tx(&r.tx), block_height: r.block_height }
}

/// A copy of a block row.
pub fn copy_block_row(r: &BlockRow) -> (c: BlockRow)
    ensures
        c == *r,
{
    BlockRow {
        height: r.height,
        hash: r.hash.clone(),
        parent_hash: r.parent_hash.clone(),
        timestamp: r.timestamp,
        tx_count: r.tx_count,
        size_bytes: r.size_bytes,
        difficulty: r.difficulty.clone(),
        nonce: r.nonce.clone(),
    }
}

/// Builds the persisted row of a block.
pub fn block_row(b: &Block) -> (r: BlockRow)
    ensures
        r == row_of(*b),
{
    BlockRow {
        height: b.height,
        hash: b.hash.clone(),
        parent_hash: b.parent_hash.clone(),
        timestamp: b.timestamp,
        tx_count: b.txs.len() as u64,
        size_bytes: b.size_bytes,
        difficulty: b.difficulty.clone(),
        nonce: b.nonce.clone(),
    }
}

} // verus!
