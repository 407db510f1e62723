use vstd::prelude::*;
use crate::model::{
    addresses_unique, count_refs, entry_count, entry_last, find_entry, has_txid, ids_unique, insert_new,
    last_seen_of, lemma_count_refs_bound, lemma_find_none, lemma_find_update, lemma_insert_at,
    lemma_insert_ranked, lemma_sort_ranked, max_u64, names, rank, refs, rows_of_address, rows_of_block,
    sort_ranked, SortKey,
};
use crate::types::{
    block_row, copy_block_row, copy_tx, copy_tx_row, row_of, AddressSummary, Block, BlockRow, ChainCursor, TxRow,
};

verus! {

/// Most transaction rows the store holds; keeps every address counter far from overflow.
pub const MAX_TX_ROWS: usize = 0xffff_ffff;

/// Why a block was not persisted. The store is left untouched in each case.
#[derive(PartialEq, Eq, Structural, Debug, Clone, Copy)]
pub enum PersistError {
    /// The block's height is above the next height to ingest.
    HeightGap { expected: u64, got: u64 },
    /// The transaction table is full.
    StoreFull,
}

/// What a successful persist did.
#[derive(PartialEq, Eq, Structural, Debug, Clone, Copy)]
pub enum Persisted {
    /// The block was new: it, its new transactions, their aggregates and the cursor were written.
    Ingested,
    /// A block at this height already exists: nothing changed.
    AlreadyPresent,
}

/// The abstract content of the store: blocks by height order and the transaction log.
pub struct StoreView {
    pub blocks: Seq<BlockRow>,
    pub rows: Seq<TxRow>,
}

/// The persisted chain state: blocks, transactions, address aggregates and the cursor.
pub struct Store {
    blocks: Vec<BlockRow>,
    rows: Vec<TxRow>,
    sums: Vec<AddressSummary>,
    cursor: ChainCursor,
}

/// The view after persisting a block at the next height.
pub open spec fn persist_view(v: StoreView, b: Block) -> StoreView {
    StoreView { blocks: v.blocks.push(row_of(b)), rows: insert_new(v.rows, b.txs@, b.height) }
}

/// What persisting `b` does to a store `s0`, giving `s1` and result `r`: a block at
/// or below the tip changes nothing; a block above the next height, or one whose
/// transactions would overflow the table, is refused with nothing changed;
/// otherwise the block, its new transactions and the cursor, stamped `now`, are written.
pub open spec fn ingest_post(s0: Store, b: Block, now: u64, s1: Store, r: Result<Persisted, PersistError>) -> bool {
    if b.height <= s0.tip() {
        r == Ok::<Persisted, PersistError>(Persisted::AlreadyPresent) && s1 == s0
    } else if b.height > s0.tip() + 1 {
        r == Err::<Persisted, PersistError>(PersistError::HeightGap { expected: (s0.tip() + 1) as u64, got: b.height })
            && s1 == s0
    } else if s0@.rows.len() + b.txs@.len() > MAX_TX_ROWS {
        r == Err::<Persisted, PersistError>(PersistError::StoreFull) && s1 == s0
    } else {
        r == Ok::<Persisted, PersistError>(Persisted::Ingested) && s1@ == persist_view(s0@, b) && s1.updated_at() == now
    }
}

/// Ingested heights are exactly 1..=len, in order.
pub open spec fn gap_free(blocks: Seq<BlockRow>) -> bool {
    forall|i: int| 0 <= i < blocks.len() ==> #[trigger] blocks[i].height == i + 1
}

impl View for Store {
    type V = StoreView;

    closed spec fn view(&self) -> StoreView {
        StoreView { blocks: self.blocks@, rows: self.rows@ }
    }
}

impl Store {
    /// When the cursor last advanced (0 before the first block).
    pub closed spec fn updated_at(&self) -> u64 {
        self.cursor.updated_at
    }

    /// Local tip height.
    pub open spec fn tip(&self) -> nat {
        self@.blocks.len()
    }

    /// Heights gap-free and matching the cursor; transaction ids unique, each row
    /// owned by a stored block; one summary per address, agreeing with the log.
    pub closed spec fn wf(&self) -> bool {
        &&& gap_free(self.blocks@)
        &&& self.blocks@.len() <= u64::MAX
        &&& self.cursor.tip_height == self.blocks@.len()
        &&& self.cursor.tip_hash@ == (if self.blocks@.len() == 0 {
            Seq::<char>::empty()
        } else {
            self.blocks@.last().hash@
        })
        &&& ids_unique(self.rows@)
        &&& self.rows@.len() <= MAX_TX_ROWS
        &&& forall|i: int|
            0 <= i < self.rows@.len() ==> 1 <= #[trigger] self.rows@[i].block_height <= self.blocks@.len()
        &&& addresses_unique(self.sums@)
        &&& forall|i: int| 0 <= i < self.sums@.len() ==> #[trigger] self.sums@[i].tx_count > 0
        &&& forall|a: Seq<char>| #[trigger] entry_count(self.sums@, a) == count_refs(self.rows@, a)
        &&& forall|a: Seq<char>| #[trigger] entry_last(self.sums@, a) == last_seen_of(self.rows@, a)
    }

    /// The counter kept for address `a` (0 when it has no summary).
    pub closed spec fn summary_count(&self, a: Seq<char>) -> nat {
        entry_count(self.sums@, a)
    }

    /// The counter kept for any address equals its references in the transaction log.
    pub proof fn lemma_summary_count(&self, a: Seq<char>)
        requires
            self.wf(),
        ensures
            self.summary_count(a) == count_refs(self@.rows, a),
    {
    }

    /// The store's invariant gives: heights gap-free from 1 to the tip, unique
    /// transaction ids, and every transaction owned by an ingested block.
    pub proof fn lemma_wf(&self)
        requires
            self.wf(),
        ensures
            gap_free(self@.blocks),
            ids_unique(self@.rows),
            self.tip() <= u64::MAX,
            forall|i: int| 0 <= i < self@.rows.len() ==> 1 <= #[trigger] self@.rows[i].block_height <= self.tip(),
    {
    }

    /// An empty store with the cursor at height 0.
    pub fn new() -> (s: Store)
        ensures
            s.wf(),
            s@.blocks.len() == 0,
            s@.rows.len() == 0,
            s.updated_at() == 0,
    {
        let s = Store {
            blocks: Vec::new(),
            rows: Vec::new(),
            sums: Vec::new(),
            cursor: ChainCursor { tip_height: 0, tip_hash: String::new(), updated_at: 0 },
        };
        assert forall|a: Seq<char>| #[trigger] entry_count(s.sums@, a) == count_refs(s.rows@, a) by {}
        assert forall|a: Seq<char>| #[trigger] entry_last(s.sums@, a) == last_seen_of(s.rows@, a) by {}
        s
    }

    /// Index of the stored transaction with id `id`, if any.
    fn find_row(&self, id: &String) -> (r: Option<usize>)
        ensures
            match r {
                Some(i) => i < self.rows@.len() && self.rows@[i as int].tx.txid@ == id@,
                None => !has_txid(self.rows@, id@),
            },
    {
        let mut i: usize = 0;
        while i < self.rows.len()
            invariant
                i <= self.rows@.len(),
                forall|j: int| 0 <= j < i ==> self.rows@[j].tx.txid@ != id@,
            decreases self.rows@.len() - i,
        {
            if self.rows[i].tx.txid == *id {
                return Some(i);
            }
            i = i + 1;
        }
        None
    }

    /// Adds one reference to address `a` at time `ts`.
    fn bump(sums: &mut Vec<AddressSummary>, a: &String, ts: u64)
        requires
            addresses_unique(old(sums)@),
            forall|i: int| 0 <= i < old(sums)@.len() ==> #[trigger] old(sums)@[i].tx_count > 0,
            entry_count(old(sums)@, a@) < u64::MAX,
        ensures
            addresses_unique(final(sums)@),
            forall|i: int| 0 <= i < final(sums)@.len() ==> #[trigger] final(sums)@[i].tx_count > 0,
            forall|x: Seq<char>| #[trigger] entry_count(final(sums)@, x)
                == entry_count(old(sums)@, x) + if x == a@ { 1nat } else { 0nat },
            forall|x: Seq<char>| #[trigger] entry_last(final(sums)@, x)
                == if x == a@ { max_u64(entry_last(old(sums)@, x), ts) } else { entry_last(old(sums)@, x) },
    {
        let mut i: usize = 0;
        while i < sums.len()
            invariant
                i <= sums@.len(),
                sums@ == old(sums)@,
                addresses_unique(sums@),
                entry_count(sums@, a@) < u64::MAX,
                forall|j: int| 0 <= j < sums@.len() ==> #[trigger] sums@[j].tx_count > 0,
                forall|j: int| 0 <= j < i ==> sums@[j].address@ != a@,
            decreases sums@.len() - i,
        {
            if sums[i].address == *a {
                proof {
                    assert(find_entry(sums@, a@) == Some(sums@[i as int])) by {
                        lemma_find_update(sums@, i as int, sums@[i as int], a@);
                        assert(sums@.update(i as int, sums@[i as int]) =~= sums@);
                    }
                }
                let old_e = &sums[i];
                let last = if old_e.last_seen >= ts { old_e.last_seen } else { ts };
                let e = AddressSummary { address: old_e.address.clone(), tx_count: old_e.tx_count + 1, last_seen: last };
                let ghost s0 = sums@;
                sums.set(i, e);
                proof {
                    assert(forall|j: int| 0 <= j < sums@.len() ==> #[trigger] sums@[j] == if j == i { e } else { s0[j] });
                    assert forall|x: Seq<char>| #[trigger] find_entry(sums@, x)
                        == if x == a@ { Some(e) } else { find_entry(s0, x) } by {
                        lemma_find_update(s0, i as int, e, x);
                    }
                    assert forall|x: Seq<char>| #[trigger] entry_count(sums@, x)
                        == entry_count(s0, x) + if x == a@ { 1nat } else { 0nat } by {
                        assert(find_entry(sums@, x) == if x == a@ { Some(e) } else { find_entry(s0, x) });
                    }
                    assert forall|x: Seq<char>| #[trigger] entry_last(sums@, x)
                        == if x == a@ { max_u64(entry_last(s0, x), ts) } else { entry_last(s0, x) } by {
                        assert(find_entry(sums@, x) == if x == a@ { Some(e) } else { find_entry(s0, x) });
                    }
                }
                return;
            }
            i = i + 1;
        }
        proof {
            lemma_find_none(sums@, a@);
        }
        let ghost s0 = sums@;
        sums.push(AddressSummary { address: a.clone(), tx_count: 1, last_seen: ts });
        proof {
            assert(sums@.drop_last() =~= s0);
            assert forall|x: Seq<char>| #[trigger] entry_count(sums@, x)
                == entry_count(s0, x) + if x == a@ { 1nat } else { 0nat } by {}
            assert forall|x: Seq<char>| #[trigger] entry_last(sums@, x)
                == if x == a@ { max_u64(entry_last(s0, x), ts) } else { entry_last(s0, x) } by {}
        }
    }

    /// Persists one block as a single atomic unit: the block row, each transaction
    /// whose id is new, one aggregate update per sender and per recipient of each
    /// new transaction, and the cursor. A block at or below the tip is already
    /// stored and changes nothing; one above the next height is refused.
    pub fn ingest_block(&mut self, b: &Block, now: u64) -> (r: Result<Persisted, PersistError>)
        requires
            old(self).wf(),
        ensures
            final(self).wf(),
            ingest_post(*old(self), *b, now, *final(self), r),
    {
        let tip = self.cursor.tip_height;
        if b.height <= tip {
            return Ok(Persisted::AlreadyPresent);
        }
        if b.height - 1 != tip {
            return Err(PersistError::HeightGap { expected: tip + 1, got: b.height });
        }
        if b.txs.len() > MAX_TX_ROWS - self.rows.len() {
            return Err(PersistError::StoreFull);
        }
        let h = b.height;
        let n = b.txs.len();
        let ghost old_rows = self.rows@;
        let mut i: usize = 0;
        while i < n
            invariant
                old(self).wf(),
                n == b.txs@.len(),
                i <= n,
                h == self.blocks@.len() + 1,
                self.blocks == old(self).blocks,
                self.cursor == old(self).cursor,
                old_rows == old(self).rows@,
                old_rows.len() + n <= MAX_TX_ROWS,
                self.rows@ == insert_new(old_rows, b.txs@.take(i as int), h),
                self.rows@.len() <= old_rows.len() + i,
                ids_unique(self.rows@),
                forall|k: int| 0 <= k < self.rows@.len() ==> 1 <= #[trigger] self.rows@[k].block_height <= h,
                addresses_unique(self.sums@),
                forall|k: int| 0 <= k < self.sums@.len() ==> #[trigger] self.sums@[k].tx_count > 0,
                forall|a: Seq<char>| #[trigger] entry_count(self.sums@, a) == count_refs(self.rows@, a),
                forall|a: Seq<char>| #[trigger] entry_last(self.sums@, a) == last_seen_of(self.rows@, a),
            decreases n - i,
        {
            let t = &b.txs[i];
            proof {
                assert(b.txs@.take(i + 1).drop_last() =~= b.txs@.take(i as int));
                assert(b.txs@.take(i + 1).last() == b.txs@[i as int]);
            }
            match self.find_row(&t.txid) {
                Some(_) => {},
                None => {
                    let ghost r0 = self.rows@;
                    let ghost s0 = self.sums@;
                    proof {
                        assert forall|a: Seq<char>| #[trigger] entry_count(s0, a) + 2 < u64::MAX by {
                            lemma_count_refs_bound(r0, a);
                        }
                    }
                    if let Some(a) = &t.from_addr {
                        Self::bump(&mut self.sums, a, t.timestamp);
                    }
                    let ghost s1 = self.sums@;
                    assert(forall|x: Seq<char>| #[trigger] entry_count(s1, x)
                        == entry_count(s0, x) + if names(t.from_addr, x) { 1nat } else { 0nat });
                    assert(forall|x: Seq<char>| #[trigger] entry_last(s1, x)
                        == if names(t.from_addr, x) { max_u64(entry_last(s0, x), t.timestamp) } else { entry_last(s0, x) });
                    if let Some(a) = &t.to_addr {
                        proof {
                            assert(entry_count(s0, a@) + 2 < u64::MAX);
                        }
                        Self::bump(&mut self.sums, a, t.timestamp);
                    }
                    let ghost s2 = self.sums@;
                    assert(forall|x: Seq<char>| #[trigger] entry_count(s2, x)
                        == entry_count(s1, x) + if names(t.to_addr, x) { 1nat } else { 0nat });
                    assert(forall|x: Seq<char>| #[trigger] entry_last(s2, x)
                        == if names(t.to_addr, x) { max_u64(entry_last(s1, x), t.timestamp) } else { entry_last(s1, x) });
                    self.rows.push(TxRow { tx: copy_tx(t), block_height: h });
                    proof {
                        assert(self.rows@.drop_last() =~= r0);
                        assert forall|x: Seq<char>| #[trigger] entry_count(self.sums@, x) == count_refs(self.rows@, x) by {
                            assert(count_refs(self.rows@, x) == count_refs(r0, x) + refs(*t, x));
                        }
                        assert forall|x: Seq<char>| #[trigger] entry_last(self.sums@, x) == last_seen_of(self.rows@, x) by {
                            assert(last_seen_of(self.rows@, x) == {
                                let p = last_seen_of(r0, x);
                                if refs(*t, x) > 0 && t.timestamp > p { t.timestamp } else { p }
                            });
                        }
                        assert forall|k: int, j: int|
                            0 <= k < self.rows@.len() && 0 <= j < self.rows@.len() && k != j
                            implies self.rows@[k].tx.txid@ != self.rows@[j].tx.txid@ by {
                            if k == self.rows@.len() - 1 {
                                assert(r0[j].tx.txid@ != t.txid@);
                            } else if j == self.rows@.len() - 1 {
                                assert(r0[k].tx.txid@ != t.txid@);
                            }
                        }
                    }
                },
            }
            i = i + 1;
        }
        proof {
            assert(b.txs@.take(n as int) =~= b.txs@);
        }
        self.blocks.push(block_row(b));
        self.cursor = ChainCursor { tip_height: h, tip_hash: b.hash.clone(), updated_at: now };
        Ok(Persisted::Ingested)
    }

    /// Current tip height.
    pub fn status(&self) -> (r: u64)
        requires
            self.wf(),
        ensures
            r == self.tip(),
    {
        self.cursor.tip_height
    }

    /// The cursor: tip height, tip hash (empty before the first block) and when it last advanced.
    pub fn cursor(&self) -> (r: ChainCursor)
        requires
            self.wf(),
        ensures
            r.tip_height == self.tip(),
            r.tip_hash@ == if self.tip() == 0 { Seq::<char>::empty() } else { self@.blocks.last().hash@ },
            r.updated_at == self.updated_at(),
    {
        ChainCursor {
            tip_height: self.cursor.tip_height,
            tip_hash: self.cursor.tip_hash.clone(),
            updated_at: self.cursor.updated_at,
        }
    }

    /// The most recent `limit` blocks, newest first.
    pub fn recent_blocks(&self, limit: usize) -> (r: Vec<BlockRow>)
        requires
            self.wf(),
        ensures
            r@.len() == if limit < self.tip() { limit as nat } else { self.tip() },
            forall|i: int| 0 <= i < r@.len() ==> #[trigger] r@[i] == self@.blocks[self.tip() - 1 - i],
    {
        let n = self.blocks.len();
        let mut out: Vec<BlockRow> = Vec::new();
        let mut i: usize = 0;
        while i < limit && i < n
            invariant
                self.wf(),
                n == self.blocks@.len(),
                i <= n,
                i <= limit,
                out@.len() == i,
                forall|k: int| 0 <= k < i ==> #[trigger] out@[k] == self.blocks@[n - 1 - k],
            decreases n - i,
        {
            out.push(copy_block_row(&self.blocks[n - 1 - i]));
            i = i + 1;
        }
        out
    }

    /// The block at `height`, or `None` when no block is stored there.
    pub fn block_at(&self, height: u64) -> (r: Option<BlockRow>)
        requires
            self.wf(),
        ensures
            match r {
                Some(row) => 1 <= height <= self.tip() && row == self@.blocks[height - 1],
                None => height == 0 || height > self.tip(),
            },
    {
        if height == 0 || height > self.cursor.tip_height {
            None
        } else {
            let n = self.blocks.len();
            assert(height - 1 < n);
            let idx = (height - 1) as usize;
            let row = copy_block_row(&self.blocks[idx]);
            assert(row == self@.blocks[height - 1]);
            Some(row)
        }
    }

    /// The transactions owned by the block at `height`, in the order they were ingested.
    fn stored_block_txs(&self, height: u64) -> (r: Vec<TxRow>)
        requires
            self.wf(),
        ensures
            r@ == rows_of_block(self@.rows, height),
    {
        let mut out: Vec<TxRow> = Vec::new();
        let mut i: usize = 0;
        while i < self.rows.len()
            invariant
                i <= self.rows@.len(),
                out@ == rows_of_block(self.rows@.take(i as int), height),
            decreases self.rows@.len() - i,
        {
            proof {
                assert(self.rows@.take(i + 1).drop_last() =~= self.rows@.take(i as int));
            }
            if self.rows[i].block_height == height {
                out.push(copy_tx_row(&self.rows[i]));
            }
            i = i + 1;
        }
        proof {
            assert(self.rows@.take(self.rows@.len() as int) =~= self.rows@);
        }
        out
    }

    /// The transactions owned by the block at `height`, by index within the block.
    pub fn block_txs(&self, height: u64) -> (r: Vec<TxRow>)
        requires
            self.wf(),
        ensures
            r@ == sort_ranked(rows_of_block(self@.rows, height), SortKey::Position),
    {
        sort_rows(&self.stored_block_txs(height), SortKey::Position)
    }

    /// The block at `height` with its transactions; `None` when there is none.
    pub fn get_block(&self, height: u64) -> (r: Option<(BlockRow, Vec<TxRow>)>)
        requires
            self.wf(),
        ensures
            match r {
                Some(p) => 1 <= height <= self.tip() && p.0 == self@.blocks[height - 1]
                    && p.1@ == sort_ranked(rows_of_block(self@.rows, height), SortKey::Position),
                None => height == 0 || height > self.tip(),
            },
    {
        match self.block_at(height) {
            Some(row) => Some((row, self.block_txs(height))),
            None => None,
        }
    }

    /// The block whose hash is `hash`, if any.
    pub fn block_by_hash(&self, hash: &String) -> (r: Option<BlockRow>)
        requires
            self.wf(),
        ensures
            match r {
                Some(row) => exists|i: int| 0 <= i < self@.blocks.len() && self@.blocks[i] == row && row.hash@ == hash@,
                None => forall|i: int| 0 <= i < self@.blocks.len() ==> #[trigger] self@.blocks[i].hash@ != hash@,
            },
    {
        let mut i: usize = 0;
        while i < self.blocks.len()
            invariant
                self.wf(),
                i <= self.blocks@.len(),
                forall|j: int| 0 <= j < i ==> #[trigger] self.blocks@[j].hash@ != hash@,
            decreases self.blocks@.len() - i,
        {
            if self.blocks[i].hash == *hash {
                let row = copy_block_row(&self.blocks[i]);
                assert(self@.blocks[i as int] == row);
                return Some(row);
            }
            i = i + 1;
        }
        None
    }

    /// The transaction with id `id`, if stored.
    pub fn get_tx(&self, id: &String) -> (r: Option<TxRow>)
        requires
            self.wf(),
        ensures
            match r {
                Some(row) => exists|i: int| 0 <= i < self@.rows.len() && self@.rows[i] == row && row.tx.txid@ == id@,
                None => !has_txid(self@.rows, id@),
            },
    {
        match self.find_row(id) {
            Some(i) => {
                let row = copy_tx_row(&self.rows[i]);
                assert(self@.rows[i as int] == row);
                Some(row)
            },
            None => None,
        }
    }

    /// The aggregate of address `a`: its reference count and latest timestamp.
    /// `None` when no stored transaction references it.
    pub fn address_summary(&self, a: &String) -> (r: Option<AddressSummary>)
        requires
            self.wf(),
        ensures
            match r {
                Some(s) => s.address@ == a@ && s.tx_count == count_refs(self@.rows, a@)
                    && s.last_seen == last_seen_of(self@.rows, a@) && count_refs(self@.rows, a@) > 0,
                None => count_refs(self@.rows, a@) == 0,
            },
    {
        let mut i: usize = 0;
        while i < self.sums.len()
            invariant
                self.wf(),
                i <= self.sums@.len(),
                forall|j: int| 0 <= j < i ==> #[trigger] self.sums@[j].address@ != a@,
            decreases self.sums@.len() - i,
        {
            if self.sums[i].address == *a {
                proof {
                    lemma_find_update(self.sums@, i as int, self.sums@[i as int], a@);
                    assert(self.sums@.update(i as int, self.sums@[i as int]) =~= self.sums@);
                    assert(entry_count(self.sums@, a@) == count_refs(self.rows@, a@));
                    assert(entry_last(self.sums@, a@) == last_seen_of(self.rows@, a@));
                }
                let e = &self.sums[i];
                return Some(AddressSummary { address: e.address.clone(), tx_count: e.tx_count, last_seen: e.last_seen });
            }
            i = i + 1;
        }
        proof {
            lemma_find_none(self.sums@, a@);
            assert(entry_count(self.sums@, a@) == count_refs(self.rows@, a@));
        }
        None
    }

    /// The rows that reference address `a`, newest stored first.
    fn rows_for(&self, a: &String) -> (r: Vec<TxRow>)
        requires
            self.wf(),
        ensures
            r@ == rows_of_address(self@.rows, a@),
    {
        let mut out: Vec<TxRow> = Vec::new();
        let mut i: usize = self.rows.len();
        assert(self.rows@.take(i as int) =~= self.rows@);
        while i > 0
            invariant
                self.wf(),
                i <= self.rows@.len(),
                rows_of_address(self.rows@, a@) == out@ + rows_of_address(self.rows@.take(i as int), a@),
            decreases i,
        {
            let ghost pre = self.rows@.take(i as int);
            proof {
                assert(pre.drop_last() =~= self.rows@.take(i - 1));
                assert(pre.last() == self.rows@[i - 1]);
            }
            let t = &self.rows[i - 1];
            let hit = match (&t.tx.from_addr, &t.tx.to_addr) {
                (Some(f), _) if *f == *a => true,
                (_, Some(x)) if *x == *a => true,
                _ => false,
            };
            if hit {
                let ghost o0 = out@;
                out.push(copy_tx_row(t));
                proof {
                    assert(o0 + rows_of_address(pre, a@) =~= out@ + rows_of_address(self.rows@.take(i - 1), a@));
                }
            }
            i = i - 1;
        }
        proof {
            assert(self.rows@.take(0) =~= Seq::<TxRow>::empty());
            assert(out@ =~= out@ + Seq::<TxRow>::empty());
        }
        out
    }

    /// Up to `limit` transactions that reference address `a`, latest timestamp
    /// first; among equal timestamps, newest stored first.
    pub fn address_txs(&self, a: &String, limit: usize) -> (r: Vec<TxRow>)
        requires
            self.wf(),
        ensures
            r@ == sort_ranked(rows_of_address(self@.rows, a@), SortKey::Latest).take(
                if limit < rows_of_address(self@.rows, a@).len() { limit as int } else { rows_of_address(self@.rows, a@).len() as int },
            ),
    {
        let all = self.rows_for(a);
        let mut sorted = sort_rows(&all, SortKey::Latest);
        proof {
            lemma_sort_ranked(all@, SortKey::Latest);
        }
        sorted.truncate(limit);
        proof {
            assert(sorted@ =~= sort_ranked(all@, SortKey::Latest).take(sorted@.len() as int));
        }
        sorted
    }
}

/// The rank of a row, as `rank` states it.
fn rank_of(r: &TxRow, k: SortKey) -> (v: i128)
    ensures
        v == rank(*r, k),
{
    match k {
        SortKey::Latest => r.tx.timestamp as i128,
        SortKey::Position => -(r.tx.index_in_block as i128),
    }
}

/// The rows ordered by decreasing rank, stably.
fn sort_rows(rows: &Vec<TxRow>, k: SortKey) -> (r: Vec<TxRow>)
    ensures
        r@ == sort_ranked(rows@, k),
{
    let mut sorted: Vec<TxRow> = Vec::new();
    let mut i: usize = 0;
    while i < rows.len()
        invariant
            i <= rows@.len(),
            sorted@ == sort_ranked(rows@.take(i as int), k),
            sorted@.len() == i,
        decreases rows@.len() - i,
    {
        proof {
            assert(rows@.take(i + 1).drop_last() =~= rows@.take(i as int));
            lemma_insert_ranked(sorted@, rows@[i as int], k);
        }
        let x = copy_tx_row(&rows[i]);
        let rx = rank_of(&x, k);
        let mut p: usize = 0;
        while p < sorted.len() && rx <= rank_of(&sorted[p], k)
            invariant
                p <= sorted@.len(),
                rx == rank(x, k),
                forall|q: int| 0 <= q < p ==> rank(x, k) <= rank(#[trigger] sorted@[q], k),
            decreases sorted@.len() - p,
        {
            p = p + 1;
        }
        proof {
            lemma_insert_at(sorted@, x, k, p as int);
        }
        sorted.insert(p, x);
        i = i + 1;
    }
    proof {
        assert(rows@.take(rows@.len() as int) =~= rows@);
    }
    sorted
}

} // verus!
