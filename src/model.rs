use vstd::prelude::*;
use crate::types::{AddressSummary, Tx, TxRow};

verus! {

/// Whether an optional address field names `a`.
pub open spec fn names(o: Option<String>, a: Seq<char>) -> bool {
    match o {
        Some(s) => s@ == a,
        None => false,
    }
}

/// How often `t` references `a`: once as sender, once as recipient.
pub open spec fn refs(t: Tx, a: Seq<char>) -> nat {
    (if names(t.from_addr, a) { 1nat } else { 0nat }) + (if names(t.to_addr, a) { 1nat } else { 0nat })
}

/// Number of references to `a` over a transaction log.
pub open spec fn count_refs(rows: Seq<TxRow>, a: Seq<char>) -> nat
    decreases rows.len(),
{
    if rows.len() == 0 {
        0
    } else {
        count_refs(rows.drop_last(), a) + refs(rows.last().tx, a)
    }
}

/// Latest timestamp of a transaction in the log that references `a` (0 if none).
pub open spec fn last_seen_of(rows: Seq<TxRow>, a: Seq<char>) -> u64
    decreases rows.len(),
{
    if rows.len() == 0 {
        0
    } else {
        let p = last_seen_of(rows.drop_last(), a);
        let t = rows.last().tx;
        if refs(t, a) > 0 && t.timestamp > p {
            t.timestamp
        } else {
            p
        }
    }
}

/// Whether a transaction id is present in the log.
pub open spec fn has_txid(rows: Seq<TxRow>, id: Seq<char>) -> bool {
    exists|i: int| 0 <= i < rows.len() && #[trigger] rows[i].tx.txid@ == id
}

/// The log after inserting each of `txs` in order for block `h`, skipping ids already present.
pub open spec fn insert_new(rows: Seq<TxRow>, txs: Seq<Tx>, h: u64) -> Seq<TxRow>
    decreases txs.len(),
{
    if txs.len() == 0 {
        rows
    } else {
        let r = insert_new(rows, txs.drop_last(), h);
        let t = txs.last();
        if has_txid(r, t.txid@) {
            r
        } else {
            r.push(TxRow { tx: t, block_height: h })
        }
    }
}

/// Transaction ids in the log are pairwise distinct.
pub open spec fn ids_unique(rows: Seq<TxRow>) -> bool {
    forall|i: int, j: int|
        0 <= i < rows.len() && 0 <= j < rows.len() && i != j ==> rows[i].tx.txid@ != rows[j].tx.txid@
}

/// The last summary entry for address `a`.
pub open spec fn find_entry(sums: Seq<AddressSummary>, a: Seq<char>) -> Option<AddressSummary>
    decreases sums.len(),
{
    if sums.len() == 0 {
        None
    } else if sums.last().address@ == a {
        Some(sums.last())
    } else {
        find_entry(sums.drop_last(), a)
    }
}

/// The counter of the summary entry for `a` (0 when there is none).
pub open spec fn entry_count(sums: Seq<AddressSummary>, a: Seq<char>) -> nat {
    match find_entry(sums, a) {
        Some(e) => e.tx_count as nat,
        None => 0,
    }
}

/// The last-seen time of the summary entry for `a` (0 when there is none).
pub open spec fn entry_last(sums: Seq<AddressSummary>, a: Seq<char>) -> u64 {
    match find_entry(sums, a) {
        Some(e) => e.last_seen,
        None => 0,
    }
}

/// Summary addresses are pairwise distinct.
pub open spec fn addresses_unique(sums: Seq<AddressSummary>) -> bool {
    forall|i: int, j: int|
        0 <= i < sums.len() && 0 <= j < sums.len() && i != j ==> sums[i].address@ != sums[j].address@
}

pub open spec fn max_u64(a: u64, b: u64) -> u64 {
    if a >= b { a } else { b }
}

/// An address is referenced at most twice per transaction.
pub proof fn lemma_count_refs_bound(rows: Seq<TxRow>, a: Seq<char>)
    ensures
        count_refs(rows, a) <= 2 * rows.len(),
    decreases rows.len(),
{
    if rows.len() > 0 {
        lemma_count_refs_bound(rows.drop_last(), a);
    }
}

/// No entry carries `a`, so none is found.
pub proof fn lemma_find_none(sums: Seq<AddressSummary>, a: Seq<char>)
    requires
        forall|j: int| 0 <= j < sums.len() ==> sums[j].address@ != a,
    ensures
        find_entry(sums, a) is None,
    decreases sums.len(),
{
    if sums.len() > 0 {
        lemma_find_none(sums.drop_last(), a);
    }
}

/// Replacing an entry by one for the same address changes what is found for that address only.
pub proof fn lemma_find_update(sums: Seq<AddressSummary>, i: int, e: AddressSummary, x: Seq<char>)
    requires
        0 <= i < sums.len(),
        addresses_unique(sums),
        e.address@ == sums[i].address@,
    ensures
        find_entry(sums.update(i, e), x) == if x == e.address@ { Some(e) } else { find_entry(sums, x) },
    decreases sums.len(),
{
    let s2 = sums.update(i, e);
    if i == sums.len() - 1 {
        assert(s2.drop_last() =~= sums.drop_last());
        if x == e.address@ {
        }
    } else {
        assert(s2.drop_last() =~= sums.drop_last().update(i, e));
        assert(s2.last() == sums.last());
        lemma_find_update(sums.drop_last(), i, e, x);
        if x == e.address@ {
            assert(sums.last().address@ != x);
        }
    }
}

/// The rows owned by block `h`, in stored order.
pub open spec fn rows_of_block(rows: Seq<TxRow>, h: u64) -> Seq<TxRow>
    decreases rows.len(),
{
    if rows.len() == 0 {
        Seq::empty()
    } else if rows.last().block_height == h {
        rows_of_block(rows.drop_last(), h).push(rows.last())
    } else {
        rows_of_block(rows.drop_last(), h)
    }
}

/// The rows that reference address `a`, newest stored first.
pub open spec fn rows_of_address(rows: Seq<TxRow>, a: Seq<char>) -> Seq<TxRow>
    decreases rows.len(),
{
    if rows.len() == 0 {
        Seq::empty()
    } else if refs(rows.last().tx, a) > 0 {
        seq![rows.last()] + rows_of_address(rows.drop_last(), a)
    } else {
        rows_of_address(rows.drop_last(), a)
    }
}

/// The order in which a list of rows is presented.
#[derive(PartialEq, Eq, Structural, Debug, Clone, Copy)]
pub enum SortKey {
    /// Latest timestamp first.
    Latest,
    /// Lowest index within the block first.
    Position,
}

/// The rank of a row under a key; rows are listed by decreasing rank.
pub open spec fn rank(r: TxRow, k: SortKey) -> int {
    match k {
        SortKey::Latest => r.tx.timestamp as int,
        SortKey::Position => -(r.tx.index_in_block as int),
    }
}

/// `x` placed into `s` before the first row of lower rank.
pub open spec fn insert_ranked(s: Seq<TxRow>, x: TxRow, k: SortKey) -> Seq<TxRow>
    decreases s.len(),
{
    if s.len() == 0 {
        seq![x]
    } else if rank(x, k) > rank(s[0], k) {
        seq![x] + s
    } else {
        seq![s[0]] + insert_ranked(s.drop_first(), x, k)
    }
}

/// `s` ordered by decreasing rank; rows of equal rank keep their order.
pub open spec fn sort_ranked(s: Seq<TxRow>, k: SortKey) -> Seq<TxRow>
    decreases s.len(),
{
    if s.len() == 0 {
        Seq::empty()
    } else {
        insert_ranked(sort_ranked(s.drop_last(), k), s.last(), k)
    }
}

pub open spec fn rank_desc(s: Seq<TxRow>, k: SortKey) -> bool {
    forall|i: int, j: int| 0 <= i < j < s.len() ==> rank(s[i], k) >= rank(s[j], k)
}

/// Inserting before the first row of lower rank than `x` is `insert_ranked`.
pub proof fn lemma_insert_at(s: Seq<TxRow>, x: TxRow, k: SortKey, p: int)
    requires
        0 <= p <= s.len(),
        forall|q: int| 0 <= q < p ==> rank(x, k) <= rank(#[trigger] s[q], k),
        p < s.len() ==> rank(x, k) > rank(s[p], k),
    ensures
        insert_ranked(s, x, k) == s.insert(p, x),
    decreases s.len(),
{
    if s.len() == 0 {
        assert(s.insert(p, x) =~= seq![x]);
    } else if p == 0 {
        assert(s.insert(p, x) =~= seq![x] + s);
    } else {
        let t = s.drop_first();
        assert forall|q: int| 0 <= q < p - 1 implies rank(x, k) <= rank(#[trigger] t[q], k) by {
            assert(t[q] == s[q + 1]);
        }
        lemma_insert_at(t, x, k, p - 1);
        assert(s.insert(p, x) =~= seq![s[0]] + t.insert(p - 1, x));
    }
}

/// `insert_ranked` adds exactly `x` and keeps a ranked list ranked.
pub proof fn lemma_insert_ranked(s: Seq<TxRow>, x: TxRow, k: SortKey)
    ensures
        insert_ranked(s, x, k).len() == s.len() + 1,
        insert_ranked(s, x, k).to_multiset() == s.to_multiset().insert(x),
        rank_desc(s, k) ==> rank_desc(insert_ranked(s, x, k), k),
        forall|i: int| 0 <= i < s.len() + 1 ==> #[trigger] insert_ranked(s, x, k)[i] == x
            || s.contains(insert_ranked(s, x, k)[i]),
    decreases s.len(),
{
    broadcast use vstd::seq_lib::group_to_multiset_ensures;
    let r = insert_ranked(s, x, k);
    if s.len() == 0 {
        assert(r =~= Seq::<TxRow>::empty().push(x));
        vstd::seq_lib::to_multiset_build(Seq::<TxRow>::empty(), x);
    } else if rank(x, k) > rank(s[0], k) {
        vstd::seq_lib::lemma_multiset_commutative(seq![x], s);
        assert(seq![x] =~= Seq::<TxRow>::empty().push(x));
        vstd::seq_lib::to_multiset_build(Seq::<TxRow>::empty(), x);
        assert forall|i: int| 0 <= i < s.len() + 1 implies #[trigger] r[i] == x || s.contains(r[i]) by {
            if i > 0 {
                assert(r[i] == s[i - 1]);
            }
        }
    } else {
        let t = s.drop_first();
        let rest = insert_ranked(t, x, k);
        lemma_insert_ranked(t, x, k);
        assert(s =~= seq![s[0]] + t);
        vstd::seq_lib::lemma_multiset_commutative(seq![s[0]], t);
        vstd::seq_lib::lemma_multiset_commutative(seq![s[0]], rest);
        assert(r.to_multiset() =~= s.to_multiset().insert(x));
        assert forall|i: int| 0 <= i < s.len() + 1 implies #[trigger] r[i] == x || s.contains(r[i]) by {
            if i > 0 {
                assert(r[i] == rest[i - 1]);
                if rest[i - 1] != x {
                    let q = choose|q: int| 0 <= q < t.len() && t[q] == rest[i - 1];
                    assert(s[q + 1] == t[q]);
                }
            } else {
                assert(s[0] == s[0]);
            }
        }
        if rank_desc(s, k) {
            assert forall|i: int, j: int| 0 <= i < j < r.len() implies rank(r[i], k) >= rank(r[j], k) by {
                if i == 0 {
                    assert(r[j] == rest[j - 1]);
                    if rest[j - 1] != x {
                        let q = choose|q: int| 0 <= q < t.len() && t[q] == rest[j - 1];
                        assert(s[q + 1] == t[q]);
                    }
                } else {
                    assert(r[i] == rest[i - 1] && r[j] == rest[j - 1]);
                }
            }
        }
    }
}

/// `sort_ranked` orders by decreasing rank and keeps every row exactly once.
pub proof fn lemma_sort_ranked(s: Seq<TxRow>, k: SortKey)
    ensures
        rank_desc(sort_ranked(s, k), k),
        sort_ranked(s, k).to_multiset() == s.to_multiset(),
        sort_ranked(s, k).len() == s.len(),
    decreases s.len(),
{
    broadcast use vstd::seq_lib::group_to_multiset_ensures;
    if s.len() > 0 {
        lemma_sort_ranked(s.drop_last(), k);
        lemma_insert_ranked(sort_ranked(s.drop_last(), k), s.last(), k);
        assert(s =~= s.drop_last().push(s.last()));
        vstd::seq_lib::to_multiset_build(s.drop_last(), s.last());
    }
}

} // verus!
