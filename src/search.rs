use vstd::prelude::*;
use vstd::string::StrSliceExecFns;
use crate::model::has_txid;
use crate::store::Store;

verus! {

/// Largest value a height may have when written as a search query.
pub const MAX_QUERY_HEIGHT: u64 = 0x7fff_ffff_ffff_ffff;

/// A decimal digit.
pub open spec fn is_digit(c: char) -> bool {
    '0' <= c && c <= '9'
}

/// The value of a decimal digit.
pub open spec fn digit_of(c: char) -> nat {
    if is_digit(c) {
        (c as int - '0' as int) as nat
    } else {
        0
    }
}

/// Every character is a decimal digit.
pub open spec fn all_digits(s: Seq<char>) -> bool {
    forall|i: int| 0 <= i < s.len() ==> is_digit(#[trigger] s[i])
}

/// The number that a string of decimal digits denotes.
pub open spec fn digits_value(s: Seq<char>) -> nat
    decreases s.len(),
{
    if s.len() == 0 {
        0
    } else {
        digits_value(s.drop_last()) * 10 + digit_of(s.last())
    }
}

/// The digits of a numeric query: the text after an optional leading '+'.
pub open spec fn query_digits(s: Seq<char>) -> Seq<char> {
    if s.len() > 0 && s[0] == '+' {
        s.drop_first()
    } else {
        s
    }
}

/// The height a query denotes: an optional '+' and at least one decimal digit,
/// with a value no larger than `MAX_QUERY_HEIGHT`.
pub open spec fn query_height(s: Seq<char>) -> Option<u64> {
    let d = query_digits(s);
    if d.len() > 0 && all_digits(d) && digits_value(d) <= MAX_QUERY_HEIGHT {
        Some(digits_value(d) as u64)
    } else {
        None
    }
}

proof fn lemma_digits_monotone(s: Seq<char>, i: int, j: int)
    requires
        0 <= i <= j <= s.len(),
        all_digits(s),
    ensures
        digits_value(s.take(i)) <= digits_value(s.take(j)),
    decreases j - i,
{
    if i < j {
        lemma_digits_monotone(s, i, j - 1);
        assert(s.take(j).drop_last() =~= s.take(j - 1));
        assert(is_digit(s[j - 1]));
    }
}

/// Reads a numeric query as a height; `None` when it is not one.
pub fn parse_height(q: &str) -> (r: Option<u64>)
    ensures
        r == query_height(q@),
{
    let n = q.unicode_len();
    let mut start: usize = 0;
    if n > 0 && q.get_char(0) == '+' {
        start = 1;
    }
    let ghost d = query_digits(q@);
    assert(d =~= q@.subrange(start as int, n as int));
    if start == n {
        return None;
    }
    let mut v: u64 = 0;
    let mut i: usize = start;
    while i < n
        invariant
            start <= i <= n,
            start < n,
            n == q@.len(),
            d == query_digits(q@),
            v <= MAX_QUERY_HEIGHT,
            d == q@.subrange(start as int, n as int),
            v == digits_value(d.take(i - start)),
            forall|k: int| 0 <= k < i - start ==> is_digit(#[trigger] d[k]),
        decreases n - i,
    {
        let c = q.get_char(i);
        assert(c == d[i - start]);
        if c < '0' || c > '9' {
            assert(!all_digits(d));
            return None;
        }
        let digit = (c as u32 - '0' as u32) as u64;
        assert(d.take(i - start + 1).drop_last() =~= d.take(i - start));
        if v > (MAX_QUERY_HEIGHT - digit) / 10 {
            proof {
                assert(all_digits(d) ==> digits_value(d.take(i - start + 1)) > MAX_QUERY_HEIGHT);
                if all_digits(d) {
                    lemma_digits_monotone(d, i - start + 1, d.len() as int);
                    assert(d.take(d.len() as int) =~= d);
                }
            }
            return None;
        }
        v = v * 10 + digit;
        i = i + 1;
    }
    assert(d.take(d.len() as int) =~= d);
    Some(v)
}

/// What a free-text query names.
pub enum SearchHit {
    Block { height: u64, hash: String },
    Tx { txid: String },
    Address { address: String },
}

impl Store {
    /// Classifies a query by trying, in order: a stored height, a stored block
    /// hash, a stored transaction id; anything else is taken as an address.
    pub fn search(&self, q: &String) -> (r: SearchHit)
        requires
            self.wf(),
        ensures
            match query_height(q@) {
                Some(h) if 1 <= h <= self.tip() => r == (SearchHit::Block { height: h, hash: self@.blocks[h - 1].hash }),
                _ => if exists|i: int| 0 <= i < self@.blocks.len() && #[trigger] self@.blocks[i].hash@ == q@ {
                    exists|i: int| 0 <= i < self@.blocks.len() && #[trigger] self@.blocks[i].hash@ == q@
                        && r == (SearchHit::Block { height: self@.blocks[i].height, hash: self@.blocks[i].hash })
                } else if has_txid(self@.rows, q@) {
                    r matches SearchHit::Tx { txid } && txid@ == q@
                } else {
                    r matches SearchHit::Address { address } && address@ == q@
                },
            },
    {
        if let Some(h) = parse_height(q.as_str()) {
            if let Some(b) = self.block_at(h) {
                proof {
                    self.lemma_wf();
                    assert(self@.blocks[h - 1].height == h);
                }
                return SearchHit::Block { height: b.height, hash: b.hash };
            }
        }
        if let Some(b) = self.block_by_hash(q) {
            return SearchHit::Block { height: b.height, hash: b.hash };
        }
        if let Some(t) = self.get_tx(q) {
            return SearchHit::Tx { txid: t.tx.txid };
        }
        SearchHit::Address { address: q.clone() }
    }
}

} // verus!
