//! The transaction index: an ever-growing collection of accepted
//! deposit/withdrawal records, kept sorted by ascending transaction
//! identifier so that dispute-lifecycle events can look up the record
//! they refer to in logarithmic time.

use vstd::prelude::*;

verus! {

/// The kind of an incoming event.
#[derive(Clone, Copy, PartialEq, Eq, Structural, Debug)]
pub enum TxKind {
    Deposit,
    Withdrawal,
    Dispute,
    Resolve,
    Chargeback,
}

/// One decoded input event. `amount` is a fixed-point decimal in
/// ten-thousandths; it is present for deposits and withdrawals and
/// absent for the dispute-lifecycle kinds.
#[derive(Clone, Copy, Debug)]
pub struct Transaction {
    pub kind: TxKind,
    pub client: u16,
    pub tx: u32,
    pub amount: Option<i64>,
}

/// An entry of the transaction index: a past deposit or withdrawal,
/// together with a flag saying whether it is currently under dispute.
#[derive(Clone, Copy, Debug)]
pub struct Record {
    pub txn: Transaction,
    pub has_dispute: bool,
}

/// The index is kept sorted (non-strictly) by transaction identifier.
pub open spec fn recs_sorted(s: Seq<Record>) -> bool {
    forall|i: int, j: int| 0 <= i <= j < s.len() ==> s[i].txn.tx <= s[j].txn.tx
}

/// The first position whose record's identifier is at least `tx`;
/// `s.len()` when every record's identifier is below `tx`. On a sorted
/// index this is both where a new record with identifier `tx` belongs
/// and where an existing one is found.
pub open spec fn insert_pos(s: Seq<Record>, tx: u32) -> int
    decreases s.len(),
{
    if s.len() == 0 {
        0
    } else if s[0].txn.tx >= tx {
        0
    } else {
        1 + insert_pos(s.drop_first(), tx)
    }
}

/// Whether the index holds a record with identifier `tx`; when several
/// records share an identifier (the input stream is not defended
/// against that), lookups see the first of them.
pub open spec fn has_tx(s: Seq<Record>, tx: u32) -> bool {
    insert_pos(s, tx) < s.len() && s[insert_pos(s, tx)].txn.tx == tx
}

pub proof fn lemma_insert_pos_props(s: Seq<Record>, tx: u32)
    ensures
        0 <= insert_pos(s, tx) <= s.len(),
        forall|j: int| 0 <= j < insert_pos(s, tx) ==> s[j].txn.tx < tx,
        insert_pos(s, tx) < s.len() ==> s[insert_pos(s, tx)].txn.tx >= tx,
    decreases s.len(),
{
    if s.len() == 0 {
    } else if s[0].txn.tx >= tx {
    } else {
        lemma_insert_pos_props(s.drop_first(), tx);
        assert forall|j: int| 0 <= j < insert_pos(s, tx) implies s[j].txn.tx < tx by {
            if j > 0 {
                assert(s.drop_first()[j - 1] == s[j]);
            }
        }
        if insert_pos(s, tx) < s.len() {
            assert(s.drop_first()[insert_pos(s, tx) - 1] == s[insert_pos(s, tx)]);
        }
    }
}

pub proof fn lemma_insert_pos_unique(s: Seq<Record>, tx: u32, p: int)
    requires
        0 <= p <= s.len(),
        forall|j: int| 0 <= j < p ==> s[j].txn.tx < tx,
        p < s.len() ==> s[p].txn.tx >= tx,
    ensures
        p == insert_pos(s, tx),
    decreases s.len(),
{
    if s.len() == 0 {
    } else if p == 0 {
        if insert_pos(s, tx) > 0 {
            assert(s[0].txn.tx < tx);
        }
    } else {
        assert(s[0].txn.tx < tx);
        lemma_insert_pos_unique(s.drop_first(), tx, p - 1);
        assert forall|j: int| 0 <= j < p - 1 implies s.drop_first()[j].txn.tx < tx by {
            assert(s.drop_first()[j] == s[j + 1]);
        }
    }
}

/// With no record carrying `tx`, no position holds it (on a sorted
/// index everything left of the boundary is smaller, everything right
/// of it larger).
pub proof fn lemma_absent_tx(s: Seq<Record>, tx: u32)
    requires
        recs_sorted(s),
        !has_tx(s, tx),
    ensures
        forall|i: int| 0 <= i < s.len() ==> s[i].txn.tx != tx,
{
    lemma_insert_pos_props(s, tx);
}

/// Lower-bound binary search: the position where a record with
/// identifier `tx` belongs in the sorted index.
fn lower_bound(records: &Vec<Record>, tx: u32) -> (pos: usize)
    requires
        recs_sorted(records@),
    ensures
        pos == insert_pos(records@, tx),
{
    let mut lo: usize = 0;
    let mut hi: usize = records.len();
    while lo < hi
        invariant
            0 <= lo <= hi <= records@.len(),
            recs_sorted(records@),
            forall|j: int| 0 <= j < lo ==> records@[j].txn.tx < tx,
            forall|j: int| hi <= j < records@.len() ==> records@[j].txn.tx >= tx,
        decreases hi - lo,
    {
        let mid = lo + (hi - lo) / 2;
        if records[mid].txn.tx < tx {
            lo = mid + 1;
        } else {
            hi = mid;
        }
    }
    proof {
        lemma_insert_pos_unique(records@, tx, lo as int);
    }
    lo
}

/// Looks up the record with the given transaction identifier; `None`
/// when the index holds no such record.
pub fn find_record(records: &Vec<Record>, tx: u32) -> (r: Option<usize>)
    requires
        recs_sorted(records@),
    ensures
        r is Some <==> has_tx(records@, tx),
        r is Some ==> r->0 == insert_pos(records@, tx)
            && records@[r->0 as int].txn.tx == tx,
        r is None ==> forall|i: int| 0 <= i < records@.len() ==> records@[i].txn.tx != tx,
{
    let pos = lower_bound(records, tx);
    if pos < records.len() && records[pos].txn.tx == tx {
        Some(pos)
    } else {
        proof {
            lemma_absent_tx(records@, tx);
        }
        None
    }
}

/// Inserts a record, keeping the index sorted by transaction
/// identifier.
pub fn insert_record(records: &mut Vec<Record>, rec: Record)
    requires
        recs_sorted(old(records)@),
    ensures
        final(records)@ == old(records)@.insert(insert_pos(old(records)@, rec.txn.tx), rec),
        recs_sorted(final(records)@),
{
    let pos = lower_bound(records, rec.txn.tx);
    proof {
        lemma_insert_pos_props(records@, rec.txn.tx);
    }
    records.insert(pos, rec);
    proof {
        assert forall|i: int, j: int|
            0 <= i <= j < records@.len() implies records@[i].txn.tx <= records@[j].txn.tx by {
            let s = old(records)@;
            let p = insert_pos(s, rec.txn.tx);
            if i < p {
                assert(records@[i] == s[i]);
            }
            if j < p {
                assert(records@[j] == s[j]);
            }
            if i > p {
                assert(records@[i] == s[i - 1]);
            }
            if j > p {
                assert(records@[j] == s[j - 1]);
            }
        }
    }
}

} // verus!
