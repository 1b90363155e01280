//! Properties of the ledger that hold of every event stream, stated
//! over the engine's step functions and proved once and for all.

use vstd::prelude::*;
use crate::index::{Record, Transaction, insert_pos, has_tx};
use crate::engine::{
    Stats, step_stats, step_recs, run_stats, client_pos, has_client, fresh_stats,
    shift_avail_total, lemma_client_pos_props, lemma_client_pos_unique,
};

verus! {

/// Every client's `total` is exactly `available + held`.
pub open spec fn balanced(stats: Seq<Stats>) -> bool {
    forall|i: int|
        0 <= i < stats.len() ==> stats[i].total == stats[i].available + stats[i].held
}

/// Applying any single event keeps every client's `total` equal to
/// `available + held`.
pub proof fn lemma_step_preserves_balance(
    recs: Seq<Record>,
    stats: Seq<Stats>,
    txn: Transaction,
)
    requires
        balanced(stats),
    ensures
        balanced(step_stats(recs, stats, txn)),
{
    let s2 = step_stats(recs, stats, txn);
    if txn.kind is Deposit {
        let c = txn.client;
        let grown = if has_client(stats, c) {
            stats
        } else {
            stats.push(fresh_stats(c))
        };
        assert(balanced(grown));
        if !has_client(stats, c) {
            lemma_client_pos_props(stats, c);
            lemma_client_pos_unique(grown, c, stats.len() as int);
        }
        lemma_client_pos_props(grown, c);
        let p = client_pos(grown, c);
        assert(p < grown.len());
        if txn.amount is Some {
            let a = txn.amount->0;
            let entry = shift_avail_total(grown[p], a as int);
            assert(entry.total == entry.available + entry.held);
            assert(s2 == grown.update(p, entry));
            assert forall|i: int|
                0 <= i < s2.len() implies s2[i].total == s2[i].available + s2[i].held by {
                if i != p {
                    assert(s2[i] == grown[i]);
                } else {
                    assert(s2[i] == entry);
                }
            }
        } else {
            assert(s2 == grown);
        }
    } else if s2 == stats {
    } else {
        lemma_client_pos_props(stats, txn.client);
        let p = client_pos(stats, txn.client);
        assert(has_client(stats, txn.client));
        let entry = s2[p];
        assert(s2 == stats.update(p, entry));
        assert(entry.total == entry.available + entry.held);
        assert forall|i: int|
            0 <= i < s2.len() implies s2[i].total == s2[i].available + s2[i].held by {
            if i != p {
                assert(s2[i] == stats[i]);
            }
        }
    }
}

/// Applying any whole stream of events keeps every client's `total`
/// equal to `available + held`; since the empty balance table is
/// trivially balanced, the invariant holds at every point of any run
/// that starts from nothing.
pub proof fn lemma_run_preserves_balance(
    recs: Seq<Record>,
    stats: Seq<Stats>,
    txns: Seq<Transaction>,
)
    requires
        balanced(stats),
    ensures
        balanced(run_stats(recs, stats, txns)),
    decreases txns.len(),
{
    if txns.len() > 0 {
        lemma_step_preserves_balance(recs, stats, txns[0]);
        lemma_run_preserves_balance(
            step_recs(recs, stats, txns[0]),
            step_stats(recs, stats, txns[0]),
            txns.drop_first(),
        );
    }
}

/// Replaying a resolve or a chargeback against a record whose dispute
/// flag is already clear is a no-op: neither the index nor any
/// balance changes.
pub proof fn lemma_replay_resolve_chargeback(
    recs: Seq<Record>,
    stats: Seq<Stats>,
    txn: Transaction,
)
    requires
        txn.kind is Resolve || txn.kind is Chargeback,
        has_tx(recs, txn.tx),
        !recs[insert_pos(recs, txn.tx)].has_dispute,
    ensures
        step_recs(recs, stats, txn) == recs,
        step_stats(recs, stats, txn) == stats,
{
}

/// The total a client can draw on: zero for a client not seen yet.
pub open spec fn total_of(stats: Seq<Stats>, c: u16) -> int {
    if has_client(stats, c) {
        stats[client_pos(stats, c)].total as int
    } else {
        0
    }
}

/// A withdrawal never drives `total` negative: whenever the requested
/// amount exceeds the client's total, every balance is left
/// unchanged.
pub proof fn lemma_withdrawal_never_negative(
    recs: Seq<Record>,
    stats: Seq<Stats>,
    txn: Transaction,
)
    requires
        txn.kind is Withdrawal,
        txn.amount is Some,
        total_of(stats, txn.client) - txn.amount->0 < 0,
    ensures
        step_stats(recs, stats, txn) == stats,
{
}

} // verus!
