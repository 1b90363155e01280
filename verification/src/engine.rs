//! The ledger engine: applies one event at a time to the transaction
//! index and to the per-client balances, with the dispute lifecycle
//! and the insufficient-funds rule.

use vstd::prelude::*;
use crate::index::{Record, Transaction, TxKind, recs_sorted, insert_pos, has_tx};
use crate::index::{find_record, insert_record};

verus! {

/// The balances of one client. Amounts are fixed-point decimals in
/// ten-thousandths.
#[derive(Clone, Copy, Debug)]
pub struct Stats {
    pub client: u16,
    pub available: i64,
    pub held: i64,
    pub total: i64,
    pub locked: bool,
}

/// No two entries of the balance table belong to the same client.
pub open spec fn clients_unique(s: Seq<Stats>) -> bool {
    forall|i: int, j: int| 0 <= i < j < s.len() ==> s[i].client != s[j].client
}

/// The first position holding `c`'s balances; `s.len()` when the
/// client has none yet.
pub open spec fn client_pos(s: Seq<Stats>, c: u16) -> int
    decreases s.len(),
{
    if s.len() == 0 {
        0
    } else if s[0].client == c {
        0
    } else {
        1 + client_pos(s.drop_first(), c)
    }
}

pub open spec fn has_client(s: Seq<Stats>, c: u16) -> bool {
    client_pos(s, c) < s.len()
}

pub proof fn lemma_client_pos_props(s: Seq<Stats>, c: u16)
    ensures
        0 <= client_pos(s, c) <= s.len(),
        forall|j: int| 0 <= j < client_pos(s, c) ==> s[j].client != c,
        client_pos(s, c) < s.len() ==> s[client_pos(s, c)].client == c,
    decreases s.len(),
{
    if s.len() == 0 {
    } else if s[0].client == c {
    } else {
        lemma_client_pos_props(s.drop_first(), c);
        assert forall|j: int| 0 <= j < client_pos(s, c) implies s[j].client != c by {
            if j > 0 {
                assert(s.drop_first()[j - 1] == s[j]);
            }
        }
        if client_pos(s, c) < s.len() {
            assert(s.drop_first()[client_pos(s, c) - 1] == s[client_pos(s, c)]);
        }
    }
}

pub proof fn lemma_client_pos_unique(s: Seq<Stats>, c: u16, p: int)
    requires
        0 <= p <= s.len(),
        forall|j: int| 0 <= j < p ==> s[j].client != c,
        p < s.len() ==> s[p].client == c,
    ensures
        p == client_pos(s, c),
    decreases s.len(),
{
    if s.len() == 0 {
    } else if p == 0 {
        if client_pos(s, c) > 0 {
            assert(s[0].client != c);
        }
    } else {
        assert(s[0].client != c);
        lemma_client_pos_unique(s.drop_first(), c, p - 1);
        assert forall|j: int| 0 <= j < p - 1 implies s.drop_first()[j].client != c by {
            assert(s.drop_first()[j] == s[j + 1]);
        }
    }
}

/// Looks up the position of a client's balances; `None` when the
/// client has not been seen yet.
pub fn find_client(stats: &Vec<Stats>, c: u16) -> (r: Option<usize>)
    ensures
        r is Some <==> has_client(stats@, c),
        r is Some ==> r->0 == client_pos(stats@, c) && stats@[r->0 as int].client == c,
{
    let mut i: usize = 0;
    while i < stats.len()
        invariant
            0 <= i <= stats@.len(),
            forall|j: int| 0 <= j < i ==> stats@[j].client != c,
        decreases stats@.len() - i,
    {
        if stats[i].client == c {
            proof {
                lemma_client_pos_unique(stats@, c, i as int);
            }
            return Some(i);
        }
        i = i + 1;
    }
    proof {
        lemma_client_pos_unique(stats@, c, stats@.len() as int);
    }
    None
}

/// Whether a mathematical amount is representable.
pub open spec fn fits_i64(x: int) -> bool {
    i64::MIN <= x <= i64::MAX
}

/// The balances a client starts with.
pub open spec fn fresh_stats(c: u16) -> Stats {
    Stats { client: c, available: 0, held: 0, total: 0, locked: false }
}

/// Moves `d` into both `available` and `total` (a deposit, or with a
/// negative `d` a withdrawal). If either sum leaves the representable
/// range the entry is unchanged.
pub open spec fn shift_avail_total(st: Stats, d: int) -> Stats {
    if fits_i64(st.available + d) && fits_i64(st.total + d) {
        Stats {
            client: st.client,
            available: (st.available + d) as i64,
            held: st.held,
            total: (st.total + d) as i64,
            locked: st.locked,
        }
    } else {
        st
    }
}

/// Moves funds between `available` and `held`, leaving `total` alone
/// (a dispute or a resolve). If either sum leaves the representable
/// range the entry is unchanged.
pub open spec fn shift_avail_held(st: Stats, da: int, dh: int) -> Stats {
    if fits_i64(st.available + da) && fits_i64(st.held + dh) {
        Stats {
            client: st.client,
            available: (st.available + da) as i64,
            held: (st.held + dh) as i64,
            total: st.total,
            locked: st.locked,
        }
    } else {
        st
    }
}

/// Moves funds out of (or back into) `total` and `held` together (a
/// chargeback). If either sum leaves the representable range the
/// entry is unchanged.
pub open spec fn shift_total_held(st: Stats, dt: int, dh: int) -> Stats {
    if fits_i64(st.total + dt) && fits_i64(st.held + dh) {
        Stats {
            client: st.client,
            available: st.available,
            held: (st.held + dh) as i64,
            total: (st.total + dt) as i64,
            locked: st.locked,
        }
    } else {
        st
    }
}

/// The balance effect of disputing the past transaction `r`: a
/// disputed deposit freezes its amount, a disputed withdrawal freezes
/// a negative amount. A record without an amount moves no funds.
pub open spec fn dispute_entry(st: Stats, r: Record) -> Stats {
    match r.txn.amount {
        Some(a) => {
            if r.txn.kind is Deposit {
                shift_avail_held(st, -(a as int), a as int)
            } else if r.txn.kind is Withdrawal {
                shift_avail_held(st, a as int, -(a as int))
            } else {
                st
            }
        },
        None => st,
    }
}

/// The balance effect of resolving the dispute of `r`: the exact
/// reverse of the dispute effect.
pub open spec fn resolve_entry(st: Stats, r: Record) -> Stats {
    match r.txn.amount {
        Some(a) => {
            if r.txn.kind is Deposit {
                shift_avail_held(st, a as int, -(a as int))
            } else if r.txn.kind is Withdrawal {
                shift_avail_held(st, -(a as int), a as int)
            } else {
                st
            }
        },
        None => st,
    }
}

/// The balance effect of charging back `r`: the disputed funds leave
/// (or, for a withdrawal, re-enter) both `held` and `total`, and the
/// account is locked whatever else happens.
pub open spec fn chargeback_entry(st: Stats, r: Record) -> Stats {
    let moved = match r.txn.amount {
        Some(a) => {
            if r.txn.kind is Deposit {
                shift_total_held(st, -(a as int), -(a as int))
            } else if r.txn.kind is Withdrawal {
                shift_total_held(st, a as int, a as int)
            } else {
                st
            }
        },
        None => st,
    };
    Stats {
        client: moved.client,
        available: moved.available,
        held: moved.held,
        total: moved.total,
        locked: true,
    }
}

/// A deposit creates the client's balances on first sight (whether or
/// not an amount came with the event) and then credits the amount.
pub open spec fn step_stats_deposit(stats: Seq<Stats>, txn: Transaction) -> Seq<Stats> {
    let grown = if has_client(stats, txn.client) {
        stats
    } else {
        stats.push(fresh_stats(txn.client))
    };
    let p = client_pos(grown, txn.client);
    match txn.amount {
        Some(a) => grown.update(p, shift_avail_total(grown[p], a as int)),
        None => grown,
    }
}

/// A withdrawal debits the amount, but only for a client already
/// seen, only with an amount present, and only if it would not drive
/// `total` negative; otherwise the event is silently dropped.
pub open spec fn step_stats_withdrawal(stats: Seq<Stats>, txn: Transaction) -> Seq<Stats> {
    if !has_client(stats, txn.client) {
        stats
    } else {
        match txn.amount {
            Some(a) => {
                let p = client_pos(stats, txn.client);
                if stats[p].total - a < 0 {
                    stats
                } else {
                    stats.update(p, shift_avail_total(stats[p], -(a as int)))
                }
            },
            None => stats,
        }
    }
}

/// A dispute, resolve or chargeback acts only when the event's client
/// has balances and the index holds the referenced transaction; a
/// resolve or chargeback additionally only when that record is
/// currently disputed.
pub open spec fn lifecycle_applies(
    recs: Seq<Record>,
    stats: Seq<Stats>,
    txn: Transaction,
) -> bool {
    &&& has_client(stats, txn.client)
    &&& has_tx(recs, txn.tx)
    &&& (txn.kind is Resolve || txn.kind is Chargeback) ==> recs[insert_pos(
        recs,
        txn.tx,
    )].has_dispute
}

/// How one event changes the per-client balances.
pub open spec fn step_stats(recs: Seq<Record>, stats: Seq<Stats>, txn: Transaction) -> Seq<
    Stats,
> {
    match txn.kind {
        TxKind::Deposit => step_stats_deposit(stats, txn),
        TxKind::Withdrawal => step_stats_withdrawal(stats, txn),
        TxKind::Dispute => {
            if lifecycle_applies(recs, stats, txn) {
                let p = client_pos(stats, txn.client);
                stats.update(p, dispute_entry(stats[p], recs[insert_pos(recs, txn.tx)]))
            } else {
                stats
            }
        },
        TxKind::Resolve => {
            if lifecycle_applies(recs, stats, txn) {
                let p = client_pos(stats, txn.client);
                stats.update(p, resolve_entry(stats[p], recs[insert_pos(recs, txn.tx)]))
            } else {
                stats
            }
        },
        TxKind::Chargeback => {
            if lifecycle_applies(recs, stats, txn) {
                let p = client_pos(stats, txn.client);
                stats.update(p, chargeback_entry(stats[p], recs[insert_pos(recs, txn.tx)]))
            } else {
                stats
            }
        },
    }
}

/// How one event changes the transaction index: deposits and
/// withdrawals are recorded unconditionally (before any balance rule
/// is weighed); a dispute flags its target, a resolve clears the
/// flag, a chargeback leaves it set.
pub open spec fn step_recs(recs: Seq<Record>, stats: Seq<Stats>, txn: Transaction) -> Seq<
    Record,
> {
    match txn.kind {
        TxKind::Deposit => recs.insert(
            insert_pos(recs, txn.tx),
            Record { txn: txn, has_dispute: false },
        ),
        TxKind::Withdrawal => recs.insert(
            insert_pos(recs, txn.tx),
            Record { txn: txn, has_dispute: false },
        ),
        TxKind::Dispute => {
            if lifecycle_applies(recs, stats, txn) {
                let i = insert_pos(recs, txn.tx);
                recs.update(i, Record { txn: recs[i].txn, has_dispute: true })
            } else {
                recs
            }
        },
        TxKind::Resolve => {
            if lifecycle_applies(recs, stats, txn) {
                let i = insert_pos(recs, txn.tx);
                recs.update(i, Record { txn: recs[i].txn, has_dispute: false })
            } else {
                recs
            }
        },
        TxKind::Chargeback => recs,
    }
}

fn apply_deposit(stats: &mut Vec<Stats>, txn: Transaction)
    requires
        clients_unique(old(stats)@),
        txn.kind is Deposit,
    ensures
        final(stats)@ == step_stats_deposit(old(stats)@, txn),
        clients_unique(final(stats)@),
{
    let idx: usize;
    match find_client(stats, txn.client) {
        Some(i) => {
            idx = i;
        },
        None => {
            idx = stats.len();
            proof {
                lemma_client_pos_props(stats@, txn.client);
            }
            stats.push(Stats { client: txn.client, available: 0, held: 0, total: 0, locked: false });
            proof {
                assert(stats@ == old(stats)@.push(fresh_stats(txn.client)));
                lemma_client_pos_unique(stats@, txn.client, idx as int);
            }
        },
    }
    let ghost grown = stats@;
    match txn.amount {
        Some(a) => {
            let st = stats[idx];
            let mut entry = st;
            match st.available.checked_add(a) {
                Some(av2) => {
                    match st.total.checked_add(a) {
                        Some(t2) => {
                            entry = Stats {
                                client: st.client,
                                available: av2,
                                held: st.held,
                                total: t2,
                                locked: st.locked,
                            };
                        },
                        None => {},
                    }
                },
                None => {},
            }
            stats[idx] = entry;
            proof {
                assert(entry == shift_avail_total(grown[idx as int], a as int));
            }
        },
        None => {},
    }
}

fn apply_withdrawal(stats: &mut Vec<Stats>, txn: Transaction)
    requires
        clients_unique(old(stats)@),
        txn.kind is Withdrawal,
    ensures
        final(stats)@ == step_stats_withdrawal(old(stats)@, txn),
        clients_unique(final(stats)@),
{
    match find_client(stats, txn.client) {
        Some(i) => {
            match txn.amount {
                Some(a) => {
                    let st = stats[i];
                    match st.total.checked_sub(a) {
                        Some(t2) => {
                            if t2 >= 0 {
                                let mut entry = st;
                                match st.available.checked_sub(a) {
                                    Some(av2) => {
                                        entry = Stats {
                                            client: st.client,
                                            available: av2,
                                            held: st.held,
                                            total: t2,
                                            locked: st.locked,
                                        };
                                    },
                                    None => {},
                                }
                                stats[i] = entry;
                                proof {
                                    assert(entry == shift_avail_total(old(stats)@[i as int], -(a as int)));
                                }
                            }
                        },
                        None => {
                            // The mathematical result is above the representable
                            // range exactly when the amount is negative; the
                            // entry is then written back unchanged, as the
                            // balance rule (not the insufficiency rule) drops
                            // the event.
                            if a < 0 {
                                stats[i] = st;
                            }
                        },
                    }
                },
                None => {},
            }
        },
        None => {},
    }
}

/// Sets the dispute flag of the record at `ri`, leaving everything
/// else (in particular the sort order) alone.
fn set_dispute_flag(records: &mut Vec<Record>, ri: usize, flag: bool)
    requires
        recs_sorted(old(records)@),
        ri < old(records)@.len(),
    ensures
        final(records)@ == old(records)@.update(
            ri as int,
            Record { txn: old(records)@[ri as int].txn, has_dispute: flag },
        ),
        recs_sorted(final(records)@),
{
    let r = records[ri];
    records[ri] = Record { txn: r.txn, has_dispute: flag };
    proof {
        assert forall|i: int, j: int|
            0 <= i <= j < records@.len() implies records@[i].txn.tx <= records@[j].txn.tx by {
            assert(records@[i].txn == old(records)@[i].txn);
            assert(records@[j].txn == old(records)@[j].txn);
        }
    }
}

fn apply_dispute(records: &mut Vec<Record>, stats: &mut Vec<Stats>, txn: Transaction)
    requires
        recs_sorted(old(records)@),
        clients_unique(old(stats)@),
        txn.kind is Dispute,
    ensures
        final(records)@ == step_recs(old(records)@, old(stats)@, txn),
        final(stats)@ == step_stats(old(records)@, old(stats)@, txn),
        recs_sorted(final(records)@),
        clients_unique(final(stats)@),
{
    match find_client(stats, txn.client) {
        Some(ci) => {
            match find_record(records, txn.tx) {
                Some(ri) => {
                    let r = records[ri];
                    set_dispute_flag(records, ri, true);
                    let st = stats[ci];
                    let mut entry = st;
                    match r.txn.amount {
                        Some(a) => {
                            match r.txn.kind {
                                TxKind::Deposit => {
                                    match st.available.checked_sub(a) {
                                        Some(av2) => {
                                            match st.held.checked_add(a) {
                                                Some(h2) => {
                                                    entry = Stats {
                                                        client: st.client,
                                                        available: av2,
                                                        held: h2,
                                                        total: st.total,
                                                        locked: st.locked,
                                                    };
                                                },
                                                None => {},
                                            }
                                        },
                                        None => {},
                                    }
                                },
                                TxKind::Withdrawal => {
                                    match st.available.checked_add(a) {
                                        Some(av2) => {
                                            match st.held.checked_sub(a) {
                                                Some(h2) => {
                                                    entry = Stats {
                                                        client: st.client,
                                                        available: av2,
                                                        held: h2,
                                                        total: st.total,
                                                        locked: st.locked,
                                                    };
                                                },
                                                None => {},
                                            }
                                        },
                                        None => {},
                                    }
                                },
                                _ => {},
                            }
                        },
                        None => {},
                    }
                    stats[ci] = entry;
                    proof {
                        assert(entry == dispute_entry(old(stats)@[ci as int], r));
                    }
                },
                None => {},
            }
        },
        None => {},
    }
}

fn apply_resolve(records: &mut Vec<Record>, stats: &mut Vec<Stats>, txn: Transaction)
    requires
        recs_sorted(old(records)@),
        clients_unique(old(stats)@),
        txn.kind is Resolve,
    ensures
        final(records)@ == step_recs(old(records)@, old(stats)@, txn),
        final(stats)@ == step_stats(old(records)@, old(stats)@, txn),
        recs_sorted(final(records)@),
        clients_unique(final(stats)@),
{
    match find_client(stats, txn.client) {
        Some(ci) => {
            match find_record(records, txn.tx) {
                Some(ri) => {
                    let r = records[ri];
                    if r.has_dispute {
                        set_dispute_flag(records, ri, false);
                        let st = stats[ci];
                        let mut entry = st;
                        match r.txn.amount {
                            Some(a) => {
                                match r.txn.kind {
                                    TxKind::Deposit => {
                                        match st.available.checked_add(a) {
                                            Some(av2) => {
                                                match st.held.checked_sub(a) {
                                                    Some(h2) => {
                                                        entry = Stats {
                                                            client: st.client,
                                                            available: av2,
                                                            held: h2,
                                                            total: st.total,
                                                            locked: st.locked,
                                                        };
                                                    },
                                                    None => {},
                                                }
                                            },
                                            None => {},
                                        }
                                    },
                                    TxKind::Withdrawal => {
                                        match st.available.checked_sub(a) {
                                            Some(av2) => {
                                                match st.held.checked_add(a) {
                                                    Some(h2) => {
                                                        entry = Stats {
                                                            client: st.client,
                                                            available: av2,
                                                            held: h2,
                                                            total: st.total,
                                                            locked: st.locked,
                                                        };
                                                    },
                                                    None => {},
                                                }
                                            },
                                            None => {},
                                        }
                                    },
                                    _ => {},
                                }
                            },
                            None => {},
                        }
                        stats[ci] = entry;
                        proof {
                            assert(entry == resolve_entry(old(stats)@[ci as int], r));
                        }
                    }
                },
                None => {},
            }
        },
        None => {},
    }
}

fn apply_chargeback(records: &mut Vec<Record>, stats: &mut Vec<Stats>, txn: Transaction)
    requires
        recs_sorted(old(records)@),
        clients_unique(old(stats)@),
        txn.kind is Chargeback,
    ensures
        final(records)@ == step_recs(old(records)@, old(stats)@, txn),
        final(stats)@ == step_stats(old(records)@, old(stats)@, txn),
        recs_sorted(final(records)@),
        clients_unique(final(stats)@),
{
    match find_client(stats, txn.client) {
        Some(ci) => {
            match find_record(records, txn.tx) {
                Some(ri) => {
                    let r = records[ri];
                    if r.has_dispute {
                        let st = stats[ci];
                        let mut moved = st;
                        match r.txn.amount {
                            Some(a) => {
                                match r.txn.kind {
                                    TxKind::Deposit => {
                                        match st.total.checked_sub(a) {
                                            Some(t2) => {
                                                match st.held.checked_sub(a) {
                                                    Some(h2) => {
                                                        moved = Stats {
                                                            client: st.client,
                                                            available: st.available,
                                                            held: h2,
                                                            total: t2,
                                                            locked: st.locked,
                                                        };
                                                    },
                                                    None => {},
                                                }
                                            },
                                            None => {},
                                        }
                                    },
                                    TxKind::Withdrawal => {
                                        match st.total.checked_add(a) {
                                            Some(t2) => {
                                                match st.held.checked_add(a) {
                                                    Some(h2) => {
                                                        moved = Stats {
                                                            client: st.client,
                                                            available: st.available,
                                                            held: h2,
                                                            total: t2,
                                                            locked: st.locked,
                                                        };
                                                    },
                                                    None => {},
                                                }
                                            },
                                            None => {},
                                        }
                                    },
                                    _ => {},
                                }
                            },
                            None => {},
                        }
                        stats[ci] = Stats {
                            client: moved.client,
                            available: moved.available,
                            held: moved.held,
                            total: moved.total,
                            locked: true,
                        };
                        proof {
                            assert(stats@[ci as int] == chargeback_entry(old(stats)@[ci as int], r));
                        }
                    }
                },
                None => {},
            }
        },
        None => {},
    }
}

/// Applies one event to the transaction index and the balance table,
/// exactly as the step functions describe: deposits and withdrawals
/// are first recorded in the index, then their balance effect is
/// weighed; dispute-lifecycle events act on the record they
/// reference, or fall through silently when it (or the client) is
/// missing.
pub fn process_txn(txn: Transaction, records: &mut Vec<Record>, stats: &mut Vec<Stats>)
    requires
        recs_sorted(old(records)@),
        clients_unique(old(stats)@),
    ensures
        final(records)@ == step_recs(old(records)@, old(stats)@, txn),
        final(stats)@ == step_stats(old(records)@, old(stats)@, txn),
        recs_sorted(final(records)@),
        clients_unique(final(stats)@),
{
    match txn.kind {
        TxKind::Deposit => {
            insert_record(records, Record { txn: txn, has_dispute: false });
            apply_deposit(stats, txn);
        },
        TxKind::Withdrawal => {
            insert_record(records, Record { txn: txn, has_dispute: false });
            apply_withdrawal(stats, txn);
        },
        TxKind::Dispute => {
            apply_dispute(records, stats, txn);
        },
        TxKind::Resolve => {
            apply_resolve(records, stats, txn);
        },
        TxKind::Chargeback => {
            apply_chargeback(records, stats, txn);
        },
    }
}

/// The transaction index after a whole stream of events.
pub open spec fn run_recs(
    recs: Seq<Record>,
    stats: Seq<Stats>,
    txns: Seq<Transaction>,
) -> Seq<Record>
    decreases txns.len(),
{
    if txns.len() == 0 {
        recs
    } else {
        run_recs(
            step_recs(recs, stats, txns[0]),
            step_stats(recs, stats, txns[0]),
            txns.drop_first(),
        )
    }
}

/// The balance table after a whole stream of events.
pub open spec fn run_stats(
    recs: Seq<Record>,
    stats: Seq<Stats>,
    txns: Seq<Transaction>,
) -> Seq<Stats>
    decreases txns.len(),
{
    if txns.len() == 0 {
        stats
    } else {
        run_stats(
            step_recs(recs, stats, txns[0]),
            step_stats(recs, stats, txns[0]),
            txns.drop_first(),
        )
    }
}

/// Applies a stream of events in order, each one fully (index first,
/// then balances) before the next.
pub fn process_batch(txns: &Vec<Transaction>, records: &mut Vec<Record>, stats: &mut Vec<Stats>)
    requires
        recs_sorted(old(records)@),
        clients_unique(old(stats)@),
    ensures
        final(records)@ == run_recs(old(records)@, old(stats)@, txns@),
        final(stats)@ == run_stats(old(records)@, old(stats)@, txns@),
        recs_sorted(final(records)@),
        clients_unique(final(stats)@),
{
    let ghost recs0 = records@;
    let ghost stats0 = stats@;
    proof {
        assert(txns@.skip(0) =~= txns@);
    }
    let mut i: usize = 0;
    while i < txns.len()
        invariant
            0 <= i <= txns@.len(),
            recs_sorted(records@),
            clients_unique(stats@),
            run_recs(records@, stats@, txns@.skip(i as int)) == run_recs(recs0, stats0, txns@),
            run_stats(records@, stats@, txns@.skip(i as int)) == run_stats(recs0, stats0, txns@),
        decreases txns@.len() - i,
    {
        let ghost recs_before = records@;
        let ghost stats_before = stats@;
        process_txn(txns[i], records, stats);
        proof {
            assert(txns@.skip(i as int).drop_first() =~= txns@.skip(i + 1));
            assert(txns@.skip(i as int)[0] == txns@[i as int]);
        }
        i = i + 1;
    }
    proof {
        assert(txns@.skip(txns@.len() as int).len() == 0);
    }
}

} // verus!
