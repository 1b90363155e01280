use bulbasaur::engine::{find_client, process_txn, Stats};
use bulbasaur::index::{Record, Transaction, TxKind};

/// A decimal amount as the library holds it: a count of
/// ten-thousandths, rounded to four fractional digits.
fn amt(x: f64) -> i64 {
    (x * 10000.0).round() as i64
}

fn txn(kind: TxKind, client: u16, tx: u32, amount: Option<i64>) -> Transaction {
    Transaction { kind, client, tx, amount }
}

fn run(txns: Vec<Transaction>) -> (Vec<Record>, Vec<Stats>) {
    let mut records: Vec<Record> = vec![];
    let mut stats: Vec<Stats> = vec![];
    for t in txns {
        process_txn(t, &mut records, &mut stats);
    }
    (records, stats)
}

fn client_stats(stats: &Vec<Stats>, c: u16) -> Stats {
    let i = find_client(stats, c).unwrap();
    stats[i]
}

#[test]
fn should_deposit_correctly() {
    let (_, stats) = run(vec![
        txn(TxKind::Deposit, 1, 1, Some(amt(1.0))),
        txn(TxKind::Deposit, 1, 1, Some(amt(1.0))),
    ]);
    let s = client_stats(&stats, 1);
    assert_eq!(s.available, amt(2.0));
    assert_eq!(s.held, amt(0.0));
    assert_eq!(s.total, amt(2.0));
    assert!(!s.locked);
}

#[test]
fn should_withdrawal_correctly() {
    let (_, stats) = run(vec![
        txn(TxKind::Deposit, 1, 1, Some(amt(5.0))),
        txn(TxKind::Withdrawal, 1, 1, Some(amt(1.0))),
    ]);
    let s = client_stats(&stats, 1);
    assert_eq!(s.available, amt(4.0));
    assert_eq!(s.held, amt(0.0));
    assert_eq!(s.total, amt(4.0));
    assert!(!s.locked);
}

#[test]
fn should_withdrawal_fail_when_insufficient_fund() {
    let (_, stats) = run(vec![
        txn(TxKind::Deposit, 1, 1, Some(amt(5.0))),
        txn(TxKind::Withdrawal, 1, 1, Some(amt(6.0))),
    ]);
    let s = client_stats(&stats, 1);
    assert_eq!(s.available, amt(5.0));
    assert_eq!(s.held, amt(0.0));
    assert_eq!(s.total, amt(5.0));
    assert!(!s.locked);
}

#[test]
fn should_dispute_deposit_txn_correctly() {
    let (_, stats) = run(vec![
        txn(TxKind::Deposit, 1, 1, Some(amt(5.0))),
        txn(TxKind::Deposit, 1, 2, Some(amt(1.0))),
        txn(TxKind::Dispute, 1, 2, None),
    ]);
    let s = client_stats(&stats, 1);
    assert_eq!(s.available, amt(5.0));
    assert_eq!(s.held, amt(1.0));
    assert_eq!(s.total, amt(6.0));
    assert!(!s.locked);
}

#[test]
fn should_dispute_withdrawal_txn_correctly() {
    let (_, stats) = run(vec![
        txn(TxKind::Deposit, 1, 1, Some(amt(5.0))),
        txn(TxKind::Withdrawal, 1, 2, Some(amt(1.0))),
        txn(TxKind::Dispute, 1, 2, None),
    ]);
    let s = client_stats(&stats, 1);
    assert_eq!(s.available, amt(5.0));
    assert_eq!(s.held, amt(-1.0));
    assert_eq!(s.total, amt(4.0));
    assert!(!s.locked);
}

#[test]
fn should_resolve_work_for_deposit_txn() {
    let (_, stats) = run(vec![
        txn(TxKind::Deposit, 1, 1, Some(amt(5.0))),
        txn(TxKind::Deposit, 1, 2, Some(amt(2.0))),
        txn(TxKind::Dispute, 1, 2, None),
        txn(TxKind::Resolve, 1, 2, None),
    ]);
    let s = client_stats(&stats, 1);
    assert_eq!(s.available, amt(7.0));
    assert_eq!(s.held, amt(0.0));
    assert_eq!(s.total, amt(7.0));
    assert!(!s.locked);
}

#[test]
fn should_process_deposit_chargeback() {
    let (_, stats) = run(vec![
        txn(TxKind::Deposit, 1, 1, Some(amt(5.0))),
        txn(TxKind::Deposit, 1, 2, Some(amt(2.0))),
        txn(TxKind::Dispute, 1, 2, None),
        txn(TxKind::Chargeback, 1, 2, None),
    ]);
    let s = client_stats(&stats, 1);
    assert_eq!(s.available, amt(5.0));
    assert_eq!(s.held, amt(0.0));
    assert_eq!(s.total, amt(5.0));
    assert!(s.locked);
}

#[test]
fn should_process_withdrawal_chargeback() {
    let (_, stats) = run(vec![
        txn(TxKind::Deposit, 1, 1, Some(amt(5.0))),
        txn(TxKind::Withdrawal, 1, 2, Some(amt(2.0))),
        txn(TxKind::Dispute, 1, 2, None),
        txn(TxKind::Chargeback, 1, 2, None),
    ]);
    let s = client_stats(&stats, 1);
    assert_eq!(s.available, amt(5.0));
    assert_eq!(s.held, amt(0.0));
    assert_eq!(s.total, amt(5.0));
    assert!(s.locked);
}

#[test]
fn should_ignore_resolve_if_no_dispute_deposit_txn() {
    let (_, stats) = run(vec![
        txn(TxKind::Deposit, 1, 1, Some(amt(5.0))),
        txn(TxKind::Deposit, 1, 2, Some(amt(3.0))),
        txn(TxKind::Resolve, 1, 2, None),
    ]);
    let s = client_stats(&stats, 1);
    assert_eq!(s.available, amt(8.0));
    assert_eq!(s.held, amt(0.0));
    assert_eq!(s.total, amt(8.0));
    assert!(!s.locked);
}

#[test]
fn should_ignore_resolve_if_no_dispute_withdrawal_txn() {
    let (_, stats) = run(vec![
        txn(TxKind::Deposit, 1, 1, Some(amt(5.0))),
        txn(TxKind::Withdrawal, 1, 2, Some(amt(3.0))),
        txn(TxKind::Resolve, 1, 2, None),
    ]);
    let s = client_stats(&stats, 1);
    assert_eq!(s.available, amt(2.0));
    assert_eq!(s.held, amt(0.0));
    assert_eq!(s.total, amt(2.0));
    assert!(!s.locked);
}

#[test]
fn should_ignore_chargeback_if_no_dispute_deposit_txn() {
    let (_, stats) = run(vec![
        txn(TxKind::Deposit, 1, 1, Some(amt(5.0))),
        txn(TxKind::Deposit, 1, 2, Some(amt(3.0))),
        txn(TxKind::Chargeback, 1, 2, None),
    ]);
    let s = client_stats(&stats, 1);
    assert_eq!(s.available, amt(8.0));
    assert_eq!(s.held, amt(0.0));
    assert_eq!(s.total, amt(8.0));
    assert!(!s.locked);
}

#[test]
fn should_ignore_chargeback_if_no_dispute_withdrawal_txn() {
    let (_, stats) = run(vec![
        txn(TxKind::Deposit, 1, 1, Some(amt(5.0))),
        txn(TxKind::Withdrawal, 1, 2, Some(amt(3.0))),
        txn(TxKind::Chargeback, 1, 2, None),
    ]);
    let s = client_stats(&stats, 1);
    assert_eq!(s.available, amt(2.0));
    assert_eq!(s.held, amt(0.0));
    assert_eq!(s.total, amt(2.0));
    assert!(!s.locked);
}

#[test]
fn should_accept_amount_till_four_digits_for_deposit() {
    let (_, stats) = run(vec![
        txn(TxKind::Deposit, 1, 1, Some(amt(5.66666))),
        txn(TxKind::Deposit, 1, 2, Some(amt(5.66666))),
    ]);
    let s = client_stats(&stats, 1);
    assert_eq!(s.available, amt(11.3334));
    assert_eq!(s.held, amt(0.0));
    assert_eq!(s.total, amt(11.3334));
    assert!(!s.locked);
}

#[test]
fn should_accept_amount_till_four_digits_for_withdrawal() {
    let (_, stats) = run(vec![
        txn(TxKind::Deposit, 1, 1, Some(amt(5.66666))),
        txn(TxKind::Withdrawal, 1, 2, Some(amt(5.11111))),
    ]);
    let s = client_stats(&stats, 1);
    assert_eq!(s.available, amt(0.5556));
    assert_eq!(s.held, amt(0.0));
    assert_eq!(s.total, amt(0.5556));
    assert!(!s.locked);
}
