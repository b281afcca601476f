use ledger_replay::{AccountState, Ledger, LedgerError, Money, Transaction, TransactionKind};

const CLIENT1: u16 = 1;

fn m(text: &str) -> Money {
    Money::parse(text).unwrap()
}

fn tx(kind: TransactionKind, client: u16, id: u32, amount: Option<&str>) -> Transaction {
    Transaction {
        kind,
        client,
        tx: id,
        amount: amount.map(m),
    }
}

fn assert_account(account: AccountState, available: &str, held: &str, total: &str, locked: bool) {
    assert_eq!(m(available), account.available, "unexpected 'available'");
    assert_eq!(m(held), account.held, "unexpected 'held'");
    assert_eq!(m(total), account.total, "unexpected 'total'");
    assert_eq!(locked, account.locked, "unexpected 'locked'");
}

fn acct(ledger: &Ledger, client: u16) -> AccountState {
    ledger.account(client).unwrap()
}

#[test]
fn deposit_partial_withdraw_success() {
    let mut ledger = Ledger::new();
    ledger
        .apply(&tx(TransactionKind::Deposit, CLIENT1, 1, Some("0.0003")))
        .unwrap();
    assert_account(acct(&ledger, CLIENT1), "0.0003", "0", "0.0003", false);
    ledger
        .apply(&tx(TransactionKind::Withdrawal, CLIENT1, 2, Some("0.0001")))
        .unwrap();
    assert_account(acct(&ledger, CLIENT1), "0.0002", "0", "0.0002", false);
}

#[test]
fn excessive_withdraw_should_fail() {
    let mut ledger = Ledger::new();
    ledger
        .apply(&tx(TransactionKind::Deposit, CLIENT1, 1, Some("0.0003")))
        .unwrap();
    assert_account(acct(&ledger, CLIENT1), "0.0003", "0", "0.0003", false);
    let error = ledger
        .apply(&tx(TransactionKind::Withdrawal, CLIENT1, 2, Some("0.0004")))
        .expect_err("expected Error");
    assert_eq!(error.message(), "funds are not sufficient for withdrawal");
    assert_eq!(error, LedgerError::InsufficientFunds);
    assert_account(acct(&ledger, CLIENT1), "0.0003", "0", "0.0003", false);
}

#[test]
fn dispute_resolve_success() {
    let mut ledger = Ledger::new();
    ledger
        .apply(&tx(TransactionKind::Deposit, CLIENT1, 1, Some("0.0001")))
        .unwrap();
    assert_account(acct(&ledger, CLIENT1), "0.0001", "0", "0.0001", false);
    ledger
        .apply(&tx(TransactionKind::Deposit, CLIENT1, 2, Some("0.0002")))
        .unwrap();
    assert_account(acct(&ledger, CLIENT1), "0.0003", "0", "0.0003", false);
    ledger.apply(&tx(TransactionKind::Dispute, CLIENT1, 2, None)).unwrap();
    assert_account(acct(&ledger, CLIENT1), "0.0001", "0.0002", "0.0003", false);
    ledger.apply(&tx(TransactionKind::Resolve, CLIENT1, 2, None)).unwrap();
    assert_account(acct(&ledger, CLIENT1), "0.0003", "0.0000", "0.0003", false);
    ledger.apply(&tx(TransactionKind::Resolve, CLIENT1, 2, None)).unwrap();
    assert_account(acct(&ledger, CLIENT1), "0.0003", "0.0000", "0.0003", false);
}

#[test]
fn dispute_chargeback_success() {
    let mut ledger = Ledger::new();
    ledger
        .apply(&tx(TransactionKind::Deposit, CLIENT1, 1, Some("0.0001")))
        .unwrap();
    assert_account(acct(&ledger, CLIENT1), "0.0001", "0", "0.0001", false);
    ledger
        .apply(&tx(TransactionKind::Deposit, CLIENT1, 2, Some("0.0002")))
        .unwrap();
    assert_account(acct(&ledger, CLIENT1), "0.0003", "0", "0.0003", false);
    ledger.apply(&tx(TransactionKind::Dispute, CLIENT1, 2, None)).unwrap();
    assert_account(acct(&ledger, CLIENT1), "0.0001", "0.0002", "0.0003", false);
    ledger.apply(&tx(TransactionKind::Chargeback, CLIENT1, 2, None)).unwrap();
    assert_account(acct(&ledger, CLIENT1), "0.0001", "0.0000", "0.0001", true);
}

#[test]
fn negative_balance_after_chargeback() {
    let mut ledger = Ledger::new();
    ledger
        .apply(&tx(TransactionKind::Deposit, CLIENT1, 1, Some("0.0001")))
        .unwrap();
    assert_account(acct(&ledger, CLIENT1), "0.0001", "0", "0.0001", false);
    ledger
        .apply(&tx(TransactionKind::Withdrawal, CLIENT1, 2, Some("0.0001")))
        .unwrap();
    assert_account(acct(&ledger, CLIENT1), "0", "0", "0", false);
    ledger.apply(&tx(TransactionKind::Dispute, CLIENT1, 1, None)).unwrap();
    assert_account(acct(&ledger, CLIENT1), "-0.0001", "0.0001", "0.0000", false);
    ledger.apply(&tx(TransactionKind::Chargeback, CLIENT1, 1, None)).unwrap();
    assert_account(acct(&ledger, CLIENT1), "-0.0001", "0.0000", "-0.0001", true);
}

#[test]
fn invalid_dispute_reference_ignored() {
    let mut ledger = Ledger::new();
    let not_existing_tx_id: u32 = 999;
    ledger
        .apply(&tx(TransactionKind::Deposit, CLIENT1, 1, Some("0.0001")))
        .unwrap();
    assert_account(acct(&ledger, CLIENT1), "0.0001", "0", "0.0001", false);
    for kind in vec![
        TransactionKind::Dispute,
        TransactionKind::Resolve,
        TransactionKind::Chargeback,
    ] {
        ledger.apply(&tx(kind, CLIENT1, not_existing_tx_id, None)).unwrap();
        assert_account(acct(&ledger, CLIENT1), "0.0001", "0", "0.0001", false);
    }
}
