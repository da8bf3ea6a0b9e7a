use std::str::FromStr;

use ledger_engine::amount::Amount;
use ledger_engine::client::ClientStatus;
use ledger_engine::engine::Engine;
use ledger_engine::transactions::{
    ChargebackTransaction, DepositTransaction, DisputeTransaction, ResolveTransaction, Transaction,
    WithdrawalTransaction,
};

fn amt(s: &str) -> Amount {
    let d = rust_decimal::Decimal::from_str(s).unwrap();
    Amount::try_new(d.mantissa(), d.scale()).unwrap()
}

fn val(a: Amount) -> rust_decimal::Decimal {
    rust_decimal::Decimal::from_i128_with_scale(a.mantissa, a.scale)
}

#[test]
fn test_deposit() {
    let mut engine = Engine::new();
    let tx1 = Transaction::Deposit(DepositTransaction {
        client: 10,
        tx: 1,
        amount: amt("100.0"),
    });
    engine.process_transaction(&tx1).unwrap();
    let client = engine.get_client(&10).unwrap();
    assert_eq!(val(client.available), val(amt("100.0")));
    assert_eq!(val(client.held), val(amt("0.0")));
    assert_eq!(client.status, ClientStatus::Live);
    assert!(client.disputes.is_empty());
}

#[test]
fn test_withdrawal() {
    let mut engine = Engine::new();
    let tx1 = Transaction::Deposit(DepositTransaction {
        client: 10,
        tx: 1,
        amount: amt("100.0"),
    });
    engine.process_transaction(&tx1).unwrap();
    let tx2 = Transaction::Withdrawal(WithdrawalTransaction {
        client: 10,
        tx: 2,
        amount: amt("90.0"),
    });
    engine.process_transaction(&tx2).unwrap();
    let client = engine.get_client(&10).unwrap();
    assert_eq!(val(client.available), val(amt("10.0")));
    assert_eq!(val(client.held), val(amt("0.0")));
    assert_eq!(client.status, ClientStatus::Live);
    assert!(client.disputes.is_empty());
    let tx3 = Transaction::Withdrawal(WithdrawalTransaction {
        client: 10,
        tx: 3,
        amount: amt("20.0"),
    });
    engine.process_transaction(&tx3).unwrap();
    let client = engine.get_client(&10).unwrap();
    assert_eq!(val(client.available), val(amt("10.0")));
    assert_eq!(val(client.held), val(amt("0.0")));
    assert_eq!(client.status, ClientStatus::Live);
    assert!(client.disputes.is_empty());
}

#[test]
fn test_dispute() {
    let mut engine = Engine::new();
    let tx1 = Transaction::Deposit(DepositTransaction {
        client: 10,
        tx: 1,
        amount: amt("100.0"),
    });
    engine.process_transaction(&tx1).unwrap();
    let tx2 = Transaction::Dispute(DisputeTransaction { client: 10, tx: 1 });
    engine.process_transaction(&tx2).unwrap();
    let client = engine.get_client(&10).unwrap();
    assert_eq!(val(client.available), val(amt("0.0")));
    assert_eq!(val(client.held), val(amt("100.0")));
    assert_eq!(client.status, ClientStatus::Live);
    assert_eq!(client.disputes, vec![1]);
}

#[test]
fn test_chargeback() {
    let mut engine = Engine::new();
    let tx1 = Transaction::Deposit(DepositTransaction {
        client: 10,
        tx: 1,
        amount: amt("100.0"),
    });
    engine.process_transaction(&tx1).unwrap();
    let tx2 = Transaction::Dispute(DisputeTransaction { client: 10, tx: 1 });
    engine.process_transaction(&tx2).unwrap();
    let tx3 = Transaction::Chargeback(ChargebackTransaction { client: 10, tx: 1 });
    engine.process_transaction(&tx3).unwrap();
    let client = engine.get_client(&10).unwrap();
    assert_eq!(val(client.available), val(amt("0.0")));
    assert_eq!(val(client.held), val(amt("0.0")));
    assert_eq!(client.status, ClientStatus::Frozen);
    assert!(client.disputes.is_empty());
}

#[test]
fn test_resolve() {
    let mut engine = Engine::new();
    let tx1 = Transaction::Deposit(DepositTransaction {
        client: 10,
        tx: 1,
        amount: amt("100.0"),
    });
    engine.process_transaction(&tx1).unwrap();
    let tx2 = Transaction::Dispute(DisputeTransaction { client: 10, tx: 1 });
    engine.process_transaction(&tx2).unwrap();
    let tx3 = Transaction::Resolve(ResolveTransaction { client: 10, tx: 1 });
    engine.process_transaction(&tx3).unwrap();
    let client = engine.get_client(&10).unwrap();
    assert_eq!(val(client.available), val(amt("100.0")));
    assert_eq!(val(client.held), val(amt("0.0")));
    assert_eq!(client.status, ClientStatus::Live);
    assert!(client.disputes.is_empty());
}

#[test]
fn test_meta_noops_leave_account_unchanged() {
    let mut engine = Engine::new();
    let tx1 = Transaction::Deposit(DepositTransaction {
        client: 7,
        tx: 1,
        amount: amt("5.5"),
    });
    engine.process_transaction(&tx1).unwrap();
    let before = engine.get_client(&7).unwrap();
    // Dispute of an unknown id, resolve and chargeback of an undisputed id,
    // and a dispute referencing a withdrawal: all leave the account as it is.
    let tx2 = Transaction::Withdrawal(WithdrawalTransaction {
        client: 7,
        tx: 2,
        amount: amt("1.0"),
    });
    engine.process_transaction(&tx2).unwrap();
    let base = engine.get_client(&7).unwrap();
    engine
        .process_transaction(&Transaction::Dispute(DisputeTransaction { client: 7, tx: 99 }))
        .unwrap();
    engine
        .process_transaction(&Transaction::Resolve(ResolveTransaction { client: 7, tx: 1 }))
        .unwrap();
    engine
        .process_transaction(&Transaction::Chargeback(ChargebackTransaction { client: 7, tx: 1 }))
        .unwrap();
    engine
        .process_transaction(&Transaction::Dispute(DisputeTransaction { client: 7, tx: 2 }))
        .unwrap();
    let after = engine.get_client(&7).unwrap();
    assert_eq!(after, base);
    assert_eq!(val(before.available), val(amt("5.5")));
}

#[test]
fn test_insufficient_withdrawal_is_noop() {
    let mut engine = Engine::new();
    engine
        .process_transaction(&Transaction::Deposit(DepositTransaction {
            client: 3,
            tx: 1,
            amount: amt("1.0"),
        }))
        .unwrap();
    engine
        .process_transaction(&Transaction::Withdrawal(WithdrawalTransaction {
            client: 3,
            tx: 2,
            amount: amt("1.0001"),
        }))
        .unwrap();
    let client = engine.get_client(&3).unwrap();
    assert_eq!(val(client.available), val(amt("1.0")));
}

#[test]
fn test_transaction_in_range() {
    let mut engine = Engine::new();
    let huge = Amount::try_new(79228162514264337593543950335, 0).unwrap();
    let d1 = Transaction::Deposit(DepositTransaction { client: 1, tx: 1, amount: huge });
    assert_eq!(engine.transaction_in_range(&d1).unwrap(), true);
    engine.process_transaction(&d1).unwrap();
    let d2 = Transaction::Deposit(DepositTransaction { client: 1, tx: 2, amount: amt("1") });
    assert_eq!(engine.transaction_in_range(&d2).unwrap(), false);
    let d3 = Transaction::Deposit(DepositTransaction { client: 2, tx: 3, amount: amt("1") });
    assert_eq!(engine.transaction_in_range(&d3).unwrap(), true);
}
