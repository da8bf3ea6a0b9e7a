use std::str::FromStr;

use ledger_engine::amount::Amount;
use ledger_engine::db::{Database, InMemoryDB};
use ledger_engine::transactions::{DepositTransaction, Transaction, WithdrawalTransaction};

fn db_amt(s: &str) -> Amount {
    let d = rust_decimal::Decimal::from_str(s).unwrap();
    Amount::try_new(d.mantissa(), d.scale()).unwrap()
}

#[test]
fn test_write_get() {
    let mut db = InMemoryDB::new();
    let tx1 = Transaction::Deposit(DepositTransaction {
        client: 10,
        tx: 1,
        amount: db_amt("100.0"),
    });
    let tx2 = Transaction::Deposit(DepositTransaction {
        client: 12,
        tx: 5,
        amount: db_amt("90.0"),
    });
    assert_eq!(db.get_tx(&(10, 1)).unwrap(), None);
    assert_eq!(db.get_tx(&(12, 5)).unwrap(), None);
    assert_eq!(db.get_tx(&(10, 7)).unwrap(), None);
    db.write_tx(tx1).unwrap();
    assert_eq!(db.get_tx(&(10, 1)).unwrap(), Some(tx1));
    assert_eq!(db.get_tx(&(12, 5)).unwrap(), None);
    assert_eq!(db.get_tx(&(10, 7)).unwrap(), None);
    db.write_tx(tx2).unwrap();
    assert_eq!(db.get_tx(&(10, 1)).unwrap(), Some(tx1));
    assert_eq!(db.get_tx(&(12, 5)).unwrap(), Some(tx2));
    assert_eq!(db.get_tx(&(10, 7)).unwrap(), None);
    let tx2_new = Transaction::Withdrawal(WithdrawalTransaction {
        client: 12,
        tx: 5,
        amount: db_amt("20.0"),
    });
    db.write_tx(tx2_new).unwrap();
    assert_eq!(db.get_tx(&(10, 1)).unwrap(), Some(tx1));
    assert_eq!(db.get_tx(&(12, 5)).unwrap(), Some(tx2_new));
    assert_eq!(db.get_tx(&(10, 7)).unwrap(), None);
}
