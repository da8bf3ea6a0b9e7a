use std::str::FromStr;

use ledger_engine::amount::Amount;
use ledger_engine::client::ClientView;
use ledger_engine::engine::Engine;
use ledger_engine::transactions::{
    ChargebackTransaction, DepositTransaction, DisputeTransaction, Transaction,
    WithdrawalTransaction,
};

fn sc_amt(s: &str) -> Amount {
    let d = rust_decimal::Decimal::from_str(s).unwrap();
    Amount::try_new(d.mantissa(), d.scale()).unwrap()
}

fn sc_val(a: Amount) -> rust_decimal::Decimal {
    rust_decimal::Decimal::from_i128_with_scale(a.mantissa, a.scale)
}

fn deposit(client: u16, tx: u64, amount: &str) -> Transaction {
    Transaction::Deposit(DepositTransaction { client, tx, amount: sc_amt(amount) })
}

fn withdrawal(client: u16, tx: u64, amount: &str) -> Transaction {
    Transaction::Withdrawal(WithdrawalTransaction { client, tx, amount: sc_amt(amount) })
}

fn view_of(views: &[ClientView], client: u16) -> ClientView {
    *views.iter().find(|v| v.client == client).unwrap()
}

fn check_view(v: ClientView, available: &str, held: &str, total: &str, locked: bool) {
    assert_eq!(sc_val(v.available), sc_val(sc_amt(available)));
    assert_eq!(sc_val(v.held), sc_val(sc_amt(held)));
    assert_eq!(sc_val(v.total), sc_val(sc_amt(total)));
    assert_eq!(v.locked, locked);
}

#[test]
fn scenario_two_clients_deposits_withdrawals() {
    let mut engine = Engine::new();
    for tx in [
        deposit(1, 1, "1.0"),
        deposit(2, 2, "2.0"),
        deposit(1, 3, "2.0"),
        withdrawal(1, 4, "1.5"),
        withdrawal(2, 5, "3.0"),
    ] {
        engine.process_transaction(&tx).unwrap();
    }
    let views = engine.get_all_clients().unwrap();
    assert_eq!(views.len(), 2);
    check_view(view_of(&views, 1), "1.5", "0.0", "1.5", false);
    check_view(view_of(&views, 2), "2.0", "0.0", "2.0", false);
}

fn dispute_lifecycle_input(charged_back: u64) -> Vec<Transaction> {
    vec![
        deposit(1, 1, "1.0"),
        deposit(1, 2, "2.3412"),
        withdrawal(1, 3, "5.5"),
        withdrawal(1, 4, "3.0"),
        Transaction::Dispute(DisputeTransaction { client: 1, tx: 2 }),
        Transaction::Dispute(DisputeTransaction { client: 1, tx: 1 }),
        withdrawal(1, 5, "0.0001"),
        deposit(1, 6, "1.0"),
        Transaction::Chargeback(ChargebackTransaction { client: 1, tx: charged_back }),
        deposit(1, 7, "10.0"),
        withdrawal(1, 8, "0.1"),
    ]
}

#[test]
fn scenario_chargeback_freezes_account() {
    let mut engine = Engine::new();
    for tx in dispute_lifecycle_input(2) {
        engine.process_transaction(&tx).unwrap();
    }
    let views = engine.get_all_clients().unwrap();
    assert_eq!(views.len(), 1);
    check_view(view_of(&views, 1), "-2.0", "1.0", "-1.0", true);
}

#[test]
fn scenario_chargeback_other_deposit() {
    let mut engine = Engine::new();
    for tx in dispute_lifecycle_input(1) {
        engine.process_transaction(&tx).unwrap();
    }
    let views = engine.get_all_clients().unwrap();
    assert_eq!(views.len(), 1);
    check_view(view_of(&views, 1), "-2.0", "2.3412", "0.3412", true);
}

#[test]
fn roundtrip_view_serialization() {
    let mut engine = Engine::new();
    for tx in [deposit(4, 1, "2.3412"), deposit(4, 2, "1.0"), withdrawal(4, 3, "0.0002")] {
        engine.process_transaction(&tx).unwrap();
    }
    let views = engine.get_all_clients().unwrap();
    let v = view_of(&views, 4);
    let mut wtr = csv::WriterBuilder::new().has_headers(false).from_writer(vec![]);
    wtr.write_record(&[
        v.client.to_string(),
        sc_val(v.available).to_string(),
        sc_val(v.held).to_string(),
        sc_val(v.total).to_string(),
        v.locked.to_string(),
    ])
    .unwrap();
    let bytes = wtr.into_inner().unwrap();
    let text = String::from_utf8(bytes).unwrap();
    let mut rdr = csv::ReaderBuilder::new().has_headers(false).from_reader(text.as_bytes());
    let record = rdr.records().next().unwrap().unwrap();
    assert_eq!(record[0].parse::<u16>().unwrap(), v.client);
    let available = rust_decimal::Decimal::from_str(&record[1]).unwrap();
    let held = rust_decimal::Decimal::from_str(&record[2]).unwrap();
    let total = rust_decimal::Decimal::from_str(&record[3]).unwrap();
    // Identical field values: same mantissa and same scale, no precision loss.
    assert_eq!(available.mantissa(), v.available.mantissa);
    assert_eq!(available.scale(), v.available.scale);
    assert_eq!(held.mantissa(), v.held.mantissa);
    assert_eq!(held.scale(), v.held.scale);
    assert_eq!(total.mantissa(), v.total.mantissa);
    assert_eq!(total.scale(), v.total.scale);
    assert_eq!(record[4].parse::<bool>().unwrap(), v.locked);
}
