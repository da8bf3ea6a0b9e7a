use ledger_engine::amount::{Amount, MAX_MANTISSA, MAX_SCALE};
use ledger_engine::transactions::{Transaction, TransactionView};
use ledger_engine::types::{ClientError, DatabaseError, EngineError};

#[test]
fn amount_addition_is_exact_at_larger_scale() {
    let a = Amount::try_new(15, 1).unwrap(); // 1.5
    let b = Amount::try_new(225, 2).unwrap(); // 2.25
    let sum = a.checked_add(&b).unwrap();
    assert_eq!(sum, Amount::try_new(375, 2).unwrap()); // 3.75, scale 2
    let diff = sum.checked_sub(&a).unwrap();
    assert_eq!(diff, Amount::try_new(225, 2).unwrap());
}

#[test]
fn amount_addition_overflow_is_refused() {
    let top = Amount::try_new(MAX_MANTISSA, 0).unwrap();
    let one = Amount::try_new(1, 0).unwrap();
    assert!(top.checked_add(&one).is_none());
    // A sum that only fits after rounding is refused as well.
    let fine = Amount::try_new(1, 28).unwrap();
    assert!(top.checked_add(&fine).is_none());
    assert_eq!(top.checked_sub(&one).unwrap(), Amount::try_new(MAX_MANTISSA - 1, 0).unwrap());
}

#[test]
fn amount_comparison_is_by_value() {
    let a = Amount::try_new(15, 1).unwrap(); // 1.5
    let b = Amount::try_new(1500, 3).unwrap(); // 1.500
    let c = Amount::try_new(-20, 1).unwrap(); // -2.0
    assert!(!a.lt(&b));
    assert!(!b.lt(&a));
    assert!(c.lt(&a));
    assert!(!a.lt(&c));
}

#[test]
fn amount_try_new_bounds() {
    assert!(Amount::try_new(0, MAX_SCALE).is_some());
    assert!(Amount::try_new(0, MAX_SCALE + 1).is_none());
    assert!(Amount::try_new(MAX_MANTISSA, 0).is_some());
    assert!(Amount::try_new(MAX_MANTISSA + 1, 0).is_none());
    assert!(Amount::try_new(-MAX_MANTISSA, 0).is_some());
    assert!(Amount::try_new(-MAX_MANTISSA - 1, 0).is_none());
}

fn view(tag: &str, amount: Option<Amount>) -> TransactionView {
    TransactionView { type_str: tag.to_string(), client: 5, tx: 9, amount }
}

#[test]
fn from_view_classifies_tags() {
    let a = Amount::try_new(10, 1).unwrap();
    match Transaction::from_view(view("deposit", Some(a))).unwrap() {
        Transaction::Deposit(d) => {
            assert_eq!((d.client, d.tx, d.amount), (5, 9, a));
        },
        _ => panic!("wrong kind"),
    }
    match Transaction::from_view(view("withdrawal", Some(a))).unwrap() {
        Transaction::Withdrawal(w) => {
            assert_eq!((w.client, w.tx, w.amount), (5, 9, a));
        },
        _ => panic!("wrong kind"),
    }
    assert!(matches!(
        Transaction::from_view(view("dispute", None)).unwrap(),
        Transaction::Dispute(_)
    ));
    assert!(matches!(
        Transaction::from_view(view("resolve", None)).unwrap(),
        Transaction::Resolve(_)
    ));
    assert!(matches!(
        Transaction::from_view(view("chargeback", None)).unwrap(),
        Transaction::Chargeback(_)
    ));
    assert!(Transaction::from_view(view("transfer", None)).is_err());
}

#[test]
fn transaction_accessors() {
    let a = Amount::try_new(10, 1).unwrap();
    let t = Transaction::from_view(view("deposit", Some(a))).unwrap();
    assert_eq!(t.client(), 5);
    assert_eq!(t.id(), 9);
    assert_eq!(t.uid(), (5, 9));
    assert!(t.is_recorded());
    let m = Transaction::from_view(view("dispute", None)).unwrap();
    assert!(!m.is_recorded());
}

#[test]
fn error_conversions() {
    assert_eq!(
        ClientError::from(DatabaseError::PoisonLock),
        ClientError::DatabaseError(DatabaseError::PoisonLock)
    );
    assert_eq!(
        EngineError::from(ClientError::DatabaseError(DatabaseError::PoisonLock)),
        EngineError::ClientError(ClientError::DatabaseError(DatabaseError::PoisonLock))
    );
    assert_eq!(
        EngineError::from(DatabaseError::PoisonLock),
        EngineError::DatabaseError(DatabaseError::PoisonLock)
    );
}
