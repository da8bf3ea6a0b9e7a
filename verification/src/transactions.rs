use vstd::prelude::*;

use crate::amount::Amount;
use crate::types::{ClientID, TxID, TxUID};
use vstd::string::StringExecFns;

verus! {

/// An input record as the parsing collaborator hands it over: a textual tag,
/// the two identifiers, and an amount that only the recorded kinds carry.
#[derive(Debug)]
pub struct TransactionView {
    pub type_str: String,
    pub client: ClientID,
    pub tx: TxID,
    pub amount: Option<Amount>,
}

#[derive(Debug, Clone, Copy, PartialEq, Eq, Structural)]
pub enum Transaction {
    Deposit(DepositTransaction),
    Withdrawal(WithdrawalTransaction),
    Dispute(DisputeTransaction),
    Resolve(ResolveTransaction),
    Chargeback(ChargebackTransaction),
}

#[derive(Debug, Clone, Copy, PartialEq, Eq, Structural)]
pub struct DepositTransaction {
    pub client: ClientID,
    pub tx: TxID,
    pub amount: Amount,
}

#[derive(Debug, Clone, Copy, PartialEq, Eq, Structural)]
pub struct WithdrawalTransaction {
    pub client: ClientID,
    pub tx: TxID,
    pub amount: Amount,
}

#[derive(Debug, Clone, Copy, PartialEq, Eq, Structural)]
pub struct DisputeTransaction {
    pub client: ClientID,
    pub tx: TxID,
}

#[derive(Debug, Clone, Copy, PartialEq, Eq, Structural)]
pub struct ResolveTransaction {
    pub client: ClientID,
    pub tx: TxID,
}

#[derive(Debug, Clone, Copy, PartialEq, Eq, Structural)]
pub struct ChargebackTransaction {
    pub client: ClientID,
    pub tx: TxID,
}

impl Transaction {
    pub open spec fn spec_client(self) -> ClientID {
        match self {
            Transaction::Deposit(tx) => tx.client,
            Transaction::Withdrawal(tx) => tx.client,
            Transaction::Dispute(tx) => tx.client,
            Transaction::Resolve(tx) => tx.client,
            Transaction::Chargeback(tx) => tx.client,
        }
    }

    pub open spec fn spec_id(self) -> TxID {
        match self {
            Transaction::Deposit(tx) => tx.tx,
            Transaction::Withdrawal(tx) => tx.tx,
            Transaction::Dispute(tx) => tx.tx,
            Transaction::Resolve(tx) => tx.tx,
            Transaction::Chargeback(tx) => tx.tx,
        }
    }

    pub open spec fn spec_uid(self) -> TxUID {
        (self.spec_client(), self.spec_id())
    }

    /// Deposits and withdrawals are recorded in the store; the three meta
    /// kinds only reference a recorded transaction.
    pub open spec fn spec_is_recorded(self) -> bool {
        self is Deposit || self is Withdrawal
    }

    /// The amount a recorded transaction carries is representable.
    pub open spec fn wf(self) -> bool {
        match self {
            Transaction::Deposit(tx) => tx.amount.wf(),
            Transaction::Withdrawal(tx) => tx.amount.wf(),
            _ => true,
        }
    }

    pub fn client(&self) -> (r: ClientID)
        ensures
            r == self.spec_client(),
    {
        match self {
            Transaction::Deposit(tx) => tx.client,
            Transaction::Withdrawal(tx) => tx.client,
            Transaction::Dispute(tx) => tx.client,
            Transaction::Resolve(tx) => tx.client,
            Transaction::Chargeback(tx) => tx.client,
        }
    }

    pub fn id(&self) -> (r: TxID)
        ensures
            r == self.spec_id(),
    {
        match self {
            Transaction::Deposit(tx) => tx.tx,
            Transaction::Withdrawal(tx) => tx.tx,
            Transaction::Dispute(tx) => tx.tx,
            Transaction::Resolve(tx) => tx.tx,
            Transaction::Chargeback(tx) => tx.tx,
        }
    }

    pub fn uid(&self) -> (r: TxUID)
        ensures
            r == self.spec_uid(),
    {
        (self.client(), self.id())
    }

    pub fn is_recorded(&self) -> (r: bool)
        ensures
            r == self.spec_is_recorded(),
    {
        matches!(self, Transaction::Deposit(_) | Transaction::Withdrawal(_))
    }

    /// Classifies an input record by its tag. The recorded kinds must carry
    /// an amount; a record that omits one is a parse-level fault, so the
    /// caller keeps such records out.
    pub fn from_view(view: TransactionView) -> (r: Result<Transaction, &'static str>)
        requires
            (view.type_str@ == "deposit"@ || view.type_str@ == "withdrawal"@)
                ==> view.amount is Some,
        ensures
            view.type_str@ == "deposit"@ ==> r == Ok::<Transaction, &'static str>(
                Transaction::Deposit(
                    DepositTransaction {
                        client: view.client,
                        tx: view.tx,
                        amount: view.amount->Some_0,
                    },
                ),
            ),
            view.type_str@ == "withdrawal"@ ==> r == Ok::<Transaction, &'static str>(
                Transaction::Withdrawal(
                    WithdrawalTransaction {
                        client: view.client,
                        tx: view.tx,
                        amount: view.amount->Some_0,
                    },
                ),
            ),
            view.type_str@ == "dispute"@ ==> r == Ok::<Transaction, &'static str>(
                Transaction::Dispute(DisputeTransaction { client: view.client, tx: view.tx }),
            ),
            view.type_str@ == "resolve"@ ==> r == Ok::<Transaction, &'static str>(
                Transaction::Resolve(ResolveTransaction { client: view.client, tx: view.tx }),
            ),
            view.type_str@ == "chargeback"@ ==> r == Ok::<Transaction, &'static str>(
                Transaction::Chargeback(
                    ChargebackTransaction { client: view.client, tx: view.tx },
                ),
            ),
            (view.type_str@ != "deposit"@ && view.type_str@ != "withdrawal"@ && view.type_str@
                != "dispute"@ && view.type_str@ != "resolve"@ && view.type_str@
                != "chargeback"@) ==> r is Err,
    {
        proof {
            reveal_strlit("deposit");
            reveal_strlit("withdrawal");
            reveal_strlit("dispute");
            reveal_strlit("resolve");
            reveal_strlit("chargeback");
            assert("deposit"@[1] == 'e' && "dispute"@[1] == 'i' && "resolve"@[0] == 'r'
                && "deposit"@[0] == 'd' && "dispute"@[0] == 'd' && "withdrawal"@[0] == 'w'
                && "chargeback"@[0] == 'c');
        }
        if view.type_str == String::from_str("deposit") {
            Ok(Transaction::Deposit(DepositTransaction {
                client: view.client,
                tx: view.tx,
                amount: view.amount.unwrap(),
            }))
        } else if view.type_str == String::from_str("withdrawal") {
            Ok(Transaction::Withdrawal(WithdrawalTransaction {
                client: view.client,
                tx: view.tx,
                amount: view.amount.unwrap(),
            }))
        } else if view.type_str == String::from_str("dispute") {
            Ok(Transaction::Dispute(DisputeTransaction { client: view.client, tx: view.tx }))
        } else if view.type_str == String::from_str("resolve") {
            Ok(Transaction::Resolve(ResolveTransaction { client: view.client, tx: view.tx }))
        } else if view.type_str == String::from_str("chargeback") {
            Ok(Transaction::Chargeback(ChargebackTransaction { client: view.client, tx: view.tx }))
        } else {
            Err("unexpected transaction type")
        }
    }
}

} // verus!
