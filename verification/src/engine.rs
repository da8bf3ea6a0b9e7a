use vstd::prelude::*;

use crate::client::{
    chargeback_ok, deposit_ok, dispute_ok, resolve_ok, spec_chargeback, spec_deposit, spec_dispute,
    spec_resolve, spec_withdrawal, withdrawal_ok, AccountModel, Client, ClientView,
};
use crate::db::{clients_wf, txs_wf, views_correspond, Database, InMemoryDB};
use crate::transactions::{DepositTransaction, Transaction};
use crate::types::{ClientID, EngineError, TxUID};

verus! {

/// The abstract state of the whole ledger: every account and every recorded
/// transaction.
pub ghost struct LedgerModel {
    pub clients: Map<ClientID, AccountModel>,
    pub txs: Map<TxUID, Transaction>,
}

impl LedgerModel {
    pub open spec fn wf(self) -> bool {
        clients_wf(self.clients) && txs_wf(self.txs)
    }
}

/// The account of `c`, a fresh one if `c` has never been referenced.
pub open spec fn account_of(m: Map<ClientID, AccountModel>, c: ClientID) -> AccountModel {
    if m.contains_key(c) {
        m[c]
    } else {
        AccountModel::init()
    }
}

/// The deposit a meta transaction references: the transaction recorded under
/// `uid`, provided it is a deposit.
pub open spec fn referenced_deposit(t: Map<TxUID, Transaction>, uid: TxUID) -> Option<
    DepositTransaction,
> {
    if t.contains_key(uid) {
        match t[uid] {
            Transaction::Deposit(d) => Some(d),
            _ => None,
        }
    } else {
        None
    }
}

/// How one transaction changes the account it addresses. A meta transaction
/// whose reference does not name a recorded deposit, or a resolve or
/// chargeback of an id not under dispute, changes nothing.
pub open spec fn step_account(s: LedgerModel, tx: Transaction) -> AccountModel {
    let acct = account_of(s.clients, tx.spec_client());
    match tx {
        Transaction::Deposit(d) => spec_deposit(acct, d.amount),
        Transaction::Withdrawal(w) => spec_withdrawal(acct, w.amount),
        Transaction::Dispute(_) => match referenced_deposit(s.txs, tx.spec_uid()) {
            Some(dep) => spec_dispute(acct, dep),
            None => acct,
        },
        Transaction::Resolve(rv) => if !acct.disputes.contains(rv.tx) {
            acct
        } else {
            match referenced_deposit(s.txs, tx.spec_uid()) {
                Some(dep) => spec_resolve(acct, dep),
                None => acct,
            }
        },
        Transaction::Chargeback(cb) => if !acct.disputes.contains(cb.tx) {
            acct
        } else {
            match referenced_deposit(s.txs, tx.spec_uid()) {
                Some(dep) => spec_chargeback(acct, dep),
                None => acct,
            }
        },
    }
}

/// What processing one transaction does to the ledger. A transaction
/// addressed to a frozen account has no effect at all. Otherwise the account
/// steps, a recorded kind is persisted under its own key, and the (possibly
/// unchanged) account is written back — creating it on first reference.
pub open spec fn step(s: LedgerModel, tx: Transaction) -> LedgerModel {
    let c = tx.spec_client();
    if account_of(s.clients, c).frozen() {
        s
    } else {
        LedgerModel {
            clients: s.clients.insert(c, step_account(s, tx)),
            txs: if tx.spec_is_recorded() {
                s.txs.insert(tx.spec_uid(), tx)
            } else {
                s.txs
            },
        }
    }
}

/// Every addition or subtraction the transaction calls for stays exactly
/// representable, so processing it cannot overflow.
pub open spec fn can_apply(s: LedgerModel, tx: Transaction) -> bool {
    let acct = account_of(s.clients, tx.spec_client());
    acct.frozen() || match tx {
        Transaction::Deposit(d) => deposit_ok(acct, d.amount),
        Transaction::Withdrawal(w) => withdrawal_ok(acct, w.amount),
        Transaction::Dispute(_) => match referenced_deposit(s.txs, tx.spec_uid()) {
            Some(dep) => dispute_ok(acct, dep.amount),
            None => true,
        },
        Transaction::Resolve(rv) => acct.disputes.contains(rv.tx) ==> match referenced_deposit(
            s.txs,
            tx.spec_uid(),
        ) {
            Some(dep) => resolve_ok(acct, dep.amount),
            None => true,
        },
        Transaction::Chargeback(cb) => acct.disputes.contains(cb.tx) ==> match referenced_deposit(
            s.txs,
            tx.spec_uid(),
        ) {
            Some(dep) => chargeback_ok(acct, dep.amount),
            None => true,
        },
    }
}

/// The transaction processor: applies one transaction at a time against the
/// store, which it alone mutates.
pub struct Engine<D: Database> {
    database: D,
}

impl Engine<InMemoryDB> {
    /// A processor over a fresh in-memory store.
    pub fn new() -> (r: Engine<InMemoryDB>)
        ensures
            r.inv(),
            r.model().clients == Map::<ClientID, AccountModel>::empty(),
            r.model().txs == Map::<TxUID, Transaction>::empty(),
    {
        Engine { database: InMemoryDB::new() }
    }
}

impl<D: Database> Engine<D> {
    pub closed spec fn model(&self) -> LedgerModel {
        LedgerModel { clients: self.database.clients(), txs: self.database.txs() }
    }

    /// Every stored account and transaction is well formed; established by
    /// `new` and preserved by every operation.
    pub open spec fn inv(&self) -> bool {
        self.model().wf()
    }

    /// Get a client from the store by id, or a fresh account.
    pub fn get_client(&self, id: &ClientID) -> (r: Result<Client, EngineError>)
        requires
            self.inv(),
        ensures
            r matches Ok(c) ==> c@ == account_of(self.model().clients, *id) && c@.wf(),
    {
        match self.database.get_client(id) {
            Ok(Some(client)) => Ok(client),
            Ok(None) => Ok(Client::default()),
            Err(e) => Err(EngineError::from(e)),
        }
    }

    /// A vector of client views for reporting, one per account ever created,
    /// in unspecified order.
    pub fn get_all_clients(&self) -> (r: Result<Vec<ClientView>, EngineError>)
        requires
            self.inv(),
        ensures
            r matches Ok(v) ==> views_correspond(self.model().clients, v@),
    {
        match self.database.all_clients() {
            Ok(v) => Ok(v),
            Err(e) => Err(EngineError::from(e)),
        }
    }

    /// The recorded deposit a meta transaction references, if the store
    /// holds one under the referenced key.
    fn get_referenced_tx(&self, tx: &Transaction) -> (r: Result<
        Option<DepositTransaction>,
        EngineError,
    >)
        ensures
            r matches Ok(o) ==> o == referenced_deposit(self.model().txs, tx.spec_uid()),
    {
        let uid = tx.uid();
        match self.database.get_tx(&uid) {
            Ok(None) => Ok(None),
            Ok(Some(Transaction::Deposit(deposit))) => Ok(Some(deposit)),
            Ok(Some(_)) => Ok(None),
            Err(e) => Err(EngineError::from(e)),
        }
    }

    /// Applies one transaction. On success the ledger is exactly `step` of
    /// its previous state; a storage failure leaves the accounts untouched
    /// (though a recorded transaction may already have been persisted).
    pub fn process_transaction(&mut self, tx: &Transaction) -> (r: Result<(), EngineError>)
        requires
            old(self).inv(),
            tx.wf(),
            can_apply(old(self).model(), *tx),
        ensures
            final(self).inv(),
            r is Ok ==> final(self).model() == step(old(self).model(), *tx),
            r is Err ==> final(self).model().clients == old(self).model().clients
                && (final(self).model().txs == old(self).model().txs
                    || final(self).model().txs == step(old(self).model(), *tx).txs),
    {
        let ghost s0 = self.model();
        let client_id = tx.client();
        let mut client = match self.get_client(&client_id) {
            Ok(c) => c,
            Err(e) => {
                return Err(e);
            },
        };
        // A frozen account silently rejects every later transaction.
        if client.is_frozen() {
            return Ok(());
        }
        match tx {
            Transaction::Deposit(deposit) => {
                match client.process_deposit(deposit) {
                    Ok(()) => (),
                    Err(e) => {
                        return Err(EngineError::from(e));
                    },
                }
            },
            Transaction::Withdrawal(withdrawal) => {
                match client.process_withdrawal(withdrawal) {
                    Ok(()) => (),
                    Err(e) => {
                        return Err(EngineError::from(e));
                    },
                }
            },
            Transaction::Dispute(_) => {
                let referenced = match self.get_referenced_tx(tx) {
                    Ok(o) => o,
                    Err(e) => {
                        return Err(e);
                    },
                };
                if let Some(referenced_deposit) = referenced {
                    proof {
                        assert(s0.txs.contains_key(tx.spec_uid()));
                        assert(s0.txs[tx.spec_uid()].wf());
                    }
                    match client.process_dispute(&referenced_deposit) {
                        Ok(()) => (),
                        Err(e) => {
                            return Err(EngineError::from(e));
                        },
                    }
                }
            },
            Transaction::Resolve(resolve) => {
                if !client.is_disputed(resolve.tx) {
                    // Cannot resolve a transaction that is not disputed.
                } else {
                    let referenced = match self.get_referenced_tx(tx) {
                        Ok(o) => o,
                        Err(e) => {
                            return Err(e);
                        },
                    };
                    if let Some(referenced_deposit) = referenced {
                        proof {
                            assert(s0.txs.contains_key(tx.spec_uid()));
                            assert(s0.txs[tx.spec_uid()].wf());
                            assert(s0.txs[tx.spec_uid()].spec_uid() == tx.spec_uid());
                            assert(referenced_deposit.tx == resolve.tx);
                        }
                        match client.process_resolve(&referenced_deposit) {
                            Ok(()) => (),
                            Err(e) => {
                                return Err(EngineError::from(e));
                            },
                        }
                    }
                }
            },
            Transaction::Chargeback(chargeback) => {
                if !client.is_disputed(chargeback.tx) {
                    // Cannot charge back a transaction that is not disputed.
                } else {
                    let referenced = match self.get_referenced_tx(tx) {
                        Ok(o) => o,
                        Err(e) => {
                            return Err(e);
                        },
                    };
                    if let Some(referenced_deposit) = referenced {
                        proof {
                            assert(s0.txs.contains_key(tx.spec_uid()));
                            assert(s0.txs[tx.spec_uid()].wf());
                            assert(s0.txs[tx.spec_uid()].spec_uid() == tx.spec_uid());
                            assert(referenced_deposit.tx == chargeback.tx);
                        }
                        match client.process_chargeback(&referenced_deposit) {
                            Ok(()) => (),
                            Err(e) => {
                                return Err(EngineError::from(e));
                            },
                        }
                    }
                }
            },
        }
        proof {
            assert(client@ == step_account(s0, *tx));
        }
        // Only deposits and withdrawals are recorded for later reference.
        if tx.is_recorded() {
            match self.database.write_tx(*tx) {
                Ok(()) => (),
                Err(e) => {
                    return Err(EngineError::from(e));
                },
            }
        }
        let result = match self.database.write_client(client_id, client) {
            Ok(()) => Ok(()),
            Err(e) => Err(EngineError::from(e)),
        };
        proof {
            let s1 = self.model();
            if result is Ok {
                assert(s1.clients == step(s0, *tx).clients);
                assert(s1.txs == step(s0, *tx).txs);
            }
            assert forall|x: ClientID| s1.clients.contains_key(x) implies (
            #[trigger] s1.clients[x]).wf() by {
                if x != client_id {
                    assert(s0.clients.contains_key(x) && s1.clients[x] == s0.clients[x]);
                }
            }
            assert forall|u: TxUID| s1.txs.contains_key(u) implies (#[trigger] s1.txs[u]).wf()
                && s1.txs[u].spec_is_recorded() && s1.txs[u].spec_uid() == u by {
                if u != tx.spec_uid() || !tx.spec_is_recorded() {
                    assert(s0.txs.contains_key(u) && s1.txs[u] == s0.txs[u]);
                }
            }
        }
        result
    }

    /// Whether the arithmetic `tx` calls for stays representable, so that
    /// `process_transaction` may be called. Overflow is the one condition the
    /// processor does not absorb: the caller screens for it.
    pub fn transaction_in_range(&self, tx: &Transaction) -> (r: Result<bool, EngineError>)
        requires
            self.inv(),
            tx.wf(),
        ensures
            r matches Ok(b) ==> b == can_apply(self.model(), *tx),
    {
        let client = match self.get_client(&tx.client()) {
            Ok(c) => c,
            Err(e) => {
                return Err(e);
            },
        };
        if client.is_frozen() {
            return Ok(true);
        }
        match tx {
            Transaction::Deposit(d) => match client.available.checked_add(&d.amount) {
                None => Ok(false),
                Some(av2) => Ok(av2.checked_add(&client.held).is_some()),
            },
            Transaction::Withdrawal(w) => {
                if client.available.lt(&w.amount) {
                    Ok(true)
                } else {
                    match client.available.checked_sub(&w.amount) {
                        None => Ok(false),
                        Some(av2) => Ok(av2.checked_add(&client.held).is_some()),
                    }
                }
            },
            Transaction::Dispute(_) => {
                let referenced = match self.get_referenced_tx(tx) {
                    Ok(o) => o,
                    Err(e) => {
                        return Err(e);
                    },
                };
                match referenced {
                    None => Ok(true),
                    Some(dep) => {
                        proof {
                            assert(self.model().txs.contains_key(tx.spec_uid()));
                            assert(self.model().txs[tx.spec_uid()].wf());
                        }
                        match client.available.checked_sub(&dep.amount) {
                            None => Ok(false),
                            Some(av2) => match client.held.checked_add(&dep.amount) {
                                None => Ok(false),
                                Some(h2) => Ok(av2.checked_add(&h2).is_some()),
                            },
                        }
                    },
                }
            },
            Transaction::Resolve(rv) => {
                if !client.is_disputed(rv.tx) {
                    return Ok(true);
                }
                let referenced = match self.get_referenced_tx(tx) {
                    Ok(o) => o,
                    Err(e) => {
                        return Err(e);
                    },
                };
                match referenced {
                    None => Ok(true),
                    Some(dep) => {
                        proof {
                            assert(self.model().txs.contains_key(tx.spec_uid()));
                            assert(self.model().txs[tx.spec_uid()].wf());
                        }
                        match client.held.checked_sub(&dep.amount) {
                            None => Ok(false),
                            Some(h2) => match client.available.checked_add(&dep.amount) {
                                None => Ok(false),
                                Some(av2) => Ok(av2.checked_add(&h2).is_some()),
                            },
                        }
                    },
                }
            },
            Transaction::Chargeback(cb) => {
                if !client.is_disputed(cb.tx) {
                    return Ok(true);
                }
                let referenced = match self.get_referenced_tx(tx) {
                    Ok(o) => o,
                    Err(e) => {
                        return Err(e);
                    },
                };
                match referenced {
                    None => Ok(true),
                    Some(dep) => {
                        proof {
                            assert(self.model().txs.contains_key(tx.spec_uid()));
                            assert(self.model().txs[tx.spec_uid()].wf());
                        }
                        match client.held.checked_sub(&dep.amount) {
                            None => Ok(false),
                            Some(h2) => Ok(client.available.checked_add(&h2).is_some()),
                        }
                    },
                }
            },
        }
    }
}

} // verus!
