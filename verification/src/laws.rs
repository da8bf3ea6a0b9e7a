use vstd::prelude::*;

use crate::amount::{lemma_add_exact, lemma_sub_exact, lemma_zero_units};
use crate::client::AccountModel;
use crate::engine::{account_of, can_apply, referenced_deposit, step, step_account, LedgerModel};
use crate::transactions::Transaction;
use crate::types::{ClientID, TxID, TxUID};

verus! {

/// The value of the deposit recorded under `uid`, or zero when none is.
pub open spec fn deposit_units(txs: Map<TxUID, Transaction>, uid: TxUID) -> int {
    match referenced_deposit(txs, uid) {
        Some(d) => d.amount.units(),
        None => 0,
    }
}

/// The combined value of the deposits of client `c` whose ids are listed.
pub open spec fn disputed_sum(ids: Seq<TxID>, c: ClientID, txs: Map<TxUID, Transaction>) -> int
    decreases ids.len(),
{
    if ids.len() == 0 {
        0
    } else {
        disputed_sum(ids.drop_last(), c, txs) + deposit_units(txs, (c, ids.last()))
    }
}

/// The held balance is exactly the combined value of the deposits currently
/// under dispute, each of which is still recorded in the store.
pub open spec fn account_conserved(
    a: AccountModel,
    c: ClientID,
    txs: Map<TxUID, Transaction>,
) -> bool {
    &&& a.held.units() == disputed_sum(a.disputes, c, txs)
    &&& forall|i: int|
        0 <= i < a.disputes.len() ==> referenced_deposit(txs, (c, #[trigger] a.disputes[i]))
            is Some
}

pub open spec fn conserved(s: LedgerModel) -> bool {
    forall|c: ClientID|
        s.clients.contains_key(c) ==> account_conserved(#[trigger] s.clients[c], c, s.txs)
}

/// A ledger no transaction has touched conserves trivially.
pub proof fn lemma_conserved_empty()
    ensures
        conserved(
            LedgerModel {
                clients: Map::<ClientID, AccountModel>::empty(),
                txs: Map::<TxUID, Transaction>::empty(),
            },
        ),
{
}

/// The sum only reads the store at the listed ids of client `c`; a store
/// that agrees there gives the same sum.
proof fn lemma_disputed_sum_same(
    ids: Seq<TxID>,
    c: ClientID,
    txs1: Map<TxUID, Transaction>,
    txs2: Map<TxUID, Transaction>,
)
    requires
        forall|i: int|
            0 <= i < ids.len() ==> referenced_deposit(txs2, (c, #[trigger] ids[i]))
                == referenced_deposit(txs1, (c, ids[i])),
    ensures
        disputed_sum(ids, c, txs2) == disputed_sum(ids, c, txs1),
    decreases ids.len(),
{
    if ids.len() > 0 {
        assert(ids.last() == ids[ids.len() - 1]);
        assert(forall|i: int| 0 <= i < ids.len() - 1 ==> ids.drop_last()[i] == ids[i]);
        lemma_disputed_sum_same(ids.drop_last(), c, txs1, txs2);
    }
}

/// Taking the entry at `i` out of the list takes exactly its value out of
/// the sum.
proof fn lemma_disputed_sum_remove(
    ids: Seq<TxID>,
    c: ClientID,
    txs: Map<TxUID, Transaction>,
    i: int,
)
    requires
        0 <= i < ids.len(),
    ensures
        disputed_sum(ids.remove(i), c, txs) == disputed_sum(ids, c, txs) - deposit_units(
            txs,
            (c, ids[i]),
        ),
    decreases ids.len(),
{
    if i == ids.len() - 1 {
        assert(ids.remove(i) =~= ids.drop_last());
    } else {
        assert(ids.remove(i).drop_last() =~= ids.drop_last().remove(i));
        assert(ids.remove(i).last() == ids.last());
        lemma_disputed_sum_remove(ids.drop_last(), c, txs, i);
    }
}

/// Conservation: processing any transaction keeps every account's held
/// balance equal to the combined value of its disputed deposits. The two
/// final hypotheses name the inputs the processor never generates under
/// correct input and on which the property genuinely fails: a recorded
/// transaction must not overwrite a deposit still under dispute, and a
/// dispute must not target an id already under dispute (disputing it again
/// moves its amount twice while the dispute set keeps one entry).
pub proof fn lemma_conservation(s: LedgerModel, tx: Transaction)
    requires
        s.wf(),
        tx.wf(),
        can_apply(s, tx),
        conserved(s),
        tx.spec_is_recorded() ==> !account_of(s.clients, tx.spec_client()).disputes.contains(
            tx.spec_id(),
        ),
        tx matches Transaction::Dispute(d) ==> !account_of(
            s.clients,
            tx.spec_client(),
        ).disputes.contains(d.tx),
    ensures
        conserved(step(s, tx)),
{
    let c = tx.spec_client();
    let acct = account_of(s.clients, c);
    if !acct.frozen() {
        let s1 = step(s, tx);
        let a1 = step_account(s, tx);
        assert(acct.wf() && account_conserved(acct, c, s.txs)) by {
            if s.clients.contains_key(c) {
            } else {
                lemma_zero_units(acct.held);
            }
        }
        // The account that stepped still conserves, against the new store.
        assert(account_conserved(a1, c, s1.txs)) by {
            match tx {
                Transaction::Deposit(d) => {
                    assert(forall|i: int|
                        0 <= i < acct.disputes.len() ==> (c, #[trigger] acct.disputes[i]) != (
                        c,
                        d.tx,
                        ));
                    lemma_disputed_sum_same(acct.disputes, c, s.txs, s1.txs);
                },
                Transaction::Withdrawal(w) => {
                    assert(forall|i: int|
                        0 <= i < acct.disputes.len() ==> (c, #[trigger] acct.disputes[i]) != (
                        c,
                        w.tx,
                        ));
                    lemma_disputed_sum_same(acct.disputes, c, s.txs, s1.txs);
                },
                Transaction::Dispute(d) => {
                    match referenced_deposit(s.txs, tx.spec_uid()) {
                        Some(dep) => {
                            assert(s.txs.contains_key(tx.spec_uid()) && s.txs[tx.spec_uid()].wf());
                            lemma_add_exact(acct.held, dep.amount);
                            assert(a1.disputes == acct.disputes.push(d.tx));
                            assert(a1.disputes.drop_last() =~= acct.disputes);
                            assert(deposit_units(s.txs, (c, d.tx)) == dep.amount.units());
                        },
                        None => {},
                    }
                },
                Transaction::Resolve(rv) => {
                    if acct.disputes.contains(rv.tx) {
                        match referenced_deposit(s.txs, tx.spec_uid()) {
                            Some(dep) => {
                                assert(s.txs.contains_key(tx.spec_uid())
                                    && s.txs[tx.spec_uid()].wf()
                                    && s.txs[tx.spec_uid()].spec_uid() == tx.spec_uid());
                                assert(dep.tx == rv.tx);
                                lemma_sub_exact(acct.held, dep.amount);
                                acct.disputes.index_of_first_ensures(rv.tx);
                                let i = acct.disputes.index_of_first(rv.tx).unwrap();
                                lemma_disputed_sum_remove(acct.disputes, c, s.txs, i);
                                assert(deposit_units(s.txs, (c, acct.disputes[i]))
                                    == dep.amount.units());
                                assert(forall|j: int|
                                    0 <= j < a1.disputes.len() ==> #[trigger] a1.disputes[j]
                                        == (if j < i {
                                        acct.disputes[j]
                                    } else {
                                        acct.disputes[j + 1]
                                    }));
                            },
                            None => {},
                        }
                    }
                },
                Transaction::Chargeback(cb) => {
                    if acct.disputes.contains(cb.tx) {
                        match referenced_deposit(s.txs, tx.spec_uid()) {
                            Some(dep) => {
                                assert(s.txs.contains_key(tx.spec_uid())
                                    && s.txs[tx.spec_uid()].wf()
                                    && s.txs[tx.spec_uid()].spec_uid() == tx.spec_uid());
                                assert(dep.tx == cb.tx);
                                lemma_sub_exact(acct.held, dep.amount);
                                acct.disputes.index_of_first_ensures(cb.tx);
                                let i = acct.disputes.index_of_first(cb.tx).unwrap();
                                lemma_disputed_sum_remove(acct.disputes, c, s.txs, i);
                                assert(deposit_units(s.txs, (c, acct.disputes[i]))
                                    == dep.amount.units());
                                assert(forall|j: int|
                                    0 <= j < a1.disputes.len() ==> #[trigger] a1.disputes[j]
                                        == (if j < i {
                                        acct.disputes[j]
                                    } else {
                                        acct.disputes[j + 1]
                                    }));
                            },
                            None => {},
                        }
                    }
                },
            }
        }
        // Accounts of other clients never read the key the store gained.
        assert forall|c2: ClientID| s1.clients.contains_key(c2) implies account_conserved(
            #[trigger] s1.clients[c2],
            c2,
            s1.txs,
        ) by {
            if c2 == c {
                assert(s1.clients[c2] == a1);
            } else {
                assert(s.clients.contains_key(c2) && s1.clients[c2] == s.clients[c2]);
                let a2 = s.clients[c2];
                assert(forall|i: int|
                    0 <= i < a2.disputes.len() ==> (c2, #[trigger] a2.disputes[i])
                        != tx.spec_uid());
                lemma_disputed_sum_same(a2.disputes, c2, s.txs, s1.txs);
            }
        }
    }
}

/// Frozen terminality: once an account is frozen, no later transaction, of
/// any kind and from any client, changes it.
pub proof fn lemma_frozen_terminal(s: LedgerModel, tx: Transaction, c: ClientID)
    requires
        account_of(s.clients, c).frozen(),
    ensures
        account_of(step(s, tx).clients, c) == account_of(s.clients, c),
        account_of(step(s, tx).clients, c).frozen(),
{
}

pub open spec fn run(s: LedgerModel, txs: Seq<Transaction>) -> LedgerModel
    decreases txs.len(),
{
    if txs.len() == 0 {
        s
    } else {
        step(run(s, txs.drop_last()), txs.last())
    }
}

/// Frozen terminality over a whole remaining input: the account stays
/// exactly as it froze.
pub proof fn lemma_frozen_terminal_run(s: LedgerModel, txs: Seq<Transaction>, c: ClientID)
    requires
        account_of(s.clients, c).frozen(),
    ensures
        account_of(run(s, txs).clients, c) == account_of(s.clients, c),
    decreases txs.len(),
{
    if txs.len() > 0 {
        lemma_frozen_terminal_run(s, txs.drop_last(), c);
        lemma_frozen_terminal(run(s, txs.drop_last()), txs.last(), c);
    }
}

/// Idempotent no-ops: a resolve or chargeback of an id not under dispute,
/// and any meta transaction whose reference is absent from the store or is
/// not a deposit, leave every account unchanged and record nothing.
pub proof fn lemma_meta_noop(s: LedgerModel, tx: Transaction)
    requires
        match tx {
            Transaction::Dispute(_) => referenced_deposit(s.txs, tx.spec_uid()) is None,
            Transaction::Resolve(rv) => !account_of(
                s.clients,
                tx.spec_client(),
            ).disputes.contains(rv.tx) || referenced_deposit(s.txs, tx.spec_uid()) is None,
            Transaction::Chargeback(cb) => !account_of(
                s.clients,
                tx.spec_client(),
            ).disputes.contains(cb.tx) || referenced_deposit(s.txs, tx.spec_uid()) is None,
            _ => false,
        },
    ensures
        step(s, tx).txs == s.txs,
        forall|c: ClientID| #[trigger] account_of(step(s, tx).clients, c) == account_of(
            s.clients,
            c,
        ),
{
    let c0 = tx.spec_client();
    if !account_of(s.clients, c0).frozen() {
        assert(step_account(s, tx) == account_of(s.clients, c0));
    }
}

/// Insufficient-funds no-op: a withdrawal larger than the available balance
/// changes no account (the withdrawal itself is still recorded).
pub proof fn lemma_insufficient_withdrawal_noop(s: LedgerModel, tx: Transaction)
    requires
        tx matches Transaction::Withdrawal(w) && account_of(
            s.clients,
            tx.spec_client(),
        ).available.units() < w.amount.units(),
    ensures
        forall|c: ClientID| #[trigger] account_of(step(s, tx).clients, c) == account_of(
            s.clients,
            c,
        ),
{
    let c0 = tx.spec_client();
    if !account_of(s.clients, c0).frozen() {
        assert(step_account(s, tx) == account_of(s.clients, c0));
    }
}

} // verus!

