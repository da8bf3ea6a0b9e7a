use vstd::prelude::*;

use crate::amount::{add_ok, spec_add, spec_sub, sub_ok, Amount};
use crate::transactions::{DepositTransaction, WithdrawalTransaction};
use crate::types::{ClientError, ClientID, TxID};

verus! {

#[derive(Debug, Clone, Copy, PartialEq, Eq, Structural)]
pub enum ClientStatus {
    Live,
    Frozen,
}

/// The abstract state of one account: the two balances, the status, and the
/// set of transaction ids currently under dispute (kept as a sequence whose
/// elements are distinct; its order carries no meaning).
pub ghost struct AccountModel {
    pub available: Amount,
    pub held: Amount,
    pub status: ClientStatus,
    pub disputes: Seq<TxID>,
}

impl AccountModel {
    pub open spec fn init() -> AccountModel {
        AccountModel {
            available: Amount { mantissa: 0, scale: 0 },
            held: Amount { mantissa: 0, scale: 0 },
            status: ClientStatus::Live,
            disputes: Seq::empty(),
        }
    }

    pub open spec fn frozen(self) -> bool {
        self.status is Frozen
    }

    /// Both balances are representable, their total is too (so a view can
    /// always be taken), and no dispute id repeats.
    pub open spec fn wf(self) -> bool {
        &&& self.available.wf()
        &&& self.held.wf()
        &&& add_ok(self.available, self.held)
        &&& self.disputes.no_duplicates()
    }
}

/// The per-client account. Mutated only through the processing operations
/// below; `disputes` holds the ids of deposits disputed and not yet resolved
/// or charged back, each at most once.
#[derive(Debug, PartialEq, Clone)]
pub struct Client {
    pub available: Amount,
    pub held: Amount,
    pub status: ClientStatus,
    pub disputes: Vec<TxID>,
}

impl View for Client {
    type V = AccountModel;

    open spec fn view(&self) -> AccountModel {
        AccountModel {
            available: self.available,
            held: self.held,
            status: self.status,
            disputes: self.disputes@,
        }
    }
}

impl Default for Client {
    /// A fresh account: empty balances, live, nothing disputed.
    fn default() -> (r: Self)
        ensures
            r@ == AccountModel::init(),
            r@.wf(),
    {
        let r = Client {
            available: Amount::zero(),
            held: Amount::zero(),
            status: ClientStatus::Live,
            disputes: Vec::new(),
        };
        proof {
            assert(r@.disputes =~= AccountModel::init().disputes);
        }
        r
    }
}

/// What a deposit does: the amount joins the available balance.
pub open spec fn spec_deposit(m: AccountModel, amount: Amount) -> AccountModel {
    AccountModel { available: spec_add(m.available, amount), ..m }
}

pub open spec fn deposit_ok(m: AccountModel, amount: Amount) -> bool {
    add_ok(m.available, amount) && add_ok(spec_add(m.available, amount), m.held)
}

/// What a withdrawal does: nothing when the available balance is short,
/// otherwise the amount leaves it.
pub open spec fn spec_withdrawal(m: AccountModel, amount: Amount) -> AccountModel {
    if m.available.units() < amount.units() {
        m
    } else {
        AccountModel { available: spec_sub(m.available, amount), ..m }
    }
}

pub open spec fn withdrawal_ok(m: AccountModel, amount: Amount) -> bool {
    m.available.units() >= amount.units() ==> sub_ok(m.available, amount) && add_ok(
        spec_sub(m.available, amount),
        m.held,
    )
}

/// What a dispute of a recorded deposit does: its amount moves from
/// available to held, and its id joins the dispute set.
pub open spec fn spec_dispute(m: AccountModel, d: DepositTransaction) -> AccountModel {
    AccountModel {
        available: spec_sub(m.available, d.amount),
        held: spec_add(m.held, d.amount),
        status: m.status,
        disputes: if m.disputes.contains(d.tx) {
            m.disputes
        } else {
            m.disputes.push(d.tx)
        },
    }
}

pub open spec fn dispute_ok(m: AccountModel, amount: Amount) -> bool {
    &&& sub_ok(m.available, amount)
    &&& add_ok(m.held, amount)
    &&& add_ok(spec_sub(m.available, amount), spec_add(m.held, amount))
}

/// The dispute sequence with the (sole) occurrence of `id` taken out.
pub open spec fn remove_id(s: Seq<TxID>, id: TxID) -> Seq<TxID> {
    match s.index_of_first(id) {
        Some(i) => s.remove(i),
        None => s,
    }
}

/// What a resolve of a disputed deposit does: its amount moves back from
/// held to available, and its id leaves the dispute set.
pub open spec fn spec_resolve(m: AccountModel, d: DepositTransaction) -> AccountModel {
    AccountModel {
        available: spec_add(m.available, d.amount),
        held: spec_sub(m.held, d.amount),
        status: m.status,
        disputes: remove_id(m.disputes, d.tx),
    }
}

pub open spec fn resolve_ok(m: AccountModel, amount: Amount) -> bool {
    &&& sub_ok(m.held, amount)
    &&& add_ok(m.available, amount)
    &&& add_ok(spec_add(m.available, amount), spec_sub(m.held, amount))
}

/// What a chargeback of a disputed deposit does: its amount leaves the held
/// balance for good, its id leaves the dispute set, and the account freezes.
pub open spec fn spec_chargeback(m: AccountModel, d: DepositTransaction) -> AccountModel {
    AccountModel {
        available: m.available,
        held: spec_sub(m.held, d.amount),
        status: ClientStatus::Frozen,
        disputes: remove_id(m.disputes, d.tx),
    }
}

pub open spec fn chargeback_ok(m: AccountModel, amount: Amount) -> bool {
    sub_ok(m.held, amount) && add_ok(m.available, spec_sub(m.held, amount))
}

/// The reporting projection of an account.
pub open spec fn spec_view(m: AccountModel, id: ClientID) -> ClientView {
    ClientView {
        client: id,
        available: m.available,
        held: m.held,
        total: spec_add(m.available, m.held),
        locked: m.frozen(),
    }
}

/// The read-only projection handed to reporting: total is the exact sum of
/// available and held.
#[derive(Debug, Clone, Copy, PartialEq, Eq, Structural, Hash)]
pub struct ClientView {
    pub client: ClientID,
    pub available: Amount,
    pub held: Amount,
    pub total: Amount,
    pub locked: bool,
}

impl Client {
    pub fn is_frozen(&self) -> (r: bool)
        ensures
            r == self@.frozen(),
    {
        matches!(self.status, ClientStatus::Frozen)
    }

    /// An owned copy with the same abstract state.
    pub fn duplicate(&self) -> (r: Client)
        ensures
            r@ == self@,
    {
        let mut ids: Vec<TxID> = Vec::new();
        let mut i: usize = 0;
        while i < self.disputes.len()
            invariant
                i <= self.disputes.len(),
                ids@ == self.disputes@.subrange(0, i as int),
            decreases self.disputes.len() - i,
        {
            ids.push(self.disputes[i]);
            i += 1;
            proof {
                assert(ids@ =~= self.disputes@.subrange(0, i as int));
            }
        }
        proof {
            assert(ids@ =~= self.disputes@);
        }
        Client { available: self.available, held: self.held, status: self.status, disputes: ids }
    }

    /// Whether `id` is currently under dispute.
    pub fn is_disputed(&self, id: TxID) -> (r: bool)
        ensures
            r == self@.disputes.contains(id),
    {
        let mut i: usize = 0;
        while i < self.disputes.len()
            invariant
                i <= self.disputes.len(),
                forall|j: int| 0 <= j < i ==> self.disputes@[j] != id,
            decreases self.disputes.len() - i,
        {
            if self.disputes[i] == id {
                return true;
            }
            i += 1;
        }
        false
    }

    pub fn process_deposit(&mut self, tx: &DepositTransaction) -> (r: Result<(), ClientError>)
        requires
            old(self)@.wf(),
            tx.amount.wf(),
            deposit_ok(old(self)@, tx.amount),
        ensures
            r is Ok,
            final(self)@ == spec_deposit(old(self)@, tx.amount),
            final(self)@.wf(),
    {
        self.available = self.available.add(&tx.amount);
        Ok(())
    }

    /// A withdrawal the available balance cannot cover is dropped: the
    /// account is left exactly as it was.
    pub fn process_withdrawal(&mut self, tx: &WithdrawalTransaction) -> (r: Result<
        (),
        ClientError,
    >)
        requires
            old(self)@.wf(),
            tx.amount.wf(),
            withdrawal_ok(old(self)@, tx.amount),
        ensures
            r is Ok,
            final(self)@ == spec_withdrawal(old(self)@, tx.amount),
            final(self)@.wf(),
            old(self)@.available.units() < tx.amount.units() ==> final(self)@ == old(self)@,
    {
        if self.available.lt(&tx.amount) {
            return Ok(());
        }
        self.available = self.available.sub(&tx.amount);
        Ok(())
    }

    pub fn process_dispute(&mut self, tx: &DepositTransaction) -> (r: Result<(), ClientError>)
        requires
            old(self)@.wf(),
            tx.amount.wf(),
            dispute_ok(old(self)@, tx.amount),
        ensures
            r is Ok,
            final(self)@ == spec_dispute(old(self)@, *tx),
            final(self)@.wf(),
    {
        self.available = self.available.sub(&tx.amount);
        self.held = self.held.add(&tx.amount);
        if !self.is_disputed(tx.tx) {
            self.disputes.push(tx.tx);
        }
        Ok(())
    }

    pub fn process_resolve(&mut self, tx: &DepositTransaction) -> (r: Result<(), ClientError>)
        requires
            old(self)@.wf(),
            tx.amount.wf(),
            old(self)@.disputes.contains(tx.tx),
            resolve_ok(old(self)@, tx.amount),
        ensures
            r is Ok,
            final(self)@ == spec_resolve(old(self)@, *tx),
            final(self)@.wf(),
    {
        self.held = self.held.sub(&tx.amount);
        self.available = self.available.add(&tx.amount);
        self.remove_dispute(tx.tx);
        Ok(())
    }

    pub fn process_chargeback(&mut self, tx: &DepositTransaction) -> (r: Result<(), ClientError>)
        requires
            old(self)@.wf(),
            tx.amount.wf(),
            old(self)@.disputes.contains(tx.tx),
            chargeback_ok(old(self)@, tx.amount),
        ensures
            r is Ok,
            final(self)@ == spec_chargeback(old(self)@, *tx),
            final(self)@.wf(),
    {
        self.held = self.held.sub(&tx.amount);
        self.remove_dispute(tx.tx);
        self.status = ClientStatus::Frozen;
        Ok(())
    }

    /// Takes `id` out of the dispute sequence.
    fn remove_dispute(&mut self, id: TxID)
        requires
            old(self)@.disputes.contains(id),
        ensures
            final(self)@.disputes == remove_id(old(self)@.disputes, id),
            final(self).available == old(self).available,
            final(self).held == old(self).held,
            final(self).status == old(self).status,
            old(self)@.disputes.no_duplicates() ==> final(self)@.disputes.no_duplicates(),
    {
        let mut i: usize = 0;
        while i < self.disputes.len()
            invariant
                *self == *old(self),
                i <= self.disputes.len(),
                forall|j: int| 0 <= j < i ==> self.disputes@[j] != id,
                self.disputes@.contains(id),
            decreases self.disputes.len() - i,
        {
            if self.disputes[i] == id {
                let ghost s0 = self.disputes@;
                self.disputes.remove(i);
                proof {
                    s0.index_of_first_ensures(id);
                    assert(s0.index_of_first(id) == Some(i as int));
                    if s0.no_duplicates() {
                        assert forall|p: int, q: int|
                            0 <= p < q < self.disputes@.len() implies self.disputes@[p]
                            != self.disputes@[q] by {
                            assert(self.disputes@[p] == if p < i {
                                s0[p]
                            } else {
                                s0[p + 1]
                            });
                            assert(self.disputes@[q] == if q < i {
                                s0[q]
                            } else {
                                s0[q + 1]
                            });
                        }
                    }
                }
                return ;
            }
            i += 1;
        }
        proof {
            assert(false);
        }
    }

    /// The reporting view; the total it carries is the exact sum of the two
    /// balances.
    pub fn get_view(&self, id: ClientID) -> (v: ClientView)
        requires
            self@.wf(),
        ensures
            v == spec_view(self@, id),
            v.total.units() == self@.available.units() + self@.held.units(),
    {
        proof {
            crate::amount::lemma_add_exact(self.available, self.held);
        }
        ClientView {
            client: id,
            available: self.available,
            held: self.held,
            total: self.available.add(&self.held),
            locked: self.is_frozen(),
        }
    }
}

} // verus!
