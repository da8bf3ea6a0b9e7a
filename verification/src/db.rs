use vstd::prelude::*;

use crate::client::{spec_view, AccountModel, Client, ClientView};
use crate::transactions::Transaction;
use crate::types::{ClientID, DatabaseError, TxUID};

verus! {

/// Every stored account is well formed.
pub open spec fn clients_wf(m: Map<ClientID, AccountModel>) -> bool {
    forall|c: ClientID| m.contains_key(c) ==> (#[trigger] m[c]).wf()
}

/// Every stored transaction is a well-formed recorded kind, keyed by its own
/// identifiers.
pub open spec fn txs_wf(t: Map<TxUID, Transaction>) -> bool {
    forall|u: TxUID|
        t.contains_key(u) ==> (#[trigger] t[u]).wf() && t[u].spec_is_recorded() && t[u].spec_uid()
            == u
}

/// The enumeration `v` lists exactly the accounts of `m`, one view per
/// client, in no particular order.
pub open spec fn views_correspond(m: Map<ClientID, AccountModel>, v: Seq<ClientView>) -> bool {
    &&& v.map_values(|cv: ClientView| cv.client).no_duplicates()
    &&& forall|i: int|
        0 <= i < v.len() ==> m.contains_key((#[trigger] v[i]).client) && v[i] == spec_view(
            m[v[i].client],
            v[i].client,
        )
    &&& forall|c: ClientID|
        m.contains_key(c) ==> exists|i: int| 0 <= i < v.len() && (#[trigger] v[i]).client == c
}

/// The storage contract the processor runs against: two keyed maps, each
/// operation either performs exactly one read or one overwrite, or fails
/// with a `DatabaseError` leaving the store unchanged (a write that fails
/// after taking effect would have to report success).
pub trait Database: Sized {
    spec fn clients(&self) -> Map<ClientID, AccountModel>;

    spec fn txs(&self) -> Map<TxUID, Transaction>;

    /// The most recently written recorded transaction under `id`, if any.
    fn get_tx(&self, id: &TxUID) -> (r: Result<Option<Transaction>, DatabaseError>)
        ensures
            r matches Ok(o) ==> o == (if self.txs().contains_key(*id) {
                Some(self.txs()[*id])
            } else {
                None::<Transaction>
            }),
    ;

    /// Persists a recorded transaction under its own key, overwriting.
    fn write_tx(&mut self, tx: Transaction) -> (r: Result<(), DatabaseError>)
        requires
            tx.spec_is_recorded(),
            tx.wf(),
        ensures
            r is Ok ==> final(self).txs() == old(self).txs().insert(tx.spec_uid(), tx)
                && final(self).clients() == old(self).clients(),
            r is Err ==> final(self).txs() == old(self).txs()
                && final(self).clients() == old(self).clients(),
    ;

    /// The current snapshot of a client's account, if the client exists.
    fn get_client(&self, id: &ClientID) -> (r: Result<Option<Client>, DatabaseError>)
        ensures
            r matches Ok(o) ==> match o {
                Some(c) => self.clients().contains_key(*id) && c@ == self.clients()[*id],
                None => !self.clients().contains_key(*id),
            },
    ;

    /// Overwrites the snapshot stored for `id`.
    fn write_client(&mut self, id: ClientID, client: Client) -> (r: Result<(), DatabaseError>)
        ensures
            r is Ok ==> final(self).clients() == old(self).clients().insert(id, client@)
                && final(self).txs() == old(self).txs(),
            r is Err ==> final(self).clients() == old(self).clients()
                && final(self).txs() == old(self).txs(),
    ;

    /// One view per account ever created, in unspecified order.
    fn all_clients(&self) -> (r: Result<Vec<ClientView>, DatabaseError>)
        requires
            clients_wf(self.clients()),
        ensures
            r matches Ok(v) ==> views_correspond(self.clients(), v@),
    ;
}

/// The keys of an association list, in order.
pub open spec fn alist_keys<K, V>(s: Seq<(K, V)>) -> Seq<K> {
    s.map_values(|p: (K, V)| p.0)
}

/// The map an association list denotes; a later entry overrides an earlier
/// one under the same key.
pub open spec fn alist_map<K, V>(s: Seq<(K, V)>) -> Map<K, V>
    decreases s.len(),
{
    if s.len() == 0 {
        Map::empty()
    } else {
        alist_map(s.drop_last()).insert(s.last().0, s.last().1)
    }
}

pub proof fn lemma_alist_get<K, V>(s: Seq<(K, V)>, k: K)
    requires
        alist_keys(s).no_duplicates(),
    ensures
        alist_map(s).contains_key(k) <==> alist_keys(s).contains(k),
        forall|i: int| 0 <= i < s.len() && s[i].0 == k ==> alist_map(s)[k] == s[i].1,
    decreases s.len(),
{
    if s.len() > 0 {
        let s0 = s.drop_last();
        assert(alist_keys(s0) =~= alist_keys(s).drop_last());
        lemma_alist_get(s0, k);
        if alist_keys(s).contains(k) {
            let w = choose|w: int| 0 <= w < s.len() && alist_keys(s)[w] == k;
            assert(s[w].0 == k);
            if w < s.len() - 1 {
                assert(alist_keys(s0)[w] == k);
                assert(alist_keys(s0).contains(k));
            } else {
                assert(s.last().0 == k);
            }
        }
        if alist_keys(s0).contains(k) {
            let w = choose|w: int| 0 <= w < s0.len() && alist_keys(s0)[w] == k;
            assert(alist_keys(s)[w] == k);
            assert(alist_keys(s).contains(k));
        }
        if s.last().0 == k {
            assert(alist_keys(s)[s.len() - 1] == k);
            assert(alist_keys(s).contains(k));
        }
        assert forall|i: int| 0 <= i < s.len() && s[i].0 == k implies alist_map(s)[k]
            == s[i].1 by {
            if i < s.len() - 1 {
                assert(alist_keys(s)[i] == k && alist_keys(s)[s.len() - 1] == s.last().0);
                assert(s.last().0 != k);
                assert(alist_keys(s0).contains(k)) by {
                    assert(alist_keys(s0)[i] == k);
                }
            }
        }
    }
}

pub proof fn lemma_alist_update<K, V>(s: Seq<(K, V)>, i: int, k: K, v: V)
    requires
        alist_keys(s).no_duplicates(),
        0 <= i < s.len(),
        s[i].0 == k,
    ensures
        alist_map(s.update(i, (k, v))) == alist_map(s).insert(k, v),
        alist_keys(s.update(i, (k, v))) =~= alist_keys(s),
    decreases s.len(),
{
    let u = s.update(i, (k, v));
    assert(alist_keys(u) =~= alist_keys(s));
    if i == s.len() - 1 {
        assert(u.drop_last() =~= s.drop_last());
        assert(alist_map(u) == alist_map(s.drop_last()).insert(k, v));
        assert(alist_map(s).insert(k, v) =~= alist_map(s.drop_last()).insert(k, v));
    } else {
        let s0 = s.drop_last();
        assert(alist_keys(s0) =~= alist_keys(s).drop_last());
        assert(u.drop_last() =~= s0.update(i, (k, v)));
        assert(u.last() == s.last());
        lemma_alist_update(s0, i, k, v);
        assert(alist_keys(s)[i] == k && alist_keys(s)[s.len() - 1] == s.last().0);
        assert(s.last().0 != k);
        assert(alist_map(u) == alist_map(s0).insert(k, v).insert(s.last().0, s.last().1));
        assert(alist_map(s0).insert(k, v).insert(s.last().0, s.last().1) =~= alist_map(s0).insert(
            s.last().0,
            s.last().1,
        ).insert(k, v));
    }
}

pub proof fn lemma_alist_push<K, V>(s: Seq<(K, V)>, k: K, v: V)
    ensures
        alist_map(s.push((k, v))) == alist_map(s).insert(k, v),
        alist_keys(s.push((k, v))) =~= alist_keys(s).push(k),
{
    assert(s.push((k, v)).drop_last() =~= s);
}

/// The index of the entry stored under `id`, if any.
fn find_tx_index(v: &Vec<(TxUID, Transaction)>, id: &TxUID) -> (r: Option<usize>)
    ensures
        match r {
            Some(i) => i < v@.len() && v@[i as int].0 == *id,
            None => forall|j: int| 0 <= j < v@.len() ==> v@[j].0 != *id,
        },
{
    let mut i: usize = 0;
    while i < v.len()
        invariant
            i <= v@.len(),
            forall|j: int| 0 <= j < i ==> v@[j].0 != *id,
        decreases v@.len() - i,
    {
        let entry = &v[i];
        if entry.0 .0 == id.0 && entry.0 .1 == id.1 {
            return Some(i);
        }
        i += 1;
    }
    None
}

/// The index of the entry stored under `id`, if any.
fn find_client_index(v: &Vec<(ClientID, Client)>, id: ClientID) -> (r: Option<usize>)
    ensures
        match r {
            Some(i) => i < v@.len() && v@[i as int].0 == id,
            None => forall|j: int| 0 <= j < v@.len() ==> v@[j].0 != id,
        },
{
    let mut i: usize = 0;
    while i < v.len()
        invariant
            i <= v@.len(),
            forall|j: int| 0 <= j < i ==> v@[j].0 != id,
        decreases v@.len() - i,
    {
        let entry = &v[i];
        if entry.0 == id {
            return Some(i);
        }
        i += 1;
    }
    None
}

/// The in-memory store: two association lists with pairwise-distinct keys,
/// read and overwritten in place. It never raises a `DatabaseError`.
pub struct InMemoryDB {
    clients: Vec<(ClientID, Client)>,
    transactions: Vec<(TxUID, Transaction)>,
}

/// The account entries with each client abstracted to its model.
pub open spec fn client_pairs(s: Seq<(ClientID, Client)>) -> Seq<(ClientID, AccountModel)> {
    s.map_values(|p: (ClientID, Client)| (p.0, p.1@))
}

impl InMemoryDB {
    /// Keys are pairwise distinct, so each key denotes the single entry that
    /// holds its value.
    #[verifier::type_invariant]
    spec fn inv(self) -> bool {
        alist_keys(self.clients@).no_duplicates() && alist_keys(
            self.transactions@,
        ).no_duplicates()
    }

    pub fn new() -> (r: InMemoryDB)
        ensures
            r.clients() == Map::<ClientID, AccountModel>::empty(),
            r.txs() == Map::<TxUID, Transaction>::empty(),
    {
        let r = InMemoryDB { clients: Vec::new(), transactions: Vec::new() };
        proof {
            assert(alist_keys(r.clients@) =~= Seq::<ClientID>::empty());
            assert(alist_keys(r.transactions@) =~= Seq::<TxUID>::empty());
            assert(client_pairs(r.clients@) =~= Seq::<(ClientID, AccountModel)>::empty());
        }
        r
    }
}

impl Database for InMemoryDB {
    closed spec fn clients(&self) -> Map<ClientID, AccountModel> {
        alist_map(client_pairs(self.clients@))
    }

    closed spec fn txs(&self) -> Map<TxUID, Transaction> {
        alist_map(self.transactions@)
    }

    fn get_tx(&self, id: &TxUID) -> (r: Result<Option<Transaction>, DatabaseError>)
        ensures
            r is Ok,
    {
        let mut i: usize = 0;
        while i < self.transactions.len()
            invariant
                i <= self.transactions@.len(),
                forall|j: int| 0 <= j < i ==> self.transactions@[j].0 != *id,
            decreases self.transactions@.len() - i,
        {
            let entry = &self.transactions[i];
            if entry.0 .0 == id.0 && entry.0 .1 == id.1 {
                proof {
                    use_type_invariant(self);
                    lemma_alist_get(self.transactions@, *id);
                    assert(alist_keys(self.transactions@)[i as int] == *id);
                }
                return Ok(Some(entry.1));
            }
            i += 1;
        }
        proof {
            use_type_invariant(self);
            lemma_alist_get(self.transactions@, *id);
            if alist_keys(self.transactions@).contains(*id) {
                let w = choose|w: int|
                    0 <= w < self.transactions@.len() && alist_keys(self.transactions@)[w] == *id;
                assert(self.transactions@[w].0 == *id);
            }
        }
        Ok(None)
    }

    fn write_tx(&mut self, tx: Transaction) -> (r: Result<(), DatabaseError>)
        ensures
            r is Ok,
    {
        proof {
            use_type_invariant(&*self);
        }
        let uid = tx.uid();
        let idx = find_tx_index(&self.transactions, &uid);
        let mut txs: Vec<(TxUID, Transaction)> = Vec::new();
        core::mem::swap(&mut self.transactions, &mut txs);
        match idx {
            Some(i) => {
                proof {
                    assert(alist_keys(txs@)[i as int] == uid);
                }
                txs[i] = (uid, tx);
                proof {
                    lemma_alist_update(old(self).transactions@, i as int, uid, tx);
                }
            },
            None => {
                txs.push((uid, tx));
                proof {
                    lemma_alist_push(old(self).transactions@, uid, tx);
                    assert(alist_keys(txs@) =~= alist_keys(old(self).transactions@).push(uid));
                    assert(alist_keys(txs@).no_duplicates());
                }
            },
        }
        core::mem::swap(&mut self.transactions, &mut txs);
        Ok(())
    }

    fn get_client(&self, id: &ClientID) -> (r: Result<Option<Client>, DatabaseError>)
        ensures
            r is Ok,
    {
        let mut i: usize = 0;
        while i < self.clients.len()
            invariant
                i <= self.clients@.len(),
                forall|j: int| 0 <= j < i ==> self.clients@[j].0 != *id,
            decreases self.clients@.len() - i,
        {
            let entry = &self.clients[i];
            if entry.0 == *id {
                proof {
                    use_type_invariant(self);
                    let pairs = client_pairs(self.clients@);
                    assert(alist_keys(pairs) =~= alist_keys(self.clients@));
                    lemma_alist_get(pairs, *id);
                    assert(pairs[i as int].0 == *id);
                    assert(alist_keys(pairs)[i as int] == *id);
                    assert(alist_keys(pairs).contains(*id));
                    assert(self.clients()[*id] == pairs[i as int].1);
                    assert(pairs[i as int].1 == self.clients@[i as int].1@);
                }
                return Ok(Some(entry.1.duplicate()));
            }
            i += 1;
        }
        proof {
            use_type_invariant(self);
            assert(alist_keys(client_pairs(self.clients@)) =~= alist_keys(self.clients@));
            lemma_alist_get(client_pairs(self.clients@), *id);
            if alist_keys(self.clients@).contains(*id) {
                let w = choose|w: int|
                    0 <= w < self.clients@.len() && alist_keys(self.clients@)[w] == *id;
                assert(client_pairs(self.clients@)[w].0 == *id);
                assert(alist_keys(client_pairs(self.clients@))[w] == *id);
            }
        }
        Ok(None)
    }

    fn write_client(&mut self, id: ClientID, client: Client) -> (r: Result<(), DatabaseError>)
        ensures
            r is Ok,
    {
        proof {
            use_type_invariant(&*self);
        }
        let idx = find_client_index(&self.clients, id);
        let mut cls: Vec<(ClientID, Client)> = Vec::new();
        core::mem::swap(&mut self.clients, &mut cls);
        match idx {
            Some(i) => {
                cls[i] = (id, client);
                proof {
                    assert(alist_keys(client_pairs(old(self).clients@)) =~= alist_keys(
                        old(self).clients@,
                    ));
                    assert(alist_keys(client_pairs(old(self).clients@))[i as int] == id);
                    lemma_alist_update(client_pairs(old(self).clients@), i as int, id, client@);
                    assert(client_pairs(cls@) =~= client_pairs(old(self).clients@).update(
                        i as int,
                        (id, client@),
                    ));
                    assert(alist_keys(cls@) =~= alist_keys(old(self).clients@));
                }
            },
            None => {
                cls.push((id, client));
                proof {
                    lemma_alist_push(client_pairs(old(self).clients@), id, client@);
                    assert(client_pairs(cls@) =~= client_pairs(old(self).clients@).push(
                        (id, client@),
                    ));
                    assert(alist_keys(cls@) =~= alist_keys(old(self).clients@).push(id));
                    assert(alist_keys(cls@).no_duplicates());
                }
            },
        }
        core::mem::swap(&mut self.clients, &mut cls);
        Ok(())
    }

    fn all_clients(&self) -> (r: Result<Vec<ClientView>, DatabaseError>)
        ensures
            r is Ok,
    {
        proof {
            use_type_invariant(self);
            assert(alist_keys(client_pairs(self.clients@)) =~= alist_keys(self.clients@));
        }
        let mut out: Vec<ClientView> = Vec::new();
        let mut i: usize = 0;
        while i < self.clients.len()
            invariant
                i <= self.clients@.len(),
                out@.len() == i,
                clients_wf(self.clients()),
                alist_keys(self.clients@).no_duplicates(),
                forall|j: int|
                    0 <= j < i ==> (#[trigger] out@[j]) == spec_view(
                        client_pairs(self.clients@)[j].1,
                        self.clients@[j].0,
                    ) && out@[j].client == self.clients@[j].0,
            decreases self.clients@.len() - i,
        {
            let entry = &self.clients[i];
            proof {
                let pairs = client_pairs(self.clients@);
                assert(alist_keys(pairs) =~= alist_keys(self.clients@));
                lemma_alist_get(pairs, entry.0);
                assert(pairs[i as int].0 == entry.0);
                assert(alist_keys(pairs)[i as int] == entry.0);
                assert(alist_keys(pairs).contains(entry.0));
                assert(self.clients()[entry.0] == pairs[i as int].1);
                assert(pairs[i as int].1 == entry.1@);
            }
            let view = entry.1.get_view(entry.0);
            out.push(view);
            i += 1;
        }
        proof {
            let m = self.clients();
            let pairs = client_pairs(self.clients@);
            assert(out@.map_values(|cv: ClientView| cv.client) =~= alist_keys(self.clients@));
            assert forall|j: int| 0 <= j < out@.len() implies m.contains_key(
                (#[trigger] out@[j]).client,
            ) && out@[j] == spec_view(m[out@[j].client], out@[j].client) by {
                lemma_alist_get(pairs, out@[j].client);
                assert(alist_keys(pairs)[j] == out@[j].client);
                assert(pairs[j].0 == out@[j].client);
            }
            assert forall|c: ClientID| m.contains_key(c) implies exists|j: int|
                0 <= j < out@.len() && (#[trigger] out@[j]).client == c by {
                lemma_alist_get(pairs, c);
                let w = choose|w: int| 0 <= w < pairs.len() && alist_keys(pairs)[w] == c;
                assert(out@[w].client == self.clients@[w].0);
                assert(alist_keys(self.clients@)[w] == c);
            }
        }
        Ok(out)
    }
}

} // verus!
