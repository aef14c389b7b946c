//! The ledger engine: the account table, the transaction history, and the
//! rules that apply one event to them.
use crate::client::{Client, ClientReport};
use crate::errors::Error;
use crate::tx::{ClientId, Tx, TxId, TxInput, TxType};
use std::collections::HashMap;
use vstd::prelude::*;

verus! {

/// The engine's state as mathematical values: the accounts, the order in
/// which their ids were first seen, and the recorded deposits and withdrawals.
pub ghost struct Ledger {
    pub clients: Map<ClientId, Client>,
    pub order: Seq<ClientId>,
    pub txs: Map<TxId, Tx>,
}

impl Ledger {
    pub open spec fn empty() -> Ledger {
        Ledger { clients: Map::empty(), order: Seq::empty(), txs: Map::empty() }
    }

    /// Every account is well formed and filed under its own id, `order` lists
    /// each known id once, and every recorded amount is representable.
    pub open spec fn wf(self) -> bool {
        &&& forall|k: ClientId| #[trigger]
            self.clients.contains_key(k) ==> self.clients[k].wf() && self.clients[k].id == k
        &&& forall|k: ClientId| #[trigger] self.clients.contains_key(k) <==> self.order.contains(k)
        &&& self.order.no_duplicates()
        &&& forall|k: TxId| #[trigger] self.txs.contains_key(k) ==> self.txs[k].wf()
    }

    /// The ledger with an account for `id`, created if it was not there.
    pub open spec fn touch(self, id: ClientId) -> Ledger {
        if self.clients.contains_key(id) {
            self
        } else {
            Ledger {
                clients: self.clients.insert(id, Client::fresh(id)),
                order: self.order.push(id),
                txs: self.txs,
            }
        }
    }

    pub open spec fn update(self, c: Client, txs: Map<TxId, Tx>) -> Ledger {
        Ledger { clients: self.clients.insert(c.id, c), order: self.order, txs }
    }

    /// One event applied: the new ledger and whether the event was accepted.
    pub open spec fn step(self, t: TxInput) -> (Ledger, Result<(), Error>) {
        let l = self.touch(t.client_id);
        let c = l.clients[t.client_id];
        match t.tx_type {
            TxType::Deposit | TxType::Withdrawal => {
                if l.txs.contains_key(t.id) {
                    (l, Err(Error::TxIdConflict))
                } else {
                    match t.amount {
                        None => (l, Err(Error::TxInvalidAmount)),
                        Some(a) => {
                            let txs = l.txs.insert(t.id, Tx::of_input(t));
                            let (c2, r) = if t.tx_type == TxType::Deposit {
                                c.after_deposit(a)
                            } else {
                                c.after_withdraw(a)
                            };
                            (l.update(c2, txs), r)
                        },
                    }
                }
            },
            _ => {
                if !l.txs.contains_key(t.id) {
                    (l, Err(Error::TxNotFound))
                } else {
                    let rec = l.txs[t.id];
                    if rec.client_id != t.client_id {
                        (l, Err(Error::ClientIdNoMatch))
                    } else if t.tx_type == TxType::Dispute {
                        if rec.tx_type != TxType::Deposit {
                            (l, Err(Error::TxNotADeposit))
                        } else {
                            let txs = l.txs.insert(t.id, rec.with_dispute(true));
                            let (c2, r) = c.after_dispute(rec.amount);
                            (l.update(c2, txs), r)
                        }
                    } else if !rec.under_dispute {
                        (l, Err(Error::TxNotUnderDispute))
                    } else if t.tx_type == TxType::Resolve {
                        let txs = l.txs.insert(t.id, rec.with_dispute(false));
                        let (c2, r) = c.after_resolve(rec.amount);
                        (l.update(c2, txs), r)
                    } else {
                        let (c2, r) = c.after_chargeback(rec.amount);
                        (l.update(c2, l.txs), r)
                    }
                }
            },
        }
    }

    /// The events of `ts` applied one after the other.
    pub open spec fn replay(self, ts: Seq<TxInput>) -> Ledger
        decreases ts.len(),
    {
        if ts.len() == 0 {
            self
        } else {
            self.replay(ts.drop_last()).step(ts.last()).0
        }
    }

    /// The report row of each known client, in the order the ids were first seen.
    pub open spec fn rows(self) -> Seq<Option<ClientReport>> {
        self.order.map_values(|id: ClientId| ClientReport::of_client(self.clients[id]))
    }
}

proof fn lemma_touch_wf(l: Ledger, id: ClientId)
    requires
        l.wf(),
    ensures
        l.touch(id).wf(),
        l.touch(id).clients.contains_key(id),
        l.touch(id).txs == l.txs,
{
    if !l.clients.contains_key(id) {
        let t = l.touch(id);
        assert forall|k: ClientId| #[trigger] t.clients.contains_key(k) <==> t.order.contains(k) by {
            if k == id {
                assert(t.order[t.order.len() - 1] == id);
            } else if l.order.contains(k) {
                let j = choose|j: int| 0 <= j < l.order.len() && l.order[j] == k;
                assert(t.order[j] == k);
            } else if t.order.contains(k) {
                let j = choose|j: int| 0 <= j < t.order.len() && t.order[j] == k;
                assert(l.order[j] == k);
            }
        }
    }
}

/// A dispute of a recorded deposit followed by a chargeback of it, both made
/// by the deposit's owner, leaves the owner's account locked, whether or not
/// the balance updates succeed (for a deposit whose amount is not negative).
pub proof fn lemma_dispute_then_chargeback_locks(l: Ledger, dispute: TxInput, chargeback: TxInput)
    requires
        l.wf(),
        dispute.tx_type == TxType::Dispute,
        chargeback.tx_type == TxType::Chargeback,
        chargeback.client_id == dispute.client_id,
        chargeback.id == dispute.id,
        l.txs.contains_key(dispute.id),
        l.txs[dispute.id].client_id == dispute.client_id,
        l.txs[dispute.id].tx_type == TxType::Deposit,
        !l.txs[dispute.id].amount.is_negative(),
    ensures
        ({
            let l2 = l.step(dispute).0.step(chargeback).0;
            l2.clients.contains_key(dispute.client_id) && l2.clients[dispute.client_id].locked
        }),
{
    let id = dispute.client_id;
    let l0 = l.touch(id);
    let c = l0.clients[id];
    let rec = l0.txs[dispute.id];
    let (c1, r1) = c.after_dispute(rec.amount);
    assert(c1.id == c.id);
    let l1 = l.step(dispute).0;
    assert(l1 == l0.update(c1, l0.txs.insert(dispute.id, rec.with_dispute(true))));
    assert(l1.touch(id) == l1);
    assert(l1.txs[dispute.id].under_dispute);
    assert(l1.clients[id] == c1);
}

/// A deposit or withdrawal whose id is already recorded is refused with
/// `TxIdConflict`: the history and every existing account stay as they were
/// (an account for a new client id is still opened).
pub proof fn lemma_tx_id_used_once(l: Ledger, t: TxInput)
    requires
        l.wf(),
        t.tx_type == TxType::Deposit || t.tx_type == TxType::Withdrawal,
        l.txs.contains_key(t.id),
    ensures
        l.step(t).1 == Err::<(), Error>(Error::TxIdConflict),
        l.step(t).0 == l.touch(t.client_id),
        l.step(t).0.txs == l.txs,
        forall|k: ClientId| #[trigger]
            l.clients.contains_key(k) ==> l.step(t).0.clients.contains_key(k)
                && l.step(t).0.clients[k] == l.clients[k],
{
}

/// Owns the account table and the transaction history for one run.
pub struct Engine {
    clients: HashMap<ClientId, Client>,
    order: Vec<ClientId>,
    transactions: HashMap<TxId, Tx>,
}

impl View for Engine {
    type V = Ledger;

    closed spec fn view(&self) -> Ledger {
        Ledger { clients: self.clients@, order: self.order@, txs: self.transactions@ }
    }
}

impl Engine {
    pub open spec fn wf(&self) -> bool {
        self@.wf()
    }

    pub fn new() -> (r: Engine)
        ensures
            r@ == Ledger::empty(),
            r.wf(),
    {
        let r = Engine { clients: HashMap::new(), order: Vec::new(), transactions: HashMap::new() };
        proof {
            assert(r@.order =~= Seq::empty());
        }
        r
    }

    /// Applies one event; a rejected event leaves no trace beyond what
    /// [`Ledger::step`] describes.
    pub fn process_tx(&mut self, tx: &TxInput)
        requires
            old(self).wf(),
            tx.wf(),
        ensures
            final(self).wf(),
            final(self)@ == old(self)@.step(*tx).0,
    {
        let _ = self.process_tx_inner(tx);
    }

    /// Applies each event of `records` in turn, rejected ones included.
    pub fn process_all(&mut self, records: &Vec<TxInput>)
        requires
            old(self).wf(),
            forall|i: int| 0 <= i < records@.len() ==> #[trigger] records@[i].wf(),
        ensures
            final(self).wf(),
            final(self)@ == old(self)@.replay(records@),
    {
        let ghost start = self@;
        let mut i: usize = 0;
        while i < records.len()
            invariant
                self.wf(),
                0 <= i <= records@.len(),
                forall|j: int| 0 <= j < records@.len() ==> #[trigger] records@[j].wf(),
                self@ == start.replay(records@.subrange(0, i as int)),
            decreases records@.len() - i,
        {
            let t = &records[i];
            self.process_tx(t);
            proof {
                let next = records@.subrange(0, i + 1);
                assert(next.drop_last() =~= records@.subrange(0, i as int));
                assert(next.last() == records@[i as int]);
            }
            i = i + 1;
        }
        assert(records@.subrange(0, records@.len() as int) =~= records@);
    }

    /// Applies one event and says why it was rejected, if it was.
    pub fn process_tx_inner(&mut self, tx_input: &TxInput) -> (r: Result<(), Error>)
        requires
            old(self).wf(),
            tx_input.wf(),
        ensures
            final(self).wf(),
            (final(self)@, r) == old(self)@.step(*tx_input),
    {
        let cid = tx_input.client_id;
        let existing: Option<Client> = match self.clients.get(&cid) {
            Some(c) => Some(*c),
            None => None,
        };
        let mut client = match existing {
            Some(c) => c,
            None => {
                let c = Client::new(cid);
                self.clients.insert(cid, c);
                self.order.push(cid);
                c
            },
        };
        proof {
            let l = old(self)@.touch(cid);
            lemma_touch_wf(old(self)@, cid);
            assert(self@.clients =~= l.clients);
            assert(self@.order =~= l.order);
            assert(self@ == l);
            assert(client == l.clients[cid]);
        }
        match tx_input.tx_type {
            TxType::Deposit | TxType::Withdrawal => {
                if self.transactions.contains_key(&tx_input.id) {
                    return Err(Error::TxIdConflict);
                }
                let amount = match tx_input.amount {
                    Some(a) => a,
                    None => {
                        return Err(Error::TxInvalidAmount);
                    },
                };
                self.transactions.insert(tx_input.id, Tx::new(tx_input));
                let r = match tx_input.tx_type {
                    TxType::Deposit => client.deposit(&amount),
                    _ => client.withdraw(&amount),
                };
                self.clients.insert(cid, client);
                r
            },
            _ => {
                let found: Option<Tx> = match self.transactions.get(&tx_input.id) {
                    Some(t) => Some(*t),
                    None => None,
                };
                let rec = match found {
                    Some(t) => t,
                    None => {
                        return Err(Error::TxNotFound);
                    },
                };
                if rec.client_id != cid {
                    return Err(Error::ClientIdNoMatch);
                }
                let r = match tx_input.tx_type {
                    TxType::Dispute => {
                        if rec.tx_type != TxType::Deposit {
                            return Err(Error::TxNotADeposit);
                        }
                        self.transactions.insert(tx_input.id, rec.set_dispute(true));
                        client.dispute(&rec.amount)
                    },
                    TxType::Resolve => {
                        if !rec.under_dispute {
                            return Err(Error::TxNotUnderDispute);
                        }
                        self.transactions.insert(tx_input.id, rec.set_dispute(false));
                        client.resolve(&rec.amount)
                    },
                    _ => {
                        if !rec.under_dispute {
                            return Err(Error::TxNotUnderDispute);
                        }
                        client.chargeback(&rec.amount)
                    },
                };
                self.clients.insert(cid, client);
                r
            },
        }
    }

    /// One row per known client, in the order the ids were first seen; fails
    /// with `Overflow` where some client's `available + held` is not representable.
    pub fn report(&self) -> (r: Result<Vec<ClientReport>, Error>)
        requires
            self.wf(),
        ensures
            r is Ok <==> forall|i: int| 0 <= i < self@.order.len() ==> #[trigger] self@.rows()[i] is Some,
            r matches Err(e) ==> e == Error::Overflow,
            r matches Ok(v) ==> v@.len() == self@.order.len() && forall|i: int|
                0 <= i < v@.len() ==> Some(#[trigger] v@[i]) == self@.rows()[i],
    {
        let mut out: Vec<ClientReport> = Vec::new();
        let mut i: usize = 0;
        while i < self.order.len()
            invariant
                self.wf(),
                0 <= i <= self.order@.len(),
                out@.len() == i,
                forall|j: int| 0 <= j < i ==> Some(#[trigger] out@[j]) == self@.rows()[j],
            decreases self.order@.len() - i,
        {
            let id = self.order[i];
            assert(self@.order[i as int] == id);
            assert(self@.order.contains(id));
            let c = match self.clients.get(&id) {
                Some(c) => *c,
                None => {
                    return Err(Error::Overflow);
                },
            };
            assert(self@.rows()[i as int] == ClientReport::of_client(c));
            match ClientReport::new(&c) {
                Some(row) => out.push(row),
                None => {
                    return Err(Error::Overflow);
                },
            }
            i = i + 1;
        }
        assert forall|j: int| 0 <= j < self@.order.len() implies #[trigger] self@.rows()[j] is Some by {
            assert(Some(out@[j]) == self@.rows()[j]);
        }
        Ok(out)
    }

    /// The account of `id`, if the id has been seen.
    pub fn client(&self, id: ClientId) -> (r: Option<Client>)
        requires
            self.wf(),
        ensures
            r == (if self@.clients.contains_key(id) {
                Some(self@.clients[id])
            } else {
                None
            }),
    {
        match self.clients.get(&id) {
            Some(c) => Some(*c),
            None => None,
        }
    }

    /// The recorded deposit or withdrawal `id`, if there is one.
    pub fn transaction(&self, id: TxId) -> (r: Option<Tx>)
        requires
            self.wf(),
        ensures
            r == (if self@.txs.contains_key(id) {
                Some(self@.txs[id])
            } else {
                None
            }),
    {
        match self.transactions.get(&id) {
            Some(t) => Some(*t),
            None => None,
        }
    }

    /// How many deposits and withdrawals have been recorded.
    pub fn transaction_count(&self) -> (r: usize)
        ensures
            r == self@.txs.len(),
    {
        self.transactions.len()
    }
}

} // verus!
