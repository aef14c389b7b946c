//! Incoming ledger events and the history entries kept for deposits and withdrawals.
use crate::money::Money;
use vstd::prelude::*;

verus! {

pub type ClientId = u16;

pub type TxId = u32;

/// The five kinds of ledger event.
#[derive(Clone, Copy, Debug, PartialEq, Eq, Structural)]
pub enum TxType {
    Deposit,
    Withdrawal,
    Dispute,
    Resolve,
    Chargeback,
}

/// One event of the input stream. The amount matters for deposits and
/// withdrawals only.
#[derive(Clone, Copy, Debug, PartialEq, Eq, Structural)]
pub struct TxInput {
    pub tx_type: TxType,
    pub client_id: ClientId,
    pub id: TxId,
    pub amount: Option<Money>,
}

impl TxInput {
    /// Every amount it carries is a representable decimal.
    pub open spec fn wf(&self) -> bool {
        self.amount matches Some(a) ==> a.wf()
    }
}

/// A deposit or withdrawal as recorded in the history; only the dispute flag
/// changes after it is created.
#[derive(Clone, Copy, Debug, PartialEq, Eq, Structural)]
pub struct Tx {
    pub client_id: ClientId,
    pub tx_type: TxType,
    pub amount: Money,
    pub under_dispute: bool,
}

impl Tx {
    pub open spec fn wf(&self) -> bool {
        self.amount.wf()
    }

    /// The record an event creates: its owner, kind and amount (zero where it
    /// carries none), not under dispute.
    pub open spec fn of_input(t: TxInput) -> Tx {
        Tx {
            client_id: t.client_id,
            tx_type: t.tx_type,
            amount: match t.amount {
                Some(a) => a,
                None => Money { mantissa: 0, scale: 0 },
            },
            under_dispute: false,
        }
    }

    pub open spec fn with_dispute(self, flag: bool) -> Tx {
        Tx {
            client_id: self.client_id,
            tx_type: self.tx_type,
            amount: self.amount,
            under_dispute: flag,
        }
    }

    /// The same record with its dispute flag set to `flag`.
    pub fn set_dispute(self, flag: bool) -> (r: Tx)
        ensures
            r == self.with_dispute(flag),
    {
        Tx { under_dispute: flag, ..self }
    }

    pub fn new(tx_input: &TxInput) -> (r: Tx)
        ensures
            r == Tx::of_input(*tx_input),
    {
        let amount = match tx_input.amount {
            Some(a) => a,
            None => Money::zero(),
        };
        Tx {
            client_id: tx_input.client_id,
            tx_type: tx_input.tx_type,
            amount,
            under_dispute: false,
        }
    }
}

} // verus!
