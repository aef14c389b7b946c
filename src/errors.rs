//! Why a ledger event was rejected.
use vstd::prelude::*;

verus! {

/// Each way an event can be refused; none of them stops a run.
#[derive(Clone, Copy, Debug, PartialEq, Eq, Structural)]
pub enum Error {
    /// insufficient available funds
    InsufficientFunds,
    /// calculation overflow
    Overflow,
    /// Negative amount
    NegativeAmount,
    /// Tx not found, partner error
    TxNotFound,
    /// Tx not under dispute, partner error
    TxNotUnderDispute,
    /// Account locked
    AccountLocked,
    /// Client id doesn't match
    ClientIdNoMatch,
    /// Tx id conflict
    TxIdConflict,
    /// Tx is not a deposit
    TxNotADeposit,
    /// Tx invalid amount
    TxInvalidAmount,
}

impl Error {
    /// The text shown for each condition.
    pub open spec fn text(self) -> Seq<char> {
        match self {
            Error::InsufficientFunds => "insufficient available funds"@,
            Error::Overflow => "calculation overflow"@,
            Error::NegativeAmount => "negative amount"@,
            Error::TxNotFound => "tx not found, partner error"@,
            Error::TxNotUnderDispute => "tx not under dispute, partner error"@,
            Error::AccountLocked => "account locked"@,
            Error::ClientIdNoMatch => "client id doesn't match"@,
            Error::TxIdConflict => "tx id conflict"@,
            Error::TxNotADeposit => "tx is not a deposit"@,
            Error::TxInvalidAmount => "tx invalid amount"@,
        }
    }

    /// A short human-readable description of the condition.
    pub fn message(&self) -> (r: &'static str)
        ensures
            r@ == self.text(),
    {
        match self {
            Error::InsufficientFunds => "insufficient available funds",
            Error::Overflow => "calculation overflow",
            Error::NegativeAmount => "negative amount",
            Error::TxNotFound => "tx not found, partner error",
            Error::TxNotUnderDispute => "tx not under dispute, partner error",
            Error::AccountLocked => "account locked",
            Error::ClientIdNoMatch => "client id doesn't match",
            Error::TxIdConflict => "tx id conflict",
            Error::TxNotADeposit => "tx is not a deposit",
            Error::TxInvalidAmount => "tx invalid amount",
        }
    }
}

} // verus!
