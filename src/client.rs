//! A client's balances and the state machine that moves them.
use crate::errors::Error;
use crate::money::{
    add_outcome, checked_add, checked_sub, common_scale, fits96, greater_than,
    lemma_compare_at4, lemma_exact_difference_at4, lemma_exact_sum_at4, lemma_pow10_positive,
    pow10, round_dp, rounded,
    sub_outcome, Money, PRECISION,
};
use crate::tx::ClientId;
use vstd::prelude::*;

verus! {

/// One client's account: funds free to use, funds held under dispute, and
/// the lock that a chargeback sets for good.
#[derive(Clone, Copy, Debug, PartialEq, Eq, Structural)]
pub struct Client {
    pub id: ClientId,
    pub available: Money,
    pub held: Money,
    pub locked: bool,
}

/// A balance as stored: rounded to four fractional digits.
pub open spec fn stored(m: Money) -> Money {
    rounded(m, PRECISION as nat)
}

impl Client {
    /// Both balances are representable and carry at most four fractional digits.
    pub open spec fn wf(&self) -> bool {
        &&& self.available.wf()
        &&& self.held.wf()
        &&& self.available.scale <= PRECISION
        &&& self.held.scale <= PRECISION
    }

    /// The account a client id starts with.
    pub open spec fn fresh(id: ClientId) -> Client {
        Client {
            id,
            available: Money { mantissa: 0, scale: 0 },
            held: Money { mantissa: 0, scale: 0 },
            locked: false,
        }
    }

    pub open spec fn with_available(self, v: Money) -> Client {
        Client { id: self.id, available: v, held: self.held, locked: self.locked }
    }

    pub open spec fn with_held(self, v: Money) -> Client {
        Client { id: self.id, available: self.available, held: v, locked: self.locked }
    }

    pub open spec fn with_lock(self) -> Client {
        Client { id: self.id, available: self.available, held: self.held, locked: true }
    }

    /// Adds `amount` to the available funds.
    pub open spec fn after_deposit(self, amount: Money) -> (Client, Result<(), Error>) {
        if self.locked {
            (self, Err(Error::AccountLocked))
        } else if amount.is_negative() {
            (self, Err(Error::NegativeAmount))
        } else {
            match add_outcome(self.available, amount) {
                None => (self, Err(Error::Overflow)),
                Some(v) => (self.with_available(stored(v)), Ok(())),
            }
        }
    }

    /// Takes `amount` from the available funds, if they cover it.
    pub open spec fn after_withdraw(self, amount: Money) -> (Client, Result<(), Error>) {
        let s = common_scale(amount, self.available);
        if self.locked {
            (self, Err(Error::AccountLocked))
        } else if amount.is_negative() {
            (self, Err(Error::NegativeAmount))
        } else if amount.aligned(s) > self.available.aligned(s) {
            (self, Err(Error::InsufficientFunds))
        } else {
            match sub_outcome(self.available, amount) {
                None => (self, Err(Error::Overflow)),
                Some(v) => (self.with_available(stored(v)), Ok(())),
            }
        }
    }

    /// Moves `amount` from available to held, one leg at a time: a failure
    /// on the second leg keeps the first.
    pub open spec fn after_dispute(self, amount: Money) -> (Client, Result<(), Error>) {
        if self.locked {
            (self, Err(Error::AccountLocked))
        } else if amount.is_negative() {
            (self, Err(Error::NegativeAmount))
        } else {
            match sub_outcome(self.available, amount) {
                None => (self, Err(Error::Overflow)),
                Some(v) => {
                    let c = self.with_available(stored(v));
                    match add_outcome(self.held, amount) {
                        None => (c, Err(Error::Overflow)),
                        Some(h) => (c.with_held(stored(h)), Ok(())),
                    }
                },
            }
        }
    }

    /// Moves `amount` from held back to available, one leg at a time.
    pub open spec fn after_resolve(self, amount: Money) -> (Client, Result<(), Error>) {
        if self.locked {
            (self, Err(Error::AccountLocked))
        } else if amount.is_negative() {
            (self, Err(Error::NegativeAmount))
        } else {
            match add_outcome(self.available, amount) {
                None => (self, Err(Error::Overflow)),
                Some(v) => {
                    let c = self.with_available(stored(v));
                    match sub_outcome(self.held, amount) {
                        None => (c, Err(Error::Overflow)),
                        Some(h) => (c.with_held(stored(h)), Ok(())),
                    }
                },
            }
        }
    }

    /// Locks the account, then takes `amount` from the held funds.
    pub open spec fn after_chargeback(self, amount: Money) -> (Client, Result<(), Error>) {
        if self.locked {
            (self, Err(Error::AccountLocked))
        } else if amount.is_negative() {
            (self, Err(Error::NegativeAmount))
        } else {
            let c = self.with_lock();
            match sub_outcome(self.held, amount) {
                None => (c, Err(Error::Overflow)),
                Some(h) => (c.with_held(stored(h)), Ok(())),
            }
        }
    }

    pub fn new(client_id: ClientId) -> (r: Client)
        ensures
            r == Client::fresh(client_id),
            r.wf(),
    {
        Client {
            id: client_id,
            available: Money::zero(),
            held: Money::zero(),
            locked: false,
        }
    }

    pub fn deposit(&mut self, amount: &Money) -> (r: Result<(), Error>)
        requires
            old(self).wf(),
            amount.wf(),
        ensures
            (*final(self), r) == old(self).after_deposit(*amount),
            final(self).wf(),
    {
        if self.locked {
            return Err(Error::AccountLocked);
        }
        if amount.is_sign_negative() {
            return Err(Error::NegativeAmount);
        }
        match checked_add(self.available, *amount) {
            None => Err(Error::Overflow),
            Some(val) => {
                self.available = round_dp(val, PRECISION);
                Ok(())
            },
        }
    }

    pub fn withdraw(&mut self, amount: &Money) -> (r: Result<(), Error>)
        requires
            old(self).wf(),
            amount.wf(),
        ensures
            (*final(self), r) == old(self).after_withdraw(*amount),
            final(self).wf(),
    {
        if self.locked {
            return Err(Error::AccountLocked);
        }
        if amount.is_sign_negative() {
            return Err(Error::NegativeAmount);
        }
        if greater_than(*amount, self.available) {
            return Err(Error::InsufficientFunds);
        }
        match checked_sub(self.available, *amount) {
            None => Err(Error::Overflow),
            Some(val) => {
                self.available = round_dp(val, PRECISION);
                Ok(())
            },
        }
    }

    pub fn dispute(&mut self, amount: &Money) -> (r: Result<(), Error>)
        requires
            old(self).wf(),
            amount.wf(),
        ensures
            (*final(self), r) == old(self).after_dispute(*amount),
            final(self).wf(),
    {
        if self.locked {
            return Err(Error::AccountLocked);
        }
        if amount.is_sign_negative() {
            return Err(Error::NegativeAmount);
        }
        match checked_sub(self.available, *amount) {
            None => {
                return Err(Error::Overflow);
            },
            Some(val) => {
                self.available = round_dp(val, PRECISION);
            },
        }
        match checked_add(self.held, *amount) {
            None => Err(Error::Overflow),
            Some(val) => {
                self.held = round_dp(val, PRECISION);
                Ok(())
            },
        }
    }

    pub fn resolve(&mut self, amount: &Money) -> (r: Result<(), Error>)
        requires
            old(self).wf(),
            amount.wf(),
        ensures
            (*final(self), r) == old(self).after_resolve(*amount),
            final(self).wf(),
    {
        if self.locked {
            return Err(Error::AccountLocked);
        }
        if amount.is_sign_negative() {
            return Err(Error::NegativeAmount);
        }
        match checked_add(self.available, *amount) {
            None => {
                return Err(Error::Overflow);
            },
            Some(val) => {
                self.available = round_dp(val, PRECISION);
            },
        }
        match checked_sub(self.held, *amount) {
            None => Err(Error::Overflow),
            Some(val) => {
                self.held = round_dp(val, PRECISION);
                Ok(())
            },
        }
    }

    pub fn chargeback(&mut self, amount: &Money) -> (r: Result<(), Error>)
        requires
            old(self).wf(),
            amount.wf(),
        ensures
            (*final(self), r) == old(self).after_chargeback(*amount),
            final(self).wf(),
    {
        if self.locked {
            return Err(Error::AccountLocked);
        }
        if amount.is_sign_negative() {
            return Err(Error::NegativeAmount);
        }
        self.locked = true;
        match checked_sub(self.held, *amount) {
            None => Err(Error::Overflow),
            Some(val) => {
                self.held = round_dp(val, PRECISION);
                Ok(())
            },
        }
    }
}

/// A snapshot of one account for the final report.
#[derive(Clone, Copy, Debug, PartialEq, Eq, Structural)]
pub struct ClientReport {
    pub id: ClientId,
    pub available: Money,
    pub held: Money,
    pub total: Money,
    pub locked: bool,
}

impl ClientReport {
    /// The row for `c`, or `None` where `available + held` is not representable.
    pub open spec fn of_client(c: Client) -> Option<ClientReport> {
        match add_outcome(c.available, c.held) {
            None => None,
            Some(t) => Some(
                ClientReport {
                    id: c.id,
                    available: c.available,
                    held: c.held,
                    total: t,
                    locked: c.locked,
                },
            ),
        }
    }

    pub fn new(c: &Client) -> (r: Option<ClientReport>)
        requires
            c.wf(),
        ensures
            r == ClientReport::of_client(*c),
    {
        match checked_add(c.available, c.held) {
            None => None,
            Some(total) => Some(
                ClientReport {
                    id: c.id,
                    available: c.available,
                    held: c.held,
                    total,
                    locked: c.locked,
                },
            ),
        }
    }
}

/// Every operation on a locked account fails with `AccountLocked` and leaves
/// the account as it was.
pub proof fn lemma_locked_account_is_frozen(c: Client, amount: Money)
    requires
        c.locked,
    ensures
        c.after_deposit(amount) == (c, Err::<(), Error>(Error::AccountLocked)),
        c.after_withdraw(amount) == (c, Err::<(), Error>(Error::AccountLocked)),
        c.after_dispute(amount) == (c, Err::<(), Error>(Error::AccountLocked)),
        c.after_resolve(amount) == (c, Err::<(), Error>(Error::AccountLocked)),
        c.after_chargeback(amount) == (c, Err::<(), Error>(Error::AccountLocked)),
{
}

/// Every operation with a negative amount on an open account fails with
/// `NegativeAmount` and leaves the account as it was.
pub proof fn lemma_negative_amount_is_rejected(c: Client, amount: Money)
    requires
        !c.locked,
        amount.is_negative(),
    ensures
        c.after_deposit(amount) == (c, Err::<(), Error>(Error::NegativeAmount)),
        c.after_withdraw(amount) == (c, Err::<(), Error>(Error::NegativeAmount)),
        c.after_dispute(amount) == (c, Err::<(), Error>(Error::NegativeAmount)),
        c.after_resolve(amount) == (c, Err::<(), Error>(Error::NegativeAmount)),
        c.after_chargeback(amount) == (c, Err::<(), Error>(Error::NegativeAmount)),
{
}

/// A deposit followed by a withdrawal of the same amount gives back the
/// available value it started from and leaves held funds and the lock alone,
/// for an amount of at most four fractional digits, funds that are not
/// negative, and a sum that fits.
pub proof fn lemma_deposit_then_withdraw(c: Client, amount: Money)
    requires
        c.wf(),
        !c.locked,
        c.available.at4() >= 0,
        amount.wf(),
        !amount.is_negative(),
        amount.scale <= PRECISION,
        fits96(c.available.at4() + amount.at4()),
    ensures
        ({
            let (c1, r1) = c.after_deposit(amount);
            let (c2, r2) = c1.after_withdraw(amount);
            &&& r1 is Ok
            &&& r2 is Ok
            &&& c2.available.at4() == c.available.at4()
            &&& c2.held == c.held
            &&& c2.locked == c.locked
            &&& c2.id == c.id
        }),
{
    let a = c.available;
    lemma_pow10_positive((PRECISION - amount.scale) as nat);
    assert(amount.at4() >= 0) by (nonlinear_arith)
        requires
            amount.mantissa >= 0,
            amount.at4() == amount.mantissa * pow10((PRECISION - amount.scale) as nat),
            pow10((PRECISION - amount.scale) as nat) >= 1,
    {
    }
    lemma_exact_sum_at4(a, amount);
    let v = add_outcome(a, amount).unwrap();
    let c1 = c.after_deposit(amount).0;
    assert(c1.available == v);
    lemma_compare_at4(amount, v);
    lemma_exact_difference_at4(v, amount);
}

/// A dispute followed by a resolve of the same amount puts available and
/// held back to their values, for an amount of at most four fractional
/// digits where no step overflows.
pub proof fn lemma_dispute_then_resolve(c: Client, amount: Money)
    requires
        c.wf(),
        !c.locked,
        amount.wf(),
        !amount.is_negative(),
        amount.scale <= PRECISION,
        fits96(c.available.at4()),
        fits96(c.held.at4()),
        fits96(amount.at4()),
        fits96(c.available.at4() - amount.at4()),
        fits96(c.held.at4() + amount.at4()),
    ensures
        ({
            let (c1, r1) = c.after_dispute(amount);
            let (c2, r2) = c1.after_resolve(amount);
            &&& r1 is Ok
            &&& r2 is Ok
            &&& c2.available.at4() == c.available.at4()
            &&& c2.held.at4() == c.held.at4()
            &&& c2.locked == c.locked
            &&& c2.id == c.id
        }),
{
    lemma_exact_difference_at4(c.available, amount);
    lemma_exact_sum_at4(c.held, amount);
    let c1 = c.after_dispute(amount).0;
    lemma_exact_sum_at4(c1.available, amount);
    lemma_exact_difference_at4(c1.held, amount);
}

/// A report's total is exactly available plus held when that sum fits.
pub proof fn lemma_report_total_is_sum(c: Client)
    requires
        c.wf(),
        fits96(c.available.at4()),
        fits96(c.held.at4()),
        fits96(c.available.at4() + c.held.at4()),
    ensures
        ClientReport::of_client(c) matches Some(r) && r.total.at4() == c.available.at4()
            + c.held.at4() && r.available == c.available && r.held == c.held && r.locked
            == c.locked && r.id == c.id,
{
    lemma_exact_sum_at4(c.available, c.held);
}

} // verus!
