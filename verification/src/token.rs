//! A fungible-token ledger: balances and allowances keyed by account
//! identity, with mint, transfer, burn and approval operations.
//!
//! The engine consumes this capability to move deposits and payouts. The
//! ledger is modelled exactly: every operation says how each account's
//! balance and each allowance changes, and the total supply never exceeds
//! `i128::MAX`, so no movement can overflow.

use vstd::prelude::*;

use crate::assoc::{assoc_get, unique_keys};
use crate::balance::{read_balance, receive_balance, spend_balance};
use crate::allowance::{read_allowance, spend_allowance, write_allowance};
use crate::errors::Error;
use crate::storage_types::{AllowanceDataKey, AllowanceValue};
use crate::sums::seq_sum;

verus! {

/// The balance held by one entry of the balance table.
pub open spec fn balance_weight(e: (u64, i128)) -> int {
    e.1 as int
}

/// The net effect on account `x` of moving `amount` from `from` to `to`.
/// Moving within one account nets to zero.
pub open spec fn moved(from: u64, to: u64, amount: int, x: u64) -> int {
    (if x == to {
        amount
    } else {
        0
    }) - (if x == from {
        amount
    } else {
        0
    })
}

/// The token ledger.
pub struct Token {
    /// The identity allowed to mint, set by `initialize`; `None` until then.
    pub admin: Option<u64>,
    /// Display precision recorded at initialization.
    pub decimal: u32,
    /// Token name recorded at initialization.
    pub name: String,
    /// Token symbol recorded at initialization.
    pub symbol: String,
    /// Balance per account; accounts without an entry hold zero.
    pub balances: Vec<(u64, i128)>,
    /// Spending grants; pairs without an entry grant zero.
    pub allowances: Vec<(AllowanceDataKey, AllowanceValue)>,
}

impl Token {
    /// The balance of account `a`; zero when `a` has no entry.
    pub open spec fn balance_of(self, a: u64) -> i128 {
        assoc_get(self.balances@, a, 0)
    }

    /// The sum of all balances.
    pub open spec fn supply(self) -> int {
        seq_sum(self.balances@, |e: (u64, i128)| balance_weight(e))
    }

    /// The allowance record granted by `from` to `spender`; a zero grant
    /// when none was recorded.
    pub open spec fn allowance_record(self, from: u64, spender: u64) -> AllowanceValue {
        assoc_get(
            self.allowances@,
            AllowanceDataKey { from, spender },
            AllowanceValue { amount: 0, expiration_ledger: 0 },
        )
    }

    /// The amount `spender` may still move out of `from`.
    pub open spec fn allowance_of(self, from: u64, spender: u64) -> i128 {
        self.allowance_record(from, spender).amount
    }

    /// The ledger's invariant: one entry per account and per grant, no
    /// negative holdings, and a total supply a single `i128` can carry.
    pub open spec fn wf(self) -> bool {
        &&& unique_keys(self.balances@)
        &&& forall|i: int|
            0 <= i < self.balances@.len() ==> (#[trigger] self.balances@[i]).1 >= 0
        &&& self.supply() <= i128::MAX as int
        &&& unique_keys(self.allowances@)
        &&& forall|i: int|
            0 <= i < self.allowances@.len() ==> (#[trigger] self.allowances@[i]).1.amount >= 0
    }

    /// The metadata fields agree.
    pub open spec fn same_meta(self, t: Token) -> bool {
        &&& t.admin == self.admin
        &&& t.decimal == self.decimal
        &&& t.name == self.name
        &&& t.symbol == self.symbol
    }
}

impl Token {
    /// A fresh, uninitialized ledger: no admin, no balances, no grants.
    pub fn new() -> (t: Token)
        ensures
            t.wf(),
            t.admin is None,
            t.decimal == 0,
            t.name@ == Seq::<char>::empty(),
            t.symbol@ == Seq::<char>::empty(),
            forall|x: u64| t.balance_of(x) == 0,
            t.supply() == 0,
            forall|f: u64, s: u64| t.allowance_of(f, s) == 0,
    {
        Token {
            admin: None,
            decimal: 0,
            name: String::new(),
            symbol: String::new(),
            balances: Vec::new(),
            allowances: Vec::new(),
        }
    }

    /// Sets the admin and the metadata, once. A second initialization is
    /// refused with `InvalidState`, a precision over 18 with `InvalidInput`.
    pub fn initialize(&mut self, admin: u64, decimal: u32, name: String, symbol: String) -> (r:
        Result<(), Error>)
        requires
            old(self).wf(),
        ensures
            final(self).wf(),
            r == if old(self).admin is Some {
                Result::<(), Error>::Err(Error::InvalidState)
            } else if decimal > 18 {
                Result::<(), Error>::Err(Error::InvalidInput)
            } else {
                Result::<(), Error>::Ok(())
            },
            r is Err ==> *final(self) == *old(self),
            r is Ok ==> {
                &&& final(self).admin == Some(admin)
                &&& final(self).decimal == decimal
                &&& final(self).name == name
                &&& final(self).symbol == symbol
                &&& final(self).balances == old(self).balances
                &&& forall|x: u64| final(self).balance_of(x) == old(self).balance_of(x)
                &&& final(self).supply() == old(self).supply()
                &&& final(self).allowances == old(self).allowances
                &&& forall|f: u64, s: u64|
                    final(self).allowance_record(f, s) == old(self).allowance_record(f, s)
            },
    {
        if self.admin.is_some() {
            return Err(Error::InvalidState);
        }
        if decimal > 18 {
            return Err(Error::InvalidInput);
        }
        self.admin = Some(admin);
        self.decimal = decimal;
        self.name = name;
        self.symbol = symbol;
        Ok(())
    }

    /// Credits freshly minted units to `to`. Only an initialized ledger
    /// mints; a negative amount is refused. The caller keeps the total
    /// supply within `i128`.
    pub fn mint(&mut self, to: u64, amount: i128) -> (r: Result<(), Error>)
        requires
            old(self).wf(),
            amount >= 0 ==> old(self).supply() + amount <= i128::MAX as int,
        ensures
            final(self).wf(),
            r == if amount < 0 {
                Result::<(), Error>::Err(Error::InvalidInput)
            } else if old(self).admin is None {
                Result::<(), Error>::Err(Error::InvalidState)
            } else {
                Result::<(), Error>::Ok(())
            },
            r is Err ==> *final(self) == *old(self),
            r is Ok ==> {
                &&& forall|x: u64|
                    final(self).balance_of(x) == if x == to {
                        old(self).balance_of(x) + amount
                    } else {
                        old(self).balance_of(x) as int
                    }
                &&& final(self).supply() == old(self).supply() + amount
                &&& final(self).allowances == old(self).allowances
                &&& final(self).same_meta(*old(self))
            },
    {
        match check_nonnegative_amount(amount) {
            Err(e) => {
                return Err(e);
            },
            Ok(()) => {},
        }
        if self.admin.is_none() {
            return Err(Error::InvalidState);
        }
        receive_balance(self, to, amount);
        Ok(())
    }

    /// The amount `spender` may still move out of `from`.
    pub fn allowance(&self, from: u64, spender: u64) -> (r: i128)
        requires
            self.wf(),
        ensures
            r == self.allowance_of(from, spender),
    {
        let value = read_allowance(self, from, spender);
        value.amount
    }

    /// Grants `spender` the right to move up to `amount` out of `from`,
    /// overwriting any earlier grant. A negative amount is refused.
    pub fn approve(&mut self, from: u64, spender: u64, amount: i128, expiration_ledger: u32) -> (r:
        Result<(), Error>)
        requires
            old(self).wf(),
        ensures
            final(self).wf(),
            r == if amount < 0 {
                Result::<(), Error>::Err(Error::InvalidInput)
            } else {
                Result::<(), Error>::Ok(())
            },
            r is Err ==> *final(self) == *old(self),
            r is Ok ==> {
                &&& forall|f: u64, s: u64|
                    final(self).allowance_record(f, s) == if f == from && s == spender {
                        AllowanceValue { amount, expiration_ledger }
                    } else {
                        old(self).allowance_record(f, s)
                    }
                &&& final(self).balances == old(self).balances
                &&& forall|x: u64| final(self).balance_of(x) == old(self).balance_of(x)
                &&& final(self).supply() == old(self).supply()
                &&& final(self).same_meta(*old(self))
            },
    {
        match check_nonnegative_amount(amount) {
            Err(e) => {
                return Err(e);
            },
            Ok(()) => {},
        }
        write_allowance(self, from, spender, amount, expiration_ledger);
        Ok(())
    }

    /// The balance held by `id`.
    pub fn balance(&self, id: u64) -> (r: i128)
        requires
            self.wf(),
        ensures
            r == self.balance_of(id),
    {
        read_balance(self, id)
    }

    /// Moves `amount` from `from` to `to`. Refused when the amount is
    /// negative or `from` holds less; a refusal changes nothing, and a
    /// success changes no other balance, no grant and not the supply.
    pub fn transfer(&mut self, from: u64, to: u64, amount: i128) -> (r: Result<(), Error>)
        requires
            old(self).wf(),
        ensures
            final(self).wf(),
            r == if amount < 0 {
                Result::<(), Error>::Err(Error::InvalidInput)
            } else if old(self).balance_of(from) < amount {
                Result::<(), Error>::Err(Error::InsufficientFunds)
            } else {
                Result::<(), Error>::Ok(())
            },
            r is Err ==> *final(self) == *old(self),
            r is Ok ==> {
                &&& forall|x: u64|
                    final(self).balance_of(x) == old(self).balance_of(x) + moved(
                        from,
                        to,
                        amount as int,
                        x,
                    )
                &&& final(self).supply() == old(self).supply()
                &&& final(self).allowances == old(self).allowances
                &&& final(self).same_meta(*old(self))
            },
    {
        match check_nonnegative_amount(amount) {
            Err(e) => {
                return Err(e);
            },
            Ok(()) => {},
        }
        match spend_balance(self, from, amount) {
            Err(e) => {
                return Err(e);
            },
            Ok(()) => {},
        }
        receive_balance(self, to, amount);
        Ok(())
    }

    /// Moves `amount` from `from` to `to` on behalf of `spender`, consuming
    /// that much of the grant from `from` to `spender`. All checks precede
    /// any change: a refusal leaves balances and grants as they were.
    pub fn transfer_from(&mut self, spender: u64, from: u64, to: u64, amount: i128) -> (r: Result<
        (),
        Error,
    >)
        requires
            old(self).wf(),
        ensures
            final(self).wf(),
            r == if amount < 0 {
                Result::<(), Error>::Err(Error::InvalidInput)
            } else if old(self).allowance_of(from, spender) < amount {
                Result::<(), Error>::Err(Error::InsufficientAllowance)
            } else if old(self).balance_of(from) < amount {
                Result::<(), Error>::Err(Error::InsufficientFunds)
            } else {
                Result::<(), Error>::Ok(())
            },
            r is Err ==> *final(self) == *old(self),
            r is Ok ==> {
                &&& forall|x: u64|
                    final(self).balance_of(x) == old(self).balance_of(x) + moved(
                        from,
                        to,
                        amount as int,
                        x,
                    )
                &&& final(self).supply() == old(self).supply()
                &&& forall|f: u64, s: u64|
                    final(self).allowance_record(f, s) == if f == from && s == spender {
                        AllowanceValue {
                            amount: (old(self).allowance_of(from, spender) - amount) as i128,
                            expiration_ledger: old(self).allowance_record(
                                from,
                                spender,
                            ).expiration_ledger,
                        }
                    } else {
                        old(self).allowance_record(f, s)
                    }
                &&& final(self).same_meta(*old(self))
            },
    {
        match check_nonnegative_amount(amount) {
            Err(e) => {
                return Err(e);
            },
            Ok(()) => {},
        }
        let granted = self.allowance(from, spender);
        if granted < amount {
            return Err(Error::InsufficientAllowance);
        }
        let held = self.balance(from);
        if held < amount {
            return Err(Error::InsufficientFunds);
        }
        match spend_allowance(self, from, spender, amount) {
            Err(_) => {
                proof {
                    assert(false);
                }
                return Err(Error::InsufficientAllowance);
            },
            Ok(()) => {},
        }
        let ghost mid = *self;
        match spend_balance(self, from, amount) {
            Err(_) => {
                proof {
                    assert(false);
                }
                return Err(Error::InsufficientFunds);
            },
            Ok(()) => {},
        }
        receive_balance(self, to, amount);
        proof {
            assert forall|f: u64, s: u64|
                self.allowance_record(f, s) == (if f == from && s == spender {
                    AllowanceValue {
                        amount: (old(self).allowance_of(from, spender) - amount) as i128,
                        expiration_ledger: old(self).allowance_record(
                            from,
                            spender,
                        ).expiration_ledger,
                    }
                } else {
                    old(self).allowance_record(f, s)
                }) by {
                assert(self.allowances == mid.allowances);
                assert(self.allowance_record(f, s) == mid.allowance_record(f, s));
            }
        }
        Ok(())
    }

    /// Destroys `amount` units held by `from`, shrinking the supply.
    pub fn burn(&mut self, from: u64, amount: i128) -> (r: Result<(), Error>)
        requires
            old(self).wf(),
        ensures
            final(self).wf(),
            r == if amount < 0 {
                Result::<(), Error>::Err(Error::InvalidInput)
            } else if old(self).balance_of(from) < amount {
                Result::<(), Error>::Err(Error::InsufficientFunds)
            } else {
                Result::<(), Error>::Ok(())
            },
            r is Err ==> *final(self) == *old(self),
            r is Ok ==> {
                &&& forall|x: u64|
                    final(self).balance_of(x) == if x == from {
                        old(self).balance_of(x) - amount
                    } else {
                        old(self).balance_of(x) as int
                    }
                &&& final(self).supply() == old(self).supply() - amount
                &&& final(self).allowances == old(self).allowances
                &&& final(self).same_meta(*old(self))
            },
    {
        match check_nonnegative_amount(amount) {
            Err(e) => {
                return Err(e);
            },
            Ok(()) => {},
        }
        spend_balance(self, from, amount)
    }

    /// Destroys `amount` units held by `from` on behalf of `spender`,
    /// consuming that much of the grant. All checks precede any change.
    pub fn burn_from(&mut self, spender: u64, from: u64, amount: i128) -> (r: Result<(), Error>)
        requires
            old(self).wf(),
        ensures
            final(self).wf(),
            r == if amount < 0 {
                Result::<(), Error>::Err(Error::InvalidInput)
            } else if old(self).allowance_of(from, spender) < amount {
                Result::<(), Error>::Err(Error::InsufficientAllowance)
            } else if old(self).balance_of(from) < amount {
                Result::<(), Error>::Err(Error::InsufficientFunds)
            } else {
                Result::<(), Error>::Ok(())
            },
            r is Err ==> *final(self) == *old(self),
            r is Ok ==> {
                &&& forall|x: u64|
                    final(self).balance_of(x) == if x == from {
                        old(self).balance_of(x) - amount
                    } else {
                        old(self).balance_of(x) as int
                    }
                &&& final(self).supply() == old(self).supply() - amount
                &&& forall|f: u64, s: u64|
                    final(self).allowance_record(f, s) == if f == from && s == spender {
                        AllowanceValue {
                            amount: (old(self).allowance_of(from, spender) - amount) as i128,
                            expiration_ledger: old(self).allowance_record(
                                from,
                                spender,
                            ).expiration_ledger,
                        }
                    } else {
                        old(self).allowance_record(f, s)
                    }
                &&& final(self).same_meta(*old(self))
            },
    {
        match check_nonnegative_amount(amount) {
            Err(e) => {
                return Err(e);
            },
            Ok(()) => {},
        }
        let granted = self.allowance(from, spender);
        if granted < amount {
            return Err(Error::InsufficientAllowance);
        }
        let held = self.balance(from);
        if held < amount {
            return Err(Error::InsufficientFunds);
        }
        match spend_allowance(self, from, spender, amount) {
            Err(_) => {
                proof {
                    assert(false);
                }
                return Err(Error::InsufficientAllowance);
            },
            Ok(()) => {},
        }
        let ghost mid = *self;
        match spend_balance(self, from, amount) {
            Err(_) => {
                proof {
                    assert(false);
                }
                return Err(Error::InsufficientFunds);
            },
            Ok(()) => {},
        }
        proof {
            assert forall|f: u64, s: u64|
                self.allowance_record(f, s) == (if f == from && s == spender {
                    AllowanceValue {
                        amount: (old(self).allowance_of(from, spender) - amount) as i128,
                        expiration_ledger: old(self).allowance_record(
                            from,
                            spender,
                        ).expiration_ledger,
                    }
                } else {
                    old(self).allowance_record(f, s)
                }) by {
                assert(self.allowances == mid.allowances);
                assert(self.allowance_record(f, s) == mid.allowance_record(f, s));
            }
        }
        Ok(())
    }

    /// The sum of all balances, which `mint` may not push past `i128::MAX`.
    pub fn total_supply(&self) -> (r: i128)
        requires
            self.wf(),
        ensures
            r == self.supply(),
    {
        let ghost w = |e: (u64, i128)| balance_weight(e);
        let n: usize = self.balances.len();
        proof {
            crate::sums::lemma_seq_sum_nonneg(self.balances@, w);
        }
        let mut total: i128 = 0;
        let mut i: usize = 0;
        while i < n
            invariant
                self.wf(),
                w == (|e: (u64, i128)| balance_weight(e)),
                n == self.balances@.len(),
                0 <= i <= n,
                total == crate::sums::seq_sum(self.balances@.take(i as int), w),
                0 <= total <= self.supply(),
            decreases n - i,
        {
            proof {
                crate::sums::lemma_seq_sum_take_step(self.balances@, w, i as int);
                crate::sums::lemma_seq_sum_take_le(self.balances@, w, i + 1);
                crate::sums::lemma_seq_sum_nonneg(self.balances@.take(i + 1), w);
            }
            let e: (u64, i128) = self.balances[i];
            total = total + e.1;
            i += 1;
        }
        proof {
            crate::sums::lemma_seq_sum_take_all(self.balances@, w);
        }
        total
    }

    /// The display precision recorded at initialization.
    pub fn decimals(&self) -> (r: u32)
        ensures
            r == self.decimal,
    {
        self.decimal
    }

    /// The token name recorded at initialization.
    pub fn name(&self) -> (r: String)
        ensures
            r@ == self.name@,
    {
        self.name.clone()
    }

    /// The token symbol recorded at initialization.
    pub fn symbol(&self) -> (r: String)
        ensures
            r@ == self.symbol@,
    {
        self.symbol.clone()
    }
}

/// A negative amount is refused before any state is read.
pub fn check_nonnegative_amount(amount: i128) -> (r: Result<(), Error>)
    ensures
        r == if amount >= 0 {
            Result::<(), Error>::Ok(())
        } else {
            Result::<(), Error>::Err(Error::InvalidInput)
        },
{
    if amount < 0 {
        Err(Error::InvalidInput)
    } else {
        Ok(())
    }
}

} // verus!
