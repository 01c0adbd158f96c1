//! The monetary ledger backing the club fees.
//!
//! Accounts are 64-bit identifiers mapped to 128-bit balances. A transfer
//! debits the payer and credits the payee atomically; with keep-alive
//! semantics it refuses to leave the payer below the configured minimum
//! balance, and without them a payer left below the minimum is reaped and
//! its remaining dust is burned.

use vstd::prelude::*;
use std::collections::HashMap;

verus! {

broadcast use vstd::std_specs::hash::group_hash_axioms;

/// Why a transfer was refused. A refused transfer changes no balance.
#[derive(Debug, Clone, Copy, PartialEq, Eq, Structural)]
pub enum LedgerError {
    /// The payer holds less than the amount to be transferred.
    InsufficientFunds,
    /// The transfer would leave a keep-alive payer below the minimum balance.
    WouldReapAccount,
    /// Crediting the payee would exceed the balance type's width.
    Overflow,
}

/// A single fungible balance per account, with a minimum balance below
/// which an account cannot be kept alive.
pub struct Ledger {
    balances: HashMap<u64, u128>,
    minimum_balance: u128,
}

/// Two ledgers agree on every balance and on the minimum balance.
pub open spec fn spec_balances_eq(a: Ledger, b: Ledger) -> bool {
    &&& b.spec_minimum_balance() == a.spec_minimum_balance()
    &&& forall|acct: u64| b.spec_balance(acct) == a.spec_balance(acct)
}

/// How balances after a successful transfer relate to those before:
/// transfers of nothing and self-transfers change nothing; otherwise the
/// amount moves from payer to payee, and a non-keep-alive payer left
/// below the minimum balance loses its dust.
pub open spec fn spec_transfer_applied(
    pre: Ledger,
    post: Ledger,
    from: u64,
    to: u64,
    amount: u128,
    keep_alive: bool,
) -> bool {
    &&& post.spec_minimum_balance() == pre.spec_minimum_balance()
    &&& if amount == 0 || from == to {
        forall|acct: u64| post.spec_balance(acct) == pre.spec_balance(acct)
    } else {
        &&& post.spec_balance(to) == pre.spec_balance(to) + amount
        &&& post.spec_balance(from) == if !keep_alive && pre.spec_balance(from) - amount
            < pre.spec_minimum_balance() {
            0u128
        } else {
            (pre.spec_balance(from) - amount) as u128
        }
        &&& forall|acct: u64|
            acct != from && acct != to ==> post.spec_balance(acct) == pre.spec_balance(acct)
    }
}

impl Ledger {
    /// The balance of `account`; absent accounts hold zero.
    pub closed spec fn spec_balance(self, account: u64) -> u128 {
        if self.balances@.contains_key(account) {
            self.balances@[account]
        } else {
            0
        }
    }

    /// The configured minimum balance of a live account.
    pub closed spec fn spec_minimum_balance(self) -> u128 {
        self.minimum_balance
    }

    /// The outcome `transfer` is owed for the given arguments: transfers of
    /// nothing and self-transfers always succeed without effect; otherwise
    /// the payer must hold the amount, a keep-alive payer must retain the
    /// minimum balance, and the payee's new balance must fit its width.
    pub open spec fn spec_transfer_result(
        self,
        from: u64,
        to: u64,
        amount: u128,
        keep_alive: bool,
    ) -> Result<(), LedgerError> {
        if amount == 0 || from == to {
            Ok(())
        } else if amount > self.spec_balance(from) {
            Err(LedgerError::InsufficientFunds)
        } else if keep_alive && self.spec_balance(from) - amount < self.spec_minimum_balance() {
            Err(LedgerError::WouldReapAccount)
        } else if self.spec_balance(to) + amount > u128::MAX {
            Err(LedgerError::Overflow)
        } else {
            Ok(())
        }
    }

    /// A ledger with no accounts.
    pub fn new(minimum_balance: u128) -> (ledger: Ledger)
        ensures
            forall|a: u64| ledger.spec_balance(a) == 0,
            ledger.spec_minimum_balance() == minimum_balance,
    {
        Ledger { balances: HashMap::new(), minimum_balance }
    }

    /// Overwrites the balance of `account`; other accounts keep theirs.
    pub fn set_balance(&mut self, account: u64, amount: u128)
        ensures
            final(self).spec_balance(account) == amount,
            forall|a: u64| a != account ==> final(self).spec_balance(a) == old(self).spec_balance(a),
            final(self).spec_minimum_balance() == old(self).spec_minimum_balance(),
    {
        self.balances.insert(account, amount);
    }

    /// The balance of `account`.
    pub fn free_balance(&self, account: u64) -> (balance: u128)
        ensures
            balance == self.spec_balance(account),
    {
        match self.balances.get(&account) {
            Some(b) => *b,
            None => 0,
        }
    }

    /// Moves `amount` from `from` to `to`, atomically: a refused transfer
    /// changes nothing. A non-keep-alive payer left below the minimum
    /// balance is reaped and its dust burned.
    pub fn transfer(&mut self, from: u64, to: u64, amount: u128, keep_alive: bool) -> (result:
        Result<(), LedgerError>)
        ensures
            result == old(self).spec_transfer_result(from, to, amount, keep_alive),
            result is Err ==> spec_balances_eq(*old(self), *final(self)),
            result is Ok ==> spec_transfer_applied(
                *old(self),
                *final(self),
                from,
                to,
                amount,
                keep_alive,
            ),
    {
        if amount == 0 || from == to {
            return Ok(());
        }
        let bal_from = self.free_balance(from);
        if amount > bal_from {
            return Err(LedgerError::InsufficientFunds);
        }
        let remaining = bal_from - amount;
        if keep_alive && remaining < self.minimum_balance {
            return Err(LedgerError::WouldReapAccount);
        }
        let bal_to = self.free_balance(to);
        if bal_to > u128::MAX - amount {
            return Err(LedgerError::Overflow);
        }
        if !keep_alive && remaining < self.minimum_balance {
            self.balances.remove(&from);
        } else {
            self.balances.insert(from, remaining);
        }
        self.balances.insert(to, bal_to + amount);
        Ok(())
    }
}

} // verus!
