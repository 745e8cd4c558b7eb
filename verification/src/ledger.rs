//! The fungible-currency ledger the task store draws on.
//!
//! The host's currency layer is modelled as a map from account to free
//! balance together with an existential deposit: a transfer in keep-alive
//! mode must leave the payer at or above that minimum. A transfer either
//! moves the full amount or changes nothing.

use std::collections::HashMap;
use vstd::prelude::*;

verus! {

broadcast use vstd::std_specs::hash::group_hash_axioms;

/// The two ledgers agree on every balance and on the existential deposit.
pub open spec fn ledger_unchanged(pre: Ledger, post: Ledger) -> bool {
    &&& forall|a: u64| post.balance_of(a) == pre.balance_of(a)
    &&& post.spec_existential_deposit() == pre.spec_existential_deposit()
}

/// `post` is `pre` after moving `amount` from `from` to `to` (a
/// self-transfer moves nothing).
pub open spec fn ledger_transferred(
    pre: Ledger,
    post: Ledger,
    from: u64,
    to: u64,
    amount: u64,
) -> bool {
    if from == to {
        ledger_unchanged(pre, post)
    } else {
        &&& post.balance_of(from) == pre.balance_of(from) - amount
        &&& post.balance_of(to) == pre.balance_of(to) + amount
        &&& forall|a: u64| a != from && a != to ==> post.balance_of(a) == pre.balance_of(a)
        &&& post.spec_existential_deposit() == pre.spec_existential_deposit()
    }
}

/// Account balances plus the minimum balance a payer must keep.
pub struct Ledger {
    balances: HashMap<u64, u64>,
    existential_deposit: u64,
}

impl Ledger {
    /// The free balance of `account`; accounts start at zero.
    pub closed spec fn balance_of(&self, account: u64) -> u64 {
        if self.balances@.contains_key(account) {
            self.balances@[account]
        } else {
            0
        }
    }

    /// The minimum balance a payer must keep in a keep-alive transfer.
    pub closed spec fn spec_existential_deposit(&self) -> u64 {
        self.existential_deposit
    }

    /// Whether a keep-alive transfer of `amount` from `from` to `to` can
    /// succeed: the payer can spare the amount without falling below the
    /// existential deposit, and the payee's balance does not overflow.
    pub open spec fn can_transfer_keep_alive(&self, from: u64, to: u64, amount: u64) -> bool {
        &&& self.balance_of(from) >= amount
        &&& self.balance_of(from) - amount >= self.spec_existential_deposit()
        &&& (from == to || self.balance_of(to) + amount <= u64::MAX)
    }

    /// An empty ledger with the given existential deposit.
    pub fn new(existential_deposit: u64) -> (r: Ledger)
        ensures
            forall|a: u64| r.balance_of(a) == 0,
            r.spec_existential_deposit() == existential_deposit,
    {
        Ledger { balances: HashMap::new(), existential_deposit }
    }

    /// The free balance of `account`.
    pub fn free_balance(&self, account: u64) -> (r: u64)
        ensures
            r == self.balance_of(account),
    {
        match self.balances.get(&account) {
            Some(b) => *b,
            None => 0,
        }
    }

    /// Set the free balance of `account`, as a genesis endowment would.
    pub fn set_balance(&mut self, account: u64, amount: u64)
        ensures
            final(self).balance_of(account) == amount,
            forall|a: u64| a != account ==> final(self).balance_of(a) == old(self).balance_of(a),
            final(self).spec_existential_deposit() == old(self).spec_existential_deposit(),
    {
        self.balances.insert(account, amount);
    }

    /// Move `amount` from `from` to `to`, keeping the payer alive; reports
    /// whether the transfer happened. On failure nothing changes.
    pub fn transfer_keep_alive(&mut self, from: u64, to: u64, amount: u64) -> (r: bool)
        ensures
            r == old(self).can_transfer_keep_alive(from, to, amount),
            final(self).spec_existential_deposit() == old(self).spec_existential_deposit(),
            !r ==> forall|a: u64| final(self).balance_of(a) == old(self).balance_of(a),
            r && from != to ==> {
                &&& final(self).balance_of(from) == old(self).balance_of(from) - amount
                &&& final(self).balance_of(to) == old(self).balance_of(to) + amount
                &&& forall|a: u64|
                    a != from && a != to ==> final(self).balance_of(a) == old(self).balance_of(a)
            },
            r && from == to ==> forall|a: u64|
                final(self).balance_of(a) == old(self).balance_of(a),
    {
        let from_balance = self.free_balance(from);
        if from_balance < amount {
            return false;
        }
        if from_balance - amount < self.existential_deposit {
            return false;
        }
        if from == to {
            return true;
        }
        let to_balance = self.free_balance(to);
        if to_balance > u64::MAX - amount {
            return false;
        }
        self.balances.insert(from, from_balance - amount);
        self.balances.insert(to, to_balance + amount);
        true
    }
}

} // verus!
