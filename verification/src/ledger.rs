//! The value-transfer service: account balances in signed 128-bit
//! fixed-point, moved atomically.
//!
//! Every account has a balance, zero until value is first minted to it.
//! A transfer fails, changing nothing, when the source lacks sufficient
//! balance; no partial transfer ever happens. Balances never go negative.

use std::collections::HashMap;
use vstd::prelude::*;

use crate::errors::Error;

verus! {

broadcast use vstd::std_specs::hash::group_hash_axioms;

/// A ledger of account balances.
pub struct TokenLedger {
    balances: HashMap<u64, i128>,
}

impl TokenLedger {
    /// The balance of an account: zero for one never seen.
    pub closed spec fn bal(&self, account: u64) -> int {
        if self.balances@.contains_key(account) {
            self.balances@[account] as int
        } else {
            0
        }
    }

    /// No balance is ever negative.
    pub closed spec fn wf(&self) -> bool {
        forall|a: u64|
            self.balances@.contains_key(a) ==> 0 <= #[trigger] self.balances@[a]
    }

    /// In a well-formed ledger every balance is non-negative.
    pub proof fn lemma_nonneg(&self, account: u64)
        requires
            self.wf(),
        ensures
            self.bal(account) >= 0,
    {
    }

    /// An empty ledger: every account at zero.
    pub fn new() -> (r: TokenLedger)
        ensures
            r.wf(),
            forall|a: u64| r.bal(a) == 0,
    {
        TokenLedger { balances: HashMap::new() }
    }

    /// Reads an account's balance.
    pub fn balance_of(&self, account: u64) -> (r: i128)
        requires
            self.wf(),
        ensures
            r == self.bal(account),
    {
        match self.balances.get(&account) {
            Some(b) => *b,
            None => 0,
        }
    }

    /// Creates `amount` of new value on `account`.
    pub fn mint(&mut self, account: u64, amount: i128)
        requires
            old(self).wf(),
            0 <= amount,
            old(self).bal(account) + amount <= i128::MAX,
        ensures
            final(self).wf(),
            final(self).bal(account) == old(self).bal(account) + amount,
            forall|a: u64| a != account ==> final(self).bal(a) == old(self).bal(a),
    {
        let current = self.balance_of(account);
        self.balances.insert(account, current + amount);
    }

    /// Moves `amount` from `from` to `to`, failing atomically when `from`
    /// lacks sufficient balance.
    pub fn transfer(&mut self, from: u64, to: u64, amount: i128) -> (r: Result<
        (),
        Error,
    >)
        requires
            old(self).wf(),
            0 <= amount,
            from == to || old(self).bal(to) + amount <= i128::MAX,
        ensures
            final(self).wf(),
            r is Ok <==> old(self).bal(from) >= amount,
            r is Ok ==> forall|a: u64|
                final(self).bal(a) == old(self).bal(a) - (if a == from {
                    amount as int
                } else {
                    0
                }) + (if a == to {
                    amount as int
                } else {
                    0
                }),
            r is Err ==> *final(self) == *old(self),
            r is Err ==> r == Result::<(), Error>::Err(Error::PaymentFailed),
    {
        let from_bal = self.balance_of(from);
        if from_bal < amount {
            return Err(Error::PaymentFailed);
        }
        self.balances.insert(from, from_bal - amount);
        let to_bal = self.balance_of(to);
        self.balances.insert(to, to_bal + amount);
        Ok(())
    }
}

} // verus!
