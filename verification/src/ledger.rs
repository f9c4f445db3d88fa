//! The ledger of the parent: the balance of each account and the total that
//! is locked on the child ledger's behalf.
use vstd::prelude::*;
use std::collections::HashMap;
use crate::primitives::{AccountId, Amount};

verus! {

/// The model of a `Ledger`.
pub struct LedgerView {
    pub balances: Map<AccountId, Amount>,
    pub total_deposit: Amount,
}

impl LedgerView {
    /// The balance of `account`: 0 where the ledger holds none for it.
    pub open spec fn balance(self, account: AccountId) -> Amount {
        if self.balances.contains_key(account) {
            self.balances[account]
        } else {
            0
        }
    }

    /// The ledger after `account`'s balance is set to `amount`.
    pub open spec fn with_balance(self, account: AccountId, amount: Amount) -> LedgerView {
        LedgerView { balances: self.balances.insert(account, amount), ..self }
    }

    /// The ledger after the total deposit is set to `amount`.
    pub open spec fn with_total_deposit(self, amount: Amount) -> LedgerView {
        LedgerView { total_deposit: amount, ..self }
    }
}

/// Balances and the total deposit.
#[derive(Debug, PartialEq, Eq)]
pub struct Ledger {
    balances: HashMap<AccountId, Amount>,
    total_deposit: Amount,
}

impl View for Ledger {
    type V = LedgerView;

    closed spec fn view(&self) -> LedgerView {
        LedgerView { balances: self.balances@, total_deposit: self.total_deposit }
    }
}

impl Clone for Ledger {
    fn clone(&self) -> (copy: Self)
        ensures
            copy@ == self@,
    {
        Ledger { balances: self.balances.clone(), total_deposit: self.total_deposit }
    }
}

impl Ledger {
    /// A ledger on which no account holds anything and `total_deposit` is
    /// locked.
    pub fn new(total_deposit: Amount) -> (ledger: Ledger)
        ensures
            ledger@ == (LedgerView { balances: Map::empty(), total_deposit }),
    {
        Ledger { balances: HashMap::new(), total_deposit }
    }

    /// The balance of `account`.
    pub fn get_balance(&self, account: AccountId) -> (amount: Amount)
        ensures
            amount == self@.balance(account),
    {
        match self.balances.get(&account) {
            Some(amount) => *amount,
            None => 0,
        }
    }

    /// Sets the balance of `account`.
    pub fn set_balance(&mut self, account: AccountId, amount: Amount)
        ensures
            final(self)@ == old(self)@.with_balance(account, amount),
    {
        self.balances.insert(account, amount);
    }

    /// The total that is locked on the child ledger's behalf.
    pub fn get_total_deposit(&self) -> (amount: Amount)
        ensures
            amount == self@.total_deposit,
    {
        self.total_deposit
    }

    /// Sets the total that is locked on the child ledger's behalf.
    pub fn set_total_deposit(&mut self, amount: Amount)
        ensures
            final(self)@ == old(self)@.with_total_deposit(amount),
    {
        self.total_deposit = amount;
    }
}

} // verus!
