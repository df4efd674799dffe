//! Account balances: a free amount that can be spent and a reserved amount
//! held as stake.
use vstd::prelude::*;
use crate::types::{AccountId, Balance};
use crate::vec_map::VecMap;

verus! {

#[derive(Clone, Copy, Debug, PartialEq, Eq)]
pub struct AccountData {
    pub free: Balance,
    pub reserved: Balance,
}

/// The balances of all accounts; an account never set holds nothing.
pub struct Ledger {
    accounts: VecMap<AccountId, AccountData>,
}

impl Ledger {
    pub closed spec fn wf(&self) -> bool {
        self.accounts.wf()
    }

    /// The free balance of `who`; an unknown account holds nothing.
    pub closed spec fn free_of(&self, who: AccountId) -> Balance {
        if self.accounts@.contains_key(who) {
            self.accounts@[who].free
        } else {
            0
        }
    }

    /// The reserved balance of `who`; an unknown account holds nothing.
    pub closed spec fn reserved_of(&self, who: AccountId) -> Balance {
        if self.accounts@.contains_key(who) {
            self.accounts@[who].reserved
        } else {
            0
        }
    }

    /// Whether `amount` can move from the free to the reserved balance of `who`.
    pub open spec fn can_reserve(&self, who: AccountId, amount: Balance) -> bool {
        &&& amount <= self.free_of(who)
        &&& self.reserved_of(who) + amount <= Balance::MAX
    }

    /// Whether `amount` can be paid from `from` to `to`.
    pub open spec fn can_pay(&self, from: AccountId, to: AccountId, amount: Balance) -> bool {
        &&& amount <= self.free_of(from)
        &&& (from == to || self.free_of(to) + amount <= Balance::MAX)
    }

    pub fn new() -> (r: Ledger)
        ensures
            r.wf(),
            forall|a: AccountId| r.free_of(a) == 0 && r.reserved_of(a) == 0,
    {
        Ledger { accounts: VecMap::new() }
    }

    pub fn free_balance(&self, who: AccountId) -> (r: Balance)
        requires
            self.wf(),
        ensures
            r == self.free_of(who),
    {
        match self.accounts.get(&who) {
            Some(d) => d.free,
            None => 0,
        }
    }

    pub fn reserved_balance(&self, who: AccountId) -> (r: Balance)
        requires
            self.wf(),
        ensures
            r == self.reserved_of(who),
    {
        match self.accounts.get(&who) {
            Some(d) => d.reserved,
            None => 0,
        }
    }

    /// Sets both balances of `who`, leaving every other account as it was.
    pub fn set_balance(&mut self, who: AccountId, free: Balance, reserved: Balance)
        requires
            old(self).wf(),
        ensures
            final(self).wf(),
            final(self).free_of(who) == free,
            final(self).reserved_of(who) == reserved,
            forall|a: AccountId|
                a != who ==> final(self).free_of(a) == old(self).free_of(a) && final(self).reserved_of(
                    a,
                ) == old(self).reserved_of(a),
    {
        self.accounts.insert(who, AccountData { free, reserved });
    }

    /// Moves `amount` of the free balance of `who` to its reserved balance;
    /// where that cannot be done, returns `false` and changes nothing.
    pub fn reserve(&mut self, who: AccountId, amount: Balance) -> (ok: bool)
        requires
            old(self).wf(),
        ensures
            final(self).wf(),
            ok == old(self).can_reserve(who, amount),
            !ok ==> *final(self) == *old(self),
            ok ==> final(self).free_of(who) == old(self).free_of(who) - amount,
            ok ==> final(self).reserved_of(who) == old(self).reserved_of(who) + amount,
            forall|a: AccountId|
                a != who ==> final(self).free_of(a) == old(self).free_of(a) && final(self).reserved_of(
                    a,
                ) == old(self).reserved_of(a),
    {
        let free = self.free_balance(who);
        let reserved = self.reserved_balance(who);
        if amount > free || reserved > Balance::MAX - amount {
            return false;
        }
        self.set_balance(who, free - amount, reserved + amount);
        true
    }

    /// Pays `amount` from the free balance of `from` into that of `to`;
    /// where that cannot be done, returns `false` and changes nothing.
    pub fn transfer(&mut self, from: AccountId, to: AccountId, amount: Balance) -> (ok: bool)
        requires
            old(self).wf(),
        ensures
            final(self).wf(),
            ok == old(self).can_pay(from, to, amount),
            !ok || from == to ==> *final(self) == *old(self),
            ok && from != to ==> final(self).free_of(from) == old(self).free_of(from) - amount
                && final(self).free_of(to) == old(self).free_of(to) + amount,
            forall|a: AccountId| a != from && a != to ==> final(self).free_of(a) == old(self).free_of(a),
            forall|a: AccountId| final(self).reserved_of(a) == old(self).reserved_of(a),
    {
        let from_free = self.free_balance(from);
        if amount > from_free {
            return false;
        }
        if from == to {
            return true;
        }
        let to_free = self.free_balance(to);
        if to_free > Balance::MAX - amount {
            return false;
        }
        let from_reserved = self.reserved_balance(from);
        let to_reserved = self.reserved_balance(to);
        self.set_balance(from, from_free - amount, from_reserved);
        self.set_balance(to, to_free + amount, to_reserved);
        true
    }
}

} // verus!
