//! Ledger accounts: an address, a balance and a replay-protection
//! nonce.

use vstd::prelude::*;

verus! {

/// One account of the ledger the tree commits to.
#[derive(Debug, Clone, PartialEq)]
pub struct Account {
    /// Unique address of the account.
    pub address: [u8; 32],
    /// Current balance.
    pub balance: u64,
    /// Counter incremented on every outgoing transfer, preventing
    /// replays.
    pub nonce: u64,
}

impl Account {
    /// An account at the given address with the given opening balance
    /// and a nonce of zero.
    pub fn new(address: [u8; 32], initial_balance: u64) -> (a: Account)
        ensures
            a.address == address,
            a.balance == initial_balance,
            a.nonce == 0,
    {
        Account { address, balance: initial_balance, nonce: 0 }
    }

    /// Debits `amount` and counts the transfer in the nonce; an amount
    /// above the balance is refused and leaves the account unchanged.
    pub fn transfer(&mut self, amount: u64) -> (r: Result<(), String>)
        requires
            old(self).nonce < u64::MAX,
        ensures
            old(self).balance >= amount ==> (r is Ok
                && final(self).address == old(self).address
                && final(self).balance == old(self).balance - amount
                && final(self).nonce == old(self).nonce + 1),
            old(self).balance < amount ==> (r matches Err(m)
                && m@ == "Insufficient balance"@
                && *final(self) == *old(self)),
    {
        if self.balance >= amount {
            self.balance = self.balance - amount;
            self.nonce = self.nonce + 1;
            Ok(())
        } else {
            Err("Insufficient balance".to_string())
        }
    }

    /// Credits `amount`, saturating at the largest representable
    /// balance instead of overflowing.
    pub fn credit(&mut self, amount: u64)
        ensures
            final(self).address == old(self).address,
            final(self).nonce == old(self).nonce,
            final(self).balance == if old(self).balance + amount > u64::MAX {
                u64::MAX
            } else {
                (old(self).balance + amount) as u64
            },
    {
        self.balance = self.balance.saturating_add(amount);
    }
}

impl Default for Account {
    /// The account at the zero address with nothing in it.
    fn default() -> (a: Account)
        ensures
            a.address@ =~= Seq::new(32, |i: int| 0u8),
            a.balance == 0,
            a.nonce == 0,
    {
        Account { address: [0u8; 32], balance: 0, nonce: 0 }
    }
}

} // verus!
