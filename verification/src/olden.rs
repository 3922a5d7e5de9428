//! The olden token ledger: a per-account balance map kept beside the
//! registry.  Creating tokens for an account overwrites whatever balance the
//! account held before.  Moving balances between accounts is the external
//! currency collaborator's job and is deliberately not re-implemented here.

use vstd::prelude::*;

use crate::table::Table;

verus! {

/// Account balances of the olden token.
pub struct Ledger {
    pub balances: Table<u64>,
}

impl Ledger {
    /// Every account's balance is stored at most once.
    pub open spec fn wf(self) -> bool {
        self.balances.wf()
    }

    /// An empty ledger: no account holds any tokens.
    pub fn new() -> (r: Ledger)
        ensures
            r.wf(),
            r.balances@ == Map::<u64, u64>::empty(),
    {
        Ledger { balances: Table::new() }
    }

    /// Issue `amount` tokens to `caller`, replacing any balance stored for
    /// that account before.
    pub fn create_token(&mut self, caller: u64, amount: u64)
        requires
            old(self).wf(),
        ensures
            final(self).wf(),
            final(self).balances@ == old(self).balances@.insert(caller, amount),
    {
        if self.balances.contains(caller) {
            self.balances.remove(caller);
        }
        self.balances.insert(caller, amount);
    }

    /// The balance stored for `account`; accounts never issued to hold zero.
    pub fn amount_of(&self, account: u64) -> (r: u64)
        requires
            self.wf(),
        ensures
            r == if self.balances@.dom().contains(account) {
                self.balances@[account]
            } else {
                0
            },
    {
        match self.balances.get(account) {
            Some(b) => b,
            None => 0,
        }
    }
}

} // verus!
