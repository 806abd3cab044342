use vstd::prelude::*;

use crate::exchange::order::Address;
use crate::table::{AccountToken, Table};

verus! {

/// A user's holding of one token: what it can spend, and what its open
/// orders hold back.
#[derive(Debug, Clone, Copy, PartialEq, Eq, Structural)]
pub struct UserBalances {
    pub balance: i128,
    pub balance_in_trading: i128,
}

/// The balances of every user in every token; a pair never written holds
/// nothing.
pub type BalanceLedger = Table<AccountToken, UserBalances>;

pub open spec fn zero_balances() -> UserBalances {
    UserBalances { balance: 0, balance_in_trading: 0 }
}

/// What `user` holds of `token` in the ledger view `m`.
pub open spec fn balances_in(m: Map<AccountToken, UserBalances>, user: Address, token: Address) -> UserBalances {
    let k = AccountToken { user, token };
    if m.contains_key(k) {
        m[k]
    } else {
        zero_balances()
    }
}

/// The record of one user in one token.
#[derive(Debug, Clone, Copy)]
pub struct UserBalanceManager {
    pub user: Address,
    pub token: Address,
}

impl UserBalanceManager {
    pub fn new(user: Address, token: Address) -> (r: Self)
        ensures
            r.user == user,
            r.token == token,
    {
        Self { user, token }
    }

    pub fn read_user_balance(&self, ledger: &BalanceLedger) -> (r: UserBalances)
        requires
            ledger.wf(),
        ensures
            r == balances_in(ledger@, self.user, self.token),
    {
        match ledger.get(&AccountToken { user: self.user, token: self.token }) {
            Some(b) => b,
            None => UserBalances { balance: 0, balance_in_trading: 0 },
        }
    }

    pub fn write_user_balance(&self, ledger: &mut BalanceLedger, balances: &UserBalances)
        requires
            old(ledger).wf(),
        ensures
            final(ledger).wf(),
            final(ledger)@ == old(ledger)@.insert(
                AccountToken { user: self.user, token: self.token },
                *balances,
            ),
    {
        ledger.set(AccountToken { user: self.user, token: self.token }, *balances);
    }
}

} // verus!
