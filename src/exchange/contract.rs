use vstd::prelude::*;

use crate::exchange::error::Error;
use crate::exchange::order::Address;
use crate::exchange::payoff_sides::{credit, debit};
use crate::exchange::user_balance_manager::{
    balances_in, BalanceLedger, UserBalanceManager, UserBalances,
};
use crate::table::AccountToken;

verus! {

/// The ledger after a deposit of `amount`, or why it fails.
pub open spec fn deposited(m: Map<AccountToken, UserBalances>, user: Address, token: Address, amount: i128) -> Result<
    Map<AccountToken, UserBalances>,
    Error,
> {
    let b = balances_in(m, user, token);
    if amount <= 0 {
        Err(Error::AmountMustBePositive)
    } else if b.balance + amount > i128::MAX {
        Err(Error::IncorrectPrecisionCalculation)
    } else if b.balance + amount < 0 {
        Err(Error::BalanceNotEnough)
    } else {
        Ok(m.insert(AccountToken { user, token }, UserBalances { balance: (b.balance + amount) as i128, ..b }))
    }
}

/// The ledger after a withdrawal of `amount`, or why it fails.
pub open spec fn withdrawn(m: Map<AccountToken, UserBalances>, user: Address, token: Address, amount: i128) -> Result<
    Map<AccountToken, UserBalances>,
    Error,
> {
    let b = balances_in(m, user, token);
    if amount <= 0 {
        Err(Error::AmountMustBePositive)
    } else if b.balance < amount {
        Err(Error::BalanceNotEnough)
    } else {
        Ok(m.insert(AccountToken { user, token }, UserBalances { balance: (b.balance - amount) as i128, ..b }))
    }
}

/// Credits a deposit; the token transfer in and the user's authorization
/// are the host's.
pub fn deposit(ledger: &mut BalanceLedger, user: Address, token: Address, amount: i128) -> (r: Result<
    UserBalances,
    Error,
>)
    requires
        old(ledger).wf(),
    ensures
        final(ledger).wf(),
        ({
            let b = balances_in(old(ledger)@, user, token);
            r == if amount <= 0 {
                Err(Error::AmountMustBePositive)
            } else if b.balance + amount > i128::MAX {
                Err(Error::IncorrectPrecisionCalculation)
            } else if b.balance + amount < 0 {
                Err(Error::BalanceNotEnough)
            } else {
                Ok::<UserBalances, Error>(UserBalances { balance: (b.balance + amount) as i128, ..b })
            }
        }),
        r matches Ok(nb) ==> final(ledger)@ == old(ledger)@.insert(AccountToken { user, token }, nb),
        r is Err ==> final(ledger)@ == old(ledger)@,
        match deposited(old(ledger)@, user, token, amount) {
            Ok(m) => r is Ok && final(ledger)@ == m,
            Err(e) => r == Err::<UserBalances, Error>(e),
        },
{
    if amount <= 0 {
        return Err(Error::AmountMustBePositive);
    }
    let manager = UserBalanceManager::new(user, token);
    let mut balances = manager.read_user_balance(ledger);
    balances.balance = match credit(balances.balance, amount) {
        Ok(v) => v,
        Err(e) => return Err(e),
    };
    manager.write_user_balance(ledger, &balances);
    Ok(balances)
}

/// Debits a withdrawal of `amount`; the token transfer out is the host's.
pub fn withdraw(ledger: &mut BalanceLedger, user: Address, token: Address, amount: i128) -> (r: Result<
    UserBalances,
    Error,
>)
    requires
        old(ledger).wf(),
    ensures
        final(ledger).wf(),
        ({
            let b = balances_in(old(ledger)@, user, token);
            r == if amount <= 0 {
                Err(Error::AmountMustBePositive)
            } else if b.balance < amount {
                Err(Error::BalanceNotEnough)
            } else {
                Ok::<UserBalances, Error>(UserBalances { balance: (b.balance - amount) as i128, ..b })
            }
        }),
        r matches Ok(nb) ==> final(ledger)@ == old(ledger)@.insert(AccountToken { user, token }, nb),
        r is Err ==> final(ledger)@ == old(ledger)@,
        match withdrawn(old(ledger)@, user, token, amount) {
            Ok(m) => r is Ok && final(ledger)@ == m,
            Err(e) => r == Err::<UserBalances, Error>(e),
        },
{
    if amount <= 0 {
        return Err(Error::AmountMustBePositive);
    }
    let manager = UserBalanceManager::new(user, token);
    let mut balances = manager.read_user_balance(ledger);
    if balances.balance < amount {
        return Err(Error::BalanceNotEnough);
    }
    balances.balance = match debit(balances.balance, amount) {
        Ok(v) => v,
        Err(e) => return Err(e),
    };
    manager.write_user_balance(ledger, &balances);
    Ok(balances)
}

pub fn balances(ledger: &BalanceLedger, user: Address, token: Address) -> (r: UserBalances)
    requires
        ledger.wf(),
    ensures
        r == balances_in(ledger@, user, token),
{
    UserBalanceManager::new(user, token).read_user_balance(ledger)
}

} // verus!
