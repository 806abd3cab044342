use vstd::prelude::*;

use crate::custody::asset_manager::AssetManager;
use crate::custody::error::Error;
use crate::custody::storage_types::{balances_in, read_balances, UserBalances, WithdrawData, WithdrawStatus};
use crate::custody::trade_upload::{batch_swapped, lemma_batch_prefix_fails, TradeUploadData};
use crate::exchange::order::Address;
use crate::table::{AccountToken, UserKeySlot};

verus! {

/// A message and signature to be checked against a user's announced key.
#[derive(Debug, Clone)]
pub struct ValidateUserSignatureData {
    pub user: Address,
    pub key_id: u32,
    pub message: Vec<u8>,
    pub signature: [u8; 64],
}

/// The operator's decision on a withdraw request.
#[derive(Debug, Clone, Copy, PartialEq, Eq, Structural)]
pub enum OperatorWithdrawStatus {
    Approve,
    Reject,
}

/// A withdraw decision, naming the request it settles.
#[derive(Debug, Clone, Copy, PartialEq, Eq, Structural)]
pub struct ExecutionWithdrawData {
    pub id: u64,
    pub user: Address,
    pub token: Address,
    pub amount: i128,
    pub execution_status: OperatorWithdrawStatus,
}

/// What the operator may submit.
#[derive(Debug, Clone)]
pub enum OperatorAction {
    ValidateUserSignature(ValidateUserSignatureData),
    ExecuteWithdraw(ExecutionWithdrawData),
    TradeUpload(TradeUploadData),
}

/// The balances a decision leaves the requester with, or why it cannot be
/// applied.
pub open spec fn decided_balances(b: UserBalances, d: ExecutionWithdrawData) -> Result<UserBalances, Error> {
    match d.execution_status {
        OperatorWithdrawStatus::Approve => if b.balance_on_withdraw < d.amount {
            Err(Error::ErrBalanceNotEnough)
        } else if b.balance_on_withdraw - d.amount > i128::MAX {
            Err(Error::ErrOverflow)
        } else {
            Ok(UserBalances { balance_on_withdraw: (b.balance_on_withdraw - d.amount) as i128, ..b })
        },
        OperatorWithdrawStatus::Reject => if b.balance_on_withdraw < d.amount {
            Err(Error::ErrBalanceNotEnough)
        } else if b.balance_on_withdraw - d.amount > i128::MAX {
            Err(Error::ErrOverflow)
        } else if b.balance + d.amount > i128::MAX || b.balance + d.amount < 0 {
            Err(Error::ErrOverflow)
        } else {
            Ok(
                UserBalances {
                    balance: (b.balance + d.amount) as i128,
                    balance_on_withdraw: (b.balance_on_withdraw - d.amount) as i128,
                },
            )
        },
    }
}

/// What settling `d` against the custody state `s` answers.
pub open spec fn withdraw_decision_result(s: AssetManager, d: ExecutionWithdrawData) -> Result<(), Error> {
    let reqs = s.withdraw_requests@;
    let b = balances_in(s.balances@, d.user, d.token);
    if !reqs.contains_key(d.id) {
        Err(Error::ErrWithdrawDataNotExist)
    } else if reqs[d.id].status != WithdrawStatus::Requested {
        Err(Error::ErrWithdrawRequestAlreadyProcessed)
    } else if !(reqs[d.id].user == d.user && reqs[d.id].token == d.token && reqs[d.id].amount
        == d.amount) {
        Err(Error::ErrWithdrawRequestDataMismatch)
    } else {
        match decided_balances(b, d) {
            Ok(_) => Ok(()),
            Err(e) => Err(e),
        }
    }
}

/// `new` is `old` with the decision `d` applied: the requester's balances
/// as decided, and the request marked executed or rejected.
pub open spec fn withdraw_decided(old: AssetManager, new: AssetManager, d: ExecutionWithdrawData) -> bool {
    let b = balances_in(old.balances@, d.user, d.token);
    &&& new.balances@ == old.balances@.insert(
        AccountToken { user: d.user, token: d.token },
        decided_balances(b, d)->Ok_0,
    )
    &&& new.withdraw_requests@ == old.withdraw_requests@.insert(
        d.id,
        WithdrawData {
            status: match d.execution_status {
                OperatorWithdrawStatus::Approve => WithdrawStatus::Executed,
                OperatorWithdrawStatus::Reject => WithdrawStatus::Rejected,
            },
            ..old.withdraw_requests@[d.id]
        },
    )
    &&& new.tokens == old.tokens
    &&& new.pairs == old.pairs
    &&& new.keys == old.keys
    &&& new.roles == old.roles
    &&& new.withdraw_id == old.withdraw_id
    &&& new.batch_id == old.batch_id
}

/// What applying the batch `t` to `s` gives: the balances after all its
/// pairs, or the error that stops it.
pub open spec fn batch_result(s: AssetManager, t: TradeUploadData) -> Result<
    Map<AccountToken, UserBalances>,
    Error,
> {
    match s.roles {
        None => Err(Error::ErrNotInitialized),
        Some(roles) => if t.batch_id != s.batch_id {
            Err(Error::ErrBatchIdNotMatch)
        } else {
            match batch_swapped(s.balances@, t.trades@, s.pairs, roles.fee_collector) {
                Err(e) => Err(e),
                Ok(m) => if s.batch_id == u64::MAX {
                    Err(Error::ErrOverflow)
                } else {
                    Ok(m)
                },
            }
        },
    }
}

/// `new` is `old` with a batch applied that left the balances `m`: the
/// batch id moved on by one, nothing else changed.
pub open spec fn batch_applied(old: AssetManager, new: AssetManager, m: Map<AccountToken, UserBalances>) -> bool {
    &&& new.balances@ == m
    &&& new.batch_id == old.batch_id + 1
    &&& new.tokens == old.tokens
    &&& new.pairs == old.pairs
    &&& new.keys == old.keys
    &&& new.roles == old.roles
    &&& new.withdraw_requests == old.withdraw_requests
    &&& new.withdraw_id == old.withdraw_id
}

impl AssetManager {
    /// Settles withdraw request `data.id`: an approval releases the reserve
    /// (the host then transfers the tokens out), a rejection returns it to
    /// the balance. A request is settled once, and only as it was made.
    pub fn process_withdraw_request(&mut self, data: ExecutionWithdrawData) -> (r: Result<(), Error>)
        requires
            old(self).wf(),
        ensures
            final(self).wf(),
            r is Err ==> *final(self) == *old(self),
            r == withdraw_decision_result(*old(self), data),
            r is Ok ==> withdraw_decided(*old(self), *final(self), data),
    {
        let ExecutionWithdrawData { id, user, token, amount, execution_status } = data;
        let mut request = match self.withdraw_requests.get(&id) {
            Some(w) => w,
            None => return Err(Error::ErrWithdrawDataNotExist),
        };
        if request.status != WithdrawStatus::Requested {
            return Err(Error::ErrWithdrawRequestAlreadyProcessed);
        }
        if !(request.user == user && request.token == token && request.amount == amount) {
            return Err(Error::ErrWithdrawRequestDataMismatch);
        }
        let mut balances = read_balances(&self.balances, user, token);
        if balances.balance_on_withdraw < amount {
            return Err(Error::ErrBalanceNotEnough);
        }
        let on_withdraw = match balances.balance_on_withdraw.checked_sub(amount) {
            Some(v) => v,
            None => return Err(Error::ErrOverflow),
        };
        match execution_status {
            OperatorWithdrawStatus::Approve => {
                balances.balance_on_withdraw = on_withdraw;
                request.status = WithdrawStatus::Executed;
            },
            OperatorWithdrawStatus::Reject => {
                let nb = match balances.balance.checked_add(amount) {
                    Some(v) => if v < 0 {
                        return Err(Error::ErrOverflow);
                    } else {
                        v
                    },
                    None => return Err(Error::ErrOverflow),
                };
                request.status = WithdrawStatus::Rejected;
                balances.balance_on_withdraw = on_withdraw;
                balances.balance = nb;
            },
        }
        self.balances.set(AccountToken { user, token }, balances);
        self.withdraw_requests.set(id, request);
        Ok(())
    }

    /// Applies a trade batch carrying the expected batch id, pair by pair,
    /// and advances the id. The signatures are the host's to check
    /// beforehand.
    pub fn process_trades_batch(&mut self, trade_data: &TradeUploadData) -> (r: Result<(), Error>)
        requires
            old(self).wf(),
        ensures
            final(self).wf(),
            match batch_result(*old(self), *trade_data) {
                Ok(m) => r is Ok && batch_applied(*old(self), *final(self), m),
                Err(e) => r == Err::<(), Error>(e) && *final(self) == *old(self),
            },
    {
        let fee_collector = match self.roles {
            Some(x) => x.fee_collector,
            None => return Err(Error::ErrNotInitialized),
        };
        if trade_data.batch_id != self.batch_id {
            return Err(Error::ErrBatchIdNotMatch);
        }
        let ghost start = self.balances@;
        let mut working = self.balances.copy_table();
        let trades = &trade_data.trades;
        let mut i: usize = 0;
        while i < trades.len()
            invariant
                0 <= i <= trades@.len(),
                trades@ == trade_data.trades@,
                self.wf(),
                working.wf(),
                start == self.balances@,
                *self == *old(self),
                old(self).roles is Some,
                trade_data.batch_id == old(self).batch_id,
                fee_collector == old(self).roles->Some_0.fee_collector,
                self.pairs.wf(),
                batch_swapped(start, trades@.take(i as int), self.pairs, fee_collector) == Ok::<
                    Map<AccountToken, UserBalances>,
                    Error,
                >(working@),
            decreases trades@.len() - i,
        {
            proof {
                assert(trades@.take(i + 1).drop_last() == trades@.take(i as int));
                assert(trades@.take(i + 1).last() == trades@[i as int]);
                assert(batch_swapped(start, trades@.take(i + 1), self.pairs, fee_collector)
                    == crate::custody::trade_upload::pair_swapped(
                    working@,
                    trades@[i as int],
                    self.pairs,
                    fee_collector,
                ));
                lemma_batch_prefix_fails(start, trades@, self.pairs, fee_collector, i + 1);
            }
            match trades[i].execute_pair_swap(&mut working, &self.pairs, fee_collector) {
                Ok(()) => {},
                Err(e) => return Err(e),
            }
            i += 1;
        }
        proof {
            assert(trades@.take(i as int) == trades@);
        }
        if self.batch_id == u64::MAX {
            return Err(Error::ErrOverflow);
        }
        proof {
            crate::custody::trade_upload::lemma_batch_nonneg(start, trades@, self.pairs, fee_collector);
        }
        self.balances = working;
        self.batch_id = self.batch_id + 1;
        Ok(())
    }

    /// Carries out an operator action; the operator's authorization and the
    /// signature checks are the host's. Checking a signature here only
    /// requires the key it is checked against.
    pub fn execute_action(&mut self, action: &OperatorAction) -> (r: Result<(), Error>)
        requires
            old(self).wf(),
        ensures
            final(self).wf(),
            old(self).roles is None ==> r == Err::<(), Error>(Error::ErrNotInitialized) && *final(self)
                == *old(self),
            old(self).roles is Some ==> match *action {
                OperatorAction::ValidateUserSignature(d) => *final(self) == *old(self) && r == if old(
                    self,
                ).keys@.contains_key(UserKeySlot { user: d.user, key_id: d.key_id }) {
                    Ok(())
                } else {
                    Err::<(), Error>(Error::ErrNoUserPublicKeyExist)
                },
                OperatorAction::ExecuteWithdraw(d) => r == withdraw_decision_result(*old(self), d) && (r is Ok
                    ==> withdraw_decided(*old(self), *final(self), d)) && (r is Err ==> *final(self)
                    == *old(self)),
                OperatorAction::TradeUpload(t) => match batch_result(*old(self), t) {
                    Ok(m) => r is Ok && batch_applied(*old(self), *final(self), m),
                    Err(e) => r == Err::<(), Error>(e) && *final(self) == *old(self),
                },
            },
    {
        if self.roles.is_none() {
            return Err(Error::ErrNotInitialized);
        }
        match action {
            OperatorAction::ValidateUserSignature(data) => {
                match self.get_user_key(data.user, data.key_id) {
                    Ok(_) => Ok(()),
                    Err(e) => Err(e),
                }
            },
            OperatorAction::ExecuteWithdraw(data) => self.process_withdraw_request(*data),
            OperatorAction::TradeUpload(data) => self.process_trades_batch(data),
        }
    }
}

} // verus!
