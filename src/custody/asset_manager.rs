use vstd::prelude::*;

use crate::custody::error::Error;
use crate::custody::storage_types::{
    balances_in, pair_rewrite, read_balances, CustodyLedger, ListingStatus, PairRegistry,
    PairStorageInfo, UserBalances, WithdrawData, WithdrawRequestManager, WithdrawStatus,
};
use crate::custody::trade_upload::ledger_nonneg;
use crate::exchange::order::Address;
use crate::table::{AccountToken, Table, UserKeySlot};

verus! {

/// The roles fixed at initialization.
#[derive(Debug, Clone, Copy, PartialEq, Eq, Structural)]
pub struct Roles {
    pub owner: Address,
    pub operator_manager: Address,
    pub fee_collector: Address,
}

/// The state of the custody contract.
#[derive(Debug)]
pub struct AssetManager {
    pub roles: Option<Roles>,
    /// The id the next withdraw request receives.
    pub withdraw_id: u64,
    /// The id the next trade batch must carry.
    pub batch_id: u64,
    pub tokens: Table<u64, ListingStatus>,
    pub pairs: PairRegistry,
    pub balances: CustodyLedger,
    pub withdraw_requests: Table<u64, WithdrawData>,
    pub keys: Table<UserKeySlot, [u8; 32]>,
}

/// What announcing a key for `slot` gives: a slot is written once.
pub open spec fn announce_result(keys: Map<UserKeySlot, [u8; 32]>, slot: UserKeySlot) -> Result<(), Error> {
    if keys.contains_key(slot) {
        Err(Error::ErrPublicKeyAlreadyExist)
    } else {
        Ok(())
    }
}

/// What setting `token` to `status` gives: it must differ from the stored
/// status.
pub open spec fn token_status_result(
    initialized: bool,
    tokens: Map<u64, ListingStatus>,
    token: Address,
    status: ListingStatus,
) -> Result<(), Error> {
    if !initialized {
        Err(Error::ErrNotInitialized)
    } else if tokens.contains_key(token) && tokens[token] == status {
        Err(Error::ErrSameValueStored)
    } else {
        Ok(())
    }
}

impl AssetManager {
    pub open spec fn wf(&self) -> bool {
        &&& self.tokens.wf()
        &&& self.pairs.wf()
        &&& self.balances.wf()
        &&& self.withdraw_requests.wf()
        &&& self.keys.wf()
        &&& forall|id: u64|
            #[trigger] self.withdraw_requests@.contains_key(id) ==> 1 <= id < self.withdraw_id
        &&& ledger_nonneg(self.balances@)
        &&& forall|id: u64|
            #[trigger] self.withdraw_requests@.contains_key(id) ==> self.withdraw_requests@[id].amount > 0
        &&& (self.roles is None ==> self.withdraw_id == 0)
        &&& (self.roles is Some ==> self.withdraw_id >= 1)
    }

    /// `token` is listed.
    pub open spec fn token_listed(&self, token: Address) -> bool {
        self.tokens@.contains_key(token) && self.tokens@[token] == ListingStatus::Listed
    }

    /// The contract before initialization: nothing stored.
    pub fn new() -> (r: Self)
        ensures
            r.wf(),
            r.roles is None,
            r.withdraw_id == 0,
            r.batch_id == 0,
            r.tokens@ == Map::<u64, ListingStatus>::empty(),
            forall|s: Seq<char>| r.pairs.lookup(s) is None,
            r.balances@ == Map::<AccountToken, UserBalances>::empty(),
            r.withdraw_requests@ == Map::<u64, WithdrawData>::empty(),
            r.keys@ == Map::<UserKeySlot, [u8; 32]>::empty(),
    {
        AssetManager {
            roles: None,
            withdraw_id: 0,
            batch_id: 0,
            tokens: Table::new(),
            pairs: PairRegistry::new(),
            balances: Table::new(),
            withdraw_requests: Table::new(),
            keys: Table::new(),
        }
    }

    /// Fixes the three roles once; both counters start at 1.
    pub fn initialize(&mut self, owner: Address, operator_manager: Address, fee_collector: Address) -> (r:
        Result<(), Error>)
        requires
            old(self).wf(),
        ensures
            final(self).wf(),
            old(self).roles is Some ==> r == Err::<(), Error>(Error::ErrAlreadyInitialized)
                && *final(self) == *old(self),
            old(self).roles is None ==> r is Ok && final(self).roles == Some(
                Roles { owner, operator_manager, fee_collector },
            ) && final(self).withdraw_id == 1 && final(self).batch_id == 1 && final(self).tokens
                == old(self).tokens && final(self).pairs == old(self).pairs && final(self).balances
                == old(self).balances && final(self).withdraw_requests == old(self).withdraw_requests
                && final(self).keys == old(self).keys,
    {
        if self.roles.is_some() {
            return Err(Error::ErrAlreadyInitialized);
        }
        self.roles = Some(Roles { owner, operator_manager, fee_collector });
        self.withdraw_id = 1;
        self.batch_id = 1;
        Ok(())
    }

    pub fn owner(&self) -> (r: Result<Address, Error>)
        ensures
            r == match self.roles {
                Some(x) => Ok::<Address, Error>(x.owner),
                None => Err(Error::ErrNotInitialized),
            },
    {
        match self.roles {
            Some(x) => Ok(x.owner),
            None => Err(Error::ErrNotInitialized),
        }
    }

    pub fn operator_manager(&self) -> (r: Result<Address, Error>)
        ensures
            r == match self.roles {
                Some(x) => Ok::<Address, Error>(x.operator_manager),
                None => Err(Error::ErrNotInitialized),
            },
    {
        match self.roles {
            Some(x) => Ok(x.operator_manager),
            None => Err(Error::ErrNotInitialized),
        }
    }

    pub fn fee_collector(&self) -> (r: Result<Address, Error>)
        ensures
            r == match self.roles {
                Some(x) => Ok::<Address, Error>(x.fee_collector),
                None => Err(Error::ErrNotInitialized),
            },
    {
        match self.roles {
            Some(x) => Ok(x.fee_collector),
            None => Err(Error::ErrNotInitialized),
        }
    }

    pub fn is_token_listed(&self, token: Address) -> (r: bool)
        requires
            self.wf(),
        ensures
            r == self.token_listed(token),
    {
        match self.tokens.get(&token) {
            Some(s) => s == ListingStatus::Listed,
            None => false,
        }
    }

    pub fn is_pair_listed(&self, symbol: &String) -> (r: bool)
        requires
            self.wf(),
        ensures
            r == (self.pairs.lookup(symbol@) matches Some(p) && p.status == ListingStatus::Listed),
    {
        match self.pairs.get(symbol) {
            Some(p) => p.status == ListingStatus::Listed,
            None => false,
        }
    }

    /// Sets a token's listing status; the owner's authorization is the
    /// host's to check. Writing the status it already has fails.
    pub fn set_token_status(&mut self, token: Address, status: ListingStatus) -> (r: Result<(), Error>)
        requires
            old(self).wf(),
        ensures
            final(self).wf(),
            r == token_status_result(old(self).roles is Some, old(self).tokens@, token, status),
            r is Err ==> *final(self) == *old(self),
            r is Ok ==> final(self).tokens@ == old(self).tokens@.insert(token, status)
                && final(self).pairs == old(self).pairs && final(self).balances == old(self).balances
                && final(self).withdraw_requests == old(self).withdraw_requests && final(self).keys
                == old(self).keys && final(self).roles == old(self).roles && final(self).withdraw_id
                == old(self).withdraw_id && final(self).batch_id == old(self).batch_id,
    {
        if self.roles.is_none() {
            return Err(Error::ErrNotInitialized);
        }
        match self.tokens.get(&token) {
            Some(stored) => {
                if stored == status {
                    return Err(Error::ErrSameValueStored);
                }
            },
            None => {},
        }
        self.tokens.set(token, status);
        Ok(())
    }

    /// Lists or delists the pair `symbol` of `token1` (base) and `token2`
    /// (quote); both tokens must be listed, and a stored pair keeps its
    /// tokens.
    pub fn set_pair_status(
        &mut self,
        symbol: &String,
        token1: Address,
        token2: Address,
        status: ListingStatus,
    ) -> (r: Result<(), Error>)
        requires
            old(self).wf(),
        ensures
            final(self).wf(),
            r is Err ==> *final(self) == *old(self),
            r == if old(self).roles is None {
                Err(Error::ErrNotInitialized)
            } else if !old(self).token_listed(token1) || !old(self).token_listed(token2) {
                Err(Error::ErrTokenIsNotListed)
            } else {
                match pair_rewrite(
                    old(self).pairs.lookup(symbol@),
                    PairStorageInfo { token1, token2, status },
                ) {
                    Ok(_) => Ok(()),
                    Err(e) => Err::<(), Error>(e),
                }
            },
            r is Ok ==> final(self).pairs.lookup(symbol@) == Some(
                PairStorageInfo { token1, token2, status },
            ) && (forall|s: Seq<char>|
                s != symbol@ ==> #[trigger] final(self).pairs.lookup(s) == old(self).pairs.lookup(s))
                && final(self).tokens == old(self).tokens && final(self).balances == old(self).balances
                && final(self).withdraw_requests == old(self).withdraw_requests && final(self).keys
                == old(self).keys && final(self).roles == old(self).roles && final(self).withdraw_id
                == old(self).withdraw_id && final(self).batch_id == old(self).batch_id,
    {
        if self.roles.is_none() {
            return Err(Error::ErrNotInitialized);
        }
        if !self.is_token_listed(token1) || !self.is_token_listed(token2) {
            return Err(Error::ErrTokenIsNotListed);
        }
        let pair_info = PairStorageInfo::new((token1, token2), status);
        match self.pairs.get(symbol) {
            Some(stored) => {
                if pair_info.status == stored.status {
                    return Err(Error::ErrSameValueStored);
                }
                if !(pair_info.token1 == stored.token1 && pair_info.token2 == stored.token2) {
                    return Err(Error::ErrChangingPair);
                }
            },
            None => {},
        }
        if pair_info.token1 == pair_info.token2 {
            return Err(Error::ErrSamePairTokens);
        }
        self.pairs.set(symbol, pair_info);
        Ok(())
    }

    pub fn balances(&self, user: Address, token: Address) -> (r: UserBalances)
        requires
            self.wf(),
        ensures
            r == balances_in(self.balances@, user, token),
    {
        read_balances(&self.balances, user, token)
    }

    /// Credits a deposit of `amount` of a listed token; the token transfer
    /// into the contract and the user's authorization are the host's.
    pub fn deposit(&mut self, user: Address, token: Address, amount: i128) -> (r: Result<(), Error>)
        requires
            old(self).wf(),
        ensures
            final(self).wf(),
            r is Err ==> *final(self) == *old(self),
            r == if amount <= 0 {
                Err(Error::ErrAmountMustBePositive)
            } else if !old(self).token_listed(token) {
                Err(Error::ErrTokenIsNotListed)
            } else if balances_in(old(self).balances@, user, token).balance + amount > i128::MAX {
                Err(Error::ErrOverflow)
            } else {
                Ok::<(), Error>(())
            },
            r is Ok ==> final(self).balances@ == old(self).balances@.insert(
                AccountToken { user, token },
                UserBalances {
                    balance: (balances_in(old(self).balances@, user, token).balance + amount) as i128,
                    ..balances_in(old(self).balances@, user, token)
                },
            ) && final(self).tokens == old(self).tokens && final(self).pairs == old(self).pairs
                && final(self).withdraw_requests == old(self).withdraw_requests && final(self).keys
                == old(self).keys && final(self).roles == old(self).roles && final(self).withdraw_id
                == old(self).withdraw_id && final(self).batch_id == old(self).batch_id,
    {
        if amount <= 0 {
            return Err(Error::ErrAmountMustBePositive);
        }
        if !self.is_token_listed(token) {
            return Err(Error::ErrTokenIsNotListed);
        }
        let mut balances = read_balances(&self.balances, user, token);
        balances.balance = match balances.balance.checked_add(amount) {
            Some(v) => v,
            None => return Err(Error::ErrOverflow),
        };
        self.balances.set(AccountToken { user, token }, balances);
        Ok(())
    }

    /// Moves `amount` from the user's balance into its withdraw reserve and
    /// records a request under the next withdraw id, which it returns.
    pub fn request_withdraw(&mut self, user: Address, token: Address, amount: i128) -> (r: Result<
        u64,
        Error,
    >)
        requires
            old(self).wf(),
        ensures
            final(self).wf(),
            r is Err ==> *final(self) == *old(self),
            ({
                let b = balances_in(old(self).balances@, user, token);
                r == if amount <= 0 {
                    Err(Error::ErrAmountMustBePositive)
                } else if b.balance < amount {
                    Err(Error::ErrBalanceNotEnough)
                } else if b.balance_on_withdraw + amount > i128::MAX {
                    Err(Error::ErrOverflow)
                } else if old(self).roles is None {
                    Err(Error::ErrNotInitialized)
                } else if old(self).withdraw_id == u64::MAX {
                    Err(Error::ErrOverflow)
                } else if old(self).withdraw_requests@.contains_key(old(self).withdraw_id)
                    && old(self).withdraw_requests@[old(self).withdraw_id] == (WithdrawData {
                    user,
                    token,
                    amount,
                    status: WithdrawStatus::Requested,
                }) {
                    Err(Error::ErrSameWithdrawDataExist)
                } else {
                    Ok::<u64, Error>(old(self).withdraw_id)
                }
            }),
            r is Ok ==> {
                let b = balances_in(old(self).balances@, user, token);
                &&& final(self).withdraw_id == old(self).withdraw_id + 1
                &&& final(self).balances@ == old(self).balances@.insert(
                    AccountToken { user, token },
                    UserBalances {
                        balance: (b.balance - amount) as i128,
                        balance_on_withdraw: (b.balance_on_withdraw + amount) as i128,
                    },
                )
                &&& final(self).withdraw_requests@ == old(self).withdraw_requests@.insert(
                    old(self).withdraw_id,
                    WithdrawData { user, token, amount, status: WithdrawStatus::Requested },
                )
                &&& final(self).tokens == old(self).tokens
                &&& final(self).pairs == old(self).pairs
                &&& final(self).keys == old(self).keys
                &&& final(self).roles == old(self).roles
                &&& final(self).batch_id == old(self).batch_id
            },
    {
        if amount <= 0 {
            return Err(Error::ErrAmountMustBePositive);
        }
        let mut balances = read_balances(&self.balances, user, token);
        if balances.balance < amount {
            return Err(Error::ErrBalanceNotEnough);
        }
        let on_withdraw = match balances.balance_on_withdraw.checked_add(amount) {
            Some(v) => v,
            None => return Err(Error::ErrOverflow),
        };
        if self.roles.is_none() {
            return Err(Error::ErrNotInitialized);
        }
        if self.withdraw_id == u64::MAX {
            return Err(Error::ErrOverflow);
        }
        let new_id = self.withdraw_id;
        let manager = WithdrawRequestManager::new(new_id);
        let data = WithdrawData { user, token, amount, status: WithdrawStatus::Requested };
        match self.withdraw_requests.get(&manager.id) {
            Some(stored) => {
                if stored == data {
                    return Err(Error::ErrSameWithdrawDataExist);
                }
            },
            None => {},
        }
        balances.balance = balances.balance - amount;
        balances.balance_on_withdraw = on_withdraw;
        self.balances.set(AccountToken { user, token }, balances);
        self.withdraw_id = new_id + 1;
        self.withdraw_requests.set(manager.id, data);
        proof {
            assert forall|id: u64| #[trigger] self.withdraw_requests@.contains_key(id) implies 1 <= id
                < self.withdraw_id by {
                if id != new_id {
                    assert(old(self).withdraw_requests@.contains_key(id));
                }
            }
        }
        Ok(new_id)
    }

    /// Records `public_key` as the user's key `key_id`; a slot is written
    /// once.
    pub fn user_announce_key(&mut self, user: Address, key_id: u32, public_key: [u8; 32]) -> (r:
        Result<(), Error>)
        requires
            old(self).wf(),
        ensures
            final(self).wf(),
            r is Err ==> *final(self) == *old(self),
            r == announce_result(old(self).keys@, UserKeySlot { user, key_id }),
            r is Ok ==> final(self).keys@ == old(self).keys@.insert(
                UserKeySlot { user, key_id },
                public_key,
            ) && final(self).tokens == old(self).tokens && final(self).pairs == old(self).pairs
                && final(self).balances == old(self).balances && final(self).withdraw_requests
                == old(self).withdraw_requests && final(self).roles == old(self).roles
                && final(self).withdraw_id == old(self).withdraw_id && final(self).batch_id == old(
                self,
            ).batch_id,
    {
        let slot = UserKeySlot { user, key_id };
        if self.keys.get(&slot).is_some() {
            return Err(Error::ErrPublicKeyAlreadyExist);
        }
        self.keys.set(slot, public_key);
        Ok(())
    }

    pub fn get_user_key(&self, user: Address, key_id: u32) -> (r: Result<[u8; 32], Error>)
        requires
            self.wf(),
        ensures
            r == if self.keys@.contains_key(UserKeySlot { user, key_id }) {
                Ok(self.keys@[UserKeySlot { user, key_id }])
            } else {
                Err::<[u8; 32], Error>(Error::ErrNoUserPublicKeyExist)
            },
    {
        match self.keys.get(&UserKeySlot { user, key_id }) {
            Some(k) => Ok(k),
            None => Err(Error::ErrNoUserPublicKeyExist),
        }
    }
}

} // verus!
