use vstd::prelude::*;

use crate::custody::error::Error;
use crate::exchange::order::Address;
use crate::table::{AccountToken, Table};

verus! {

/// Whether a token or a pair is open for business.
#[derive(Debug, Clone, Copy, PartialEq, Eq, Structural)]
pub enum ListingStatus {
    Listed,
    Delisted,
}

/// The contract-wide entries of the host's instance storage.
#[derive(Debug, Clone, Copy, PartialEq, Eq, Structural)]
pub enum DataKey {
    Owner,
    OperatorManager,
    FeeCollector,
    WithdrawId,
    BatchId,
}

/// Where a withdraw request stands.
#[derive(Debug, Clone, Copy, PartialEq, Eq, Structural)]
pub enum WithdrawStatus {
    Requested,
    Rejected,
    Executed,
}

/// A withdraw request as stored under its id.
#[derive(Debug, Clone, Copy, PartialEq, Eq, Structural)]
pub struct WithdrawData {
    pub user: Address,
    pub token: Address,
    pub amount: i128,
    pub status: WithdrawStatus,
}

/// The storage key of one withdraw request.
#[derive(Debug, Clone, Copy, PartialEq, Eq, Structural)]
pub struct WithdrawRequestManager {
    pub id: u64,
}

impl WithdrawRequestManager {
    pub fn new(id: u64) -> (r: Self)
        ensures
            r.id == id,
    {
        Self { id }
    }
}

/// A user's holding of one token in custody: what it can trade, and what
/// waits for the operator's withdraw decision.
#[derive(Debug, Clone, Copy, PartialEq, Eq, Structural)]
pub struct UserBalances {
    pub balance: i128,
    pub balance_on_withdraw: i128,
}

pub open spec fn zero_balances() -> UserBalances {
    UserBalances { balance: 0, balance_on_withdraw: 0 }
}

/// What `user` holds of `token` in the view `m`; nothing if never written.
pub open spec fn balances_in(m: Map<AccountToken, UserBalances>, user: Address, token: Address) -> UserBalances {
    let k = AccountToken { user, token };
    if m.contains_key(k) {
        m[k]
    } else {
        zero_balances()
    }
}

pub type CustodyLedger = Table<AccountToken, UserBalances>;

/// Reads the balances of `user` in `token`.
pub fn read_balances(ledger: &CustodyLedger, user: Address, token: Address) -> (r: UserBalances)
    requires
        ledger.wf(),
    ensures
        r == balances_in(ledger@, user, token),
{
    match ledger.get(&AccountToken { user, token }) {
        Some(b) => b,
        None => UserBalances { balance: 0, balance_on_withdraw: 0 },
    }
}

/// A listed pair: base token, quote token and status.
#[derive(Debug, Clone, Copy, PartialEq, Eq, Structural)]
pub struct PairStorageInfo {
    pub token1: Address,
    pub token2: Address,
    pub status: ListingStatus,
}

impl PairStorageInfo {
    pub fn new(pair: (Address, Address), status: ListingStatus) -> (r: Self)
        ensures
            r == (PairStorageInfo { token1: pair.0, token2: pair.1, status }),
    {
        Self { token1: pair.0, token2: pair.1, status }
    }

    pub fn get_pair(&self) -> (r: (Address, Address))
        ensures
            r == (self.token1, self.token2),
    {
        (self.token1, self.token2)
    }
}

/// Trading pairs by their symbol.
#[derive(Debug)]
pub struct PairRegistry {
    entries: Vec<(String, PairStorageInfo)>,
}

impl PairRegistry {
    pub closed spec fn entries(&self) -> Seq<(String, PairStorageInfo)> {
        self.entries@
    }

    pub open spec fn wf(&self) -> bool {
        forall|i: int, j: int|
            0 <= i < j < self.entries().len() ==> self.entries()[i].0@ != self.entries()[j].0@
    }

    /// The pair stored under `symbol`.
    pub open spec fn lookup(&self, symbol: Seq<char>) -> Option<PairStorageInfo> {
        if exists|i: int| 0 <= i < self.entries().len() && self.entries()[i].0@ == symbol {
            Some(
                self.entries()[choose|i: int|
                    0 <= i < self.entries().len() && self.entries()[i].0@ == symbol].1,
            )
        } else {
            None
        }
    }

    pub fn new() -> (r: Self)
        ensures
            r.wf(),
            forall|s: Seq<char>| r.lookup(s) is None,
    {
        PairRegistry { entries: Vec::new() }
    }

    fn find(&self, symbol: &String) -> (r: Option<usize>)
        requires
            self.wf(),
        ensures
            r matches Some(i) ==> i < self.entries().len() && self.entries()[i as int].0@ == symbol@,
            r is None ==> self.lookup(symbol@) is None,
    {
        let mut i: usize = 0;
        while i < self.entries.len()
            invariant
                0 <= i <= self.entries@.len(),
                forall|j: int| 0 <= j < i ==> self.entries@[j].0@ != symbol@,
            decreases self.entries@.len() - i,
        {
            if self.entries[i].0 == *symbol {
                return Some(i);
            }
            i += 1;
        }
        None
    }

    pub fn get(&self, symbol: &String) -> (r: Option<PairStorageInfo>)
        requires
            self.wf(),
        ensures
            r == self.lookup(symbol@),
    {
        match self.find(symbol) {
            Some(i) => {
                proof {
                    let c = choose|c: int| 0 <= c < self.entries().len() && self.entries()[c].0@ == symbol@;
                    assert(c == i as int);
                }
                Some(self.entries[i].1)
            },
            None => None,
        }
    }

    pub fn set(&mut self, symbol: &String, info: PairStorageInfo)
        requires
            old(self).wf(),
        ensures
            final(self).wf(),
            final(self).lookup(symbol@) == Some(info),
            forall|s: Seq<char>| s != symbol@ ==> #[trigger] final(self).lookup(s) == old(self).lookup(s),
    {
        match self.find(symbol) {
            Some(i) => {
                let key = symbol.clone();
                self.entries.set(i, (key, info));
                proof {
                    assert forall|s: Seq<char>| s != symbol@ implies #[trigger] self.lookup(s) == old(self).lookup(s) by {
                        if exists|j: int| 0 <= j < old(self).entries().len() && old(self).entries()[j].0@ == s {
                            let j = choose|j: int| 0 <= j < old(self).entries().len() && old(self).entries()[j].0@ == s;
                            assert(self.entries()[j].0@ == s);
                        }
                        if exists|j: int| 0 <= j < self.entries().len() && self.entries()[j].0@ == s {
                            let j = choose|j: int| 0 <= j < self.entries().len() && self.entries()[j].0@ == s;
                            assert(old(self).entries()[j].0@ == s);
                        }
                    }
                    let c = choose|c: int| 0 <= c < self.entries().len() && self.entries()[c].0@ == symbol@;
                    assert(self.entries()[i as int].0@ == symbol@);
                    assert(c == i as int);
                }
            },
            None => {
                let key = symbol.clone();
                self.entries.push((key, info));
                proof {
                    let n = old(self).entries().len() as int;
                    assert(self.entries()[n].0@ == symbol@);
                    assert forall|s: Seq<char>| s != symbol@ implies #[trigger] self.lookup(s) == old(self).lookup(s) by {
                        if exists|j: int| 0 <= j < old(self).entries().len() && old(self).entries()[j].0@ == s {
                            let j = choose|j: int| 0 <= j < old(self).entries().len() && old(self).entries()[j].0@ == s;
                            assert(self.entries()[j].0@ == s);
                        }
                        if exists|j: int| 0 <= j < self.entries().len() && self.entries()[j].0@ == s {
                            let j = choose|j: int| 0 <= j < self.entries().len() && self.entries()[j].0@ == s;
                            assert(old(self).entries()[j].0@ == s);
                        }
                    }
                    let c = choose|c: int| 0 <= c < self.entries().len() && self.entries()[c].0@ == symbol@;
                    assert(c == n);
                }
            },
        }
    }
}

/// The status a pair rewrite ends in: the new info, or the error that
/// stops it.
pub open spec fn pair_rewrite(stored: Option<PairStorageInfo>, info: PairStorageInfo) -> Result<
    PairStorageInfo,
    Error,
> {
    match stored {
        Some(s) => if info.status == s.status {
            Err(Error::ErrSameValueStored)
        } else if !(info.token1 == s.token1 && info.token2 == s.token2) {
            Err(Error::ErrChangingPair)
        } else if info.token1 == info.token2 {
            Err(Error::ErrSamePairTokens)
        } else {
            Ok(info)
        },
        None => if info.token1 == info.token2 {
            Err(Error::ErrSamePairTokens)
        } else {
            Ok(info)
        },
    }
}

} // verus!
