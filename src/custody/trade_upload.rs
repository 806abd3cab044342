use vstd::prelude::*;

use crate::custody::error::Error;
use crate::custody::storage_types::{
    balances_in, read_balances, CustodyLedger, ListingStatus, PairRegistry, UserBalances,
};
use crate::exchange::order::Address;
use crate::table::AccountToken;

verus! {

/// One side of a matched trade, signed by its account.
#[derive(Debug, Clone)]
pub struct TradeUploadUnit {
    pub trade_id: u64,
    pub account: Address,
    pub symbol: String,
    pub quantity: i128,
    pub amount: i128,
    pub fee_amount: i128,
    pub fee_token_asset: Address,
    pub timestamp: u64,
    pub order_signature: [u8; 64],
    pub pub_key_id: u32,
    pub order: Vec<u8>,
}

/// A buyer and a seller matched off-chain.
#[derive(Debug, Clone)]
pub struct TradeUploadPair {
    pub buy_side: TradeUploadUnit,
    pub sell_side: TradeUploadUnit,
}

/// A batch of matched trades under its sequence number.
#[derive(Debug, Clone)]
pub struct TradeUploadData {
    pub batch_id: u64,
    pub trades: Vec<TradeUploadPair>,
}

/// `m` with `amount` added to `user`'s balance in `token`; fails when the
/// balance would leave `i128` or fall below zero.
pub open spec fn credited(m: Map<AccountToken, UserBalances>, user: Address, token: Address, amount: i128) -> Result<
    Map<AccountToken, UserBalances>,
    Error,
> {
    let b = balances_in(m, user, token);
    if b.balance + amount > i128::MAX {
        Err(Error::ErrOverflow)
    } else if b.balance + amount < 0 {
        Err(Error::ErrBalanceNotEnough)
    } else {
        Ok(m.insert(AccountToken { user, token }, UserBalances { balance: (b.balance + amount) as i128, ..b }))
    }
}

/// `m` with `amount` taken from `user`'s balance in `token`; fails when the
/// balance is short.
pub open spec fn debited(m: Map<AccountToken, UserBalances>, user: Address, token: Address, amount: i128) -> Result<
    Map<AccountToken, UserBalances>,
    Error,
> {
    let b = balances_in(m, user, token);
    if b.balance < amount {
        Err(Error::ErrBalanceNotEnough)
    } else if b.balance - amount > i128::MAX {
        Err(Error::ErrOverflow)
    } else {
        Ok(m.insert(AccountToken { user, token }, UserBalances { balance: (b.balance - amount) as i128, ..b }))
    }
}

/// One side's swap: it receives `deposit_amount` of `deposit_token` and
/// gives `transfer_amount` of `transfer_token`. A buyer receives the base
/// quantity and gives the quote amount; a seller the reverse.
pub open spec fn unit_swapped(
    m: Map<AccountToken, UserBalances>,
    unit: TradeUploadUnit,
    pair: (Address, Address),
    buy: bool,
) -> Result<Map<AccountToken, UserBalances>, Error> {
    let (deposit_token, deposit_amount, transfer_token, transfer_amount) = if buy {
        (pair.0, unit.quantity, pair.1, unit.amount)
    } else {
        (pair.1, unit.amount, pair.0, unit.quantity)
    };
    match credited(m, unit.account, deposit_token, deposit_amount) {
        Err(e) => Err(e),
        Ok(m1) => debited(m1, unit.account, transfer_token, transfer_amount),
    }
}

/// One side's fee moves from its account to the fee collector, in the fee
/// token; a zero fee moves nothing.
pub open spec fn fee_paid(m: Map<AccountToken, UserBalances>, unit: TradeUploadUnit, fee_collector: Address) -> Result<
    Map<AccountToken, UserBalances>,
    Error,
> {
    if unit.fee_amount == 0 {
        Ok(m)
    } else {
        match debited(m, unit.account, unit.fee_token_asset, unit.fee_amount) {
            Err(e) => Err(e),
            Ok(m1) => credited(m1, fee_collector, unit.fee_token_asset, unit.fee_amount),
        }
    }
}

/// The balances after one matched pair: both sides must name the same
/// listed pair; then the buyer swaps and pays its fee, then the seller.
pub open spec fn pair_swapped(
    m: Map<AccountToken, UserBalances>,
    trade: TradeUploadPair,
    pairs: PairRegistry,
    fee_collector: Address,
) -> Result<Map<AccountToken, UserBalances>, Error> {
    if trade.buy_side.symbol@ != trade.sell_side.symbol@ {
        Err(Error::ErrTradeSymbolsNotMatch)
    } else {
        match pairs.lookup(trade.buy_side.symbol@) {
            None => Err(Error::ErrFinalized),
            Some(info) => if info.status != ListingStatus::Listed {
                Err(Error::ErrFinalized)
            } else {
                let pair = (info.token1, info.token2);
                match unit_swapped(m, trade.buy_side, pair, true) {
                    Err(e) => Err(e),
                    Ok(m1) => match fee_paid(m1, trade.buy_side, fee_collector) {
                        Err(e) => Err(e),
                        Ok(m2) => match unit_swapped(m2, trade.sell_side, pair, false) {
                            Err(e) => Err(e),
                            Ok(m3) => fee_paid(m3, trade.sell_side, fee_collector),
                        },
                    },
                }
            },
        }
    }
}

/// The balances after the pairs of a batch, in order; the first failure
/// fails the batch.
pub open spec fn batch_swapped(
    m: Map<AccountToken, UserBalances>,
    trades: Seq<TradeUploadPair>,
    pairs: PairRegistry,
    fee_collector: Address,
) -> Result<Map<AccountToken, UserBalances>, Error>
    decreases trades.len(),
{
    if trades.len() == 0 {
        Ok(m)
    } else {
        match batch_swapped(m, trades.drop_last(), pairs, fee_collector) {
            Err(e) => Err(e),
            Ok(m1) => pair_swapped(m1, trades.last(), pairs, fee_collector),
        }
    }
}

/// No record of `m` holds a negative amount.
pub open spec fn ledger_nonneg(m: Map<AccountToken, UserBalances>) -> bool {
    forall|k: AccountToken|
        #[trigger] m.contains_key(k) ==> m[k].balance >= 0 && m[k].balance_on_withdraw >= 0
}

proof fn lemma_credited_nonneg(m: Map<AccountToken, UserBalances>, user: Address, token: Address, amount: i128)
    requires
        ledger_nonneg(m),
    ensures
        credited(m, user, token, amount) matches Ok(m2) ==> ledger_nonneg(m2),
        debited(m, user, token, amount) matches Ok(m2) ==> ledger_nonneg(m2),
{
}

/// A trade pair that goes through leaves no record negative.
pub proof fn lemma_pair_nonneg(
    m: Map<AccountToken, UserBalances>,
    trade: TradeUploadPair,
    pairs: PairRegistry,
    fee_collector: Address,
)
    requires
        ledger_nonneg(m),
    ensures
        pair_swapped(m, trade, pairs, fee_collector) matches Ok(m2) ==> ledger_nonneg(m2),
{
    if trade.buy_side.symbol@ == trade.sell_side.symbol@ {
        if let Some(info) = pairs.lookup(trade.buy_side.symbol@) {
            let pair = (info.token1, info.token2);
            lemma_unit_nonneg(m, trade.buy_side, pair, true, fee_collector);
            if let Ok(m2) = unit_swapped(m, trade.buy_side, pair, true) {
                if let Ok(m3) = fee_paid(m2, trade.buy_side, fee_collector) {
                    lemma_unit_nonneg(m3, trade.sell_side, pair, false, fee_collector);
                }
            }
        }
    }
}

proof fn lemma_unit_nonneg(
    m: Map<AccountToken, UserBalances>,
    unit: TradeUploadUnit,
    pair: (Address, Address),
    buy: bool,
    fee_collector: Address,
)
    requires
        ledger_nonneg(m),
    ensures
        unit_swapped(m, unit, pair, buy) matches Ok(m2) ==> ledger_nonneg(m2) && (fee_paid(
            m2,
            unit,
            fee_collector,
        ) matches Ok(m3) ==> ledger_nonneg(m3)),
{
    let (deposit_token, deposit_amount, transfer_token, transfer_amount) = if buy {
        (pair.0, unit.quantity, pair.1, unit.amount)
    } else {
        (pair.1, unit.amount, pair.0, unit.quantity)
    };
    lemma_credited_nonneg(m, unit.account, deposit_token, deposit_amount);
    if let Ok(m1) = credited(m, unit.account, deposit_token, deposit_amount) {
        lemma_credited_nonneg(m1, unit.account, transfer_token, transfer_amount);
        if let Ok(m2) = debited(m1, unit.account, transfer_token, transfer_amount) {
            lemma_credited_nonneg(m2, unit.account, unit.fee_token_asset, unit.fee_amount);
            if let Ok(m4) = debited(m2, unit.account, unit.fee_token_asset, unit.fee_amount) {
                lemma_credited_nonneg(m4, fee_collector, unit.fee_token_asset, unit.fee_amount);
            }
        }
    }
}

/// A batch that goes through leaves no record negative.
pub proof fn lemma_batch_nonneg(
    m: Map<AccountToken, UserBalances>,
    trades: Seq<TradeUploadPair>,
    pairs: PairRegistry,
    fee_collector: Address,
)
    requires
        ledger_nonneg(m),
    ensures
        batch_swapped(m, trades, pairs, fee_collector) matches Ok(m2) ==> ledger_nonneg(m2),
    decreases trades.len(),
{
    if trades.len() > 0 {
        lemma_batch_nonneg(m, trades.drop_last(), pairs, fee_collector);
        if let Ok(m1) = batch_swapped(m, trades.drop_last(), pairs, fee_collector) {
            lemma_pair_nonneg(m1, trades.last(), pairs, fee_collector);
        }
    }
}

pub proof fn lemma_batch_prefix_fails(
    m: Map<AccountToken, UserBalances>,
    trades: Seq<TradeUploadPair>,
    pairs: PairRegistry,
    fee_collector: Address,
    n: int,
)
    requires
        0 <= n <= trades.len(),
    ensures
        batch_swapped(m, trades.take(n), pairs, fee_collector) is Err ==> batch_swapped(
            m,
            trades,
            pairs,
            fee_collector,
        ) == batch_swapped(m, trades.take(n), pairs, fee_collector),
    decreases trades.len() - n,
{
    if n < trades.len() {
        lemma_batch_prefix_fails(m, trades, pairs, fee_collector, n + 1);
        assert(trades.take(n + 1).drop_last() == trades.take(n));
    } else {
        assert(trades.take(n) == trades);
    }
}

/// Adds `amount` to `user`'s balance in `token`.
pub fn credit_balance(ledger: &mut CustodyLedger, user: Address, token: Address, amount: i128) -> (r:
    Result<(), Error>)
    requires
        old(ledger).wf(),
    ensures
        final(ledger).wf(),
        match credited(old(ledger)@, user, token, amount) {
            Ok(m) => r is Ok && final(ledger)@ == m,
            Err(e) => r == Err::<(), Error>(e) && final(ledger)@ == old(ledger)@,
        },
{
    let mut b = read_balances(ledger, user, token);
    b.balance = match b.balance.checked_add(amount) {
        Some(v) => if v < 0 {
            return Err(Error::ErrBalanceNotEnough);
        } else {
            v
        },
        None => if amount > 0 {
            return Err(Error::ErrOverflow);
        } else {
            return Err(Error::ErrBalanceNotEnough);
        },
    };
    ledger.set(AccountToken { user, token }, b);
    Ok(())
}

/// Takes `amount` from `user`'s balance in `token`.
pub fn debit_balance(ledger: &mut CustodyLedger, user: Address, token: Address, amount: i128) -> (r:
    Result<(), Error>)
    requires
        old(ledger).wf(),
    ensures
        final(ledger).wf(),
        match debited(old(ledger)@, user, token, amount) {
            Ok(m) => r is Ok && final(ledger)@ == m,
            Err(e) => r == Err::<(), Error>(e) && final(ledger)@ == old(ledger)@,
        },
{
    let mut b = read_balances(ledger, user, token);
    if b.balance < amount {
        return Err(Error::ErrBalanceNotEnough);
    }
    b.balance = match b.balance.checked_sub(amount) {
        Some(v) => v,
        None => return Err(Error::ErrOverflow),
    };
    ledger.set(AccountToken { user, token }, b);
    Ok(())
}

impl TradeUploadPair {
    fn execute_trade(
        ledger: &mut CustodyLedger,
        trade: &TradeUploadUnit,
        pair: (Address, Address),
        buy: bool,
    ) -> (r: Result<(), Error>)
        requires
            old(ledger).wf(),
        ensures
            final(ledger).wf(),
            match unit_swapped(old(ledger)@, *trade, pair, buy) {
                Ok(m) => r is Ok && final(ledger)@ == m,
                Err(e) => r == Err::<(), Error>(e),
            },
    {
        let (deposit_token, deposit_amount, transfer_token, transfer_amount) = if buy {
            (pair.0, trade.quantity, pair.1, trade.amount)
        } else {
            (pair.1, trade.amount, pair.0, trade.quantity)
        };
        match credit_balance(ledger, trade.account, deposit_token, deposit_amount) {
            Ok(()) => {},
            Err(e) => return Err(e),
        }
        debit_balance(ledger, trade.account, transfer_token, transfer_amount)
    }

    fn withdraw_fee(ledger: &mut CustodyLedger, trade: &TradeUploadUnit, fee_collector: Address) -> (r:
        Result<(), Error>)
        requires
            old(ledger).wf(),
        ensures
            final(ledger).wf(),
            match fee_paid(old(ledger)@, *trade, fee_collector) {
                Ok(m) => r is Ok && final(ledger)@ == m,
                Err(e) => r == Err::<(), Error>(e),
            },
    {
        if trade.fee_amount == 0 {
            return Ok(());
        }
        match debit_balance(ledger, trade.account, trade.fee_token_asset, trade.fee_amount) {
            Ok(()) => {},
            Err(e) => return Err(e),
        }
        credit_balance(ledger, fee_collector, trade.fee_token_asset, trade.fee_amount)
    }

    /// Swaps the balances of one matched pair and collects both fees, all or
    /// nothing: on failure the ledger is left as it was. The signatures are
    /// the host's to check beforehand.
    pub fn execute_pair_swap(
        &self,
        ledger: &mut CustodyLedger,
        pairs: &PairRegistry,
        fee_collector: Address,
    ) -> (r: Result<(), Error>)
        requires
            old(ledger).wf(),
            pairs.wf(),
        ensures
            final(ledger).wf(),
            match pair_swapped(old(ledger)@, *self, *pairs, fee_collector) {
                Ok(m) => r is Ok && final(ledger)@ == m,
                Err(e) => r == Err::<(), Error>(e) && final(ledger)@ == old(ledger)@,
            },
    {
        let mut working = ledger.copy_table();
        match self.apply_pair_swap(&mut working, pairs, fee_collector) {
            Ok(()) => {
                *ledger = working;
                Ok(())
            },
            Err(e) => Err(e),
        }
    }

    fn apply_pair_swap(
        &self,
        ledger: &mut CustodyLedger,
        pairs: &PairRegistry,
        fee_collector: Address,
    ) -> (r: Result<(), Error>)
        requires
            old(ledger).wf(),
            pairs.wf(),
        ensures
            final(ledger).wf(),
            match pair_swapped(old(ledger)@, *self, *pairs, fee_collector) {
                Ok(m) => r is Ok && final(ledger)@ == m,
                Err(e) => r == Err::<(), Error>(e),
            },
    {
        if !(self.buy_side.symbol == self.sell_side.symbol) {
            return Err(Error::ErrTradeSymbolsNotMatch);
        }
        let info = match pairs.get(&self.buy_side.symbol) {
            Some(i) => i,
            None => return Err(Error::ErrFinalized),
        };
        if info.status != ListingStatus::Listed {
            return Err(Error::ErrFinalized);
        }
        let pair = info.get_pair();
        match Self::execute_trade(ledger, &self.buy_side, pair, true) {
            Ok(()) => {},
            Err(e) => return Err(e),
        }
        match Self::withdraw_fee(ledger, &self.buy_side, fee_collector) {
            Ok(()) => {},
            Err(e) => return Err(e),
        }
        match Self::execute_trade(ledger, &self.sell_side, pair, false) {
            Ok(()) => {},
            Err(e) => return Err(e),
        }
        Self::withdraw_fee(ledger, &self.sell_side, fee_collector)
    }
}

} // verus!
