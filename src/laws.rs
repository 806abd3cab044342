//! Properties that relate several operations, proved over the models their
//! contracts are stated in.
use vstd::prelude::*;

use crate::custody::asset_manager::{announce_result, token_status_result, AssetManager};
use crate::custody::error::Error as CustodyError;
use crate::custody::operator_handlers::{
    decided_balances, withdraw_decided, withdraw_decision_result, ExecutionWithdrawData,
    OperatorWithdrawStatus,
};
use crate::custody::storage_types::{ListingStatus, PairRegistry, UserBalances as CustodyBalances};
use crate::custody::trade_upload::{pair_swapped, TradeUploadPair};
use crate::exchange::contract::{deposited, withdrawn};
use crate::exchange::order::{AddField, NewOrder, OrderSide, OrderType, Address};
use crate::exchange::orderbook::{book_id, lemma_maker_entries, OrderBook};
use crate::exchange::payoff_sides::PayOffWithSides;
use crate::exchange::price_level_store::PriceLevelStore;
use crate::exchange::trading_ops::book_plan;
use crate::exchange::user_balance_manager::{balances_in, UserBalances};
use crate::table::{AccountToken, UserKeySlot};

verus! {

/// What a custody record holds in all: spendable plus awaiting withdrawal.
pub open spec fn holdings(b: CustodyBalances) -> int {
    b.balance + b.balance_on_withdraw
}

/// Conservation across a withdraw request: moving `amount` from the
/// balance into the withdraw reserve leaves the user's holdings as they
/// were.
pub proof fn lemma_request_withdraw_conserves(b: CustodyBalances, amount: i128)
    requires
        0 < amount <= b.balance,
        b.balance_on_withdraw + amount <= i128::MAX,
    ensures
        holdings(
            CustodyBalances {
                balance: (b.balance - amount) as i128,
                balance_on_withdraw: (b.balance_on_withdraw + amount) as i128,
            },
        ) == holdings(b),
{
}

/// Conservation across a withdraw decision: a rejection leaves the
/// holdings as they were, an approval lowers them by exactly the amount
/// the contract transfers out.
pub proof fn lemma_withdraw_decision_conserves(b: CustodyBalances, d: ExecutionWithdrawData)
    requires
        decided_balances(b, d) is Ok,
    ensures
        holdings(decided_balances(b, d)->Ok_0) == match d.execution_status {
            OperatorWithdrawStatus::Approve => holdings(b) - d.amount,
            OperatorWithdrawStatus::Reject => holdings(b),
        },
{
}

/// The holdings of `user` in `token` in the custody view `m`.
pub open spec fn holdings_in(m: Map<AccountToken, CustodyBalances>, user: Address, token: Address) -> int {
    holdings(crate::custody::storage_types::balances_in(m, user, token))
}

/// Conservation across a matched trade pair: when both sides agree on the
/// base quantity and the quote amount, and buyer, seller and fee collector
/// are distinct accounts, each token's holdings summed over the three are
/// unchanged, and no other account's records change.
#[verifier::rlimit(100)]
pub proof fn lemma_matched_pair_conserves(
    m: Map<AccountToken, CustodyBalances>,
    trade: TradeUploadPair,
    pairs: PairRegistry,
    fee_collector: Address,
    token: Address,
)
    requires
        pair_swapped(m, trade, pairs, fee_collector) is Ok,
        trade.buy_side.quantity == trade.sell_side.quantity,
        trade.buy_side.amount == trade.sell_side.amount,
        trade.buy_side.account != trade.sell_side.account,
        trade.buy_side.account != fee_collector,
        trade.sell_side.account != fee_collector,
    ensures
        ({
            let m2 = pair_swapped(m, trade, pairs, fee_collector)->Ok_0;
            let (b, s) = (trade.buy_side.account, trade.sell_side.account);
            holdings_in(m2, b, token) + holdings_in(m2, s, token) + holdings_in(m2, fee_collector, token)
                == holdings_in(m, b, token) + holdings_in(m, s, token) + holdings_in(m, fee_collector, token)
        }),
        forall|u: Address, t: Address|
            u != trade.buy_side.account && u != trade.sell_side.account && u != fee_collector
                ==> #[trigger] crate::custody::storage_types::balances_in(
                pair_swapped(m, trade, pairs, fee_collector)->Ok_0,
                u,
                t,
            ) == crate::custody::storage_types::balances_in(m, u, t),
{
}

/// Conservation across a cancellation on the exchange: the reserve moves
/// back to the balance, so the user's total in that token is unchanged.
pub proof fn lemma_cancellation_conserves(
    p: PayOffWithSides,
    m: Map<AccountToken, UserBalances>,
    user: Address,
    order: crate::exchange::order::Order,
)
    requires
        p.cancellation_settled(m, user, order) is Ok,
    ensures
        ({
            let after = balances_in(p.cancellation_settled(m, user, order)->Ok_0, user, p.token_to_withdraw);
            let before = balances_in(m, user, p.token_to_withdraw);
            after.balance + after.balance_in_trading == before.balance + before.balance_in_trading
        }),
{
}

/// A withdraw request is settled once: after a decision on request `d.id`
/// went through, any further decision on it fails with
/// `ErrWithdrawRequestAlreadyProcessed`.
pub proof fn lemma_withdraw_settled_once(
    before: AssetManager,
    after: AssetManager,
    d: ExecutionWithdrawData,
    again: ExecutionWithdrawData,
)
    requires
        withdraw_decision_result(before, d) is Ok,
        withdraw_decided(before, after, d),
        again.id == d.id,
    ensures
        withdraw_decision_result(after, again) == Err::<(), CustodyError>(
            CustodyError::ErrWithdrawRequestAlreadyProcessed,
        ),
{
}

/// Monotone withdraw ids: in a well-formed custody state no request is
/// stored under the id the next request receives, so no id is reused.
pub proof fn lemma_next_withdraw_id_unused(s: AssetManager)
    requires
        s.wf(),
    ensures
        !s.withdraw_requests@.contains_key(s.withdraw_id),
{
}

/// Book ordering and first-in-first-out within a price: of two resting
/// orders at the same price, the one placed first (the lower id) is met
/// first by a taker, on either side.
pub proof fn lemma_fifo_within_price(book: OrderBook, maker_side: OrderSide, i: int, j: int)
    requires
        book.wf(),
        0 <= i < book.maker_entries(maker_side).len(),
        0 <= j < book.maker_entries(maker_side).len(),
        book.maker_entries(maker_side)[i].1.price == book.maker_entries(maker_side)[j].1.price,
        book.maker_entries(maker_side)[i].1.order_id < book.maker_entries(maker_side)[j].1.order_id,
    ensures
        i < j,
{
    lemma_maker_entries(book, maker_side);
    if j < i {
        assert(crate::exchange::orderbook::precedes(
            maker_side,
            book.maker_entries(maker_side)[j].1,
            book.maker_entries(maker_side)[i].1,
        ));
    }
}

/// Non-empty levels: every level of a well-formed side holds an order and
/// carries the price listed for it.
pub proof fn lemma_levels_nonempty(store: PriceLevelStore, i: int)
    requires
        store.wf(),
        0 <= i < store.levels@.len(),
    ensures
        !store.levels@[i].spec_is_empty(),
        store.levels_price@[i] == store.levels@[i].price,
{
}

/// Write-once keys: once a key slot holds a key, announcing into it again
/// fails.
pub proof fn lemma_key_written_once(keys: Map<UserKeySlot, [u8; 32]>, slot: UserKeySlot, key: [u8; 32])
    ensures
        announce_result(keys.insert(slot, key), slot) == Err::<(), CustodyError>(
            CustodyError::ErrPublicKeyAlreadyExist,
        ),
{
}

/// Setting the same listing status twice: once a token holds `status`,
/// setting it again fails with `ErrSameValueStored`.
pub proof fn lemma_same_status_twice(tokens: Map<u64, ListingStatus>, token: Address, status: ListingStatus)
    ensures
        token_status_result(true, tokens.insert(token, status), token, status) == Err::<
            (),
            CustodyError,
        >(CustodyError::ErrSameValueStored),
{
}

/// A deposit of `amount` followed by a withdrawal of the same amount
/// leaves the user's balances as they were (balances never go below zero,
/// which every operation keeps).
pub proof fn lemma_deposit_withdraw_round_trip(
    m: Map<AccountToken, UserBalances>,
    user: Address,
    token: Address,
    amount: i128,
)
    requires
        balances_in(m, user, token).balance >= 0,
        deposited(m, user, token, amount) is Ok,
    ensures
        withdrawn(deposited(m, user, token, amount)->Ok_0, user, token, amount) is Ok,
        balances_in(
            withdrawn(deposited(m, user, token, amount)->Ok_0, user, token, amount)->Ok_0,
            user,
            token,
        ) == balances_in(m, user, token),
{
}

/// Placing a limit order that matches nothing and then cancelling it
/// returns the taker's holding of the token it pays with to what it was:
/// the reserve taken at placement is exactly the one released.
pub proof fn lemma_place_cancel_round_trip(
    p: PayOffWithSides,
    m: Map<AccountToken, UserBalances>,
    order: NewOrder,
    user: Address,
    id: u64,
)
    requires
        p.token_to_withdraw != p.token_to_receive,
        0 < order.quantity,
        p.taker_settled(m, order, user, 0, 0, 0) is Ok,
        p.cancellation_settled(
            p.taker_settled(m, order, user, 0, 0, 0)->Ok_0,
            user,
            order.spec_into_order(user).spec_into_order(id),
        ) is Ok,
    ensures
        balances_in(
            p.cancellation_settled(
                p.taker_settled(m, order, user, 0, 0, 0)->Ok_0,
                user,
                order.spec_into_order(user).spec_into_order(id),
            )->Ok_0,
            user,
            p.token_to_withdraw,
        ) == balances_in(m, user, p.token_to_withdraw),
{
}

/// Planning is pure: two plans for the same taker against the same book
/// are the same plan.
pub proof fn lemma_replan_same(
    book: OrderBook,
    taker: NewOrder,
    side: OrderSide,
    order_type: OrderType,
    first: (Seq<crate::exchange::trading_ops::MakerFill>, u128),
    second: (Seq<crate::exchange::trading_ops::MakerFill>, u128),
)
    requires
        first == book_plan(book, taker, side, order_type),
        second == book_plan(book, taker, side, order_type),
    ensures
        first == second,
{
}

} // verus!
