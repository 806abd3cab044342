use vstd::prelude::*;

use crate::exchange::error::Error;
use crate::exchange::order::{Address, NewOrder, Order, OrderSide, OrderType};
use crate::exchange::orderbook::{OrderBook, OrderBookId};
use crate::exchange::payoff_sides::{amount_result, PayOffWithSides};
use crate::exchange::trading_ops::{book_after_placement, book_plan, filled_portions, place_order};
use crate::exchange::user_balance_manager::{BalanceLedger, UserBalances};
use crate::table::AccountToken;

verus! {

/// The taker's totals over the filled maker portions: quantity, what it
/// pays and what it receives.
pub open spec fn taker_totals(p: PayOffWithSides, filled: Seq<Order>) -> Result<(u128, i128, i128), Error>
    decreases filled.len(),
{
    if filled.len() == 0 {
        Ok((0, 0, 0))
    } else {
        match taker_totals(p, filled.drop_last()) {
            Err(e) => Err(e),
            Ok((q, w, r)) => {
                let o = filled.last();
                if q + o.quantity > u128::MAX {
                    Err(Error::IncorrectPrecisionCalculation)
                } else {
                    match amount_result(p.withdraw_calc(o.price, o.quantity)) {
                        Err(e) => Err(e),
                        Ok(wa) => if w + wa > i128::MAX {
                            Err(Error::IncorrectPrecisionCalculation)
                        } else {
                            match amount_result(p.receive_calc(o.price, o.quantity)) {
                                Err(e) => Err(e),
                                Ok(ra) => if r + ra > i128::MAX {
                                    Err(Error::IncorrectPrecisionCalculation)
                                } else {
                                    Ok(
                                        (
                                            (q + o.quantity) as u128,
                                            (w + wa) as i128,
                                            (r + ra) as i128,
                                        ),
                                    )
                                },
                            }
                        },
                    }
                }
            },
        }
    }
}

/// The quantity the taker keeps reserved for: all of a limit order, only
/// what filled of a market order, whose rest is dropped.
pub open spec fn reserved_order(order: NewOrder, order_type: OrderType, filled: u128) -> NewOrder {
    match order_type {
        OrderType::Limit => order,
        OrderType::Market => NewOrder { quantity: filled, ..order },
    }
}

/// Carries out one create or cancel on the book of a trading pair.
#[derive(Debug)]
pub struct OrderExecutor {
    pub pay_off: PayOffWithSides,
    pub order_book: OrderBook,
    pub trading_pair: (Address, Address),
    pub side: OrderSide,
}

impl OrderExecutor {
    /// Takes the pair's book as loaded from storage; fails when there is
    /// none.
    pub fn new(
        order_book: Option<OrderBook>,
        trading_pair: (Address, Address),
        base_token_decimals: u32,
        side: OrderSide,
    ) -> (r: Result<Self, Error>)
        ensures
            order_book is None ==> r == Err::<Self, Error>(Error::OrderBookNotFound),
            order_book matches Some(b) ==> r matches Ok(x) && x.order_book == b && x.trading_pair
                == trading_pair && x.side == side && x.pay_off == PayOffWithSides::new_spec(
                side,
                trading_pair,
                base_token_decimals,
            ),
    {
        match order_book {
            None => Err(Error::OrderBookNotFound),
            Some(order_book) => {
                let pay_off = PayOffWithSides::new(side, &trading_pair, base_token_decimals);
                Ok(Self { pay_off, order_book, trading_pair, side })
            },
        }
    }

    /// Places `order` for `user` and settles it: the taker pays for what
    /// filled and reserves for what rests, each maker is paid. Returns the
    /// resting id (`BuyId(0, 0)` when nothing rests) and the filled maker
    /// portions.
    pub fn create_order(
        &mut self,
        ledger: &mut BalanceLedger,
        order: NewOrder,
        user: Address,
        order_type: OrderType,
    ) -> (r: Result<(OrderBookId, Vec<Order>), Error>)
        requires
            old(self).order_book.wf(),
            old(self).order_book.orders_of(old(self).side).room_for(order.price),
            old(ledger).wf(),
        ensures
            final(self).order_book.wf(),
            final(ledger).wf(),
            final(self).pay_off == old(self).pay_off,
            final(self).side == old(self).side,
            final(self).trading_pair == old(self).trading_pair,
            forall|oix: OrderBookId| #[trigger]
                final(self).order_book.lookup(oix) == book_after_placement(
                    old(self).order_book,
                    order,
                    old(self).side,
                    order_type,
                    user,
                    oix,
                ),
            ({
                let plan = book_plan(old(self).order_book, order, old(self).side, order_type);
                let filled = filled_portions(plan.0);
                let p = old(self).pay_off;
                match taker_totals(p, filled) {
                    Err(e) => r == Err::<(OrderBookId, Vec<Order>), Error>(e),
                    Ok((fq, wa, ra)) => match p.taker_settled(
                        old(ledger)@,
                        reserved_order(order, order_type, fq),
                        user,
                        fq,
                        wa,
                        ra,
                    ) {
                        Err(e) => r == Err::<(OrderBookId, Vec<Order>), Error>(e),
                        Ok(m1) => match p.makers_settled(m1, filled) {
                            Err(e) => r == Err::<(OrderBookId, Vec<Order>), Error>(e),
                            Ok(m2) => r matches Ok((id, makers)) && final(ledger)@ == m2
                                && makers@ == filled && id == if order_type == OrderType::Limit
                                && plan.1 > 0 {
                                crate::exchange::orderbook::book_id(
                                    old(self).side,
                                    order.price,
                                    old(self).order_book.orders_of(old(self).side).next_id_at(
                                        order.price,
                                    ) as u64,
                                )
                            } else {
                                OrderBookId::BuyId(
                                    crate::exchange::orderbook::PriceLevelId { id: 0, price: 0 },
                                )
                            },
                        },
                    },
                }
            }),
    {
        let placed = place_order(&mut self.order_book, order_type, self.side, order, user);
        let (taker_order, maker_orders) = match placed {
            Ok(x) => x,
            Err(e) => return Err(e),
        };
        let ghost filled = maker_orders@;
        let mut total_filled_quantity: u128 = 0;
        let mut total_withdraw_amount: i128 = 0;
        let mut total_receive_amount: i128 = 0;
        let mut i: usize = 0;
        while i < maker_orders.len()
            invariant
                filled == maker_orders@,
                filled == filled_portions(book_plan(old(self).order_book, order, old(self).side, order_type).0),
                0 <= i <= filled.len(),
                self.order_book.wf(),
                forall|oix: OrderBookId| #[trigger]
                    self.order_book.lookup(oix) == book_after_placement(
                        old(self).order_book,
                        order,
                        old(self).side,
                        order_type,
                        user,
                        oix,
                    ),
                ledger.wf(),
                ledger@ == old(ledger)@,
                self.pay_off == old(self).pay_off,
                self.side == old(self).side,
                self.trading_pair == old(self).trading_pair,
                taker_totals(self.pay_off, filled.take(i as int)) == Ok::<(u128, i128, i128), Error>(
                    (total_filled_quantity, total_withdraw_amount, total_receive_amount),
                ),
            decreases filled.len() - i,
        {
            let o = maker_orders[i];
            proof {
                assert(filled.take(i + 1).drop_last() == filled.take(i as int));
                assert(filled.take(i + 1).last() == o);
                lemma_totals_prefix_fails(self.pay_off, filled, i + 1);
            }
            total_filled_quantity = match total_filled_quantity.checked_add(o.quantity) {
                Some(v) => v,
                None => return Err(Error::IncorrectPrecisionCalculation),
            };
            let wa = match self.pay_off.taker_withdraw_amount(o.price, o.quantity) {
                Ok(a) => a,
                Err(e) => return Err(e),
            };
            proof {
                self.pay_off.lemma_calc_nonneg(o.price, o.quantity);
                lemma_amount_nonneg(self.pay_off.withdraw_calc(o.price, o.quantity));
            }
            total_withdraw_amount = match total_withdraw_amount.checked_add(wa) {
                Some(v) => v,
                None => return Err(Error::IncorrectPrecisionCalculation),
            };
            let ra = match self.pay_off.taker_receive_amount(o.price, o.quantity) {
                Ok(a) => a,
                Err(e) => return Err(e),
            };
            proof {
                self.pay_off.lemma_calc_nonneg(o.price, o.quantity);
                lemma_amount_nonneg(self.pay_off.receive_calc(o.price, o.quantity));
            }
            total_receive_amount = match total_receive_amount.checked_add(ra) {
                Some(v) => v,
                None => return Err(Error::IncorrectPrecisionCalculation),
            };
            i += 1;
        }
        proof {
            assert(filled.take(i as int) == filled);
        }
        let reserved = match order_type {
            OrderType::Limit => order,
            OrderType::Market => NewOrder { quantity: total_filled_quantity, ..order },
        };
        match self.pay_off.pay_of_with_taker(
            ledger,
            &reserved,
            user,
            total_filled_quantity,
            total_withdraw_amount,
            total_receive_amount,
        ) {
            Ok(()) => {},
            Err(e) => return Err(e),
        }
        match self.pay_off.pay_off_with_makers(ledger, &maker_orders) {
            Ok(()) => {},
            Err(e) => return Err(e),
        }
        let id = match taker_order {
            Some((id, _)) => id,
            None => OrderBookId::buy_id(0, 0),
        };
        Ok((id, maker_orders))
    }

    /// Takes the order `order_id` of `user` off the book and returns its
    /// reserve to `user`. An order of another account is refused with
    /// `OrderNotFound`, leaving book and balances as they were.
    pub fn cancel_order(&mut self, ledger: &mut BalanceLedger, user: Address, order_id: OrderBookId) -> (r:
        Result<Order, Error>)
        requires
            old(self).order_book.wf(),
            old(ledger).wf(),
        ensures
            final(self).order_book.wf(),
            final(ledger).wf(),
            final(self).pay_off == old(self).pay_off,
            old(self).order_book.lookup(order_id) is None ==> r is Err,
            old(self).order_book.lookup(order_id) matches Some(o) ==> (o.account != user ==> r == Err::<
                Order,
                Error,
            >(Error::OrderNotFound) && final(self).order_book == old(self).order_book && final(ledger)@
                == old(ledger)@),
            old(self).order_book.lookup(order_id) matches Some(o) ==> o.account == user ==> match old(self).pay_off.cancellation_settled(
                old(ledger)@,
                user,
                o,
            ) {
                Ok(m) => r == Ok::<Order, Error>(o) && final(ledger)@ == m && (forall|x: OrderBookId| #[trigger]
                    final(self).order_book.lookup(x) == if x == order_id {
                        None
                    } else {
                        old(self).order_book.lookup(x)
                    }),
                Err(e) => r == Err::<Order, Error>(e),
            },
    {
        match self.order_book.try_get(order_id) {
            Ok(o) => {
                if o.account != user {
                    return Err(Error::OrderNotFound);
                }
            },
            Err(_) => {},
        }
        let order = match self.order_book.remove_order(order_id) {
            Ok(o) => o,
            Err(e) => return Err(e),
        };
        match self.pay_off.pay_off_for_cancellation(ledger, user, &order) {
            Ok(()) => Ok(order),
            Err(e) => Err(e),
        }
    }

    /// The book as it now stands, for the host to store.
    pub fn save_state(self) -> (r: OrderBook)
        ensures
            r == self.order_book,
    {
        self.order_book
    }
}

proof fn lemma_amount_nonneg(a: Option<int>)
    requires
        a matches Some(v) ==> 0 <= v <= i128::MAX,
    ensures
        amount_result(a) matches Ok(v) ==> v >= 0,
{
}

proof fn lemma_totals_prefix_fails(p: PayOffWithSides, filled: Seq<Order>, n: int)
    requires
        0 <= n <= filled.len(),
    ensures
        taker_totals(p, filled.take(n)) is Err ==> taker_totals(p, filled) == taker_totals(
            p,
            filled.take(n),
        ),
    decreases filled.len() - n,
{
    if n < filled.len() {
        lemma_totals_prefix_fails(p, filled, n + 1);
        assert(filled.take(n + 1).drop_last() == filled.take(n));
    } else {
        assert(filled.take(n) == filled);
    }
}

} // verus!
