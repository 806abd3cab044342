use spot_exchange::exchange::contract;
use spot_exchange::exchange::error::Error;
use spot_exchange::exchange::order::{NewOrder, Order, OrderSide, OrderType};
use spot_exchange::exchange::order_executor::OrderExecutor;
use spot_exchange::exchange::orderbook::{OrderBook, OrderBookId, PriceLevelId};
use spot_exchange::exchange::payoff_sides::{multiply_price_and_quantity, return_quantity, PayOffWithSides};
use spot_exchange::exchange::trading_ops::{fill_order, place_order, FillStatus};
use spot_exchange::exchange::user_balance_manager::{BalanceLedger, UserBalanceManager, UserBalances};

fn new_order(quantity: u128, price: u128) -> NewOrder {
    NewOrder { quantity, price, fee_amount: 1, fee_token_asset: 77 }
}

fn set_balances(ledger: &mut BalanceLedger, user: u64, token: u64, balance: i128, in_trading: i128) {
    UserBalanceManager::new(user, token)
        .write_user_balance(ledger, &UserBalances { balance, balance_in_trading: in_trading });
}

fn read(ledger: &BalanceLedger, user: u64, token: u64) -> UserBalances {
    UserBalanceManager::new(user, token).read_user_balance(ledger)
}

#[test]
fn test_place_limit_buy_order() {
    let mut order_book = OrderBook::new();
    let order = new_order(100, 50);
    let (placed_order, matched_orders) = place_order(&mut order_book, OrderType::Limit, OrderSide::BUY, order, 5).unwrap();
    assert!(matched_orders.is_empty());
    let (order_id, res_new_order) = placed_order.unwrap();
    assert_eq!(order, res_new_order);
    assert_eq!(order_id, OrderBookId::BuyId(PriceLevelId { id: 1, price: 50 }));
}

// A market order's unfilled rest is dropped, not rested.
#[test]
fn test_place_market_sell_order() {
    let mut order_book = OrderBook::new();
    let order = new_order(50, 100);
    let result = place_order(&mut order_book, OrderType::Market, OrderSide::SELL, order, 5);
    assert!(result.is_ok());
    let (placed_order, matched_orders) = result.unwrap();
    assert!(matched_orders.is_empty());
    assert!(placed_order.is_none());
    assert!(order_book.sell_orders.levels.is_empty());
}

#[test]
fn test_multiple_orders() {
    let mut order_book = OrderBook::new();
    let orders = vec![new_order(100, 50), new_order(200, 50)];
    for (i, order) in orders.into_iter().enumerate() {
        let (placed_order, matched_orders) = place_order(&mut order_book, OrderType::Limit, OrderSide::BUY, order, 5).unwrap();
        assert!(matched_orders.is_empty());
        let (order_id, res_new_order) = placed_order.unwrap();
        assert_eq!(order, res_new_order);
        assert_eq!(order_id, OrderBookId::BuyId(PriceLevelId { id: (i + 1) as u64, price: order.price }));
    }
}

#[test]
fn test_market_order_with_liquidity() {
    let mut order_book = OrderBook::new();
    for order in [new_order(50, 100), new_order(30, 105)] {
        let _ = place_order(&mut order_book, OrderType::Limit, OrderSide::SELL, order, 5);
    }
    let result = place_order(&mut order_book, OrderType::Market, OrderSide::BUY, new_order(60, 0), 5);
    assert!(result.is_ok());
    let (remaining_order, matched_orders) = result.unwrap();
    assert!(remaining_order.is_none());
    assert_eq!(matched_orders.len(), 2);
    assert_eq!(matched_orders[0].quantity, 50);
    assert_eq!(matched_orders[1].quantity, 10);
}

#[test]
fn test_limit_order_matching() {
    let mut order_book = OrderBook::new();
    let _ = place_order(&mut order_book, OrderType::Limit, OrderSide::SELL, new_order(100, 100), 5);
    let result = place_order(&mut order_book, OrderType::Limit, OrderSide::BUY, new_order(50, 105), 5);
    assert!(result.is_ok());
    let (remaining_order, matched_orders) = result.unwrap();
    assert!(remaining_order.is_none());
    assert_eq!(matched_orders.len(), 1);
    assert_eq!(matched_orders[0].quantity, 50);
    assert_eq!(matched_orders[0].price, 100);
}

#[test]
fn test_limit_order_higher_price_no_match() {
    let mut order_book = OrderBook::new();
    let _ = place_order(&mut order_book, OrderType::Limit, OrderSide::SELL, new_order(100, 100), 5);
    let limit_order = new_order(50, 95);
    let result = place_order(&mut order_book, OrderType::Limit, OrderSide::BUY, limit_order, 5);
    assert!(result.is_ok());
    let (remaining_order, matched_orders) = result.unwrap();
    assert!(matched_orders.is_empty());
    assert!(remaining_order.is_some());
    let (order_id, res_new_order) = remaining_order.unwrap();
    assert_eq!(res_new_order, limit_order);
    assert_eq!(order_id, OrderBookId::BuyId(PriceLevelId { id: 1, price: 95 }));
}

#[test]
fn test_partial_matches() {
    let mut order_book = OrderBook::new();
    for order in [new_order(40, 100), new_order(60, 110)] {
        let _ = place_order(&mut order_book, OrderType::Limit, OrderSide::SELL, order, 5);
    }
    let result = place_order(&mut order_book, OrderType::Market, OrderSide::BUY, new_order(70, 0), 5);
    assert!(result.is_ok());
    let (remaining_order, matched_orders) = result.unwrap();
    assert!(remaining_order.is_none());
    assert_eq!(matched_orders.len(), 2);
    assert_eq!(matched_orders[0].quantity, 40);
    assert_eq!(matched_orders[0].price, 100);
    assert_eq!(matched_orders[1].quantity, 30);
    assert_eq!(matched_orders[1].price, 110);
}

#[test]
fn test_high_frequency_matching() {
    let mut order_book = OrderBook::new();
    for order in [new_order(50, 100), new_order(70, 95)] {
        place_order(&mut order_book, OrderType::Limit, OrderSide::SELL, order, 5).unwrap();
    }
    assert!(place_order(&mut order_book, OrderType::Market, OrderSide::BUY, new_order(30, 0), 5).is_ok());
    assert!(place_order(&mut order_book, OrderType::Market, OrderSide::BUY, new_order(50, 0), 5).is_ok());
    let rest: Vec<(u128, u128)> =
        order_book.maker_orders_iter(OrderSide::SELL).iter().map(|(_, o)| (o.price, o.quantity)).collect();
    assert_eq!(rest, vec![(100, 40)]);
}

// A market buy on an empty book rests nothing, so the market sell that
// follows finds no buyer.
#[test]
fn test_crossed_market_orders() {
    let mut order_book = OrderBook::new();
    let buy_result = place_order(&mut order_book, OrderType::Market, OrderSide::BUY, new_order(100, 0), 5);
    let sell_result = place_order(&mut order_book, OrderType::Market, OrderSide::SELL, new_order(100, 0), 5);
    assert!(buy_result.is_ok());
    assert!(sell_result.is_ok());
    let (_, buy_matches) = buy_result.unwrap();
    let (_, sell_matches) = sell_result.unwrap();
    assert_eq!(buy_matches.len(), 0);
    assert_eq!(sell_matches.len(), 0);
}

#[test]
fn test_exact_match_price_and_quantity() {
    let mut order_book = OrderBook::new();
    let _ = place_order(&mut order_book, OrderType::Limit, OrderSide::SELL, new_order(100, 50), 5);
    let result = place_order(&mut order_book, OrderType::Limit, OrderSide::BUY, new_order(100, 50), 5);
    assert!(result.is_ok());
    let (remaining_order, matched_orders) = result.unwrap();
    assert!(remaining_order.is_none());
    assert_eq!(matched_orders.len(), 1);
    assert_eq!(matched_orders[0].quantity, 100);
    assert_eq!(matched_orders[0].price, 50);
    assert!(order_book.sell_orders.levels.is_empty());
    assert!(order_book.buy_orders.levels.is_empty());
}

#[test]
fn test_partial_fill_with_multiple_maker_orders() {
    let mut order_book = OrderBook::new();
    for order in [new_order(40, 50), new_order(60, 55), new_order(50, 60)] {
        let _ = place_order(&mut order_book, OrderType::Limit, OrderSide::SELL, order, 5);
    }
    let result = place_order(&mut order_book, OrderType::Market, OrderSide::BUY, new_order(80, 0), 5);
    assert!(result.is_ok());
    let (remaining_order, matched_orders) = result.unwrap();
    assert!(remaining_order.is_none());
    assert_eq!(matched_orders.len(), 2);
    assert_eq!(matched_orders[0].quantity, 40);
    assert_eq!(matched_orders[0].price, 50);
    assert_eq!(matched_orders[1].quantity, 40);
    assert_eq!(matched_orders[1].price, 55);
    let remaining_maker_order = order_book.try_get(OrderBookId::SellId(PriceLevelId { id: 1, price: 55 }));
    assert!(remaining_maker_order.is_ok());
    assert_eq!(remaining_maker_order.unwrap().quantity, 20);
    let remaining_maker_order = order_book.try_get(OrderBookId::SellId(PriceLevelId { id: 1, price: 60 }));
    assert!(remaining_maker_order.is_ok());
    assert_eq!(remaining_maker_order.unwrap().quantity, 50);
}

#[test]
fn test_partial_fill_with_multiple_maker_orders_of_same_price() {
    let mut order_book = OrderBook::new();
    for order in [new_order(40, 55), new_order(60, 55), new_order(50, 55)] {
        let _ = place_order(&mut order_book, OrderType::Limit, OrderSide::SELL, order, 5);
    }
    let result = place_order(&mut order_book, OrderType::Market, OrderSide::BUY, new_order(80, 60), 5);
    assert!(result.is_ok());
    let (remaining_order, matched_orders) = result.unwrap();
    assert!(remaining_order.is_none());
    assert_eq!(matched_orders.len(), 2);
    assert_eq!(matched_orders[0].quantity, 40);
    assert_eq!(matched_orders[0].price, 55);
    assert_eq!(matched_orders[1].quantity, 40);
    assert_eq!(matched_orders[1].price, 55);
    let remaining_maker_order = order_book.try_get(OrderBookId::SellId(PriceLevelId { id: 2, price: 55 }));
    assert!(remaining_maker_order.is_ok());
    assert_eq!(remaining_maker_order.unwrap().quantity, 20);
    let remaining_maker_order = order_book.try_get(OrderBookId::SellId(PriceLevelId { id: 3, price: 55 }));
    assert!(remaining_maker_order.is_ok());
    assert_eq!(remaining_maker_order.unwrap().quantity, 50);
}

#[test]
fn market_order_with_thin_book_fills_what_it_can() {
    let mut order_book = OrderBook::new();
    let _ = place_order(&mut order_book, OrderType::Limit, OrderSide::SELL, new_order(30, 10), 5);
    let (placed, filled) = place_order(&mut order_book, OrderType::Market, OrderSide::BUY, new_order(50, 0), 6).unwrap();
    assert!(placed.is_none());
    assert_eq!(filled.len(), 1);
    assert_eq!(filled[0].quantity, 30);
    assert!(order_book.sell_orders.levels.is_empty());
    assert!(order_book.buy_orders.levels.is_empty());
}

#[test]
fn limit_order_without_liquidity_rests_in_full() {
    let mut order_book = OrderBook::new();
    let (placed, filled) = place_order(&mut order_book, OrderType::Limit, OrderSide::SELL, new_order(25, 10), 6).unwrap();
    assert!(filled.is_empty());
    let (id, rest) = placed.unwrap();
    assert_eq!(rest.quantity, 25);
    assert_eq!(order_book.try_get(id).unwrap().quantity, 25);
    assert_eq!(order_book.try_get(id).unwrap().account, 6);
}

#[test]
fn limit_order_partly_filled_rests_the_rest() {
    let mut order_book = OrderBook::new();
    let _ = place_order(&mut order_book, OrderType::Limit, OrderSide::SELL, new_order(30, 10), 5);
    let (placed, filled) = place_order(&mut order_book, OrderType::Limit, OrderSide::BUY, new_order(50, 12), 6).unwrap();
    assert_eq!(filled.len(), 1);
    let (id, rest) = placed.unwrap();
    assert_eq!(id, OrderBookId::buy_id(12, 1));
    assert_eq!(rest.quantity, 20);
}

#[test]
fn plan_does_not_change_the_book_and_repeats() {
    let mut order_book = OrderBook::new();
    for order in [new_order(40, 50), new_order(60, 55)] {
        let _ = place_order(&mut order_book, OrderType::Limit, OrderSide::SELL, order, 5);
    }
    let first = fill_order(&order_book, new_order(80, 0), OrderSide::BUY, OrderType::Market).unwrap();
    let second = fill_order(&order_book, new_order(80, 0), OrderSide::BUY, OrderType::Market).unwrap();
    assert_eq!(first.maker_fills, second.maker_fills);
    assert_eq!(first.taker_fill_status, FillStatus::Complete);
    assert_eq!(first.maker_fills[0].fill_type, FillStatus::Complete);
    assert_eq!(first.maker_fills[1].fill_type, FillStatus::Partial);
    assert_eq!(first.maker_fills[1].fill_amount, 40);
    assert_eq!(order_book.try_get(OrderBookId::sell_id(50, 1)).unwrap().quantity, 40);
    let none = fill_order(&order_book, new_order(5, 10), OrderSide::BUY, OrderType::Limit).unwrap();
    assert!(none.maker_fills.is_empty());
    assert_eq!(none.taker_fill_status, FillStatus::Unfilled);
    let partial = fill_order(&order_book, new_order(150, 0), OrderSide::BUY, OrderType::Market).unwrap();
    assert_eq!(partial.taker_fill_status, FillStatus::Partial);
}

#[test]
fn test_payoff_initialization_buy_side() {
    let (token_base, token_quote) = (10, 20);
    let payoff = PayOffWithSides::new(OrderSide::BUY, &(token_base, token_quote), 18);
    assert_eq!(payoff.taker_withdraw_token(), token_quote);
    assert_eq!(payoff.taker_receive_token(), token_base);
    assert_eq!(payoff.maker_withdraw_token(), token_base);
    assert_eq!(payoff.maker_receive_token(), token_quote);
}

#[test]
fn test_payoff_initialization_sell_side() {
    let (token_base, token_quote) = (10, 20);
    let payoff = PayOffWithSides::new(OrderSide::SELL, &(token_base, token_quote), 18);
    assert_eq!(payoff.taker_withdraw_token(), token_base);
    assert_eq!(payoff.taker_receive_token(), token_quote);
    assert_eq!(payoff.maker_withdraw_token(), token_quote);
    assert_eq!(payoff.maker_receive_token(), token_base);
}

#[test]
fn test_multiply_price_and_quantity() {
    let result = multiply_price_and_quantity(100, 5, 2);
    assert_eq!(result, Ok(5));
    let result = multiply_price_and_quantity(100, 5, 0);
    assert_eq!(result, Ok(500));
}

#[test]
fn multiply_truncates_and_detects_overflow() {
    assert_eq!(multiply_price_and_quantity(7, 3, 1), Ok(2));
    assert_eq!(multiply_price_and_quantity(u128::MAX, 2, 0), Err(Error::IncorrectPrecisionCalculation));
    assert_eq!(multiply_price_and_quantity(1, 1, 39), Err(Error::IncorrectPrecisionCalculation));
    assert_eq!(multiply_price_and_quantity(10, 10, 38), Ok(0));
    assert_eq!(multiply_price_and_quantity(u128::MAX, 1, 0), Err(Error::IncorrectPrecisionCalculation));
}

#[test]
fn test_return_quantity() {
    let result = return_quantity(0, 10, 0);
    assert_eq!(result, Ok(10));
    assert_eq!(return_quantity(0, u128::MAX, 0), Err(Error::IncorrectPrecisionCalculation));
}

#[test]
fn test_pay_off_with_makers() {
    let (token_base, token_quote) = (10, 20);
    let payoff = PayOffWithSides::new(OrderSide::BUY, &(token_base, token_quote), 18);
    let maker_orders = vec![
        Order { order_id: 1, account: 31, price: 100, quantity: 5, fee_amount: 1, fee_token_asset: token_quote },
        Order { order_id: 2, account: 32, price: 150, quantity: 10, fee_amount: 1, fee_token_asset: token_quote },
    ];
    let mut ledger = BalanceLedger::new();
    for order in &maker_orders {
        set_balances(&mut ledger, order.account, token_base, 1000, order.quantity as i128);
        set_balances(&mut ledger, order.account, token_quote, 500, 0);
    }
    let result = payoff.pay_off_with_makers(&mut ledger, &maker_orders);
    assert!(result.is_ok());
    for order in maker_orders {
        let withdraw_balance = read(&ledger, order.account, token_base);
        let receive_balance = read(&ledger, order.account, token_quote);
        let receive_amount = payoff.maker_receive_amount(order.price, order.quantity).unwrap();
        assert_eq!(withdraw_balance.balance_in_trading, 0);
        assert_eq!(withdraw_balance.balance, 1000);
        assert_eq!(receive_balance.balance - receive_amount, 500);
        assert_eq!(receive_balance.balance_in_trading, 0);
    }
}

#[test]
fn test_pay_off_with_taker() {
    let (token_base, token_quote) = (10, 20);
    let payoff = PayOffWithSides::new(OrderSide::BUY, &(token_base, token_quote), 0);
    let taker_account = 40;
    let order = NewOrder { quantity: 10, price: 150, fee_amount: 1, fee_token_asset: token_quote };
    let mut ledger = BalanceLedger::new();
    set_balances(&mut ledger, taker_account, token_base, 500, 0);
    set_balances(&mut ledger, taker_account, token_quote, 1500, 0);
    payoff.pay_of_with_taker(&mut ledger, &order, taker_account, 6, 6 * 150, 5).unwrap();
    let withdraw_balance = read(&ledger, taker_account, token_quote);
    let receive_balance = read(&ledger, taker_account, token_base);
    assert_eq!(withdraw_balance.balance, 0);
    assert_eq!(withdraw_balance.balance_in_trading, 4 * 150);
    assert_eq!(receive_balance.balance, 500 + 5);
    assert_eq!(receive_balance.balance_in_trading, 0);
}

#[test]
fn taker_short_of_funds_is_refused() {
    let payoff = PayOffWithSides::new(OrderSide::BUY, &(10, 20), 0);
    let order = NewOrder { quantity: 10, price: 150, fee_amount: 1, fee_token_asset: 20 };
    let mut ledger = BalanceLedger::new();
    set_balances(&mut ledger, 40, 20, 100, 0);
    assert_eq!(payoff.pay_of_with_taker(&mut ledger, &order, 40, 0, 0, 0), Err(Error::BalanceNotEnough));
}

#[test]
fn test_pay_off_for_cancellation() {
    let (token_base, token_quote) = (10, 20);
    let payoff = PayOffWithSides::new(OrderSide::SELL, &(token_base, token_quote), 18);
    let user = 50;
    let order = Order { order_id: 1, account: user, price: 100, quantity: 5, fee_amount: 1, fee_token_asset: token_quote };
    let mut ledger = BalanceLedger::new();
    set_balances(&mut ledger, user, token_base, 1000, 500);
    payoff.pay_off_for_cancellation(&mut ledger, user, &order).unwrap();
    let balances = read(&ledger, user, token_base);
    let token_trading_amount = payoff.taker_withdraw_amount(order.price, order.quantity).unwrap();
    assert_eq!(balances.balance, 1000 + token_trading_amount);
    assert_eq!(balances.balance_in_trading, 500 - token_trading_amount);
}

fn executor(side: OrderSide, decimals: u32) -> OrderExecutor {
    OrderExecutor::new(Some(OrderBook::new()), (10, 20), decimals, side).unwrap()
}

#[test]
fn test_order_executor_initialization() {
    let trading_pair = (10, 20);
    let executor = OrderExecutor::new(Some(OrderBook::new()), trading_pair, 18, OrderSide::BUY);
    assert!(executor.is_ok());
    let executor = executor.unwrap();
    assert_eq!(executor.trading_pair, trading_pair);
    assert_eq!(executor.side, OrderSide::BUY);
    assert_eq!(OrderExecutor::new(None, trading_pair, 18, OrderSide::BUY).unwrap_err(), Error::OrderBookNotFound);
}

#[test]
fn test_create_order() {
    let mut executor = executor(OrderSide::BUY, 18);
    let mut ledger = BalanceLedger::new();
    let user = 60;
    set_balances(&mut ledger, user, 10, 500, 0);
    set_balances(&mut ledger, user, 20, 1000, 0);
    let result = executor.create_order(&mut ledger, NewOrder { quantity: 10, price: 100, fee_amount: 1, fee_token_asset: 20 }, user, OrderType::Limit);
    assert!(result.is_ok());
    let (order_book_id, maker_orders) = result.unwrap();
    assert!(maker_orders.is_empty());
    assert!(matches!(order_book_id, OrderBookId::BuyId(PriceLevelId { id: 1, price: 100 })));
}

#[test]
fn test_cancel_order() {
    let mut executor = executor(OrderSide::BUY, 18);
    let mut ledger = BalanceLedger::new();
    let user = 60;
    set_balances(&mut ledger, user, 10, 500, 0);
    set_balances(&mut ledger, user, 20, 1000, 0);
    let order = NewOrder { quantity: 10, price: 100, fee_amount: 1, fee_token_asset: 20 };
    let (order_book_id, _) = executor.create_order(&mut ledger, order, user, OrderType::Limit).unwrap();
    let result = executor.cancel_order(&mut ledger, user, order_book_id);
    assert!(result.is_ok());
    let canceled_order = result.unwrap();
    assert_eq!(canceled_order.quantity, order.quantity);
    assert_eq!(canceled_order.price, order.price);
}

#[test]
fn test_save_state() {
    let mut executor = executor(OrderSide::BUY, 18);
    let mut ledger = BalanceLedger::new();
    let user = 60;
    set_balances(&mut ledger, user, 10, 500, 0);
    set_balances(&mut ledger, user, 20, 1000, 0);
    let order = NewOrder { quantity: 10, price: 100, fee_amount: 1, fee_token_asset: 20 };
    let (order_id, _) = executor.create_order(&mut ledger, order, user, OrderType::Limit).unwrap();
    let stored_order_book = executor.save_state();
    assert!(stored_order_book.try_get(order_id).is_ok());
}

#[test]
fn limit_below_best_ask_rests_and_reserves_quote() {
    let mut ledger = BalanceLedger::new();
    set_balances(&mut ledger, 1, 10, 1000, 0);
    set_balances(&mut ledger, 2, 20, 10_000, 0);
    let mut seller = executor(OrderSide::SELL, 0);
    seller.create_order(&mut ledger, new_order(100, 100), 1, OrderType::Limit).unwrap();
    let mut buyer = OrderExecutor::new(Some(seller.save_state()), (10, 20), 0, OrderSide::BUY).unwrap();
    let (id, filled) = buyer.create_order(&mut ledger, new_order(50, 95), 2, OrderType::Limit).unwrap();
    assert!(filled.is_empty());
    assert_eq!(id, OrderBookId::BuyId(PriceLevelId { id: 1, price: 95 }));
    assert_eq!(read(&ledger, 2, 20), UserBalances { balance: 10_000 - 4750, balance_in_trading: 4750 });
    assert_eq!(read(&ledger, 1, 10), UserBalances { balance: 900, balance_in_trading: 100 });
}

#[test]
fn matched_orders_settle_both_sides() {
    let mut ledger = BalanceLedger::new();
    set_balances(&mut ledger, 1, 10, 100, 0);
    set_balances(&mut ledger, 2, 20, 10_000, 0);
    let mut seller = executor(OrderSide::SELL, 0);
    seller.create_order(&mut ledger, new_order(100, 50), 1, OrderType::Limit).unwrap();
    let mut buyer = OrderExecutor::new(Some(seller.save_state()), (10, 20), 0, OrderSide::BUY).unwrap();
    let (id, filled) = buyer.create_order(&mut ledger, new_order(100, 50), 2, OrderType::Limit).unwrap();
    assert_eq!(id, OrderBookId::buy_id(0, 0));
    assert_eq!(filled.len(), 1);
    assert_eq!((filled[0].quantity, filled[0].price), (100, 50));
    assert_eq!(read(&ledger, 2, 20), UserBalances { balance: 5000, balance_in_trading: 0 });
    assert_eq!(read(&ledger, 2, 10), UserBalances { balance: 100, balance_in_trading: 0 });
    assert_eq!(read(&ledger, 1, 10), UserBalances { balance: 0, balance_in_trading: 0 });
    assert_eq!(read(&ledger, 1, 20), UserBalances { balance: 5000, balance_in_trading: 0 });
    let book = buyer.save_state();
    assert!(book.buy_orders.levels.is_empty() && book.sell_orders.levels.is_empty());
}

#[test]
fn place_then_cancel_restores_balances() {
    let mut ledger = BalanceLedger::new();
    set_balances(&mut ledger, 2, 20, 10_000, 0);
    let mut buyer = executor(OrderSide::BUY, 1);
    let (id, _) = buyer.create_order(&mut ledger, new_order(50, 95), 2, OrderType::Limit).unwrap();
    assert_eq!(read(&ledger, 2, 20), UserBalances { balance: 10_000 - 475, balance_in_trading: 475 });
    buyer.cancel_order(&mut ledger, 2, id).unwrap();
    assert_eq!(read(&ledger, 2, 20), UserBalances { balance: 10_000, balance_in_trading: 0 });
    assert!(buyer.cancel_order(&mut ledger, 2, id).is_err());
}

#[test]
fn exchange_deposit_and_withdraw() {
    let mut ledger = BalanceLedger::new();
    assert_eq!(contract::deposit(&mut ledger, 1, 10, 0), Err(Error::AmountMustBePositive));
    assert_eq!(contract::deposit(&mut ledger, 1, 10, 25).unwrap().balance, 25);
    assert_eq!(contract::withdraw(&mut ledger, 1, 10, 26), Err(Error::BalanceNotEnough));
    assert_eq!(contract::withdraw(&mut ledger, 1, 10, 25).unwrap().balance, 0);
    assert_eq!(contract::balances(&ledger, 1, 10), UserBalances { balance: 0, balance_in_trading: 0 });
    assert_eq!(Error::OrderBookNotFound.code(), 17);
}

#[test]
fn cancel_by_another_account_is_refused() {
    let mut ledger = BalanceLedger::new();
    set_balances(&mut ledger, 2, 20, 10_000, 0);
    let mut buyer = executor(OrderSide::BUY, 1);
    let (id, _) = buyer.create_order(&mut ledger, new_order(50, 95), 2, OrderType::Limit).unwrap();
    assert_eq!(buyer.cancel_order(&mut ledger, 3, id), Err(Error::OrderNotFound));
    assert_eq!(read(&ledger, 3, 20), UserBalances { balance: 0, balance_in_trading: 0 });
    assert_eq!(read(&ledger, 2, 20), UserBalances { balance: 10_000 - 475, balance_in_trading: 475 });
    assert!(buyer.order_book.try_get(id).is_ok());
}
