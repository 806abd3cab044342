use spot_exchange::exchange::error::Error;
use spot_exchange::exchange::order::{NewAccountOrder, Order, OrderSide};
use spot_exchange::exchange::orderbook::{OrderBook, OrderBookId, PriceLevelId};
use spot_exchange::exchange::price_level_store::PriceLevelStore;
use spot_exchange::exchange::price_store::PriceStore;

fn account_order(account: u64, price: u128, quantity: u128, fee_token: u64) -> NewAccountOrder {
    NewAccountOrder { account, price, quantity, fee_amount: 0, fee_token_asset: fee_token }
}

#[test]
fn test_create_price_store() {
    let price_store = PriceStore::new(100);
    assert_eq!(price_store.price, 100);
    assert!(price_store.orders.is_empty());
    assert!(price_store.iter().is_empty());
    assert!(price_store.is_empty());
}

#[test]
fn test_add_order() {
    let mut price_store = PriceStore::new(100);
    let order = account_order(1, 100, 50, 2);
    let order_id = price_store.add_order(order);
    assert_eq!(order_id, 1);
    assert!(!price_store.is_empty());
    assert_eq!(price_store.orders.len(), 1);
    assert_eq!(price_store.iter().len(), 1);
    let retrieved_order = price_store.try_get(order_id);
    assert!(retrieved_order.is_ok());
    assert_eq!(retrieved_order.unwrap().quantity, 50);
}

#[test]
fn price_store_test_remove_order() {
    let mut price_store = PriceStore::new(100);
    let order_id = price_store.add_order(account_order(1, 100, 50, 2));
    let removed_order = price_store.remove_order(order_id);
    assert!(removed_order.is_some());
    assert_eq!(removed_order.unwrap().quantity, 50);
    assert!(price_store.try_get(order_id).is_err());
    assert!(price_store.is_empty());
}

#[test]
fn price_store_test_remove_order_with_multiple_orders() {
    let mut price_store = PriceStore::new(100);
    let order1_id = price_store.add_order(account_order(1, 100, 50, 2));
    let order2_id = price_store.add_order(account_order(3, 100, 30, 4));
    let removed_order = price_store.remove_order(order1_id);
    assert!(removed_order.is_some());
    assert_eq!(removed_order.unwrap().quantity, 50);
    assert!(price_store.try_get(order1_id).is_err());
    assert!(!price_store.is_empty());
    let remaining_order = price_store.try_get(order2_id);
    assert!(remaining_order.is_ok());
    assert_eq!(remaining_order.unwrap().quantity, 30);
}

#[test]
fn price_store_test_update_order() {
    let mut price_store = PriceStore::new(100);
    let order_id = price_store.add_order(account_order(1, 100, 50, 2));
    let mut updated_order = price_store.try_get(order_id).unwrap();
    updated_order.quantity = 100;
    let update_result = price_store.update_order(order_id, updated_order);
    assert!(update_result.is_some());
    let retrieved_order = price_store.try_get(order_id);
    assert!(retrieved_order.is_ok());
    assert_eq!(retrieved_order.unwrap().quantity, 100);
}

#[test]
fn test_iter() {
    let mut price_store = PriceStore::new(100);
    price_store.add_order(account_order(1, 100, 50, 2));
    price_store.add_order(account_order(3, 100, 30, 4));
    let orders = price_store.iter();
    let mut iter = orders.iter();
    let first_order = iter.next();
    let second_order = iter.next();
    let third_order = iter.next();
    assert!(first_order.is_some());
    assert_eq!(first_order.unwrap().quantity, 50);
    assert!(second_order.is_some());
    assert_eq!(second_order.unwrap().quantity, 30);
    assert!(third_order.is_none());
}

#[test]
fn price_store_keeps_ids_after_removal() {
    let mut price_store = PriceStore::new(7);
    let a = price_store.add_order(account_order(1, 7, 1, 2));
    let b = price_store.add_order(account_order(1, 7, 2, 2));
    price_store.remove_order(a);
    let c = price_store.add_order(account_order(1, 7, 3, 2));
    assert_eq!((a, b, c), (1, 2, 3));
    assert_eq!(price_store.try_get(b).unwrap().quantity, 2);
    assert!(price_store.remove_order(a).is_none());
    assert_eq!(price_store.iter().iter().map(|o| o.order_id).collect::<Vec<_>>(), vec![2, 3]);
}

#[test]
fn test_price_level_store_initialization() {
    let store = PriceLevelStore::new();
    assert!(store.levels.is_empty());
}

#[test]
fn test_push_order() {
    let mut store = PriceLevelStore::new();
    let order = account_order(1, 100, 50, 2);
    let order_id = store.push_order(order);
    assert_eq!(store.levels.len(), 1);
    assert!(store.levels_price.binary_search(&100).is_ok());
    assert_eq!(order_id, 1);
    let stored_order = store.try_get(order.price, order_id).unwrap();
    assert_eq!(stored_order.price, order.price);
    assert_eq!(stored_order.quantity, order.quantity);
}

#[test]
fn test_push_multiple_orders_same_price() {
    let mut store = PriceLevelStore::new();
    let order1 = account_order(1, 100, 50, 2);
    let order2 = account_order(3, 100, 30, 4);
    let order_id1 = store.push_order(order1);
    let order_id2 = store.push_order(order2);
    assert_eq!(store.levels.len(), 1);
    assert!(store.levels_price.binary_search(&100).is_ok());
    assert_ne!(order_id1, order_id2);
    let stored_order1 = store.try_get(order1.price, order_id1).unwrap();
    let stored_order2 = store.try_get(order2.price, order_id2).unwrap();
    assert_eq!(stored_order1.quantity, 50);
    assert_eq!(stored_order2.quantity, 30);
}

#[test]
fn test_push_orders_different_prices() {
    let mut store = PriceLevelStore::new();
    let order1 = account_order(1, 100, 50, 2);
    let order2 = account_order(3, 110, 30, 4);
    store.push_order(order1);
    store.push_order(order2);
    assert_eq!(store.levels.len(), 2);
    assert!(store.levels_price.binary_search(&100).is_ok());
    assert!(store.levels_price.binary_search(&110).is_ok());
    let stored_order1 = store.try_get(order1.price, 1).unwrap();
    let stored_order2 = store.try_get(order2.price, 1).unwrap();
    assert_eq!(stored_order1.quantity, 50);
    assert_eq!(stored_order2.quantity, 30);
}

#[test]
fn price_level_store_test_update_order() {
    let mut store = PriceLevelStore::new();
    let account = 9;
    let order_id = store.push_order(account_order(account, 100, 50, 2));
    let updated_order = Order {
        price: 100,
        quantity: 30,
        order_id,
        account,
        fee_amount: 0,
        fee_token_asset: 5,
    };
    let price_id = PriceLevelId { id: order_id, price: 100 };
    let result = store.update_order(price_id, updated_order);
    assert!(result.is_some());
    let stored_order = store.try_get(100, order_id).unwrap();
    assert_eq!(stored_order.quantity, 30);
}

#[test]
fn price_level_store_test_remove_order() {
    let mut store = PriceLevelStore::new();
    let order_id = store.push_order(account_order(1, 100, 50, 2));
    let removed_order = store.remove_order(100, order_id);
    assert!(removed_order.is_ok());
    assert_eq!(removed_order.unwrap().quantity, 50);
    assert!(store.levels.is_empty());
    assert!(store.levels_price.is_empty());
}

#[test]
fn price_level_store_test_remove_order_with_multiple_orders() {
    let mut store = PriceLevelStore::new();
    let order1_id = store.push_order(account_order(1, 100, 50, 2));
    let order2_id = store.push_order(account_order(3, 100, 30, 4));
    let removed_order = store.remove_order(100, order1_id);
    assert!(removed_order.is_ok());
    assert_eq!(removed_order.unwrap().quantity, 50);
    assert!(store.try_get(100, order1_id).is_err());
    let remaining_order = store.try_get(100, order2_id);
    assert!(remaining_order.is_ok());
    assert_eq!(remaining_order.unwrap().quantity, 30);
}

#[test]
fn test_remove_order_with_price_node_deletion() {
    let mut store = PriceLevelStore::new();
    let order1_id = store.push_order(account_order(1, 100, 50, 2));
    let order2_id = store.push_order(account_order(3, 200, 30, 4));
    let removed_order = store.remove_order(100, order1_id);
    assert!(removed_order.is_ok());
    assert_eq!(removed_order.unwrap().quantity, 50);
    assert!(store.try_get(100, order1_id).is_err());
    assert!(store.levels_price.binary_search(&100).is_err());
    let remaining_order = store.try_get(200, order2_id);
    assert!(remaining_order.is_ok());
    assert_eq!(remaining_order.unwrap().quantity, 30);
    assert!(store.levels_price.binary_search(&200).is_ok());
}

#[test]
fn test_iterate_levels() {
    let mut store = PriceLevelStore::new();
    for order in [account_order(1, 100, 50, 2), account_order(3, 110, 30, 4)] {
        store.push_order(order);
    }
    let mut iter = store.levels.iter();
    let first_level = iter.next().unwrap();
    let second_level = iter.next().unwrap();
    assert_eq!(first_level.price, 100);
    assert_eq!(second_level.price, 110);
    let mut iter_rev = store.levels.iter().rev();
    let first_level_rev = iter_rev.next().unwrap();
    let second_level_rev = iter_rev.next().unwrap();
    assert_eq!(first_level_rev.price, 110);
    assert_eq!(second_level_rev.price, 100);
}

#[test]
fn test_remove_last_order_at_price() {
    let mut store = PriceLevelStore::new();
    let order_id = store.push_order(account_order(1, 100, 50, 2));
    let _ = store.remove_order(100, order_id);
    assert!(store.levels.is_empty());
    assert!(store.levels_price.is_empty());
}

#[test]
fn test_add_orders_in_price_decrease_order() {
    let mut price_level_store = PriceLevelStore::new();
    let account = 4;
    let order_1 = NewAccountOrder { account, quantity: 50, price: 100, fee_amount: 1, fee_token_asset: 8 };
    let order_2 = NewAccountOrder { account, quantity: 70, price: 95, fee_amount: 1, fee_token_asset: 8 };
    price_level_store.push_order(order_1);
    price_level_store.push_order(order_2);
    let order = price_level_store.try_get(95, 1).unwrap();
    assert_eq!(order.quantity, order_2.quantity);
    let order = price_level_store.try_get(100, 1).unwrap();
    assert_eq!(order.quantity, order_1.quantity);
    assert_eq!(price_level_store.levels_price, vec![95, 100]);
}

#[test]
fn level_store_errors_name_the_missing_part() {
    let mut store = PriceLevelStore::new();
    let id = store.push_order(account_order(1, 100, 5, 2));
    assert_eq!(store.remove_order(101, id).unwrap_err(), Error::LevelsStorePriceNotFound);
    assert_eq!(store.remove_order(100, id + 1).unwrap_err(), Error::LevelsStoreRemoveFailed);
    assert_eq!(store.try_get(101, id).unwrap_err(), Error::LevelsStorePriceNotFound);
    assert_eq!(store.try_get(100, id + 1).unwrap_err(), Error::PriceStoreInvalidIndex);
    assert_eq!(store.get_orders(100).len(), 1);
}

#[test]
fn test_order_book_initialization() {
    let order_book = OrderBook::new();
    assert!(order_book.buy_orders.levels.is_empty());
    assert!(order_book.sell_orders.levels.is_empty());
}

#[test]
fn test_add_buy_order() {
    let mut order_book = OrderBook::new();
    let order = account_order(1, 100, 50, 2);
    let order_id = order_book.add_buy_order(order);
    assert!(matches!(order_id, OrderBookId::BuyId(_)));
    let stored_order = order_book.try_get(order_id).unwrap();
    assert_eq!(stored_order.price, order.price);
    assert_eq!(stored_order.quantity, order.quantity);
}

#[test]
fn test_add_sell_order() {
    let mut order_book = OrderBook::new();
    let order = account_order(1, 100, 30, 2);
    let order_id = order_book.add_sell_order(order);
    assert!(matches!(order_id, OrderBookId::SellId(_)));
    let stored_order = order_book.try_get(order_id).unwrap();
    assert_eq!(stored_order.price, order.price);
    assert_eq!(stored_order.quantity, order.quantity);
}

#[test]
fn test_try_get_order() {
    let mut order_book = OrderBook::new();
    let order_id = order_book.add_buy_order(account_order(1, 100, 50, 2));
    let stored_order = order_book.try_get(order_id).unwrap();
    assert_eq!(stored_order.price, 100);
    assert_eq!(stored_order.quantity, 50);
}

#[test]
fn orderbook_test_remove_order() {
    let mut order_book = OrderBook::new();
    let order_id = order_book.add_buy_order(account_order(1, 100, 50, 2));
    let removed_order = order_book.remove_order(order_id);
    assert!(removed_order.is_ok());
    assert_eq!(removed_order.unwrap().quantity, 50);
    assert!(order_book.try_get(order_id).is_err());
}

#[test]
fn orderbook_test_update_order() {
    let mut order_book = OrderBook::new();
    let account = 3;
    let order_id = order_book.add_buy_order(account_order(account, 100, 50, 2));
    let updated_order = Order {
        price: 100,
        quantity: 30,
        order_id: 1,
        account,
        fee_amount: 0,
        fee_token_asset: 6,
    };
    let result = order_book.update_order(order_id, updated_order);
    assert!(result.is_some());
    let stored_order = order_book.try_get(order_id).unwrap();
    assert_eq!(stored_order.quantity, 30);
}

#[test]
fn test_best_buy_and_sell_prices() {
    let mut order_book = OrderBook::new();
    order_book.add_buy_order(account_order(1, 100, 50, 2));
    order_book.add_sell_order(account_order(3, 110, 30, 4));
    assert_eq!(order_book.best_buy_price(), Some(100));
    assert_eq!(order_book.best_sell_price(), Some(110));
}

#[test]
fn empty_book_has_no_best_prices() {
    let order_book = OrderBook::new();
    assert_eq!(order_book.best_buy_price(), None);
    assert_eq!(order_book.best_sell_price(), None);
}

#[test]
fn test_maker_orders_iter() {
    let mut order_book = OrderBook::new();
    for order in [account_order(1, 100, 50, 2), account_order(3, 90, 20, 4)] {
        order_book.add_buy_order(order);
    }
    for order in [account_order(5, 110, 30, 6), account_order(7, 120, 40, 8)] {
        order_book.add_sell_order(order);
    }
    let buy_prices: Vec<u128> = order_book.maker_orders_iter(OrderSide::BUY).iter().map(|(_, o)| o.price).collect();
    assert_eq!(buy_prices, vec![100, 90]);
    let sell_prices: Vec<u128> = order_book.maker_orders_iter(OrderSide::SELL).iter().map(|(_, o)| o.price).collect();
    assert_eq!(sell_prices, vec![110, 120]);
}

#[test]
fn maker_iteration_is_price_then_time_ordered() {
    let mut order_book = OrderBook::new();
    order_book.add_sell_order(account_order(1, 55, 40, 2));
    order_book.add_sell_order(account_order(1, 50, 10, 2));
    order_book.add_sell_order(account_order(1, 55, 60, 2));
    order_book.add_buy_order(account_order(1, 40, 1, 2));
    order_book.add_buy_order(account_order(1, 45, 2, 2));
    order_book.add_buy_order(account_order(1, 40, 3, 2));
    let asks: Vec<(OrderBookId, u128)> =
        order_book.maker_orders_iter(OrderSide::SELL).iter().map(|(id, o)| (*id, o.quantity)).collect();
    assert_eq!(
        asks,
        vec![
            (OrderBookId::sell_id(50, 1), 10),
            (OrderBookId::sell_id(55, 1), 40),
            (OrderBookId::sell_id(55, 2), 60)
        ]
    );
    let bids: Vec<(OrderBookId, u128)> =
        order_book.maker_orders_iter(OrderSide::BUY).iter().map(|(id, o)| (*id, o.quantity)).collect();
    assert_eq!(
        bids,
        vec![
            (OrderBookId::buy_id(45, 1), 2),
            (OrderBookId::buy_id(40, 1), 1),
            (OrderBookId::buy_id(40, 2), 3)
        ]
    );
}
