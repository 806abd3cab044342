//! The order book contract: price levels, matching and settlement.
pub mod contract;
pub mod error;
pub mod order;
pub mod order_executor;
pub mod node;
pub mod order_statistic_tree;
pub mod orderbook;
pub mod payoff_sides;
pub mod price_level_store;
pub mod price_store;
pub mod trading_ops;
pub mod user_balance_manager;
