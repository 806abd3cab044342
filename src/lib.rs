//! Core logic of a spot exchange: a price-time priority order book with
//! two-phase matching and balance settlement, and a custody ledger that
//! applies operator-approved withdrawals and trade batches.
pub mod custody;
pub mod exchange;
pub mod laws;
pub mod table;
